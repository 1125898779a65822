//! The data model of the reading log: timestamps, book records, the tagged
//! result of classifying one line, parse errors and per-line diagnostics.

use vstd::prelude::*;

verus! {

/// A month marker: the first instant of `month` in `year`.
#[derive(Clone, Copy, Debug, PartialEq, Eq, Structural)]
pub struct Timestamp {
    pub year: i32,
    pub month: u8,
}

impl Timestamp {
    /// A timestamp is well formed when its month is a calendar month; the day
    /// and the time of day are fixed to the first instant of that month, so
    /// no further check can fail.
    pub open spec fn wf(self) -> bool {
        1 <= self.month <= 12
    }

    /// Build a timestamp from a year and a calendar month.
    pub fn new(year: i32, month: u8) -> (r: Timestamp)
        requires
            1 <= month <= 12,
        ensures
            r.wf(),
            r.year == year,
            r.month == month,
    {
        Timestamp { year, month }
    }
}

/// One reading-log entry.
#[derive(Clone, Debug)]
pub struct Book {
    /// Display-ordered author names, trimmed; duplicates permitted.
    pub authors: Vec<String>,
    /// Trimmed title.
    pub title: String,
    /// Empty until an enrichment lookup succeeds.
    pub isbn13: String,
    /// Rating: 0 is "absent"; 1 to 3 count plus signs; 4 and 5 stand for the
    /// two symbolic heart ratings.
    pub note: u8,
    /// The month this entry was logged under; set by the parser.
    pub timestamp: Option<Timestamp>,
}

/// The mathematical value of a [`Book`].
#[verifier::ext_equal]
pub struct BookV {
    pub authors: Seq<Seq<char>>,
    pub title: Seq<char>,
    pub isbn13: Seq<char>,
    pub note: int,
    pub timestamp: Option<Timestamp>,
}

impl BookV {
    /// The note is one of the six recognized values and the timestamp, once
    /// set, names a calendar month.
    pub open spec fn wf(self) -> bool {
        0 <= self.note <= 5 && match self.timestamp {
            Some(t) => t.wf(),
            None => true,
        }
    }
}

impl View for Book {
    type V = BookV;

    open spec fn view(&self) -> BookV {
        BookV {
            authors: self.authors.deep_view(),
            title: self.title@,
            isbn13: self.isbn13@,
            note: self.note as int,
            timestamp: self.timestamp,
        }
    }
}

impl Book {
    /// The note is one of the six recognized values and the timestamp, once
    /// set, names a calendar month.
    pub open spec fn wf(self) -> bool {
        self.note <= 5 && match self.timestamp {
            Some(t) => t.wf(),
            None => true,
        }
    }
}

/// The tagged result of classifying one line of the log file.
#[derive(Clone, Debug)]
pub enum ParsedLine {
    /// A month header; it resets the current-month context.
    DateTime(Timestamp),
    /// A book entry; its timestamp is unset until the parser stamps it.
    Book(Book),
    /// A line of blank space only; ignored.
    Blank,
}

/// The mathematical value of a [`ParsedLine`].
#[verifier::ext_equal]
pub enum LineV {
    DateTime(Timestamp),
    Book(BookV),
    Blank,
}

impl ParsedLine {
    /// Whatever the variant, its contents are well formed.
    pub open spec fn wf(self) -> bool {
        match self {
            ParsedLine::DateTime(t) => t.wf(),
            ParsedLine::Book(b) => b.wf(),
            ParsedLine::Blank => true,
        }
    }
}

impl View for ParsedLine {
    type V = LineV;

    open spec fn view(&self) -> LineV {
        match self {
            ParsedLine::DateTime(t) => LineV::DateTime(*t),
            ParsedLine::Book(b) => LineV::Book(b@),
            ParsedLine::Blank => LineV::Blank,
        }
    }
}

/// Why a line matched no recognized shape. Month headers whose month name or
/// year is unrecognized fall back to defaults instead of erring, and a month
/// number between 1 and 12 with day 1 always forms a valid date, so these are
/// the only failures classification can produce.
#[derive(Clone, Copy, Debug, PartialEq, Eq, Structural)]
pub enum ParseError {
    /// The line ends with `)` but holds no `(` to open the annotation.
    UnmatchedAnnotation,
    /// Once the annotation is stripped, no `" : "` separator is left.
    MissingSeparator,
    /// A month-header line with no space: no year token.
    MissingYear,
}

impl ParseError {
    /// A short description of the failure.
    pub fn describe(&self) -> (r: &'static str)
        ensures
            r@ == self.spec_describe(),
    {
        match self {
            ParseError::UnmatchedAnnotation => "annotation ends with ')' but never opens",
            ParseError::MissingSeparator => "no ' : ' between authors and title",
            ParseError::MissingYear => "month header has no year token",
        }
    }

    pub open spec fn spec_describe(&self) -> Seq<char> {
        match self {
            ParseError::UnmatchedAnnotation => "annotation ends with ')' but never opens"@,
            ParseError::MissingSeparator => "no ' : ' between authors and title"@,
            ParseError::MissingYear => "month header has no year token"@,
        }
    }
}

/// A non-fatal per-line failure, reported beside the parsed records.
#[derive(Clone, Copy, Debug, PartialEq, Eq, Structural)]
pub struct Diagnostic {
    /// 1-based line number of the offending line.
    pub line: usize,
    pub error: ParseError,
}

impl View for Diagnostic {
    type V = (int, ParseError);

    open spec fn view(&self) -> (int, ParseError) {
        (self.line as int, self.error)
    }
}

impl DeepView for Diagnostic {
    type V = (int, ParseError);

    open spec fn deep_view(&self) -> (int, ParseError) {
        self.view()
    }
}

impl DeepView for Book {
    type V = BookV;

    open spec fn deep_view(&self) -> BookV {
        self.view()
    }
}

} // verus!
