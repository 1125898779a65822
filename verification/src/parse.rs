//! The log parser: it drives the classifier over every line of the file,
//! threads the current-month context forward, stamps each book entry with it,
//! and records a diagnostic — instead of aborting — for every malformed line.

use vstd::prelude::*;
use vstd::slice::*;
use crate::classify::{classify_chars, spec_classify};
use crate::model::{Book, BookV, Diagnostic, LineV, ParseError, ParsedLine, Timestamp};
use crate::text::{chars_of, lemma_split_len, split_char, split_chars};

verus! {

/// Drop one trailing carriage return, as reading a file with Windows line
/// endings leaves one on every line.
pub open spec fn strip_cr(s: Seq<char>) -> Seq<char> {
    if s.len() > 0 && s.last() == '\r' {
        s.drop_last()
    } else {
        s
    }
}

pub open spec fn strip_all_cr(parts: Seq<Seq<char>>) -> Seq<Seq<char>> {
    parts.map_values(|p: Seq<char>| strip_cr(p))
}

/// The lines of a text: split on every newline, with one trailing carriage
/// return removed per line, and no phantom empty line after a final newline.
pub open spec fn spec_lines(s: Seq<char>) -> Seq<Seq<char>> {
    if s.len() == 0 {
        Seq::<Seq<char>>::empty()
    } else if s.last() == '\n' {
        strip_all_cr(split_char(s, '\n')).drop_last()
    } else {
        strip_all_cr(split_char(s, '\n'))
    }
}

/// Split a text into its lines.
pub fn lines_of(v: &[char]) -> (r: Vec<Vec<char>>)
    ensures
        r.deep_view() == spec_lines(v@),
{
    let n = v.len();
    if n == 0 {
        let r: Vec<Vec<char>> = Vec::new();
        proof {
            assert(r.deep_view() =~= spec_lines(v@));
        }
        return r;
    }
    let parts = split_chars(v, '\n');
    let ghost stripped = strip_all_cr(split_char(v@, '\n'));
    let mut out: Vec<Vec<char>> = Vec::new();
    let m = parts.len();
    let mut k: usize = 0;
    while k < m
        invariant
            k <= m,
            m == parts@.len(),
            parts.deep_view() == split_char(v@, '\n'),
            stripped == strip_all_cr(split_char(v@, '\n')),
            out@.len() == k as int,
            out.deep_view() == stripped.subrange(0, k as int),
        decreases m - k,
    {
        let part = &parts[k];
        let pn = part.len();
        let keep: &[char] = if pn > 0 && part[pn - 1] == '\r' {
            slice_subrange(part.as_slice(), 0, pn - 1)
        } else {
            part.as_slice()
        };
        let ghost prev = out.deep_view();
        out.push(slice_to_vec(keep));
        k += 1;
        proof {
            let sp = split_char(v@, '\n');
            assert(parts.deep_view()[k - 1] == parts@[k - 1]@);
            assert(sp[k - 1] == parts@[k - 1]@);
            assert(parts@[k - 1]@.drop_last() =~= parts@[k - 1]@.subrange(
                0,
                parts@[k - 1]@.len() - 1,
            ));
            assert(keep@ == strip_cr(sp[k - 1]));
            assert(stripped[k - 1] == strip_cr(sp[k - 1]));
            assert(out@.len() == k as int);
            assert(out.deep_view().len() == out@.len());
            assert forall|j: int| 0 <= j < k implies out.deep_view()[j] == stripped[j] by {
                assert(out.deep_view()[j] == out@[j]@);
                if j < k - 1 {
                    assert(out@[j]@ == prev[j]);
                } else {
                    assert(out@[j]@ == keep@);
                }
            }
            assert(out.deep_view() =~= stripped.subrange(0, k as int));
        }
    }
    proof {
        assert(stripped.subrange(0, m as int) =~= stripped);
    }
    if v[n - 1] == '\n' {
        proof {
            lemma_split_len(v@, '\n');
            assert(out@.len() >= 1);
        }
        let ghost whole = out.deep_view();
        let _ = out.pop();
        proof {
            assert(out.deep_view().len() == out@.len());
            assert forall|j: int| 0 <= j < out@.len() implies out.deep_view()[j]
                == whole.drop_last()[j] by {
                assert(out.deep_view()[j] == out@[j]@);
            }
            assert(out.deep_view() =~= stripped.drop_last());
        }
    }
    out
}

/// A book record as it leaves the parser: the classifier's record, stamped
/// with the current month.
pub open spec fn stamped(b: BookV, t: Timestamp) -> BookV {
    BookV { timestamp: Some(t), ..b }
}

/// What the parser yields: the books in input order, and one diagnostic per
/// malformed line.
#[verifier::ext_equal]
pub struct ParseOut {
    pub books: Seq<BookV>,
    pub diags: Seq<(int, ParseError)>,
}

/// The parse loop: classify each line in order; a month header replaces the
/// current month, a blank is skipped, a book is stamped with the current
/// month and kept, and a failure becomes a diagnostic carrying the 1-based
/// line number — one malformed line never aborts the file.
pub open spec fn spec_parse(lines: Seq<Seq<char>>, cur: Timestamp, lineno: int) -> ParseOut
    decreases lines.len(),
{
    if lines.len() == 0 {
        ParseOut { books: Seq::<BookV>::empty(), diags: Seq::<(int, ParseError)>::empty() }
    } else {
        match spec_classify(lines[0]) {
            Ok(LineV::DateTime(t)) => spec_parse(lines.drop_first(), t, lineno + 1),
            Ok(LineV::Book(b)) => {
                let rest = spec_parse(lines.drop_first(), cur, lineno + 1);
                ParseOut { books: seq![stamped(b, cur)].add(rest.books), diags: rest.diags }
            },
            Ok(LineV::Blank) => spec_parse(lines.drop_first(), cur, lineno + 1),
            Err(e) => {
                let rest = spec_parse(lines.drop_first(), cur, lineno + 1);
                ParseOut { books: rest.books, diags: seq![(lineno, e)].add(rest.diags) }
            },
        }
    }
}

/// Every book the parse loop yields is well formed and carries a timestamp:
/// the most recent preceding header's month, or the starting month.
pub proof fn lemma_parse_books_stamped(lines: Seq<Seq<char>>, cur: Timestamp, lineno: int)
    requires
        cur.wf(),
    ensures
        forall|j: int|
            0 <= j < spec_parse(lines, cur, lineno).books.len() ==> (#[trigger] spec_parse(
                lines,
                cur,
                lineno,
            ).books[j]).wf() && spec_parse(lines, cur, lineno).books[j].timestamp is Some,
    decreases lines.len(),
{
    if lines.len() > 0 {
        match spec_classify(lines[0]) {
            Ok(LineV::DateTime(t)) => {
                lemma_parse_books_stamped(lines.drop_first(), t, lineno + 1);
            },
            Ok(LineV::Book(b)) => {
                lemma_parse_books_stamped(lines.drop_first(), cur, lineno + 1);
                lemma_classify_book_note(lines[0]);
            },
            Ok(LineV::Blank) => {
                lemma_parse_books_stamped(lines.drop_first(), cur, lineno + 1);
            },
            Err(e) => {
                lemma_parse_books_stamped(lines.drop_first(), cur, lineno + 1);
            },
        }
    }
}

/// A book record straight out of the classifier has a recognized note and no
/// timestamp yet.
pub proof fn lemma_classify_book_note(s: Seq<char>)
    ensures
        match spec_classify(s) {
            Ok(LineV::Book(b)) => 0 <= b.note <= 5 && b.timestamp is None,
            _ => true,
        },
{
}

/// Parse the lines of a log file, starting from the month `start` (the
/// processing instant, used only until the first header).
pub fn parse_lines(lines: &Vec<Vec<char>>, start: Timestamp) -> (r: (Vec<Book>, Vec<Diagnostic>))
    requires
        start.wf(),
    ensures
        r.0.deep_view() == spec_parse(lines.deep_view(), start, 1).books,
        r.1.deep_view() == spec_parse(lines.deep_view(), start, 1).diags,
{
    let ghost lv = lines.deep_view();
    let n = lines.len();
    let mut books: Vec<Book> = Vec::new();
    let mut diags: Vec<Diagnostic> = Vec::new();
    let mut cur = start;
    let mut i: usize = 0;
    proof {
        assert(lv.subrange(0, n as int) =~= lv);
    }
    while i < n
        invariant
            i <= n,
            n == lines@.len(),
            lv == lines.deep_view(),
            lv.len() == n as int,
            cur.wf(),
            spec_parse(lv, start, 1).books == books.deep_view().add(
                spec_parse(lv.subrange(i as int, n as int), cur, i as int + 1).books,
            ),
            spec_parse(lv, start, 1).diags == diags.deep_view().add(
                spec_parse(lv.subrange(i as int, n as int), cur, i as int + 1).diags,
            ),
            books@.len() == books.deep_view().len(),
            diags@.len() == diags.deep_view().len(),
        decreases n - i,
    {
        let ghost suffix = lv.subrange(i as int, n as int);
        proof {
            assert(lines.deep_view()[i as int] == lines@[i as int]@);
            assert(suffix[0] == lv[i as int]);
            assert(suffix.drop_first() =~= lv.subrange(i as int + 1, n as int));
        }
        let line = &lines[i];
        let res = classify_chars(line.as_slice());
        match res {
            Ok(ParsedLine::DateTime(t)) => {
                cur = t;
            },
            Ok(ParsedLine::Book(book)) => {
                let mut bk = book;
                bk.timestamp = Some(cur);
                let ghost prev = books.deep_view();
                proof {
                    assert(bk@ =~~= stamped(
                        match spec_classify(lv[i as int]) {
                            Ok(LineV::Book(b)) => b,
                            _ => bk@,
                        },
                        cur,
                    ));
                }
                books.push(bk);
                proof {
                    assert(books.deep_view().len() == books@.len());
                    assert forall|j: int| 0 <= j < books@.len() implies books.deep_view()[j] == (
                    if j < books@.len() - 1 {
                        prev[j]
                    } else {
                        bk@
                    }) by {
                        assert(books.deep_view()[j] == books@[j]@);
                        if j < books@.len() - 1 {
                            assert(books@[j]@ == prev[j]);
                        }
                    }
                    assert(books.deep_view() =~= prev.push(bk@));
                }
            },
            Ok(ParsedLine::Blank) => {
            },
            Err(e) => {
                let ghost prevd = diags.deep_view();
                diags.push(Diagnostic { line: i + 1, error: e });
                proof {
                    assert(diags.deep_view().len() == diags@.len());
                    assert forall|j: int| 0 <= j < diags@.len() implies diags.deep_view()[j] == (
                    if j < diags@.len() - 1 {
                        prevd[j]
                    } else {
                        (i as int + 1, e)
                    }) by {
                        assert(diags.deep_view()[j] == diags@[j]@);
                        if j < diags@.len() - 1 {
                            assert(diags@[j]@ == prevd[j]);
                        }
                    }
                    assert(diags.deep_view() =~= prevd.push((i as int + 1, e)));
                }
            },
        }
        i += 1;
        proof {
            assert(spec_parse(lv, start, 1).books =~= books.deep_view().add(
                spec_parse(lv.subrange(i as int, n as int), cur, i as int + 1).books,
            ));
            assert(spec_parse(lv, start, 1).diags =~= diags.deep_view().add(
                spec_parse(lv.subrange(i as int, n as int), cur, i as int + 1).diags,
            ));
        }
    }
    proof {
        assert(lv.subrange(n as int, n as int) =~= Seq::<Seq<char>>::empty());
        assert(books.deep_view() =~= spec_parse(lv, start, 1).books);
        assert(diags.deep_view() =~= spec_parse(lv, start, 1).diags);
    }
    (books, diags)
}

/// Parse a whole log file: split it into lines and run the parse loop. Every
/// book comes back stamped and in input order; every malformed line yields
/// one diagnostic with its 1-based line number.
pub fn parse_books(text: &str, start: Timestamp) -> (r: (Vec<Book>, Vec<Diagnostic>))
    requires
        start.wf(),
    ensures
        r.0.deep_view() == spec_parse(spec_lines(text@), start, 1).books,
        r.1.deep_view() == spec_parse(spec_lines(text@), start, 1).diags,
        forall|j: int|
            0 <= j < r.0.deep_view().len() ==> (#[trigger] r.0.deep_view()[j]).wf()
                && r.0.deep_view()[j].timestamp is Some,
{
    let v = chars_of(text);
    let lines = lines_of(v.as_slice());
    let r = parse_lines(&lines, start);
    proof {
        lemma_parse_books_stamped(spec_lines(text@), start, 1);
    }
    r
}

} // verus!
