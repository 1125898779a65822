//! The line classifier: one raw line of the log file becomes a blank marker,
//! a month header or a book entry, or fails with a [`ParseError`].

use vstd::prelude::*;
use vstd::slice::*;
use crate::model::{Book, BookV, LineV, ParseError, ParsedLine, Timestamp};
use crate::months::{month_of, month_of_exec};
use crate::text::{
    all_ws, all_ws_exec, chars_eq, chars_of, find_char_from, find_sep, find_sep_exec, first_index,
    is_ws, last_index, normalize, normalize_chars, rfind_char, split_char, split_chars, string_of,
    trim, trim_all, trim_chars,
};
use crate::years::parse_year;
use crate::years::parse_year_exec;

verus! {

/// The text form of rating `n`: one to three plus signs, or one of the two
/// symbolic heart tokens (a rating of 0 has no text form).
pub open spec fn note_token(n: int) -> Seq<char> {
    if n == 1 { seq!['+'] }
    else if n == 2 { seq!['+', '+'] }
    else if n == 3 { seq!['+', '+', '+'] }
    else if n == 4 { seq!['\u{1f499}'] }
    else if n == 5 { seq!['\u{2764}', '\u{fe0f}'] }
    else { Seq::<char>::empty() }
}

/// Decode an annotation: unrecognized text decodes to 0 rather than failing.
pub open spec fn note_of(t: Seq<char>) -> int {
    if t == note_token(1) { 1 }
    else if t == note_token(2) { 2 }
    else if t == note_token(3) { 3 }
    else if t == note_token(4) { 4 }
    else if t == note_token(5) { 5 }
    else { 0 }
}

/// The facts about the note tokens that the book round-trip law needs:
/// decoding inverts encoding, and no token holds blank space, a separator
/// character or a parenthesis.
pub proof fn lemma_note_tokens(n: int)
    requires
        1 <= n <= 5,
    ensures
        note_of(note_token(n)) == n,
        note_token(n).len() > 0,
        forall|i: int|
            0 <= i < note_token(n).len() ==> !is_ws(#[trigger] note_token(n)[i]) && note_token(n)[i]
                != ':' && note_token(n)[i] != '&' && note_token(n)[i] != '(' && note_token(n)[i]
                != ')',
{
    assert(note_token(1)[0] == '+' && note_token(1).len() == 1);
    assert(note_token(2)[0] == '+' && note_token(2).len() == 2);
    assert(note_token(3)[0] == '+' && note_token(3).len() == 3);
    assert(note_token(4)[0] == '\u{1f499}' && note_token(4).len() == 1);
    assert(note_token(5)[0] == '\u{2764}' && note_token(5).len() == 2);
    assert(forall|i: int|
        0 <= i < note_token(n).len() ==> !is_ws(#[trigger] note_token(n)[i]) && note_token(n)[i]
            != ':' && note_token(n)[i] != '&' && note_token(n)[i] != '(' && note_token(n)[i]
            != ')');
}

/// The text form of rating `n`, as a character vector.
pub fn note_token_chars(n: u8) -> (v: Vec<char>)
    requires
        1 <= n <= 5,
    ensures
        v@ == note_token(n as int),
{
    let v: Vec<char> = if n == 1 { vec!['+'] }
    else if n == 2 { vec!['+', '+'] }
    else if n == 3 { vec!['+', '+', '+'] }
    else if n == 4 { vec!['\u{1f499}'] }
    else { vec!['\u{2764}', '\u{fe0f}'] };
    proof {
        assert(v@ =~= note_token(n as int));
    }
    v
}

/// Decode an annotation leniently.
pub fn note_of_exec(t: &[char]) -> (n: u8)
    ensures
        n as int == note_of(t@),
        n <= 5,
{
    let mut n: u8 = 1;
    while n <= 5
        invariant
            1 <= n <= 6,
            forall|k: int| 1 <= k < n ==> t@ != note_token(k),
        decreases 6 - n,
    {
        let tok = note_token_chars(n);
        if chars_eq(t, tok.as_slice()) {
            return n;
        }
        n += 1;
    }
    0
}

/// Split the optional trailing `"(<annotation>)"` off a book line: the text
/// between the last `(` and the final `)` decodes as the rating, and what
/// precedes the `(` remains. A line that does not end with `)` carries no
/// annotation. A line that ends with `)` but holds no `(` fails.
pub open spec fn strip_annotation(s: Seq<char>) -> Result<(Seq<char>, int), ParseError> {
    if s.len() > 0 && s.last() == ')' {
        match last_index(s, '(') {
            Some(p) => Ok((s.subrange(0, p), note_of(s.subrange(p + 1, s.len() - 1)))),
            None => Err(ParseError::UnmatchedAnnotation),
        }
    } else {
        Ok((s, 0))
    }
}

/// Classify a line already known to hold `" : "`: strip the annotation, split
/// authors from title at the first separator, split authors on `&` and trim
/// every token.
pub open spec fn classify_book(s: Seq<char>) -> Result<LineV, ParseError> {
    match strip_annotation(s) {
        Err(e) => Err(e),
        Ok((body, note)) => match find_sep(body) {
            None => Err(ParseError::MissingSeparator),
            Some(i) => Ok(LineV::Book(BookV {
                authors: trim_all(split_char(body.subrange(0, i), '&')),
                title: trim(body.subrange(i + 3, body.len() as int)),
                isbn13: Seq::<char>::empty(),
                note: note,
                timestamp: None,
            })),
        },
    }
}

/// Classify a month-header line: the token before the first space is the
/// month name (normalized, then looked up, defaulting to January), the rest
/// is the year (defaulting when unparseable). A line with no space fails.
pub open spec fn classify_header(s: Seq<char>) -> Result<LineV, ParseError> {
    match first_index(s, ' ') {
        None => Err(ParseError::MissingYear),
        Some(i) => Ok(LineV::DateTime(Timestamp {
            year: parse_year(s.subrange(i + 1, s.len() as int)),
            month: month_of(normalize(s.subrange(0, i))),
        })),
    }
}

/// The classifier's decision procedure, in order: a line of blank space is
/// `Blank`; a line holding the separator `" : "` is a book line; anything
/// else is a month header.
pub open spec fn spec_classify(s: Seq<char>) -> Result<LineV, ParseError> {
    if all_ws(s) {
        Ok(LineV::Blank)
    } else if find_sep(s) is Some {
        classify_book(s)
    } else {
        classify_header(s)
    }
}

/// The mathematical value of a classification result.
pub open spec fn classify_result_view(r: Result<ParsedLine, ParseError>) -> Result<
    LineV,
    ParseError,
> {
    match r {
        Ok(p) => Ok(p@),
        Err(e) => Err(e),
    }
}

fn classify_book_chars(v: &[char]) -> (r: Result<ParsedLine, ParseError>)
    ensures
        classify_result_view(r) == classify_book(v@),
        r matches Ok(p) ==> p matches ParsedLine::Book(b) && b@.note <= 5 && b.timestamp
            is None,
{
    let n = v.len();
    let body: &[char];
    let note: u8;
    if n > 0 && v[n - 1] == ')' {
        match rfind_char(v, '(') {
            Some(p) => {
                proof {
                    assert(v@[p as int] == '(');
                    assert(v@[n - 1] == ')');
                    assert(p as int != n - 1);
                }
                note = note_of_exec(slice_subrange(v, p + 1, n - 1));
                body = slice_subrange(v, 0, p);
            },
            None => {
                return Err(ParseError::UnmatchedAnnotation);
            },
        }
    } else {
        body = v;
        note = 0;
        proof {
            assert(strip_annotation(v@) == Ok::<_, ParseError>((v@, 0int)));
        }
    }
    proof {
        assert(strip_annotation(v@) == Ok::<_, ParseError>((body@, note as int)));
    }
    match find_sep_exec(body) {
        None => Err(ParseError::MissingSeparator),
        Some(i) => {
            let m = body.len();
            let left = slice_subrange(body, 0, i);
            let right = slice_subrange(body, i + 3, m);
            let toks = split_chars(left, '&');
            let ghost spec_authors = trim_all(split_char(body@.subrange(0, i as int), '&'));
            let mut authors: Vec<String> = Vec::new();
            let k_max = toks.len();
            let mut k: usize = 0;
            while k < k_max
                invariant
                    k <= k_max,
                    k_max == toks@.len(),
                    toks.deep_view() == split_char(left@, '&'),
                    left@ == body@.subrange(0, i as int),
                    spec_authors == trim_all(split_char(body@.subrange(0, i as int), '&')),
                    authors@.len() == k as int,
                    authors.deep_view() == spec_authors.subrange(0, k as int),
                decreases k_max - k,
            {
                let trimmed_tok = trim_chars(toks[k].as_slice());
                let ghost prev = authors.deep_view();
                authors.push(string_of(trimmed_tok.as_slice()));
                k += 1;
                proof {
                    assert(toks.deep_view()[k - 1] == toks@[k - 1]@);
                    assert(trimmed_tok@ == trim(split_char(left@, '&')[k - 1]));
                    assert(spec_authors[k - 1] == trim(split_char(left@, '&')[k - 1]));
                    assert(authors@.len() == k as int);
                    assert(authors.deep_view().len() == authors@.len());
                    assert forall|j: int| 0 <= j < k implies authors.deep_view()[j]
                        == spec_authors[j] by {
                        assert(authors.deep_view()[j] == authors@[j]@);
                        if j < k - 1 {
                            assert(authors@[j]@ == prev[j]);
                            assert(prev[j] == spec_authors[j]);
                        } else {
                            assert(authors@[j]@ == trimmed_tok@);
                        }
                    }
                    assert(authors.deep_view() =~= spec_authors.subrange(0, k as int));
                }
            }
            proof {
                assert(spec_authors.subrange(0, k_max as int) =~= spec_authors);
            }
            let title = trim_chars(right);
            let book = Book {
                authors,
                title: string_of(title.as_slice()),
                isbn13: String::new(),
                note,
                timestamp: None,
            };
            proof {
                assert(book@ =~~= match classify_book(v@) {
                    Ok(LineV::Book(b)) => b,
                    _ => book@,
                });
            }
            Ok(ParsedLine::Book(book))
        },
    }
}

fn classify_header_chars(v: &[char]) -> (r: Result<ParsedLine, ParseError>)
    ensures
        classify_result_view(r) == classify_header(v@),
        r matches Ok(p) ==> p matches ParsedLine::DateTime(t) && t.wf(),
{
    let n = v.len();
    match find_char_from(v, ' ', 0) {
        None => Err(ParseError::MissingYear),
        Some(i) => {
            let name = slice_subrange(v, 0, i);
            let year_tok = slice_subrange(v, i + 1, n);
            let folded = normalize_chars(name);
            let month = month_of_exec(folded.as_slice());
            let year = parse_year_exec(year_tok);
            Ok(ParsedLine::DateTime(Timestamp { year, month }))
        },
    }
}

/// Classify one line of characters.
pub fn classify_chars(v: &[char]) -> (r: Result<ParsedLine, ParseError>)
    ensures
        classify_result_view(r) == spec_classify(v@),
        r matches Ok(p) ==> p.wf(),
{
    if all_ws_exec(v) {
        return Ok(ParsedLine::Blank);
    }
    match find_sep_exec(v) {
        Some(_) => classify_book_chars(v),
        None => classify_header_chars(v),
    }
}

/// Classify one raw line of the log file, per the decision procedure of
/// [`spec_classify`].
pub fn classify(line: &str) -> (r: Result<ParsedLine, ParseError>)
    ensures
        classify_result_view(r) == spec_classify(line@),
        r matches Ok(p) ==> p.wf(),
{
    let v = chars_of(line);
    classify_chars(v.as_slice())
}

} // verus!
