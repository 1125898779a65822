//! The record formatter: the exact inverse of the classifier on canonical
//! records. A book renders as `"<authors joined by ' & '> : <title>"` with an
//! optional `" (<annotation>)"` suffix; a month header renders as the
//! capitalized French month name followed by the year; a blank renders empty.

use vstd::prelude::*;
use crate::classify::{note_token, note_token_chars};
use crate::model::{Book, BookV, LineV, ParsedLine, Timestamp};
use crate::months::{month_display, month_display_chars};
use crate::text::{chars_of, join_with, lemma_join_push, string_of};
use crate::years::{year_chars, year_chars_spec};

verus! {

/// The canonical text form of a book record; the rating is rendered only
/// when it is present.
pub open spec fn spec_format_book(b: BookV) -> Seq<char> {
    join_with(b.authors, seq![' ', '&', ' ']).add(seq![' ', ':', ' ']).add(b.title).add(
        if b.note != 0 {
            seq![' ', '('].add(note_token(b.note)).add(seq![')'])
        } else {
            Seq::<char>::empty()
        },
    )
}

/// The canonical text form of a month header.
pub open spec fn spec_format_header(t: Timestamp) -> Seq<char> {
    month_display(t.month as int).add(seq![' ']).add(year_chars_spec(t.year as int))
}

/// The canonical text form of a classified line.
pub open spec fn spec_format_line(p: LineV) -> Seq<char> {
    match p {
        LineV::DateTime(t) => spec_format_header(t),
        LineV::Book(b) => spec_format_book(b),
        LineV::Blank => Seq::<char>::empty(),
    }
}

fn push_all(out: &mut Vec<char>, s: &[char])
    ensures
        final(out)@ == old(out)@.add(s@),
{
    let n = s.len();
    let mut i: usize = 0;
    while i < n
        invariant
            i <= n,
            n == s@.len(),
            out@ == old(out)@.add(s@.subrange(0, i as int)),
        decreases n - i,
    {
        out.push(s[i]);
        i += 1;
        proof {
            assert(out@ =~= old(out)@.add(s@.subrange(0, i as int)));
        }
    }
    proof {
        assert(old(out)@.add(s@.subrange(0, n as int)) =~= old(out)@.add(s@));
    }
}

/// Render a book record, as a character vector.
pub fn format_book_chars(b: &Book) -> (v: Vec<char>)
    requires
        b.wf(),
    ensures
        v@ == spec_format_book(b@),
{
    let ghost sep = seq![' ', '&', ' '];
    let mut out: Vec<char> = Vec::new();
    let na = b.authors.len();
    let mut i: usize = 0;
    proof {
        assert(b.authors.deep_view().subrange(0, 0) =~= Seq::<Seq<char>>::empty());
    }
    while i < na
        invariant
            i <= na,
            na == b.authors@.len(),
            sep == seq![' ', '&', ' '],
            out@ == join_with(b.authors.deep_view().subrange(0, i as int), sep),
        decreases na - i,
    {
        if i > 0 {
            let amp: [char; 3] = [' ', '&', ' '];
            push_all(&mut out, &amp);
            proof {
                assert(amp@ =~= sep);
            }
        }
        let ac = chars_of(b.authors[i].as_str());
        push_all(&mut out, ac.as_slice());
        i += 1;
        proof {
            let dv = b.authors.deep_view();
            assert(dv[i - 1] == b.authors@[i - 1]@);
            assert(dv.subrange(0, i as int) =~= dv.subrange(0, i - 1).push(dv[i - 1]));
            lemma_join_push(dv.subrange(0, i - 1), sep, dv[i - 1]);
        }
    }
    proof {
        assert(b.authors.deep_view().subrange(0, na as int) =~= b.authors.deep_view());
    }
    let colon: [char; 3] = [' ', ':', ' '];
    push_all(&mut out, &colon);
    proof {
        assert(colon@ =~= seq![' ', ':', ' ']);
    }
    let tc = chars_of(b.title.as_str());
    push_all(&mut out, tc.as_slice());
    if b.note != 0 {
        let open_mark: [char; 2] = [' ', '('];
        push_all(&mut out, &open_mark);
        let tok = note_token_chars(b.note);
        push_all(&mut out, tok.as_slice());
        let close_mark: [char; 1] = [')'];
        push_all(&mut out, &close_mark);
        proof {
            assert(open_mark@ =~= seq![' ', '(']);
            assert(close_mark@ =~= seq![')']);
            assert(out@ =~= spec_format_book(b@));
        }
    } else {
        proof {
            assert(out@ =~= spec_format_book(b@));
        }
    }
    out
}

/// Render a month header, as a character vector.
pub fn format_header_chars(t: &Timestamp) -> (v: Vec<char>)
    requires
        t.wf(),
    ensures
        v@ == spec_format_header(*t),
{
    let mut out = month_display_chars(t.month);
    let blank: [char; 1] = [' '];
    push_all(&mut out, &blank);
    let yc = year_chars(t.year);
    push_all(&mut out, yc.as_slice());
    proof {
        assert(blank@ =~= seq![' ']);
        assert(out@ =~= spec_format_header(*t));
    }
    out
}

/// Render a book record in its canonical text form.
pub fn format_book(b: &Book) -> (r: String)
    requires
        b.wf(),
    ensures
        r@ == spec_format_book(b@),
{
    let v = format_book_chars(b);
    string_of(v.as_slice())
}

/// Render a month header in its canonical text form.
pub fn format_header(t: &Timestamp) -> (r: String)
    requires
        t.wf(),
    ensures
        r@ == spec_format_header(*t),
{
    let v = format_header_chars(t);
    string_of(v.as_slice())
}

/// Render a classified line in its canonical text form: the exact inverse of
/// the classifier on canonical records.
pub fn format_line(p: &ParsedLine) -> (r: String)
    requires
        p.wf(),
    ensures
        r@ == spec_format_line(p@),
{
    match p {
        ParsedLine::DateTime(t) => format_header(t),
        ParsedLine::Book(b) => format_book(b),
        ParsedLine::Blank => String::new(),
    }
}

} // verus!
