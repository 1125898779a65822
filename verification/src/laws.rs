//! The round-trip laws: formatting a canonical record and classifying the
//! result reproduces the record. These are the inverse properties that tie
//! the classifier and the formatter together.

use vstd::prelude::*;
use crate::classify::{
    classify_book, lemma_note_tokens, note_of, note_token, spec_classify, strip_annotation,
};
use crate::model::{BookV, LineV, ParseError, Timestamp};
use crate::months::{lemma_month_tables, month_display, month_of, month_slug};
use crate::render::{spec_format_book, spec_format_header};
use crate::text::{
    all_ws, is_ws, join_with, lemma_find_sep_at, lemma_first_index_at, lemma_last_index_at,
    lemma_split_step, lemma_split_whole, lemma_trim_of_trimmed, lemma_trim_pad, sep_at,
    split_char, trim, trim_all, trimmed,
};
use crate::years::{is_digit, lemma_digit_plain, lemma_digits_of_val, lemma_year_round_trip,
    year_chars_spec, digits_of};

verus! {

/// An author name in canonical form: non-empty, trimmed, and free of the two
/// characters the book grammar claims for itself (`:` and `&`).
pub open spec fn canonical_author(a: Seq<char>) -> bool {
    a.len() > 0 && trimmed(a) && forall|i: int| 0 <= i < a.len() ==> a[i] != ':' && a[i] != '&'
}

/// A book record in canonical text form: at least one canonical author, a
/// non-empty trimmed title, a recognized note, and — when no annotation will
/// be rendered — a title that does not end with `)` (such a title would be
/// re-read as an annotation).
pub open spec fn canonical_book(b: BookV) -> bool {
    b.authors.len() >= 1 && (forall|k: int|
        0 <= k < b.authors.len() ==> canonical_author(#[trigger] b.authors[k])) && b.title.len()
        > 0 && trimmed(b.title) && 0 <= b.note <= 5 && (b.note == 0 ==> b.title.last() != ')')
}

/// The separator written between two author names.
pub open spec fn author_sep() -> Seq<char> {
    seq![' ', '&', ' ']
}

/// No character of the joined author list is a colon.
proof fn lemma_join_no_colon(authors: Seq<Seq<char>>)
    requires
        forall|k: int| 0 <= k < authors.len() ==> canonical_author(#[trigger] authors[k]),
    ensures
        forall|i: int|
            0 <= i < join_with(authors, author_sep()).len() ==> #[trigger] join_with(
                authors,
                author_sep(),
            )[i] != ':',
    decreases authors.len(),
{
    let sep = author_sep();
    let j = join_with(authors, sep);
    if authors.len() <= 1 {
    } else {
        lemma_join_no_colon(authors.drop_first());
        let rest = join_with(authors.drop_first(), sep);
        assert forall|i: int| 0 <= i < j.len() implies j[i] != ':' by {
            let a0 = authors[0];
            if i < a0.len() {
                assert(j[i] == a0[i]);
            } else if i < a0.len() + 3 {
                assert(j[i] == sep[i - a0.len()]);
            } else {
                assert(j[i] == rest[i - a0.len() - 3]);
            }
        }
    }
}

/// Splitting one blank, the joined tail, on `&` and trimming each part
/// recovers the tail.
proof fn lemma_split_join_tail(authors: Seq<Seq<char>>)
    requires
        authors.len() >= 1,
        forall|k: int| 0 <= k < authors.len() ==> canonical_author(#[trigger] authors[k]),
    ensures
        trim_all(split_char(seq![' '].add(join_with(authors, seq![' ', '&', ' '])), '&'))
            == authors,
    decreases authors.len(),
{
    let sep = seq![' ', '&', ' '];
    let s = seq![' '].add(join_with(authors, sep));
    if authors.len() == 1 {
        let a0 = authors[0];
        assert(s =~= seq![' '].add(a0));
        assert(forall|i: int| 0 <= i < s.len() ==> s[i] != '&');
        lemma_split_whole(s, '&');
        lemma_trim_pad(a0);
        assert(trim_all(seq![s]) =~= seq![trim(s)]);
        assert(trim(s) == a0);
        assert(trim_all(split_char(s, '&')) =~= authors);
    } else {
        let a0 = authors[0];
        let rest = authors.drop_first();
        let head = seq![' '].add(a0).add(seq![' ']);
        let tail = seq![' '].add(join_with(rest, sep));
        assert(s =~= head.add(seq!['&']).add(tail));
        assert(forall|i: int| 0 <= i < head.len() ==> head[i] != '&');
        lemma_split_step(head, tail, '&');
        assert(split_char(head.add(seq!['&']).add(tail), '&') == seq![head].add(
            split_char(tail, '&'),
        ));
        lemma_split_join_tail(rest);
        lemma_trim_pad(a0);
        assert(trim(head) == a0);
        assert(trim_all(seq![head].add(split_char(tail, '&'))) =~= seq![a0].add(
            trim_all(split_char(tail, '&')),
        ));
        assert(trim_all(split_char(s, '&')) =~= authors);
    }
}

/// Splitting the joined author list on `&` and trimming each part recovers
/// the author list.
proof fn lemma_split_join(authors: Seq<Seq<char>>)
    requires
        authors.len() >= 1,
        forall|k: int| 0 <= k < authors.len() ==> canonical_author(#[trigger] authors[k]),
    ensures
        trim_all(split_char(join_with(authors, seq![' ', '&', ' ']), '&')) == authors,
    decreases authors.len(),
{
    let sep = seq![' ', '&', ' '];
    let j = join_with(authors, sep);
    if authors.len() == 1 {
        let a0 = authors[0];
        assert(j == a0);
        assert(forall|i: int| 0 <= i < j.len() ==> j[i] != '&');
        lemma_split_whole(j, '&');
        lemma_trim_of_trimmed(a0);
        assert(trim_all(seq![j]) =~= seq![trim(j)]);
        assert(trim_all(split_char(j, '&')) =~= authors);
    } else {
        let a0 = authors[0];
        let rest = authors.drop_first();
        let head = a0.add(seq![' ']);
        let tail = seq![' '].add(join_with(rest, sep));
        assert(j =~= head.add(seq!['&']).add(tail));
        assert(forall|i: int| 0 <= i < head.len() ==> head[i] != '&');
        lemma_split_step(head, tail, '&');
        assert(split_char(head.add(seq!['&']).add(tail), '&') == seq![head].add(
            split_char(tail, '&'),
        ));
        lemma_split_join_tail(rest);
        lemma_trim_pad(a0);
        assert(trim(head) == a0);
        assert(trim_all(seq![head].add(split_char(tail, '&'))) =~= seq![a0].add(
            trim_all(split_char(tail, '&')),
        ));
        assert(trim_all(split_char(j, '&')) =~= authors);
    }
}

/// Classifying a formatted month header reproduces it: for every calendar
/// month and every year, `classify` of `format` of the header yields the
/// same timestamp.
pub proof fn lemma_header_round_trip(t: Timestamp)
    requires
        t.wf(),
    ensures
        spec_classify(spec_format_header(t)) == Ok::<LineV, ParseError>(LineV::DateTime(t)),
{
    let m = t.month as int;
    let d = month_display(m);
    let y = year_chars_spec(t.year as int);
    let s = spec_format_header(t);
    lemma_month_tables(m);
    assert(forall|i: int| 0 <= i < y.len() ==> !is_ws(#[trigger] y[i]) && y[i] != ':' && y[i]
        != ' ') by {
        if t.year >= 0 {
            lemma_digits_of_val(t.year as int);
            assert forall|i: int| 0 <= i < y.len() implies !is_ws(#[trigger] y[i]) && y[i] != ':'
                && y[i] != ' ' by {
                assert(is_digit(y[i]));
                lemma_digit_plain(y[i]);
            }
        } else {
            let dg = digits_of(-(t.year as int));
            lemma_digits_of_val(-(t.year as int));
            assert forall|i: int| 0 <= i < y.len() implies !is_ws(#[trigger] y[i]) && y[i] != ':'
                && y[i] != ' ' by {
                if i == 0 {
                    assert(y[0] == '-');
                } else {
                    assert(y[i] == dg[i - 1]);
                    assert(is_digit(y[i]));
                    lemma_digit_plain(y[i]);
                }
            }
        }
    }
    // The header is not blank: its first character is visible.
    assert(s[0] == d[0]);
    assert(!is_ws(s[0]));
    assert(!all_ws(s));
    // The header holds no colon, hence no " : " separator.
    assert forall|i: int| 0 <= i < s.len() implies s[i] != ':' by {
        if i < d.len() {
            assert(s[i] == d[i]);
        } else if i == d.len() {
            assert(s[i] == ' ');
        } else {
            assert(s[i] == y[i - d.len() - 1]);
        }
    }
    assert forall|j: int| 0 <= j implies !sep_at(s, j) by {
        if sep_at(s, j) {
            assert(s[j + 1] == ':');
        }
    }
    crate::text::lemma_find_sep_none(s, 0);
    // The first space splits the month name from the year token.
    let k = d.len() as int;
    assert(s[k] == ' ');
    assert forall|j: int| 0 <= j < k implies s[j] != ' ' by {
        assert(s[j] == d[j]);
        assert(!is_ws(d[j]));
    }
    lemma_first_index_at(s, ' ', 0, k);
    assert(s.subrange(0, k) =~= d);
    assert(s.subrange(k + 1, s.len() as int) =~= y);
    lemma_year_round_trip(t.year);
    assert(month_of(crate::text::normalize(d)) == month_of(month_slug(m)));
}

/// Classifying a formatted book line reproduces it: for every canonical book
/// record as the classifier emits it (no ISBN yet, no timestamp yet),
/// `classify` of `format` yields an equal record.
pub proof fn lemma_book_round_trip(b: BookV)
    requires
        canonical_book(b),
        b.isbn13 == Seq::<char>::empty(),
        b.timestamp is None,
    ensures
        spec_classify(spec_format_book(b)) == Ok::<LineV, ParseError>(LineV::Book(b)),
{
    let sep = author_sep();
    let j = join_with(b.authors, sep);
    let jl = j.len() as int;
    let colon = seq![' ', ':', ' '];
    let base = j.add(colon).add(b.title);
    let s = spec_format_book(b);
    lemma_join_no_colon(b.authors);
    lemma_split_join(b.authors);
    if b.note == 0 {
        assert(s =~= base);
        // Not blank: the colon of the separator is visible.
        assert(s[jl + 1] == ':');
        assert(!is_ws(s[jl + 1]));
        assert(!all_ws(s));
        // The first separator stands right after the joined authors.
        assert(sep_at(s, jl));
        assert forall|q: int| 0 <= q < jl implies !sep_at(s, q) by {
            if sep_at(s, q) {
                if q + 1 < jl {
                    assert(s[q + 1] == j[q + 1]);
                    assert(join_with(b.authors, author_sep())[q + 1] != ':');
                } else {
                    assert(s[q + 1] == colon[q + 1 - jl]);
                }
            }
        }
        lemma_find_sep_at(s, 0, jl);
        // No annotation: the line does not end with `)`.
        assert(s.last() == b.title.last());
        assert(strip_annotation(s) == Ok::<_, ParseError>((s, 0int)));
        assert(s.subrange(0, jl) =~= j);
        assert(s.subrange(jl + 3, s.len() as int) =~= b.title);
        lemma_trim_of_trimmed(b.title);
        assert(classify_book(s) == Ok::<LineV, ParseError>(LineV::Book(b)));
    } else {
        let tok = note_token(b.note);
        lemma_note_tokens(b.note);
        let suffix = seq![' ', '('].add(tok).add(seq![')']);
        assert(s =~= base.add(suffix));
        let bl = base.len() as int;
        // Not blank.
        assert(s[jl + 1] == ':');
        assert(!is_ws(s[jl + 1]));
        assert(!all_ws(s));
        // The line ends with `)` and its last `(` opens the annotation.
        assert(s.last() == ')');
        let p = bl + 1;
        assert(s[p] == '(');
        assert forall|q: int| p < q < s.len() implies s[q] != '(' by {
            if q < s.len() - 1 {
                assert(s[q] == tok[q - p - 1]);
            } else {
                assert(s[q] == ')');
            }
        }
        lemma_last_index_at(s, '(', p);
        let body = s.subrange(0, p);
        assert(body =~= base.add(seq![' ']));
        assert(s.subrange(p + 1, s.len() - 1) =~= tok);
        assert(note_of(tok) == b.note);
        // The first separator in the line and in the body stands right after
        // the joined authors.
        assert(sep_at(s, jl));
        assert forall|q: int| 0 <= q < jl implies !sep_at(s, q) by {
            if sep_at(s, q) {
                if q + 1 < jl {
                    assert(s[q + 1] == j[q + 1]);
                    assert(join_with(b.authors, author_sep())[q + 1] != ':');
                } else {
                    assert(s[q + 1] == colon[q + 1 - jl]);
                }
            }
        }
        lemma_find_sep_at(s, 0, jl);
        assert(sep_at(body, jl));
        assert forall|q: int| 0 <= q < jl implies !sep_at(body, q) by {
            if sep_at(body, q) {
                if q + 1 < jl {
                    assert(body[q + 1] == j[q + 1]);
                    assert(join_with(b.authors, author_sep())[q + 1] != ':');
                } else {
                    assert(body[q + 1] == colon[q + 1 - jl]);
                }
            }
        }
        lemma_find_sep_at(body, 0, jl);
        assert(body.subrange(0, jl) =~= j);
        assert(body.subrange(jl + 3, body.len() as int) =~= b.title.add(seq![' ']));
        lemma_trim_pad(b.title);
        assert(trim(b.title.add(seq![' '])) == b.title);
        assert(classify_book(s) == Ok::<LineV, ParseError>(LineV::Book(b)));
    }
}

} // verus!
