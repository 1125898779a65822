//! The twelve French month names: the normalized slugs the classifier looks
//! up, the capitalized display forms the formatter writes, and the facts
//! about them that the round-trip laws need.

use vstd::prelude::*;
use crate::text::{chars_eq, is_ws, normalize};

verus! {

/// The normalized (lower-case, accent-free) name of month `m`.
pub open spec fn month_slug(m: int) -> Seq<char> {
    if m == 1 { seq!['j', 'a', 'n', 'v', 'i', 'e', 'r'] }
    else if m == 2 { seq!['f', 'e', 'v', 'r', 'i', 'e', 'r'] }
    else if m == 3 { seq!['m', 'a', 'r', 's'] }
    else if m == 4 { seq!['a', 'v', 'r', 'i', 'l'] }
    else if m == 5 { seq!['m', 'a', 'i'] }
    else if m == 6 { seq!['j', 'u', 'i', 'n'] }
    else if m == 7 { seq!['j', 'u', 'i', 'l', 'l', 'e', 't'] }
    else if m == 8 { seq!['a', 'o', 'u', 't'] }
    else if m == 9 { seq!['s', 'e', 'p', 't', 'e', 'm', 'b', 'r', 'e'] }
    else if m == 10 { seq!['o', 'c', 't', 'o', 'b', 'r', 'e'] }
    else if m == 11 { seq!['n', 'o', 'v', 'e', 'm', 'b', 'r', 'e'] }
    else if m == 12 { seq!['d', 'e', 'c', 'e', 'm', 'b', 'r', 'e'] }
    else { Seq::<char>::empty() }
}

/// The capitalized, accented display name of month `m`.
pub open spec fn month_display(m: int) -> Seq<char> {
    if m == 1 { seq!['J', 'a', 'n', 'v', 'i', 'e', 'r'] }
    else if m == 2 { seq!['F', '\u{e9}', 'v', 'r', 'i', 'e', 'r'] }
    else if m == 3 { seq!['M', 'a', 'r', 's'] }
    else if m == 4 { seq!['A', 'v', 'r', 'i', 'l'] }
    else if m == 5 { seq!['M', 'a', 'i'] }
    else if m == 6 { seq!['J', 'u', 'i', 'n'] }
    else if m == 7 { seq!['J', 'u', 'i', 'l', 'l', 'e', 't'] }
    else if m == 8 { seq!['A', 'o', '\u{fb}', 't'] }
    else if m == 9 { seq!['S', 'e', 'p', 't', 'e', 'm', 'b', 'r', 'e'] }
    else if m == 10 { seq!['O', 'c', 't', 'o', 'b', 'r', 'e'] }
    else if m == 11 { seq!['N', 'o', 'v', 'e', 'm', 'b', 'r', 'e'] }
    else if m == 12 { seq!['D', '\u{e9}', 'c', 'e', 'm', 'b', 'r', 'e'] }
    else { Seq::<char>::empty() }
}

/// Look a normalized month name up; an unrecognized name defaults to
/// January.
pub open spec fn month_of(s: Seq<char>) -> u8 {
    if s == month_slug(1) { 1u8 }
    else if s == month_slug(2) { 2u8 }
    else if s == month_slug(3) { 3u8 }
    else if s == month_slug(4) { 4u8 }
    else if s == month_slug(5) { 5u8 }
    else if s == month_slug(6) { 6u8 }
    else if s == month_slug(7) { 7u8 }
    else if s == month_slug(8) { 8u8 }
    else if s == month_slug(9) { 9u8 }
    else if s == month_slug(10) { 10u8 }
    else if s == month_slug(11) { 11u8 }
    else if s == month_slug(12) { 12u8 }
    else { 1u8 }
}

/// The slug of month `m`, as a character vector.
pub fn month_slug_chars(m: u8) -> (v: Vec<char>)
    requires
        1 <= m <= 12,
    ensures
        v@ == month_slug(m as int),
{
    let v: Vec<char> = if m == 1 { vec!['j', 'a', 'n', 'v', 'i', 'e', 'r'] }
    else if m == 2 { vec!['f', 'e', 'v', 'r', 'i', 'e', 'r'] }
    else if m == 3 { vec!['m', 'a', 'r', 's'] }
    else if m == 4 { vec!['a', 'v', 'r', 'i', 'l'] }
    else if m == 5 { vec!['m', 'a', 'i'] }
    else if m == 6 { vec!['j', 'u', 'i', 'n'] }
    else if m == 7 { vec!['j', 'u', 'i', 'l', 'l', 'e', 't'] }
    else if m == 8 { vec!['a', 'o', 'u', 't'] }
    else if m == 9 { vec!['s', 'e', 'p', 't', 'e', 'm', 'b', 'r', 'e'] }
    else if m == 10 { vec!['o', 'c', 't', 'o', 'b', 'r', 'e'] }
    else if m == 11 { vec!['n', 'o', 'v', 'e', 'm', 'b', 'r', 'e'] }
    else { vec!['d', 'e', 'c', 'e', 'm', 'b', 'r', 'e'] };
    proof {
        assert(v@ =~= month_slug(m as int));
    }
    v
}

/// The display name of month `m`, as a character vector.
pub fn month_display_chars(m: u8) -> (v: Vec<char>)
    requires
        1 <= m <= 12,
    ensures
        v@ == month_display(m as int),
{
    let v: Vec<char> = if m == 1 { vec!['J', 'a', 'n', 'v', 'i', 'e', 'r'] }
    else if m == 2 { vec!['F', '\u{e9}', 'v', 'r', 'i', 'e', 'r'] }
    else if m == 3 { vec!['M', 'a', 'r', 's'] }
    else if m == 4 { vec!['A', 'v', 'r', 'i', 'l'] }
    else if m == 5 { vec!['M', 'a', 'i'] }
    else if m == 6 { vec!['J', 'u', 'i', 'n'] }
    else if m == 7 { vec!['J', 'u', 'i', 'l', 'l', 'e', 't'] }
    else if m == 8 { vec!['A', 'o', '\u{fb}', 't'] }
    else if m == 9 { vec!['S', 'e', 'p', 't', 'e', 'm', 'b', 'r', 'e'] }
    else if m == 10 { vec!['O', 'c', 't', 'o', 'b', 'r', 'e'] }
    else if m == 11 { vec!['N', 'o', 'v', 'e', 'm', 'b', 'r', 'e'] }
    else { vec!['D', '\u{e9}', 'c', 'e', 'm', 'b', 'r', 'e'] };
    proof {
        assert(v@ =~= month_display(m as int));
    }
    v
}

/// Look a normalized month name up, defaulting to January.
pub fn month_of_exec(t: &[char]) -> (m: u8)
    ensures
        m == month_of(t@),
        1 <= m <= 12,
{
    let mut m: u8 = 1;
    while m <= 12
        invariant
            1 <= m <= 13,
            forall|k: int| 1 <= k < m ==> t@ != month_slug(k),
        decreases 13 - m,
    {
        let slug = month_slug_chars(m);
        if chars_eq(t, slug.as_slice()) {
            return m;
        }
        m += 1;
    }
    1
}

/// The table facts the round-trip laws rest on: display names normalize to
/// the slugs, the lookup inverts the tables, and no display name holds blank
/// space, a separator character or a parenthesis.
pub proof fn lemma_month_tables(m: int)
    requires
        1 <= m <= 12,
    ensures
        month_of(month_slug(m)) == m,
        normalize(month_display(m)) == month_slug(m),
        month_display(m).len() > 0,
        forall|i: int|
            0 <= i < month_display(m).len() ==> !is_ws(#[trigger] month_display(m)[i])
                && month_display(m)[i] != ':' && month_display(m)[i] != '&' && month_display(m)[i]
                != '(' && month_display(m)[i] != ')',
{
    assert(month_slug(1)[0] == 'j' && month_slug(1)[1] == 'a' && month_slug(1).len() == 7);
    assert(month_slug(2)[0] == 'f' && month_slug(2).len() == 7);
    assert(month_slug(3)[0] == 'm' && month_slug(3).len() == 4);
    assert(month_slug(4)[0] == 'a' && month_slug(4).len() == 5);
    assert(month_slug(5)[0] == 'm' && month_slug(5).len() == 3);
    assert(month_slug(6)[0] == 'j' && month_slug(6).len() == 4);
    assert(month_slug(7)[0] == 'j' && month_slug(7)[1] == 'u' && month_slug(7).len() == 7);
    assert(month_slug(8)[0] == 'a' && month_slug(8).len() == 4);
    assert(month_slug(9)[0] == 's' && month_slug(9).len() == 9);
    assert(month_slug(10)[0] == 'o' && month_slug(10).len() == 7);
    assert(month_slug(11)[0] == 'n' && month_slug(11).len() == 8);
    assert(month_slug(12)[0] == 'd' && month_slug(12).len() == 8);
    if m == 1 { assert(normalize(month_display(1)) =~= month_slug(1)); }
    else if m == 2 { assert(normalize(month_display(2)) =~= month_slug(2)); }
    else if m == 3 { assert(normalize(month_display(3)) =~= month_slug(3)); }
    else if m == 4 { assert(normalize(month_display(4)) =~= month_slug(4)); }
    else if m == 5 { assert(normalize(month_display(5)) =~= month_slug(5)); }
    else if m == 6 { assert(normalize(month_display(6)) =~= month_slug(6)); }
    else if m == 7 { assert(normalize(month_display(7)) =~= month_slug(7)); }
    else if m == 8 { assert(normalize(month_display(8)) =~= month_slug(8)); }
    else if m == 9 { assert(normalize(month_display(9)) =~= month_slug(9)); }
    else if m == 10 { assert(normalize(month_display(10)) =~= month_slug(10)); }
    else if m == 11 { assert(normalize(month_display(11)) =~= month_slug(11)); }
    else { assert(normalize(month_display(12)) =~= month_slug(12)); }
    assert(forall|i: int|
        0 <= i < month_display(m).len() ==> !is_ws(#[trigger] month_display(m)[i])
            && month_display(m)[i] != ':' && month_display(m)[i] != '&' && month_display(m)[i]
            != '(' && month_display(m)[i] != ')');
}

} // verus!
