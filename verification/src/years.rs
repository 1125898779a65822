//! Decimal year tokens: lenient parsing (an unparseable token defaults to
//! year 2020) and exact formatting, with the digit lemmas the header
//! round-trip law needs.

use vstd::prelude::*;
use crate::text::is_ws;

verus! {

/// The year a header falls back to when its year token cannot be parsed.
pub const DEFAULT_YEAR: i32 = 2020;

pub open spec fn is_digit(c: char) -> bool {
    c == '0' || c == '1' || c == '2' || c == '3' || c == '4' || c == '5' || c == '6' || c == '7'
        || c == '8' || c == '9'
}

pub open spec fn digit_val(c: char) -> int {
    if c == '0' { 0 } else if c == '1' { 1 } else if c == '2' { 2 } else if c == '3' { 3 }
    else if c == '4' { 4 } else if c == '5' { 5 } else if c == '6' { 6 } else if c == '7' { 7 }
    else if c == '8' { 8 } else { 9 }
}

pub open spec fn digit_char(d: int) -> char {
    if d == 0 { '0' } else if d == 1 { '1' } else if d == 2 { '2' } else if d == 3 { '3' }
    else if d == 4 { '4' } else if d == 5 { '5' } else if d == 6 { '6' } else if d == 7 { '7' }
    else if d == 8 { '8' } else { '9' }
}

pub open spec fn all_digits(s: Seq<char>) -> bool {
    forall|i: int| 0 <= i < s.len() ==> is_digit(s[i])
}

/// The value of a digit string, most significant digit first.
pub open spec fn digits_val(s: Seq<char>) -> int
    decreases s.len(),
{
    if s.len() == 0 {
        0
    } else {
        digits_val(s.drop_last()) * 10 + digit_val(s.last())
    }
}

/// The value of an integer token: one or more digits with an optional
/// leading minus sign; anything else has no value.
pub open spec fn int_token_val(s: Seq<char>) -> Option<int> {
    if s.len() >= 2 && s[0] == '-' && all_digits(s.subrange(1, s.len() as int)) {
        Some(-digits_val(s.subrange(1, s.len() as int)))
    } else if s.len() >= 1 && all_digits(s) {
        Some(digits_val(s))
    } else {
        None
    }
}

/// A year token parses to its value when that value fits a 32-bit year, and
/// falls back to the default year otherwise.
pub open spec fn parse_year(s: Seq<char>) -> i32 {
    match int_token_val(s) {
        Some(v) => if -0x8000_0000 <= v <= 0x7fff_ffff {
            v as i32
        } else {
            DEFAULT_YEAR
        },
        None => DEFAULT_YEAR,
    }
}

pub proof fn lemma_digits_val_nonneg(s: Seq<char>)
    requires
        all_digits(s),
    ensures
        digits_val(s) >= 0,
    decreases s.len(),
{
    if s.len() > 0 {
        lemma_digits_val_nonneg(s.drop_last());
    }
}

/// Reading one more digit multiplies the value by ten and adds the digit.
pub proof fn lemma_digits_val_push(s: Seq<char>, c: char)
    ensures
        digits_val(s.push(c)) == digits_val(s) * 10 + digit_val(c),
{
    assert(s.push(c).drop_last() =~= s);
}

/// The decimal digits of `n`, most significant first.
pub open spec fn digits_of(n: int) -> Seq<char>
    decreases n,
{
    if n < 10 {
        seq![digit_char(n)]
    } else {
        digits_of(n / 10).push(digit_char(n % 10))
    }
}

/// The digits of a number are digits, there is at least one, and they read
/// back to the number.
pub proof fn lemma_digits_of_val(n: int)
    requires
        n >= 0,
    ensures
        digits_of(n).len() >= 1,
        all_digits(digits_of(n)),
        digits_val(digits_of(n)) == n,
    decreases n,
{
    if n < 10 {
        let s1 = seq![digit_char(n)];
        assert(digits_of(n) == s1);
        assert(s1.drop_last() =~= Seq::<char>::empty());
        assert(s1.last() == digit_char(n));
        assert(digits_val(Seq::<char>::empty()) == 0);
        assert(digits_val(s1) == digit_val(digit_char(n)));
    } else {
        lemma_digits_of_val(n / 10);
        lemma_digits_val_push(digits_of(n / 10), digit_char(n % 10));
        assert(digit_val(digit_char(n % 10)) == n % 10);
        assert(n / 10 * 10 + n % 10 == n);
        assert(all_digits(digits_of(n))) by {
            let d = digits_of(n / 10);
            let w = d.push(digit_char(n % 10));
            assert(forall|i: int| 0 <= i < w.len() ==> is_digit(w[i])) by {
                assert(forall|i: int| 0 <= i < d.len() ==> is_digit(#[trigger] w[i]));
                assert(is_digit(w[w.len() - 1]));
            }
        }
    }
}

/// A digit is visible text and none of the classifier's marker characters.
pub proof fn lemma_digit_plain(c: char)
    requires
        is_digit(c),
    ensures
        !is_ws(c),
        c != ':',
        c != '&',
        c != '(',
        c != ')',
        c != '-',
{
}

/// The rendered form of a year: its decimal digits, with a leading minus
/// sign when it is negative.
pub open spec fn year_chars_spec(y: int) -> Seq<char> {
    if y < 0 {
        seq!['-'].add(digits_of(-y))
    } else {
        digits_of(y)
    }
}

/// Formatting a year and parsing the token back returns the same year.
pub proof fn lemma_year_round_trip(y: i32)
    ensures
        parse_year(year_chars_spec(y as int)) == y,
{
    let yi = y as int;
    if yi < 0 {
        let d = digits_of(-yi);
        lemma_digits_of_val(-yi);
        let s = seq!['-'].add(d);
        assert(s.len() >= 2);
        assert(s[0] == '-');
        assert(s.subrange(1, s.len() as int) =~= d);
        assert(int_token_val(s) == Some(-digits_val(d)));
    } else {
        let d = digits_of(yi);
        lemma_digits_of_val(yi);
        assert(is_digit(d[0]));
        assert(d[0] != '-');
        if d.len() >= 2 {
            assert(!(d[0] == '-'));
        }
        assert(int_token_val(d) == Some(digits_val(d)));
    }
}

fn digit_char_exec(d: u64) -> (c: char)
    requires
        d < 10,
    ensures
        c == digit_char(d as int),
{
    if d == 0 { '0' } else if d == 1 { '1' } else if d == 2 { '2' } else if d == 3 { '3' }
    else if d == 4 { '4' } else if d == 5 { '5' } else if d == 6 { '6' } else if d == 7 { '7' }
    else if d == 8 { '8' } else { '9' }
}

fn digit_val_exec(c: char) -> (r: Option<u64>)
    ensures
        match r {
            Some(d) => is_digit(c) && d < 10 && d as int == digit_val(c),
            None => !is_digit(c),
        },
{
    if c == '0' { Some(0) } else if c == '1' { Some(1) } else if c == '2' { Some(2) }
    else if c == '3' { Some(3) } else if c == '4' { Some(4) } else if c == '5' { Some(5) }
    else if c == '6' { Some(6) } else if c == '7' { Some(7) } else if c == '8' { Some(8) }
    else if c == '9' { Some(9) } else { None }
}

fn push_digits(v: &mut Vec<char>, n: u64)
    ensures
        final(v)@ == old(v)@.add(digits_of(n as int)),
    decreases n,
{
    if n < 10 {
        v.push(digit_char_exec(n));
        proof {
            assert(v@ =~= old(v)@.add(digits_of(n as int)));
        }
    } else {
        push_digits(v, n / 10);
        v.push(digit_char_exec(n % 10));
        proof {
            assert(v@ =~= old(v)@.add(digits_of(n as int)));
        }
    }
}

/// Render `y` in decimal.
pub fn year_chars(y: i32) -> (v: Vec<char>)
    ensures
        v@ == year_chars_spec(y as int),
{
    let mut v: Vec<char> = Vec::new();
    let wide: i64 = y as i64;
    if wide < 0 {
        v.push('-');
        let mag: u64 = (-wide) as u64;
        push_digits(&mut v, mag);
        proof {
            assert(v@ =~= year_chars_spec(y as int));
        }
    } else {
        push_digits(&mut v, wide as u64);
        proof {
            assert(v@ =~= year_chars_spec(y as int));
        }
    }
    v
}

/// Parse a year token leniently: an unparseable or out-of-range token gives
/// the default year.
pub fn parse_year_exec(t: &[char]) -> (y: i32)
    ensures
        y == parse_year(t@),
{
    let n = t.len();
    let neg = n >= 1 && t[0] == '-';
    let start: usize = if neg { 1 } else { 0 };
    if n == start {
        proof {
            if neg {
                assert(int_token_val(t@) == None::<int>);
            } else {
                assert(int_token_val(t@) == None::<int>);
            }
        }
        return DEFAULT_YEAR;
    }
    let ghost digits = t@.subrange(start as int, n as int);
    let cap: u64 = 0xc000_0000;
    let mut acc: u64 = 0;
    let mut i: usize = start;
    while i < n
        invariant
            start <= i <= n,
            n == t@.len(),
            n > start,
            neg == (n >= 1 && t@[0] == '-'),
            start == if neg { 1usize } else { 0usize },
            digits == t@.subrange(start as int, n as int),
            all_digits(t@.subrange(start as int, i as int)),
            acc <= cap,
            cap == 0xc000_0000u64,
            acc as int == if digits_val(t@.subrange(start as int, i as int)) <= cap as int {
                digits_val(t@.subrange(start as int, i as int))
            } else {
                cap as int
            },
        decreases n - i,
    {
        let ghost pre = t@.subrange(start as int, i as int);
        match digit_val_exec(t[i]) {
            None => {
                proof {
                    assert(digits[i as int - start as int] == t@[i as int]);
                    assert(!all_digits(digits));
                    if neg {
                        assert(!is_digit(t@[0]));
                        assert(!all_digits(t@));
                        assert(int_token_val(t@) == None::<int>);
                    } else {
                        assert(!all_digits(t@));
                        assert(int_token_val(t@) == None::<int>);
                    }
                }
                return DEFAULT_YEAR;
            },
            Some(d) => {
                proof {
                    lemma_digits_val_nonneg(pre);
                    assert(pre.push(t@[i as int]) =~= t@.subrange(start as int, i as int + 1));
                    lemma_digits_val_push(pre, t@[i as int]);
                }
                let next: u64 = if acc >= cap {
                    cap
                } else {
                    let grown: u64 = acc * 10 + d;
                    if grown >= cap {
                        cap
                    } else {
                        grown
                    }
                };
                proof {
                    let old_val = digits_val(pre);
                    let new_val = digits_val(t@.subrange(start as int, i as int + 1));
                    assert(new_val == old_val * 10 + d);
                    if old_val > cap as int {
                        assert(new_val > cap as int);
                    }
                }
                acc = next;
                i += 1;
            },
        }
    }
    proof {
        assert(t@.subrange(start as int, n as int) =~= digits);
        lemma_digits_val_nonneg(digits);
    }
    let limit: u64 = if neg {
        0x8000_0000
    } else {
        0x7fff_ffff
    };
    if acc > limit {
        proof {
            let v = digits_val(digits);
            assert(v > limit as int);
            if neg {
                assert(t@[0] == '-');
                assert(int_token_val(t@) == Some(-v));
                assert(-v < -0x8000_0000);
            } else {
                assert forall|j: int| 0 <= j < n implies is_digit(t@[j]) by {
                    assert(t@[j] == digits[j]);
                    assert(is_digit(digits[j]));
                }
                assert(digits =~= t@);
                assert(int_token_val(t@) == Some(v));
                assert(v > 0x7fff_ffff);
            }
        }
        return DEFAULT_YEAR;
    }
    proof {
        let v = digits_val(digits);
        assert(v == acc as int);
    }
    if neg {
        let wide: i64 = -(acc as i64);
        proof {
            assert(int_token_val(t@) == Some(-digits_val(digits)));
        }
        wide as i32
    } else {
        proof {
            assert forall|j: int| 0 <= j < n implies is_digit(t@[j]) by {
                assert(t@[j] == digits[j]);
                assert(is_digit(digits[j]));
            }
            assert(digits =~= t@);
            assert(int_token_val(t@) == Some(digits_val(digits)));
        }
        acc as i32
    }
}

} // verus!
