//! Character-sequence helpers shared by the classifier, the formatter and the
//! parser: blank-space trimming, substring search, splitting, joining and the
//! locale normalization applied to month names.

use vstd::prelude::*;
use vstd::slice::*;

verus! {

/// Characters treated as blank space when trimming and when deciding that a
/// line is blank.
pub open spec fn is_ws(c: char) -> bool {
    c == ' ' || c == '\t' || c == '\r' || c == '\n'
}

/// Every character of `s` is blank space.
pub open spec fn all_ws(s: Seq<char>) -> bool {
    forall|i: int| 0 <= i < s.len() ==> is_ws(s[i])
}

pub open spec fn trim_start(s: Seq<char>) -> Seq<char>
    decreases s.len(),
{
    if s.len() == 0 {
        s
    } else if is_ws(s[0]) {
        trim_start(s.drop_first())
    } else {
        s
    }
}

pub open spec fn trim_end(s: Seq<char>) -> Seq<char>
    decreases s.len(),
{
    if s.len() == 0 {
        s
    } else if is_ws(s.last()) {
        trim_end(s.drop_last())
    } else {
        s
    }
}

/// `s` with leading and trailing blank space removed.
pub open spec fn trim(s: Seq<char>) -> Seq<char> {
    trim_end(trim_start(s))
}

/// `s` needs no trimming: it is empty or starts and ends with visible text.
pub open spec fn trimmed(s: Seq<char>) -> bool {
    s.len() == 0 || (!is_ws(s[0]) && !is_ws(s.last()))
}

pub proof fn lemma_trim_start_skip(s: Seq<char>, i: int)
    requires
        0 <= i <= s.len(),
        forall|j: int| 0 <= j < i ==> is_ws(s[j]),
    ensures
        trim_start(s) == trim_start(s.subrange(i, s.len() as int)),
    decreases i,
{
    if i == 0 {
        assert(s.subrange(0, s.len() as int) =~= s);
    } else {
        assert(is_ws(s[0]));
        assert(s.drop_first() =~= s.subrange(1, s.len() as int));
        lemma_trim_start_skip(s.drop_first(), i - 1);
        assert(s.drop_first().subrange(i - 1, s.drop_first().len() as int) =~= s.subrange(
            i,
            s.len() as int,
        ));
    }
}

pub proof fn lemma_trim_end_skip(s: Seq<char>, i: int)
    requires
        0 <= i <= s.len(),
        forall|j: int| i <= j < s.len() ==> is_ws(s[j]),
    ensures
        trim_end(s) == trim_end(s.subrange(0, i)),
    decreases s.len() - i,
{
    if i == s.len() {
        assert(s.subrange(0, s.len() as int) =~= s);
    } else {
        assert(is_ws(s.last()));
        assert(s.drop_last() =~= s.subrange(0, s.len() - 1));
        lemma_trim_end_skip(s.drop_last(), i);
        assert(s.drop_last().subrange(0, i) =~= s.subrange(0, i));
    }
}

/// Trimming a sequence that needs no trimming leaves it unchanged.
pub proof fn lemma_trim_of_trimmed(s: Seq<char>)
    requires
        trimmed(s),
    ensures
        trim(s) == s,
{
}

/// A sequence of blank space trims to the empty sequence.
pub proof fn lemma_trim_all_ws(s: Seq<char>)
    requires
        all_ws(s),
    ensures
        trim(s) == Seq::<char>::empty(),
{
    lemma_trim_start_skip(s, s.len() as int);
    assert(s.subrange(s.len() as int, s.len() as int) =~= Seq::<char>::empty());
}

/// One blank on either side of a trimmed sequence is removed by `trim`.
pub proof fn lemma_trim_pad(a: Seq<char>)
    requires
        trimmed(a),
        a.len() > 0,
    ensures
        trim(seq![' '].add(a)) == a,
        trim(a.add(seq![' '])) == a,
        trim(seq![' '].add(a).add(seq![' '])) == a,
{
    let l = seq![' '].add(a);
    assert(l.drop_first() =~= a);
    assert(trim_start(l) == trim_start(a));
    assert(trim_start(a) == a);
    assert(trim_end(a) == a);

    let r = a.add(seq![' ']);
    assert(trim_start(r) == r);
    assert(r.drop_last() =~= a);
    assert(trim_end(r) == trim_end(a));

    let b = seq![' '].add(a).add(seq![' ']);
    assert(b.drop_first() =~= a.add(seq![' ']));
    assert(trim_start(b) == trim_start(a.add(seq![' '])));
    assert(trim_start(a.add(seq![' '])) == a.add(seq![' ']));
}

/// The separator `" : "` between authors and title stands at index `i` of `s`.
pub open spec fn sep_at(s: Seq<char>, i: int) -> bool {
    0 <= i && i + 3 <= s.len() && s[i] == ' ' && s[i + 1] == ':' && s[i + 2] == ' '
}

pub open spec fn find_sep_from(s: Seq<char>, i: int) -> Option<int>
    decreases s.len() - i,
{
    if i < 0 || i + 3 > s.len() {
        None
    } else if sep_at(s, i) {
        Some(i)
    } else {
        find_sep_from(s, i + 1)
    }
}

/// Index of the first occurrence of `" : "` in `s`, if any.
pub open spec fn find_sep(s: Seq<char>) -> Option<int> {
    find_sep_from(s, 0)
}

pub proof fn lemma_find_sep_at(s: Seq<char>, lo: int, k: int)
    requires
        0 <= lo <= k,
        sep_at(s, k),
        forall|j: int| lo <= j < k ==> !sep_at(s, j),
    ensures
        find_sep_from(s, lo) == Some(k),
    decreases k - lo,
{
    if lo < k {
        lemma_find_sep_at(s, lo + 1, k);
    }
}

pub proof fn lemma_find_sep_none(s: Seq<char>, lo: int)
    requires
        0 <= lo,
        forall|j: int| lo <= j ==> !sep_at(s, j),
    ensures
        find_sep_from(s, lo) == None::<int>,
    decreases s.len() - lo,
{
    if lo + 3 <= s.len() {
        lemma_find_sep_none(s, lo + 1);
    }
}

pub open spec fn index_of_from(s: Seq<char>, c: char, i: int) -> Option<int>
    decreases s.len() - i,
{
    if i < 0 || i >= s.len() {
        None
    } else if s[i] == c {
        Some(i)
    } else {
        index_of_from(s, c, i + 1)
    }
}

/// Index of the first occurrence of `c` in `s`, if any.
pub open spec fn first_index(s: Seq<char>, c: char) -> Option<int> {
    index_of_from(s, c, 0)
}

pub proof fn lemma_first_index_at(s: Seq<char>, c: char, lo: int, k: int)
    requires
        0 <= lo <= k < s.len(),
        s[k] == c,
        forall|j: int| lo <= j < k ==> s[j] != c,
    ensures
        index_of_from(s, c, lo) == Some(k),
    decreases k - lo,
{
    if lo < k {
        lemma_first_index_at(s, c, lo + 1, k);
    }
}

pub proof fn lemma_index_of_some_all(s: Seq<char>, c: char, lo: int, k: int)
    requires
        0 <= lo,
        index_of_from(s, c, lo) == Some(k),
    ensures
        lo <= k < s.len(),
        s[k] == c,
        forall|j: int| lo <= j < k ==> s[j] != c,
    decreases s.len() - lo,
{
    if lo < s.len() && s[lo] != c {
        lemma_index_of_some_all(s, c, lo + 1, k);
    }
}

pub proof fn lemma_index_of_none_all(s: Seq<char>, c: char, lo: int)
    requires
        0 <= lo,
        index_of_from(s, c, lo) == None::<int>,
    ensures
        forall|j: int| lo <= j < s.len() ==> s[j] != c,
    decreases s.len() - lo,
{
    if lo < s.len() {
        lemma_index_of_none_all(s, c, lo + 1);
    }
}

pub proof fn lemma_first_index_none(s: Seq<char>, c: char, lo: int)
    requires
        0 <= lo,
        forall|j: int| lo <= j < s.len() ==> s[j] != c,
    ensures
        index_of_from(s, c, lo) == None::<int>,
    decreases s.len() - lo,
{
    if lo < s.len() {
        lemma_first_index_none(s, c, lo + 1);
    }
}

pub open spec fn last_index_back(s: Seq<char>, c: char) -> Option<int>
    decreases s.len(),
{
    if s.len() == 0 {
        None
    } else if s.last() == c {
        Some(s.len() - 1)
    } else {
        last_index_back(s.drop_last(), c)
    }
}

/// Index of the last occurrence of `c` in `s`, if any.
pub open spec fn last_index(s: Seq<char>, c: char) -> Option<int> {
    last_index_back(s, c)
}

pub proof fn lemma_last_index_at(s: Seq<char>, c: char, k: int)
    requires
        0 <= k < s.len(),
        s[k] == c,
        forall|j: int| k < j < s.len() ==> s[j] != c,
    ensures
        last_index(s, c) == Some(k),
    decreases s.len(),
{
    if k < s.len() - 1 {
        assert(s.last() != c);
        lemma_last_index_at(s.drop_last(), c, k);
    }
}

pub proof fn lemma_last_index_none(s: Seq<char>, c: char)
    requires
        forall|j: int| 0 <= j < s.len() ==> s[j] != c,
    ensures
        last_index(s, c) == None::<int>,
    decreases s.len(),
{
    if s.len() > 0 {
        lemma_last_index_none(s.drop_last(), c);
    }
}

/// Split `s` on every occurrence of `c`; always yields at least one part, and
/// the separators themselves are dropped.
pub open spec fn split_char(s: Seq<char>, c: char) -> Seq<Seq<char>>
    decreases s.len(),
{
    if s.len() == 0 {
        seq![Seq::<char>::empty()]
    } else if s[0] == c {
        seq![Seq::<char>::empty()].add(split_char(s.drop_first(), c))
    } else {
        let rest = split_char(s.drop_first(), c);
        seq![seq![s[0]].add(rest[0])].add(rest.drop_first())
    }
}

pub proof fn lemma_split_len(s: Seq<char>, c: char)
    ensures
        split_char(s, c).len() >= 1,
    decreases s.len(),
{
    if s.len() > 0 {
        lemma_split_len(s.drop_first(), c);
    }
}

/// Splitting a sequence that holds no separator yields that sequence alone.
pub proof fn lemma_split_whole(s: Seq<char>, c: char)
    requires
        forall|j: int| 0 <= j < s.len() ==> s[j] != c,
    ensures
        split_char(s, c) == seq![s],
    decreases s.len(),
{
    if s.len() == 0 {
        assert(split_char(s, c) =~~= seq![s]);
    } else {
        lemma_split_whole(s.drop_first(), c);
        let rest = split_char(s.drop_first(), c);
        assert(rest == seq![s.drop_first()]);
        assert(seq![s[0]].add(s.drop_first()) =~= s);
        assert(rest.drop_first() =~= Seq::<Seq<char>>::empty());
        assert(split_char(s, c) =~~= seq![s]);
    }
}

/// Splitting at the first separator: the part before it comes out whole, and
/// the rest splits on its own.
pub proof fn lemma_split_step(a: Seq<char>, t: Seq<char>, c: char)
    requires
        forall|j: int| 0 <= j < a.len() ==> a[j] != c,
    ensures
        split_char(a.add(seq![c]).add(t), c) == seq![a].add(split_char(t, c)),
    decreases a.len(),
{
    let s = a.add(seq![c]).add(t);
    if a.len() == 0 {
        assert(s[0] == c);
        assert(s.drop_first() =~= t);
        assert(a =~= Seq::<char>::empty());
        assert(seq![Seq::<char>::empty()].add(split_char(t, c)) =~~= seq![a].add(
            split_char(t, c),
        ));
    } else {
        assert(s[0] == a[0]);
        assert(s[0] != c);
        assert(s.drop_first() =~= a.drop_first().add(seq![c]).add(t));
        lemma_split_step(a.drop_first(), t, c);
        let rest = split_char(s.drop_first(), c);
        assert(rest == seq![a.drop_first()].add(split_char(t, c)));
        assert(rest[0] == a.drop_first());
        assert(seq![s[0]].add(rest[0]) =~= a);
        assert(rest.drop_first() =~= split_char(t, c));
        assert(split_char(s, c) =~= seq![a].add(split_char(t, c)));
    }
}

/// Trim every part of a split.
pub open spec fn trim_all(parts: Seq<Seq<char>>) -> Seq<Seq<char>> {
    parts.map_values(|a: Seq<char>| trim(a))
}

/// Join `parts` with the separator sequence `sep` between consecutive parts.
pub open spec fn join_with(parts: Seq<Seq<char>>, sep: Seq<char>) -> Seq<char>
    decreases parts.len(),
{
    if parts.len() == 0 {
        Seq::<char>::empty()
    } else if parts.len() == 1 {
        parts[0]
    } else {
        parts[0].add(sep).add(join_with(parts.drop_first(), sep))
    }
}

pub proof fn lemma_join_push(parts: Seq<Seq<char>>, sep: Seq<char>, x: Seq<char>)
    ensures
        join_with(parts.push(x), sep) == if parts.len() == 0 {
            x
        } else {
            join_with(parts, sep).add(sep).add(x)
        },
    decreases parts.len(),
{
    let p = parts.push(x);
    if parts.len() == 0 {
        assert(p.len() == 1);
        assert(p[0] == x);
    } else {
        assert(p.len() >= 2);
        assert(p[0] == parts[0]);
        assert(p.drop_first() =~= parts.drop_first().push(x));
        lemma_join_push(parts.drop_first(), sep, x);
        if parts.len() == 1 {
            assert(join_with(parts.drop_first(), sep).len() == 0);
            assert(join_with(p.drop_first(), sep) == x);
            assert(join_with(p, sep) =~= parts[0].add(sep).add(x));
            assert(join_with(parts, sep) == parts[0]);
        } else {
            assert(join_with(p, sep) =~= join_with(parts, sep).add(sep).add(x));
        }
    }
}

/// Lower-case a letter and strip the accents that occur in French month
/// names; any other character is left unchanged.
pub open spec fn fold_char(c: char) -> char {
    if c == 'A' { 'a' } else if c == 'B' { 'b' } else if c == 'C' { 'c' }
    else if c == 'D' { 'd' } else if c == 'E' { 'e' } else if c == 'F' { 'f' }
    else if c == 'G' { 'g' } else if c == 'H' { 'h' } else if c == 'I' { 'i' }
    else if c == 'J' { 'j' } else if c == 'K' { 'k' } else if c == 'L' { 'l' }
    else if c == 'M' { 'm' } else if c == 'N' { 'n' } else if c == 'O' { 'o' }
    else if c == 'P' { 'p' } else if c == 'Q' { 'q' } else if c == 'R' { 'r' }
    else if c == 'S' { 's' } else if c == 'T' { 't' } else if c == 'U' { 'u' }
    else if c == 'V' { 'v' } else if c == 'W' { 'w' } else if c == 'X' { 'x' }
    else if c == 'Y' { 'y' } else if c == 'Z' { 'z' }
    else if c == '\u{e0}' || c == '\u{e2}' || c == '\u{e4}' || c == '\u{c0}' || c == '\u{c2}'
        || c == '\u{c4}' { 'a' }
    else if c == '\u{e7}' || c == '\u{c7}' { 'c' }
    else if c == '\u{e8}' || c == '\u{e9}' || c == '\u{ea}' || c == '\u{eb}' || c == '\u{c8}'
        || c == '\u{c9}' || c == '\u{ca}' || c == '\u{cb}' { 'e' }
    else if c == '\u{ee}' || c == '\u{ef}' || c == '\u{ce}' || c == '\u{cf}' { 'i' }
    else if c == '\u{f4}' || c == '\u{f6}' || c == '\u{d4}' || c == '\u{d6}' { 'o' }
    else if c == '\u{f9}' || c == '\u{fb}' || c == '\u{fc}' || c == '\u{d9}' || c == '\u{db}'
        || c == '\u{dc}' { 'u' }
    else { c }
}

/// `s` lower-cased with accents stripped, character by character.
pub open spec fn normalize(s: Seq<char>) -> Seq<char> {
    s.map_values(|c: char| fold_char(c))
}

fn fold_char_exec(c: char) -> (r: char)
    ensures
        r == fold_char(c),
{
    if c == 'A' { 'a' } else if c == 'B' { 'b' } else if c == 'C' { 'c' }
    else if c == 'D' { 'd' } else if c == 'E' { 'e' } else if c == 'F' { 'f' }
    else if c == 'G' { 'g' } else if c == 'H' { 'h' } else if c == 'I' { 'i' }
    else if c == 'J' { 'j' } else if c == 'K' { 'k' } else if c == 'L' { 'l' }
    else if c == 'M' { 'm' } else if c == 'N' { 'n' } else if c == 'O' { 'o' }
    else if c == 'P' { 'p' } else if c == 'Q' { 'q' } else if c == 'R' { 'r' }
    else if c == 'S' { 's' } else if c == 'T' { 't' } else if c == 'U' { 'u' }
    else if c == 'V' { 'v' } else if c == 'W' { 'w' } else if c == 'X' { 'x' }
    else if c == 'Y' { 'y' } else if c == 'Z' { 'z' }
    else if c == '\u{e0}' || c == '\u{e2}' || c == '\u{e4}' || c == '\u{c0}' || c == '\u{c2}'
        || c == '\u{c4}' { 'a' }
    else if c == '\u{e7}' || c == '\u{c7}' { 'c' }
    else if c == '\u{e8}' || c == '\u{e9}' || c == '\u{ea}' || c == '\u{eb}' || c == '\u{c8}'
        || c == '\u{c9}' || c == '\u{ca}' || c == '\u{cb}' { 'e' }
    else if c == '\u{ee}' || c == '\u{ef}' || c == '\u{ce}' || c == '\u{cf}' { 'i' }
    else if c == '\u{f4}' || c == '\u{f6}' || c == '\u{d4}' || c == '\u{d6}' { 'o' }
    else if c == '\u{f9}' || c == '\u{fb}' || c == '\u{fc}' || c == '\u{d9}' || c == '\u{db}'
        || c == '\u{dc}' { 'u' }
    else { c }
}

/// Normalize every character of `v`.
pub fn normalize_chars(v: &[char]) -> (r: Vec<char>)
    ensures
        r@ == normalize(v@),
{
    let n = v.len();
    let mut r: Vec<char> = Vec::new();
    let mut i: usize = 0;
    while i < n
        invariant
            i <= n,
            n == v@.len(),
            r@ == normalize(v@.subrange(0, i as int)),
        decreases n - i,
    {
        r.push(fold_char_exec(v[i]));
        i += 1;
        proof {
            assert(r@ =~= normalize(v@.subrange(0, i as int)));
        }
    }
    proof {
        assert(v@.subrange(0, n as int) =~= v@);
    }
    r
}

/// Do two character slices hold the same characters?
pub fn chars_eq(a: &[char], b: &[char]) -> (r: bool)
    ensures
        r == (a@ == b@),
{
    let n = a.len();
    if n != b.len() {
        proof {
            assert(a@.len() != b@.len());
        }
        return false;
    }
    let mut i: usize = 0;
    while i < n
        invariant
            i <= n,
            n == a@.len(),
            n == b@.len(),
            forall|j: int| 0 <= j < i ==> a@[j] == b@[j],
        decreases n - i,
    {
        if a[i] != b[i] {
            return false;
        }
        i += 1;
    }
    proof {
        assert(a@ =~= b@);
    }
    true
}

fn is_ws_exec(c: char) -> (r: bool)
    ensures
        r == is_ws(c),
{
    c == ' ' || c == '\t' || c == '\r' || c == '\n'
}

/// Does `v` consist of blank space only?
pub fn all_ws_exec(v: &[char]) -> (r: bool)
    ensures
        r == all_ws(v@),
{
    let n = v.len();
    let mut i: usize = 0;
    while i < n
        invariant
            i <= n,
            n == v@.len(),
            forall|j: int| 0 <= j < i ==> is_ws(v@[j]),
        decreases n - i,
    {
        if !is_ws_exec(v[i]) {
            return false;
        }
        i += 1;
    }
    true
}

/// The characters of `s`, in order.
pub fn chars_of(s: &str) -> (r: Vec<char>)
    ensures
        r@ == s@,
{
    let n = s.unicode_len();
    let mut r: Vec<char> = Vec::new();
    let mut i: usize = 0;
    while i < n
        invariant
            i <= n,
            n == s@.len(),
            r@ == s@.subrange(0, i as int),
        decreases n - i,
    {
        r.push(s.get_char(i));
        i += 1;
        proof {
            assert(r@ =~= s@.subrange(0, i as int));
        }
    }
    proof {
        assert(s@.subrange(0, n as int) =~= s@);
    }
    r
}

/// Relies on std's `String::push`: it appends the given character to the end
/// of the string.
#[verifier::external_body]
fn push_char(s: &mut String, c: char)
    ensures
        final(s)@ == old(s)@.push(c),
{
    s.push(c);
}

/// A string holding exactly the characters of `v`.
pub fn string_of(v: &[char]) -> (r: String)
    ensures
        r@ == v@,
{
    let n = v.len();
    let mut r = String::new();
    let mut i: usize = 0;
    while i < n
        invariant
            i <= n,
            n == v@.len(),
            r@ == v@.subrange(0, i as int),
        decreases n - i,
    {
        push_char(&mut r, v[i]);
        i += 1;
        proof {
            assert(r@ =~= v@.subrange(0, i as int));
        }
    }
    proof {
        assert(v@.subrange(0, n as int) =~= v@);
    }
    r
}

/// First index at or after `from` where `c` occurs in `v`.
pub fn find_char_from(v: &[char], c: char, from: usize) -> (r: Option<usize>)
    ensures
        match r {
            Some(i) => from <= i < v@.len() && v@[i as int] == c && index_of_from(
                v@,
                c,
                from as int,
            ) == Some(i as int),
            None => index_of_from(v@, c, from as int) == None::<int>,
        },
{
    let n = v.len();
    if from >= n {
        return None;
    }
    let mut i: usize = from;
    while i < n
        invariant
            from <= i <= n,
            n == v@.len(),
            forall|j: int| from <= j < i ==> v@[j] != c,
        decreases n - i,
    {
        if v[i] == c {
            proof {
                lemma_first_index_at(v@, c, from as int, i as int);
            }
            return Some(i);
        }
        i += 1;
    }
    proof {
        lemma_first_index_none(v@, c, from as int);
    }
    None
}

/// Last index where `c` occurs in `v`.
pub fn rfind_char(v: &[char], c: char) -> (r: Option<usize>)
    ensures
        match r {
            Some(i) => i < v@.len() && v@[i as int] == c && last_index(v@, c) == Some(i as int),
            None => last_index(v@, c) == None::<int>,
        },
{
    let n = v.len();
    let mut i: usize = n;
    while i > 0
        invariant
            i <= n,
            n == v@.len(),
            forall|j: int| i <= j < n ==> v@[j] != c,
        decreases i,
    {
        i -= 1;
        if v[i] == c {
            proof {
                lemma_last_index_at(v@, c, i as int);
            }
            return Some(i);
        }
    }
    proof {
        lemma_last_index_none(v@, c);
    }
    None
}

/// Index of the first `" : "` separator in `v`, if any.
pub fn find_sep_exec(v: &[char]) -> (r: Option<usize>)
    ensures
        match r {
            Some(i) => sep_at(v@, i as int) && find_sep(v@) == Some(i as int),
            None => find_sep(v@) == None::<int>,
        },
{
    let n = v.len();
    let mut i: usize = 0;
    while n >= 3 && i <= n - 3
        invariant
            i <= n,
            n == v@.len(),
            forall|j: int| 0 <= j < i ==> !sep_at(v@, j),
        decreases n - i,
    {
        if v[i] == ' ' && v[i + 1] == ':' && v[i + 2] == ' ' {
            proof {
                lemma_find_sep_at(v@, 0, i as int);
            }
            return Some(i);
        }
        i += 1;
    }
    proof {
        assert(forall|j: int| 0 <= j ==> !sep_at(v@, j)) by {
            assert(forall|j: int| j >= i ==> j + 3 > n ==> !sep_at(v@, j));
        }
        lemma_find_sep_none(v@, 0);
    }
    None
}

/// Split `v` on every occurrence of `c`.
pub fn split_chars(v: &[char], c: char) -> (r: Vec<Vec<char>>)
    ensures
        r.deep_view() == split_char(v@, c),
{
    let n = v.len();
    let mut parts: Vec<Vec<char>> = Vec::new();
    let mut start: usize = 0;
    proof {
        assert(v@.subrange(0, n as int) =~= v@);
    }
    loop
        invariant
            start <= n,
            n == v@.len(),
            split_char(v@, c) == parts.deep_view().add(
                split_char(v@.subrange(start as int, n as int), c),
            ),
        decreases n - start,
    {
        let found = find_char_from(v, c, start);
        match found {
            None => {
                let tail = slice_to_vec(slice_subrange(v, start, n));
                proof {
                    let suffix = v@.subrange(start as int, n as int);
                    lemma_index_of_none_all(v@, c, start as int);
                    assert(forall|j: int| 0 <= j < suffix.len() ==> suffix[j] != c);
                    lemma_split_whole(suffix, c);
                }
                parts.push(tail);
                proof {
                    assert(parts.deep_view() =~~= split_char(v@, c));
                }
                return parts;
            },
            Some(idx) => {
                let tok = slice_to_vec(slice_subrange(v, start, idx));
                proof {
                    let suffix = v@.subrange(start as int, n as int);
                    let a = v@.subrange(start as int, idx as int);
                    let t = v@.subrange(idx as int + 1, n as int);
                    assert(v@[idx as int] == c);
                    lemma_index_of_some_all(v@, c, start as int, idx as int);
                    assert(forall|j: int| 0 <= j < a.len() ==> a[j] != c);
                    assert(suffix =~= a.add(seq![c]).add(t));
                    lemma_split_step(a, t, c);
                    assert(split_char(suffix, c) == seq![a].add(split_char(t, c)));
                }
                parts.push(tok);
                proof {
                    assert(split_char(v@, c) =~~= parts.deep_view().add(
                        split_char(v@.subrange(idx as int + 1, n as int), c),
                    ));
                }
                start = idx + 1;
            },
        }
    }
}

/// `v` with leading and trailing blank space removed.
pub fn trim_chars(v: &[char]) -> (r: Vec<char>)
    ensures
        r@ == trim(v@),
{
    let n = v.len();
    let mut lo: usize = 0;
    while lo < n && is_ws_exec(v[lo])
        invariant
            lo <= n,
            n == v@.len(),
            forall|j: int| 0 <= j < lo ==> is_ws(v@[j]),
        decreases n - lo,
    {
        lo += 1;
    }
    proof {
        lemma_trim_start_skip(v@, lo as int);
    }
    if lo == n {
        proof {
            assert(v@.subrange(lo as int, n as int) =~= Seq::<char>::empty());
            assert(trim(v@) =~= Seq::<char>::empty());
        }
        return Vec::new();
    }
    let mut hi: usize = n;
    while hi > lo && is_ws_exec(v[hi - 1])
        invariant
            lo <= hi <= n,
            n == v@.len(),
            forall|j: int| hi <= j < n ==> is_ws(v@[j]),
        decreases hi,
    {
        hi -= 1;
    }
    proof {
        let started = v@.subrange(lo as int, n as int);
        assert(!is_ws(started[0]));
        assert(trim_start(v@) == started);
        assert(!is_ws(v@[hi - 1]));
        lemma_trim_end_skip(started, hi as int - lo as int);
        let kept = started.subrange(0, hi as int - lo as int);
        assert(kept =~= v@.subrange(lo as int, hi as int));
        assert(!is_ws(kept.last()));
        assert(trim_end(kept) == kept);
        assert(trim(v@) == v@.subrange(lo as int, hi as int));
    }
    slice_to_vec(slice_subrange(v, lo, hi))
}

} // verus!
