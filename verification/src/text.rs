//! Conversions between strings and sequences of characters, and the small
//! text routines the record codec is built from.

use vstd::prelude::*;
use vstd::string::*;
use vstd::utf8::{decode_utf8, valid_utf8};

verus! {

/// `String::push` appends one character to the end of the string.
pub assume_specification[ String::push ](s: &mut String, c: char)
    ensures
        final(s)@ == old(s)@.push(c),
;

/// Reads `bytes` as UTF-8 text with `String::from_utf8`: the text that the
/// bytes encode where they are valid UTF-8, and `None` where they are not.
#[verifier::external_body]
pub(crate) fn utf8_text(bytes: Vec<u8>) -> (r: Option<String>)
    ensures
        r is Some <==> valid_utf8(bytes@),
        r is Some ==> r->0@ == decode_utf8(bytes@),
{
    String::from_utf8(bytes).ok()
}

/// The characters of `s`, in order.
pub fn chars_of(s: &str) -> (v: Vec<char>)
    ensures
        v@ == s@,
{
    let mut v: Vec<char> = Vec::new();
    for c in it: s.chars()
        invariant
            v@ == it.seq().take(it.index() as int),
            it.seq() == s@,
    {
        v.push(c);
    }
    v
}

/// The string made of `v[lo..hi]`.
pub fn string_of_range(v: &Vec<char>, lo: usize, hi: usize) -> (s: String)
    requires
        lo <= hi <= v.len(),
    ensures
        s@ == v@.subrange(lo as int, hi as int),
{
    let mut s = String::new();
    let mut i: usize = lo;
    while i < hi
        invariant
            lo <= i <= hi <= v.len(),
            s@ == v@.subrange(lo as int, i as int),
        decreases hi - i,
    {
        s.push(v[i]);
        i += 1;
        assert(v@.subrange(lo as int, i as int) == v@.subrange(lo as int, i - 1).push(v@[i - 1]));
    }
    s
}

/// Whether `i` is the position of the first `c` in `s`.
pub open spec fn is_first<T>(s: Seq<T>, c: T, i: int) -> bool {
    &&& 0 <= i < s.len()
    &&& s[i] == c
    &&& forall|j: int| 0 <= j < i ==> s[j] != c
}

/// The position of the first `c` in `s`, if `s` holds one.
pub open spec fn first_index<T>(s: Seq<T>, c: T) -> Option<int> {
    if exists|i: int| is_first(s, c, i) {
        Some(choose|i: int| is_first(s, c, i))
    } else {
        None
    }
}

/// A position that is first is the first position.
pub proof fn lemma_first_index_found<T>(s: Seq<T>, c: T, i: int)
    requires
        is_first(s, c, i),
    ensures
        first_index(s, c) == Some(i),
{
    let k = choose|k: int| is_first(s, c, k);
    assert(is_first(s, c, k));
    if k < i {
        assert(s[k] != c);
    } else if i < k {
        assert(s[i] != c);
    }
}

/// A sequence without `c` has no first position of it.
pub proof fn lemma_first_index_absent<T>(s: Seq<T>, c: T)
    requires
        forall|j: int| 0 <= j < s.len() ==> s[j] != c,
    ensures
        first_index(s, c) is None,
{
}

/// What `first_index` returns is a first position, and `None` means absence.
pub proof fn lemma_first_index<T>(s: Seq<T>, c: T)
    ensures
        match first_index(s, c) {
            Some(i) => is_first(s, c, i),
            None => forall|j: int| 0 <= j < s.len() ==> s[j] != c,
        },
{
    if first_index(s, c) is None {
        assert forall|j: int| 0 <= j < s.len() implies s[j] != c by {
            if s[j] == c {
                lemma_has_first(s, c, j);
            }
        }
    }
}

/// An occurrence of `c` at `n` implies that a first occurrence exists.
proof fn lemma_has_first<T>(s: Seq<T>, c: T, n: int)
    requires
        0 <= n < s.len(),
        s[n] == c,
    ensures
        exists|i: int| is_first(s, c, i),
    decreases n,
{
    if exists|j: int| 0 <= j < n && s[j] == c {
        let j = choose|j: int| 0 <= j < n && s[j] == c;
        lemma_has_first(s, c, j);
    } else {
        assert(is_first(s, c, n));
    }
}

/// Finds the first `c` in `v[lo..hi]`; the result counts from `lo`.
pub fn find_char(v: &Vec<char>, lo: usize, hi: usize, c: char) -> (r: Option<usize>)
    requires
        lo <= hi <= v.len(),
    ensures
        match r {
            Some(i) => first_index(v@.subrange(lo as int, hi as int), c) == Some(i as int),
            None => first_index(v@.subrange(lo as int, hi as int), c) is None,
        },
{
    let ghost s = v@.subrange(lo as int, hi as int);
    let mut i: usize = lo;
    while i < hi
        invariant
            lo <= i <= hi <= v.len(),
            s == v@.subrange(lo as int, hi as int),
            forall|j: int| 0 <= j < i - lo ==> s[j] != c,
        decreases hi - i,
    {
        if v[i] == c {
            proof {
                assert(s[i - lo] == v@[i as int]);
                lemma_first_index_found(s, c, i - lo);
            }
            return Some(i - lo);
        }
        assert(s[i - lo] == v@[i as int]);
        i += 1;
    }
    proof {
        lemma_first_index_absent(s, c);
    }
    None
}

/// Whether `v[lo..hi]` holds exactly the characters of `lit`.
pub fn range_equals(v: &Vec<char>, lo: usize, hi: usize, lit: &str) -> (r: bool)
    requires
        lo <= hi <= v.len(),
    ensures
        r == (v@.subrange(lo as int, hi as int) == lit@),
{
    let w = chars_of(lit);
    let ghost s = v@.subrange(lo as int, hi as int);
    if w.len() != hi - lo {
        return false;
    }
    let mut i: usize = 0;
    while i < w.len()
        invariant
            lo <= hi <= v.len(),
            w.len() == hi - lo,
            w@ == lit@,
            i <= w.len(),
            s == v@.subrange(lo as int, hi as int),
            forall|j: int| 0 <= j < i ==> s[j] == w@[j],
        decreases w.len() - i,
    {
        if v[lo + i] != w[i] {
            assert(s[i as int] == v@[lo + i]);
            return false;
        }
        assert(s[i as int] == v@[lo + i]);
        i += 1;
    }
    assert(s =~= w@);
    true
}

/// Whether `a` and `b` hold the same characters.
pub fn same_text(a: &str, b: &str) -> (r: bool)
    ensures
        r == (a@ == b@),
{
    let v = chars_of(a);
    assert(v@.subrange(0, v.len() as int) =~= a@);
    range_equals(&v, 0, v.len(), b)
}

/// The character of the decimal digit `d`.
pub open spec fn digit_char(d: int) -> char {
    if d == 0 {
        '0'
    } else if d == 1 {
        '1'
    } else if d == 2 {
        '2'
    } else if d == 3 {
        '3'
    } else if d == 4 {
        '4'
    } else if d == 5 {
        '5'
    } else if d == 6 {
        '6'
    } else if d == 7 {
        '7'
    } else if d == 8 {
        '8'
    } else {
        '9'
    }
}

/// The decimal digits of `n`, without leading zeros.
pub open spec fn decimal(n: nat) -> Seq<char>
    decreases n,
{
    if n < 10 {
        seq![digit_char(n as int)]
    } else {
        decimal(n / 10).push(digit_char((n % 10) as int))
    }
}

fn digit_of(d: u32) -> (c: char)
    requires
        d < 10,
    ensures
        c == digit_char(d as int),
{
    if d == 0 {
        '0'
    } else if d == 1 {
        '1'
    } else if d == 2 {
        '2'
    } else if d == 3 {
        '3'
    } else if d == 4 {
        '4'
    } else if d == 5 {
        '5'
    } else if d == 6 {
        '6'
    } else if d == 7 {
        '7'
    } else if d == 8 {
        '8'
    } else {
        '9'
    }
}

/// Appends the decimal digits of `n` to `out`.
pub fn push_decimal(out: &mut String, n: u32)
    ensures
        final(out)@ == old(out)@ + decimal(n as nat),
    decreases n,
{
    if n < 10 {
        out.push(digit_of(n));
        assert(out@ =~= old(out)@ + decimal(n as nat));
    } else {
        push_decimal(out, n / 10);
        out.push(digit_of(n % 10));
        assert(out@ =~= old(out)@ + decimal(n as nat));
    }
}

/// Whether `c` is white space: a character with the Unicode property
/// `White_Space`.
pub open spec fn is_space(c: char) -> bool {
    let n = c as u32;
    ||| 0x09 <= n <= 0x0d
    ||| n == 0x20
    ||| n == 0x85
    ||| n == 0xa0
    ||| n == 0x1680
    ||| 0x2000 <= n <= 0x200a
    ||| n == 0x2028
    ||| n == 0x2029
    ||| n == 0x202f
    ||| n == 0x205f
    ||| n == 0x3000
}

/// Whether `c` is white space.
pub fn is_whitespace(c: char) -> (b: bool)
    ensures
        b == is_space(c),
{
    let n: u32 = c as u32;
    (0x09 <= n && n <= 0x0d) || n == 0x20 || n == 0x85 || n == 0xa0 || n == 0x1680 || (0x2000 <= n
        && n <= 0x200a) || n == 0x2028 || n == 0x2029 || n == 0x202f || n == 0x205f || n == 0x3000
}

/// `s` without the white space at its start.
pub open spec fn trim_start(s: Seq<char>) -> Seq<char>
    decreases s.len(),
{
    if s.len() > 0 && is_space(s[0]) {
        trim_start(s.subrange(1, s.len() as int))
    } else {
        s
    }
}

/// `s` without the white space at its end.
pub open spec fn trim_end(s: Seq<char>) -> Seq<char>
    decreases s.len(),
{
    if s.len() > 0 && is_space(s[s.len() - 1]) {
        trim_end(s.subrange(0, s.len() - 1))
    } else {
        s
    }
}

/// `s` without the white space at its start and at its end.
pub open spec fn trim(s: Seq<char>) -> Seq<char> {
    trim_end(trim_start(s))
}

/// The bounds of `v[lo..hi]` without the white space at its start and end.
pub fn trim_range(v: &Vec<char>, lo: usize, hi: usize) -> (r: (usize, usize))
    requires
        lo <= hi <= v.len(),
    ensures
        lo <= r.0 <= r.1 <= hi,
        v@.subrange(r.0 as int, r.1 as int) == trim(v@.subrange(lo as int, hi as int)),
{
    let mut a: usize = lo;
    while a < hi && is_whitespace(v[a])
        invariant
            lo <= a <= hi <= v.len(),
            trim_start(v@.subrange(lo as int, hi as int)) == trim_start(
                v@.subrange(a as int, hi as int),
            ),
        decreases hi - a,
    {
        assert(v@.subrange(a as int, hi as int).subrange(1, hi - a) =~= v@.subrange(
            a + 1,
            hi as int,
        ));
        a += 1;
    }
    assert(trim_start(v@.subrange(lo as int, hi as int)) == v@.subrange(a as int, hi as int));
    let mut b: usize = hi;
    while a < b && is_whitespace(v[b - 1])
        invariant
            a <= b <= hi <= v.len(),
            trim_end(v@.subrange(a as int, hi as int)) == trim_end(v@.subrange(a as int, b as int)),
        decreases b - a,
    {
        assert(v@.subrange(a as int, b as int).subrange(0, b - a - 1) =~= v@.subrange(
            a as int,
            b - 1,
        ));
        b -= 1;
    }
    (a, b)
}

/// Whether `s` starts with `prefix`.
pub open spec fn has_prefix(s: Seq<char>, prefix: Seq<char>) -> bool {
    prefix.len() <= s.len() && s.subrange(0, prefix.len() as int) == prefix
}

/// Whether `s` starts with `prefix`.
pub fn starts_with(s: &str, prefix: &str) -> (b: bool)
    ensures
        b == has_prefix(s@, prefix@),
{
    let v = chars_of(s);
    let n = prefix.unicode_len();
    if n <= v.len() {
        range_equals(&v, 0, n, prefix)
    } else {
        false
    }
}

} // verus!
