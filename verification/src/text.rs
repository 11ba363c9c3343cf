//! Work on strings as sequences of characters: finding a delimiter, cutting a
//! string at it, and comparing without regard to the case of ASCII letters.

use vstd::prelude::*;
use vstd::std_specs::iter::IteratorSpec;
use vstd::string::StrSliceExecFns;

verus! {

/// The place of the first character of `s` that is `d1` or `d2`; the length of
/// `s` if there is none.
pub open spec fn first_of(s: Seq<char>, d1: char, d2: char) -> int
    decreases s.len(),
{
    if s.len() == 0 {
        0
    } else if s[0] == d1 || s[0] == d2 {
        0
    } else {
        1 + first_of(s.drop_first(), d1, d2)
    }
}

/// `i` is the place of the first `d1` or `d2` in `s`, or the length of `s` if
/// neither occurs.
pub open spec fn is_first_of(s: Seq<char>, d1: char, d2: char, i: int) -> bool {
    &&& 0 <= i <= s.len()
    &&& forall|j: int| 0 <= j < i ==> s[j] != d1 && s[j] != d2
    &&& i < s.len() ==> s[i] == d1 || s[i] == d2
}

/// `first_of` is the one place that `is_first_of` describes.
pub proof fn lemma_first_of(s: Seq<char>, d1: char, d2: char, i: int)
    ensures
        is_first_of(s, d1, d2, first_of(s, d1, d2)),
        is_first_of(s, d1, d2, i) ==> i == first_of(s, d1, d2),
    decreases s.len(),
{
    if s.len() > 0 && !(s[0] == d1 || s[0] == d2) {
        let t = s.drop_first();
        lemma_first_of(t, d1, d2, i - 1);
        let f = first_of(t, d1, d2);
        assert forall|j: int| 0 <= j < f + 1 implies s[j] != d1 && s[j] != d2 by {
            if j > 0 {
                assert(s[j] == t[j - 1]);
            }
        }
        if f + 1 < s.len() {
            assert(s[f + 1] == t[f]);
        }
        if is_first_of(s, d1, d2, i) {
            assert(i > 0);
            assert forall|j: int| 0 <= j < i - 1 implies t[j] != d1 && t[j] != d2 by {
                assert(t[j] == s[j + 1]);
            }
            if i - 1 < t.len() {
                assert(t[i - 1] == s[i]);
            }
            assert(is_first_of(t, d1, d2, i - 1));
        }
    }
}

/// Whether `c` occurs in `s`.
pub open spec fn has_char(s: Seq<char>, c: char) -> bool {
    first_of(s, c, c) < s.len()
}

/// `s` cut at its first `d1` or `d2`: what stands before it and what stands
/// after it. Nothing if neither occurs.
pub open spec fn cut(s: Seq<char>, d1: char, d2: char) -> Option<(Seq<char>, Seq<char>)> {
    let i = first_of(s, d1, d2);
    if i < s.len() {
        Some((s.take(i), s.skip(i + 1)))
    } else {
        None
    }
}

/// The place of the first `d1` or `d2` in `s`, and the length of `s`.
pub fn find_first(s: &str, d1: char, d2: char) -> (r: (usize, usize))
    ensures
        r.0 == first_of(s@, d1, d2),
        r.1 == s@.len(),
{
    let n = s.unicode_len();
    let mut it = s.chars();
    let mut i: usize = 0;
    proof {
        assert(s@.skip(0) =~= s@);
    }
    loop
        invariant
            0 <= i <= n,
            n == s@.len(),
            it.remaining() == s@.skip(i as int),
            forall|j: int| 0 <= j < i ==> s@[j] != d1 && s@[j] != d2,
        decreases n - i,
    {
        match it.next() {
            None => {
                proof {
                    lemma_first_of(s@, d1, d2, i as int);
                }
                return (i, n);
            },
            Some(c) => {
                assert(c == s@[i as int]);
                if c == d1 || c == d2 {
                    proof {
                        lemma_first_of(s@, d1, d2, i as int);
                    }
                    return (i, n);
                }
                proof {
                    assert(s@.skip(i as int).drop_first() =~= s@.skip(i as int + 1));
                }
                i = i + 1;
            },
        }
    }
}

/// Whether `c` occurs in `s`.
pub fn contains_char(s: &str, c: char) -> (b: bool)
    ensures
        b == has_char(s@, c),
{
    let (i, n) = find_first(s, c, c);
    i < n
}

/// Cuts `s` at its first `d1` or `d2`.
pub fn cut_at_first(s: &str, d1: char, d2: char) -> (r: Option<(String, String)>)
    ensures
        match r {
            Some(p) => cut(s@, d1, d2) == Some((p.0@, p.1@)),
            None => cut(s@, d1, d2) is None,
        },
{
    let (i, n) = find_first(s, d1, d2);
    if i < n {
        let head = s.substring_char(0, i).to_owned();
        let tail = s.substring_char(i + 1, n).to_owned();
        proof {
            assert(s@.subrange(0, i as int) =~= s@.take(i as int));
            assert(s@.subrange(i as int + 1, n as int) =~= s@.skip(i as int + 1));
        }
        Some((head, tail))
    } else {
        None
    }
}

/// `a` and `b` are the same character, or the same ASCII letter in two cases.
pub open spec fn same_letter(a: char, b: char) -> bool {
    ||| a == b
    ||| ('A' <= a <= 'Z' && a as u32 + 32 == b as u32)
    ||| ('A' <= b <= 'Z' && b as u32 + 32 == a as u32)
}

/// `a` and `b` are the same but for the case of ASCII letters.
pub open spec fn same_ignoring_case(a: Seq<char>, b: Seq<char>) -> bool {
    &&& a.len() == b.len()
    &&& forall|i: int| 0 <= i < a.len() ==> same_letter(a[i], b[i])
}

/// Whether two characters are the same but for the case of an ASCII letter.
pub fn letters_match(a: char, b: char) -> (r: bool)
    ensures
        r == same_letter(a, b),
{
    a == b || ('A' <= a && a <= 'Z' && a as u32 + 32 == b as u32) || ('A' <= b && b <= 'Z' && b as u32
        + 32 == a as u32)
}

/// Whether two strings are the same but for the case of ASCII letters.
pub fn eq_ignoring_case(a: &str, b: &str) -> (r: bool)
    ensures
        r == same_ignoring_case(a@, b@),
{
    let mut ia = a.chars();
    let mut ib = b.chars();
    let ghost mut k: int = 0;
    proof {
        assert(a@.skip(0) =~= a@);
        assert(b@.skip(0) =~= b@);
    }
    loop
        invariant
            0 <= k <= a@.len(),
            k <= b@.len(),
            ia.remaining() == a@.skip(k),
            ib.remaining() == b@.skip(k),
            forall|i: int| 0 <= i < k ==> same_letter(a@[i], b@[i]),
        decreases a@.len() - k,
    {
        let ca = ia.next();
        let cb = ib.next();
        match (ca, cb) {
            (None, None) => {
                return true;
            },
            (Some(x), Some(y)) => {
                assert(x == a@[k] && y == b@[k]);
                if !letters_match(x, y) {
                    return false;
                }
                proof {
                    assert(a@.skip(k).drop_first() =~= a@.skip(k + 1));
                    assert(b@.skip(k).drop_first() =~= b@.skip(k + 1));
                    k = k + 1;
                }
            },
            _ => {
                return false;
            },
        }
    }
}

} // verus!
