//! Character-level helpers for the line-oriented text the crate works on.
//!
//! Everything here is expressed over the `Seq<char>` view of `&str`, so the
//! parsers and the rewriter can state their contracts directly in terms of
//! the characters of their inputs.

use vstd::prelude::*;
use vstd::string::StrSliceExecFns;

verus! {

/// Index of the first occurrence of `c` in `s` at or after `i`, or `s.len()`
/// if `c` does not occur there.
pub open spec fn spec_find_char(s: Seq<char>, c: char, i: int) -> int
    recommends
        0 <= i <= s.len(),
    decreases s.len() - i when 0 <= i <= s.len()
{
    if i < 0 || i >= s.len() {
        s.len() as int
    } else if s[i] == c {
        i
    } else {
        spec_find_char(s, c, i + 1)
    }
}

pub proof fn lemma_find_char(s: Seq<char>, c: char, i: int)
    requires
        0 <= i <= s.len(),
    ensures
        i <= spec_find_char(s, c, i) <= s.len(),
        spec_find_char(s, c, i) < s.len() ==> s[spec_find_char(s, c, i)] == c,
        forall|j: int| i <= j < spec_find_char(s, c, i) ==> s[j] != c,
    decreases s.len() - i,
{
    if i < s.len() && s[i] != c {
        lemma_find_char(s, c, i + 1);
    }
}

/// First occurrence of `c` in `s` at or after `start`, or the length of `s`.
pub fn find_char(s: &str, c: char, start: usize) -> (r: usize)
    requires
        start <= s@.len(),
    ensures
        r == spec_find_char(s@, c, start as int),
{
    let n = s.unicode_len();
    let mut i: usize = start;
    while i < n
        invariant
            start <= i <= n,
            n == s@.len(),
            spec_find_char(s@, c, start as int) == spec_find_char(s@, c, i as int),
        decreases n - i,
    {
        if s.get_char(i) == c {
            return i;
        }
        i = i + 1;
    }
    n
}

/// Whether two string slices hold the same characters.
pub fn str_eq(a: &str, b: &str) -> (r: bool)
    ensures
        r == (a@ == b@),
{
    let an = a.unicode_len();
    let bn = b.unicode_len();
    if an != bn {
        return false;
    }
    let mut i: usize = 0;
    while i < an
        invariant
            i <= an,
            an == a@.len(),
            bn == b@.len(),
            an == bn,
            forall|j: int| 0 <= j < i ==> a@[j] == b@[j],
        decreases an - i,
    {
        if s_ne(a.get_char(i), b.get_char(i)) {
            return false;
        }
        i = i + 1;
    }
    proof {
        assert(a@ =~= b@);
    }
    true
}

/// Whether two characters differ.
fn s_ne(a: char, b: char) -> (r: bool)
    ensures
        r == (a != b),
{
    a != b
}

/// Whether `p` is a prefix of `s`.
pub open spec fn spec_has_prefix(s: Seq<char>, p: Seq<char>) -> bool {
    p.len() <= s.len() && s.subrange(0, p.len() as int) == p
}

pub fn has_prefix(s: &str, p: &str) -> (r: bool)
    ensures
        r == spec_has_prefix(s@, p@),
{
    let sn = s.unicode_len();
    let pn = p.unicode_len();
    if pn > sn {
        return false;
    }
    let mut i: usize = 0;
    while i < pn
        invariant
            i <= pn <= sn,
            sn == s@.len(),
            pn == p@.len(),
            forall|j: int| 0 <= j < i ==> s@[j] == p@[j],
        decreases pn - i,
    {
        if s_ne(s.get_char(i), p.get_char(i)) {
            proof {
                assert(s@.subrange(0, p@.len() as int)[i as int] == s@[i as int]);
            }
            return false;
        }
        i = i + 1;
    }
    proof {
        assert(s@.subrange(0, p@.len() as int) =~= p@);
    }
    true
}

/// `s` without `p` at its front when `p` is a prefix of `s`, `s` itself
/// otherwise.
pub open spec fn spec_strip_prefix(s: Seq<char>, p: Seq<char>) -> Seq<char> {
    if spec_has_prefix(s, p) {
        s.skip(p.len() as int)
    } else {
        s
    }
}

pub fn strip_prefix_or_self<'a>(s: &'a str, p: &str) -> (r: &'a str)
    ensures
        r@ == spec_strip_prefix(s@, p@),
{
    if has_prefix(s, p) {
        let r = s.substring_char(p.unicode_len(), s.unicode_len());
        proof {
            assert(r@ =~= s@.skip(p@.len() as int));
        }
        r
    } else {
        s
    }
}

/// The characters Rust's `str::trim` removes: the Unicode white-space set.
pub open spec fn is_space_char(c: char) -> bool {
    ||| c == '\u{0009}'
    ||| c == '\u{000A}'
    ||| c == '\u{000B}'
    ||| c == '\u{000C}'
    ||| c == '\u{000D}'
    ||| c == '\u{0020}'
    ||| c == '\u{0085}'
    ||| c == '\u{00A0}'
    ||| c == '\u{1680}'
    ||| c == '\u{2000}'
    ||| c == '\u{2001}'
    ||| c == '\u{2002}'
    ||| c == '\u{2003}'
    ||| c == '\u{2004}'
    ||| c == '\u{2005}'
    ||| c == '\u{2006}'
    ||| c == '\u{2007}'
    ||| c == '\u{2008}'
    ||| c == '\u{2009}'
    ||| c == '\u{200A}'
    ||| c == '\u{2028}'
    ||| c == '\u{2029}'
    ||| c == '\u{202F}'
    ||| c == '\u{205F}'
    ||| c == '\u{3000}'
}

/// Whether `c` is Unicode white space.
pub fn is_space(c: char) -> (r: bool)
    ensures
        r == is_space_char(c),
{
    c == '\u{0009}' || c == '\u{000A}' || c == '\u{000B}' || c == '\u{000C}' || c == '\u{000D}'
        || c == '\u{0020}' || c == '\u{0085}' || c == '\u{00A0}' || c == '\u{1680}' || (
    c >= '\u{2000}' && c <= '\u{200A}') || c == '\u{2028}' || c == '\u{2029}' || c == '\u{202F}'
        || c == '\u{205F}' || c == '\u{3000}'
}

/// The characters `str::trim_ascii_end` removes.
pub open spec fn is_ascii_space_char(c: char) -> bool {
    c == '\u{0009}' || c == '\u{000A}' || c == '\u{000C}' || c == '\u{000D}' || c == '\u{0020}'
}

/// Whether `c` is ASCII white space.
pub fn is_ascii_space(c: char) -> (r: bool)
    ensures
        r == is_ascii_space_char(c),
{
    c == '\u{0009}' || c == '\u{000A}' || c == '\u{000C}' || c == '\u{000D}' || c == '\u{0020}'
}

/// `s` without its trailing white space.
pub open spec fn spec_trim_end(s: Seq<char>) -> Seq<char>
    decreases s.len(),
{
    if s.len() == 0 {
        s
    } else if is_space_char(s.last()) {
        spec_trim_end(s.drop_last())
    } else {
        s
    }
}

/// `s` without its leading white space.
pub open spec fn spec_trim_start(s: Seq<char>) -> Seq<char>
    decreases s.len(),
{
    if s.len() == 0 {
        s
    } else if is_space_char(s.first()) {
        spec_trim_start(s.drop_first())
    } else {
        s
    }
}

/// `s` without white space at either end, as `str::trim` leaves it.
pub open spec fn spec_trim(s: Seq<char>) -> Seq<char> {
    spec_trim_start(spec_trim_end(s))
}

/// `s` without trailing ASCII white space, as `trim_ascii_end` leaves it.
pub open spec fn spec_trim_end_ascii(s: Seq<char>) -> Seq<char>
    decreases s.len(),
{
    if s.len() == 0 {
        s
    } else if is_ascii_space_char(s.last()) {
        spec_trim_end_ascii(s.drop_last())
    } else {
        s
    }
}

/// Removes white space from both ends of `s`.
pub fn trim(s: &str) -> (r: &str)
    ensures
        r@ == spec_trim(s@),
{
    let n = s.unicode_len();
    let mut e: usize = n;
    proof {
        assert(s@.take(n as int) =~= s@);
    }
    while e > 0 && is_space(s.get_char(e - 1))
        invariant
            e <= n,
            n == s@.len(),
            spec_trim_end(s@) == spec_trim_end(s@.take(e as int)),
        decreases e,
    {
        proof {
            assert(s@.take(e as int).last() == s@[e - 1]);
            assert(s@.take(e as int).drop_last() =~= s@.take(e as int - 1));
        }
        e = e - 1;
    }
    proof {
        if e > 0 {
            assert(s@.take(e as int).last() == s@[e - 1]);
        }
        assert(spec_trim_end(s@) == s@.take(e as int));
    }
    let mut b: usize = 0;
    while b < e && is_space(s.get_char(b))
        invariant
            b <= e <= n,
            n == s@.len(),
            spec_trim_end(s@) == s@.take(e as int),
            spec_trim_start(s@.take(e as int)) == spec_trim_start(s@.subrange(b as int, e as int)),
        decreases e - b,
    {
        proof {
            assert(s@.subrange(b as int, e as int).first() == s@[b as int]);
            assert(s@.subrange(b as int, e as int).drop_first() =~= s@.subrange(
                b as int + 1,
                e as int,
            ));
        }
        b = b + 1;
    }
    proof {
        if b < e {
            assert(s@.subrange(b as int, e as int).first() == s@[b as int]);
        } else {
            assert(s@.subrange(b as int, e as int) =~= Seq::<char>::empty());
        }
        assert(spec_trim(s@) == s@.subrange(b as int, e as int));
    }
    s.substring_char(b, e)
}

/// Removes ASCII white space from the end of `s`.
pub fn trim_end_ascii(s: &str) -> (r: &str)
    ensures
        r@ == spec_trim_end_ascii(s@),
{
    let n = s.unicode_len();
    let mut e: usize = n;
    proof {
        assert(s@.take(n as int) =~= s@);
    }
    while e > 0 && is_ascii_space(s.get_char(e - 1))
        invariant
            e <= n,
            n == s@.len(),
            spec_trim_end_ascii(s@) == spec_trim_end_ascii(s@.take(e as int)),
        decreases e,
    {
        proof {
            assert(s@.take(e as int).last() == s@[e - 1]);
            assert(s@.take(e as int).drop_last() =~= s@.take(e as int - 1));
        }
        e = e - 1;
    }
    proof {
        if e > 0 {
            assert(s@.take(e as int).last() == s@[e - 1]);
        }
        assert(spec_trim_end_ascii(s@) == s@.take(e as int));
    }
    let r = s.substring_char(0, e);
    proof {
        assert(r@ =~= s@.take(e as int));
    }
    r
}

/// Index of the last occurrence of `c` in `s`, or `-1` if it is absent.
pub open spec fn spec_find_last(s: Seq<char>, c: char) -> int
    decreases s.len(),
{
    if s.len() == 0 {
        -1
    } else if s.last() == c {
        s.len() - 1
    } else {
        spec_find_last(s.drop_last(), c)
    }
}

pub proof fn lemma_find_last_bounds(s: Seq<char>, c: char)
    ensures
        -1 <= spec_find_last(s, c) < s.len() || (s.len() == 0 && spec_find_last(s, c) == -1),
        spec_find_last(s, c) >= -1,
        spec_find_last(s, c) < s.len(),
    decreases s.len(),
{
    if s.len() > 0 && s.last() != c {
        lemma_find_last_bounds(s.drop_last(), c);
    }
}

/// Last occurrence of `c` in `s`, as `Some` index, or `None` if absent.
pub fn find_last(s: &str, c: char) -> (r: Option<usize>)
    ensures
        match r {
            Option::Some(i) => i == spec_find_last(s@, c),
            Option::None => spec_find_last(s@, c) == -1,
        },
{
    let n = s.unicode_len();
    let mut e: usize = n;
    proof {
        assert(s@.take(n as int) =~= s@);
    }
    while e > 0
        invariant
            e <= n,
            n == s@.len(),
            spec_find_last(s@, c) == spec_find_last(s@.take(e as int), c),
        decreases e,
    {
        proof {
            assert(s@.take(e as int).last() == s@[e - 1]);
            assert(s@.take(e as int).drop_last() =~= s@.take(e as int - 1));
        }
        if s.get_char(e - 1) == c {
            return Some(e - 1);
        }
        e = e - 1;
    }
    proof {
        assert(s@.take(0) =~= Seq::<char>::empty());
    }
    None
}

} // verus!
