//! Small verified utilities over strings: decimal rendering of integers,
//! character-wise equality, and substring search.

use vstd::prelude::*;
use vstd::string::*;

verus! {

/// The decimal digit character for a value in `0..=9`.
pub open spec fn spec_digit(d: int) -> char {
    if d == 0 {
        '0'
    } else if d == 1 {
        '1'
    } else if d == 2 {
        '2'
    } else if d == 3 {
        '3'
    } else if d == 4 {
        '4'
    } else if d == 5 {
        '5'
    } else if d == 6 {
        '6'
    } else if d == 7 {
        '7'
    } else if d == 8 {
        '8'
    } else {
        '9'
    }
}

/// The decimal rendering of a non-negative integer, most significant digit first.
pub open spec fn spec_u64_dec(x: int) -> Seq<char>
    decreases x,
{
    if x < 10 {
        seq![spec_digit(x)]
    } else {
        spec_u64_dec(x / 10).push(spec_digit(x % 10))
    }
}

/// The decimal rendering of a signed integer.
pub open spec fn spec_i64_dec(x: int) -> Seq<char> {
    if x < 0 {
        seq!['-'] + spec_u64_dec(-x)
    } else {
        spec_u64_dec(x)
    }
}

/// Renders a single decimal digit as a one-character string.
fn digit_str(d: u64) -> (r: String)
    requires
        d < 10,
    ensures
        r@ == seq![spec_digit(d as int)],
{
    let s: &str = if d == 0 {
        "0"
    } else if d == 1 {
        "1"
    } else if d == 2 {
        "2"
    } else if d == 3 {
        "3"
    } else if d == 4 {
        "4"
    } else if d == 5 {
        "5"
    } else if d == 6 {
        "6"
    } else if d == 7 {
        "7"
    } else if d == 8 {
        "8"
    } else {
        "9"
    };
    proof {
        reveal_strlit("0");
        reveal_strlit("1");
        reveal_strlit("2");
        reveal_strlit("3");
        reveal_strlit("4");
        reveal_strlit("5");
        reveal_strlit("6");
        reveal_strlit("7");
        reveal_strlit("8");
        reveal_strlit("9");
        assert(s@ =~= seq![spec_digit(d as int)]);
    }
    s.to_owned()
}

/// Renders `x` in decimal.
pub fn u64_to_string(x: u64) -> (r: String)
    ensures
        r@ == spec_u64_dec(x as int),
    decreases x,
{
    if x < 10 {
        digit_str(x)
    } else {
        let mut s = u64_to_string(x / 10);
        let d = digit_str(x % 10);
        s.append(d.as_str());
        proof {
            assert(s@ =~= spec_u64_dec(x as int));
        }
        s
    }
}

/// Renders `x` in decimal, with a leading minus sign when negative.
pub fn i64_to_string(x: i64) -> (r: String)
    ensures
        r@ == spec_i64_dec(x as int),
{
    if x >= 0 {
        u64_to_string(x as u64)
    } else {
        let mag: u64 = if x == i64::MIN {
            9223372036854775808u64
        } else {
            (-x) as u64
        };
        let mut s = String::new();
        let pre: &str = "-";
        proof {
            reveal_strlit("-");
        }
        s.append(pre);
        let m = u64_to_string(mag);
        s.append(m.as_str());
        proof {
            assert(s@ =~= spec_i64_dec(x as int));
        }
        s
    }
}

/// Compares two string slices by their character sequences.
pub fn str_eq(a: &str, b: &str) -> (r: bool)
    ensures
        r == (a@ == b@),
{
    let sa: String = a.to_owned();
    let sb: String = b.to_owned();
    sa == sb
}

/// `needle` occurs in `hay` starting at character position `i`.
pub open spec fn spec_occurs_at(hay: Seq<char>, needle: Seq<char>, i: int) -> bool {
    0 <= i && i + needle.len() <= hay.len() && hay.subrange(i, i + needle.len()) == needle
}

/// `needle` occurs somewhere in `hay`.
pub open spec fn spec_contains(hay: Seq<char>, needle: Seq<char>) -> bool {
    exists|i: int| spec_occurs_at(hay, needle, i)
}

/// Whether `needle` occurs in `hay` starting at character position `at`.
pub fn occurs_at(hay: &str, needle: &str, at: usize) -> (r: bool)
    requires
        at + needle@.len() <= hay@.len(),
    ensures
        r == spec_occurs_at(hay@, needle@, at as int),
{
    let hlen = hay.unicode_len();
    let nlen = needle.unicode_len();
    let mut k: usize = 0;
    while k < nlen
        invariant
            hlen == hay@.len(),
            at + nlen <= hay@.len(),
            nlen == needle@.len(),
            0 <= k <= nlen,
            forall|t: int| 0 <= t < k ==> hay@[at + t] == needle@[t],
        decreases nlen - k,
    {
        if hay.get_char(at + k) != needle.get_char(k) {
            assert(hay@.subrange(at as int, at + nlen) != needle@) by {
                assert(hay@.subrange(at as int, at + nlen)[k as int] != needle@[k as int]);
            }
            return false;
        }
        k = k + 1;
    }
    proof {
        assert(hay@.subrange(at as int, at + nlen) =~= needle@);
    }
    true
}

/// Whether `needle` occurs anywhere in `hay` (character-wise).
pub fn contains_str(hay: &str, needle: &str) -> (r: bool)
    ensures
        r == spec_contains(hay@, needle@),
{
    let hlen = hay.unicode_len();
    let nlen = needle.unicode_len();
    if nlen > hlen {
        proof {
            assert(forall|i: int| !spec_occurs_at(hay@, needle@, i));
        }
        return false;
    }
    if nlen == 0 {
        proof {
            assert(hay@.subrange(0, 0) =~= needle@);
            assert(spec_occurs_at(hay@, needle@, 0));
        }
        return true;
    }
    let limit = hlen - nlen;
    let mut i: usize = 0;
    while i <= limit
        invariant
            hlen == hay@.len(),
            nlen == needle@.len(),
            1 <= nlen <= hlen,
            limit == hlen - nlen,
            0 <= i <= limit + 1,
            forall|j: int| 0 <= j < i ==> !spec_occurs_at(hay@, needle@, j),
        decreases limit + 1 - i,
    {
        if occurs_at(hay, needle, i) {
            return true;
        }
        i = i + 1;
    }
    proof {
        assert(forall|j: int| !spec_occurs_at(hay@, needle@, j));
    }
    false
}

/// Whether `hay` begins with `needle` (character-wise).
pub fn starts_with_str(hay: &str, needle: &str) -> (r: bool)
    ensures
        r == spec_occurs_at(hay@, needle@, 0),
{
    let hlen = hay.unicode_len();
    let nlen = needle.unicode_len();
    if nlen > hlen {
        return false;
    }
    occurs_at(hay, needle, 0)
}

} // verus!
