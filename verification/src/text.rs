use vstd::prelude::*;
use vstd::string::*;

verus! {

/// ASCII lowercase mapping of one character; other characters are unchanged.
pub open spec fn ascii_lower(c: char) -> char {
    if 'A' <= c && c <= 'Z' {
        ((c as u32) + 32) as char
    } else {
        c
    }
}

/// ASCII lowercase mapping of a string.
pub open spec fn ascii_lowercase(s: Seq<char>) -> Seq<char> {
    Seq::new(s.len(), |i: int| ascii_lower(s[i]))
}

/// Compares `s`, lowercased as ASCII, with `lit`.
pub fn eq_ascii_lowercase(s: &str, lit: &str) -> (r: bool)
    ensures
        r == (ascii_lowercase(s@) == lit@),
{
    let n = s.unicode_len();
    let m = lit.unicode_len();
    if n != m {
        proof {
            assert(ascii_lowercase(s@).len() != lit@.len());
        }
        return false;
    }
    let mut i: usize = 0;
    while i < n
        invariant
            n == s@.len(),
            m == lit@.len(),
            n == m,
            i <= n,
            forall|j: int| 0 <= j < i ==> ascii_lower(s@[j]) == lit@[j],
        decreases n - i,
    {
        let c = s.get_char(i);
        let l = lit.get_char(i);
        let same = if 'A' <= c && c <= 'Z' {
            (c as u32) + 32 == (l as u32)
        } else {
            c == l
        };
        if !same {
            proof {
                assert(ascii_lowercase(s@)[i as int] != lit@[i as int]);
            }
            return false;
        }
        i = i + 1;
    }
    proof {
        assert(ascii_lowercase(s@) =~= lit@);
    }
    true
}

} // verus!

verus! {

/// ASCII lowercasing moves exactly the letters `A` to `Z` to `a` to `z` (32 code points
/// up) and leaves every other character alone; it keeps the length, and lowercasing
/// twice changes nothing more.
pub proof fn ascii_lowercasing(c: char, s: Seq<char>)
    ensures
        'A' <= c <= 'Z' ==> ascii_lower(c) as u32 == c as u32 + 32 && 'a' <= ascii_lower(c)
            <= 'z',
        !('A' <= c <= 'Z') ==> ascii_lower(c) == c,
        ascii_lowercase(s).len() == s.len(),
        ascii_lowercase(ascii_lowercase(s)) == ascii_lowercase(s),
{
    assert(ascii_lowercase(ascii_lowercase(s)) =~= ascii_lowercase(s));
}

} // verus!
