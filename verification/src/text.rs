//! Verified text helpers: prefix and substring tests, decimal and
//! hexadecimal rendering of integers.

use vstd::prelude::*;
use vstd::string::StrSliceExecFns;

verus! {

/// `p` is a prefix of `s`.
pub open spec fn spec_starts_with(s: Seq<char>, p: Seq<char>) -> bool {
    p.len() <= s.len() && s.subrange(0, p.len() as int) == p
}

/// Whether `prefix` starts the string `s`, by characters.
pub fn starts_with_prefix(s: &String, prefix: &String) -> (r: bool)
    ensures
        r == spec_starts_with(s@, prefix@),
{
    let s_len = s.as_str().unicode_len();
    let p_len = prefix.as_str().unicode_len();
    if p_len > s_len {
        proof {
            assert(!spec_starts_with(s@, prefix@));
        }
        return false;
    }
    let mut i: usize = 0;
    while i < p_len
        invariant
            i <= p_len,
            p_len <= s_len,
            s_len == s@.len(),
            p_len == prefix@.len(),
            forall|k: int| 0 <= k < i ==> s@[k] == prefix@[k],
        decreases p_len - i,
    {
        if s.as_str().get_char(i) != prefix.as_str().get_char(i) {
            proof {
                assert(s@.subrange(0, prefix@.len() as int)[i as int] != prefix@[i as int]);
            }
            return false;
        }
        i = i + 1;
    }
    proof {
        assert(s@.subrange(0, prefix@.len() as int) =~= prefix@);
    }
    true
}

/// `p` occurs in `s` as a contiguous run of characters.
pub open spec fn spec_contains_seq(s: Seq<char>, p: Seq<char>) -> bool {
    exists|i: int| 0 <= i && i + p.len() <= s.len() && #[trigger] s.subrange(i, i + p.len() as int) == p
}

/// Whether `pat` occurs in `s`, by characters.
pub fn contains_substring(s: &String, pat: &String) -> (r: bool)
    ensures
        r == spec_contains_seq(s@, pat@),
{
    let s_len = s.as_str().unicode_len();
    let p_len = pat.as_str().unicode_len();
    if p_len > s_len {
        return false;
    }
    if p_len == 0 {
        proof {
            assert(s@.subrange(0, 0 + pat@.len() as int) =~= pat@);
        }
        return true;
    }
    let mut i: usize = 0;
    while i <= s_len - p_len
        invariant
            1 <= p_len <= s_len,
            s_len == s@.len(),
            p_len == pat@.len(),
            i <= s_len - p_len + 1,
            forall|k: int| 0 <= k < i ==> #[trigger] s@.subrange(k, k + pat@.len() as int) != pat@,
        decreases s_len - i,
    {
        let mut j: usize = 0;
        let mut matched = true;
        while j < p_len
            invariant
                p_len <= s_len,
                s_len == s@.len(),
                p_len == pat@.len(),
                i + p_len <= s_len,
                j <= p_len,
                matched ==> forall|t: int| 0 <= t < j ==> s@[i + t] == pat@[t],
                !matched ==> s@.subrange(i as int, i + pat@.len() as int) != pat@,
            decreases p_len - j,
        {
            if s.as_str().get_char(i + j) != pat.as_str().get_char(j) {
                proof {
                    assert(s@.subrange(i as int, i + pat@.len() as int)[j as int] != pat@[j as int]);
                }
                matched = false;
                j = p_len;
            } else {
                j = j + 1;
            }
        }
        if matched {
            proof {
                assert(s@.subrange(i as int, i + pat@.len() as int) =~= pat@);
            }
            return true;
        }
        i = i + 1;
    }
    proof {
        assert forall|k: int| 0 <= k && k + pat@.len() <= s@.len()
            implies #[trigger] s@.subrange(k, k + pat@.len() as int) != pat@ by {
            assert(k < i);
        }
    }
    false
}

/// The vector holds a string with this view.
pub open spec fn seq_has_string(s: Seq<String>, x: Seq<char>) -> bool {
    exists|i: int| 0 <= i < s.len() && s[i]@ == x
}

/// Whether the vector holds a string equal to `x`.
pub fn vec_contains_string(v: &Vec<String>, x: &String) -> (r: bool)
    ensures
        r == seq_has_string(v@, x@),
{
    let mut i: usize = 0;
    while i < v.len()
        invariant
            i <= v@.len(),
            forall|k: int| 0 <= k < i ==> #[trigger] v@[k]@ != x@,
        decreases v@.len() - i,
    {
        if v[i] == *x {
            return true;
        }
        i = i + 1;
    }
    false
}

} // verus!
