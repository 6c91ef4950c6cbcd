//! Character-level helpers on string slices.
//!
//! Everything here is verified; the helpers exist because the classifier
//! compares tokens with keyword literals and flag names character by
//! character.

use vstd::prelude::*;

verus! {

/// True when `pre` is a proper prefix of `s` (strictly shorter than `s`).
pub open spec fn is_strict_prefix_of(pre: Seq<char>, s: Seq<char>) -> bool {
    pre.len() < s.len() && s.subrange(0, pre.len() as int) == pre
}

/// True when `s` starts with `pre` (equality included).
pub open spec fn is_prefix_of(pre: Seq<char>, s: Seq<char>) -> bool {
    pre.len() <= s.len() && s.subrange(0, pre.len() as int) == pre
}

/// True exactly when `s` starts with `pre`.
pub fn str_has_prefix(s: &str, pre: &str) -> (r: bool)
    ensures
        r == is_prefix_of(pre@, s@),
{
    let ls = s.unicode_len();
    let lp = pre.unicode_len();
    if lp > ls {
        return false;
    }
    let mut i: usize = 0;
    while i < lp
        invariant
            ls == s@.len(),
            lp == pre@.len(),
            lp <= ls,
            i <= lp,
            forall|k: int| 0 <= k < i ==> s@[k] == pre@[k],
        decreases lp - i,
    {
        if s.get_char(i) != pre.get_char(i) {
            proof {
                assert(!is_prefix_of(pre@, s@)) by {
                    if is_prefix_of(pre@, s@) {
                        assert(s@.subrange(0, pre@.len() as int)[i as int] == pre@[i as int]);
                    }
                }
            }
            return false;
        }
        i += 1;
    }
    proof {
        assert(s@.subrange(0, pre@.len() as int) =~= pre@);
    }
    true
}

/// Character-by-character string equality.
pub fn str_eq(a: &str, b: &str) -> (r: bool)
    ensures
        r == (a@ == b@),
{
    let la = a.unicode_len();
    let lb = b.unicode_len();
    if la != lb {
        proof {
            assert(a@ != b@) by {
                if a@ == b@ {
                    assert(a@.len() == b@.len());
                }
            }
        }
        return false;
    }
    let mut i: usize = 0;
    while i < la
        invariant
            la == a@.len(),
            la == b@.len(),
            i <= la,
            forall|k: int| 0 <= k < i ==> a@[k] == b@[k],
        decreases la - i,
    {
        if a.get_char(i) != b.get_char(i) {
            return false;
        }
        i += 1;
    }
    proof {
        assert(a@ =~= b@);
    }
    true
}

/// True exactly when `s` starts with `pre` and is strictly longer than it.
pub fn str_has_strict_prefix(s: &str, pre: &str) -> (r: bool)
    ensures
        r == is_strict_prefix_of(pre@, s@),
{
    let ls = s.unicode_len();
    let lp = pre.unicode_len();
    if lp >= ls {
        return false;
    }
    let mut i: usize = 0;
    while i < lp
        invariant
            ls == s@.len(),
            lp == pre@.len(),
            lp < ls,
            i <= lp,
            forall|k: int| 0 <= k < i ==> s@[k] == pre@[k],
        decreases lp - i,
    {
        if s.get_char(i) != pre.get_char(i) {
            proof {
                assert(!is_strict_prefix_of(pre@, s@)) by {
                    if is_strict_prefix_of(pre@, s@) {
                        assert(s@.subrange(0, pre@.len() as int)[i as int] == pre@[i as int]);
                    }
                }
            }
            return false;
        }
        i += 1;
    }
    proof {
        assert(s@.subrange(0, pre@.len() as int) =~= pre@);
    }
    true
}

} // verus!
