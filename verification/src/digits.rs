//! Decimal digit strings: their mathematical value and verified parsing.
//!
//! The evaluator and the `--replicas` flag both read integers out of tokens,
//! so the parsing is done once here, against the spec-level value
//! [`digits_val`] of a digit sequence.

use vstd::prelude::*;

verus! {

/// Largest bound the checked accumulator accepts; keeps `acc * 10 + 9`
/// within `u64`.
pub const ACC_LIMIT: u64 = 1_000_000_000_000_000_000;

/// `c` is an ASCII decimal digit.
pub open spec fn is_digit(c: char) -> bool {
    48 <= c as int <= 57
}

/// Numeric value of a digit character.
pub open spec fn digit_val(c: char) -> int {
    c as int - 48
}

/// Every character of `s` is a decimal digit.
pub open spec fn all_digits(s: Seq<char>) -> bool {
    forall|i: int| 0 <= i < s.len() ==> is_digit(s[i])
}

/// Value of `s` read as a base-10 numeral, most significant digit first.
/// Leading zeros are allowed and do not change the value.
pub open spec fn digits_val(s: Seq<char>) -> int
    decreases s.len(),
{
    if s.len() == 0 {
        0
    } else {
        10 * digits_val(s.drop_last()) + digit_val(s.last())
    }
}

/// `10^n`.
pub open spec fn pow10(n: nat) -> int
    decreases n,
{
    if n == 0 {
        1
    } else {
        10 * pow10((n - 1) as nat)
    }
}

pub proof fn lemma_pow10_pos(n: nat)
    ensures
        pow10(n) >= 1,
    decreases n,
{
    if n > 0 {
        lemma_pow10_pos((n - 1) as nat);
    }
}

pub proof fn lemma_pow10_le(i: nat, j: nat)
    requires
        i <= j,
    ensures
        pow10(i) <= pow10(j),
    decreases j,
{
    if i < j {
        lemma_pow10_le(i, (j - 1) as nat);
        lemma_pow10_pos((j - 1) as nat);
    }
}

pub proof fn lemma_digits_val_nonneg(s: Seq<char>)
    requires
        all_digits(s),
    ensures
        digits_val(s) >= 0,
    decreases s.len(),
{
    if s.len() > 0 {
        assert forall|i: int| 0 <= i < s.drop_last().len() implies is_digit(s.drop_last()[i]) by {
            assert(s.drop_last()[i] == s[i]);
        }
        lemma_digits_val_nonneg(s.drop_last());
        assert(is_digit(s.last()));
    }
}

/// Extending a digit string to the right can only grow its value.
pub proof fn lemma_digits_val_take_le(s: Seq<char>, i: int)
    requires
        all_digits(s),
        0 <= i <= s.len(),
    ensures
        digits_val(s.take(i)) <= digits_val(s),
    decreases s.len() - i,
{
    if i == s.len() {
        assert(s.take(i) =~= s);
    } else {
        assert(s.take(i + 1).drop_last() =~= s.take(i));
        assert forall|k: int| 0 <= k < s.take(i).len() implies is_digit(s.take(i)[k]) by {
            assert(s.take(i)[k] == s[k]);
        }
        lemma_digits_val_nonneg(s.take(i));
        assert(s.take(i + 1).last() == s[i]);
        assert(is_digit(s[i]));
        assert(digits_val(s.take(i + 1)) >= digits_val(s.take(i)));
        lemma_digits_val_take_le(s, i + 1);
    }
}

/// A string of `n` digits is worth less than `10^n`.
pub proof fn lemma_digits_val_lt_pow10(s: Seq<char>)
    requires
        all_digits(s),
    ensures
        digits_val(s) < pow10(s.len()),
    decreases s.len(),
{
    if s.len() > 0 {
        assert forall|i: int| 0 <= i < s.drop_last().len() implies is_digit(s.drop_last()[i]) by {
            assert(s.drop_last()[i] == s[i]);
        }
        lemma_digits_val_lt_pow10(s.drop_last());
        assert(is_digit(s.last()));
        assert(digit_val(s.last()) <= 9);
    }
}

/// Concatenation shifts the left part by one decimal place per right digit.
pub proof fn lemma_digits_val_concat(a: Seq<char>, b: Seq<char>)
    ensures
        digits_val(a + b) == digits_val(a) * pow10(b.len()) + digits_val(b),
    decreases b.len(),
{
    if b.len() == 0 {
        assert(a + b =~= a);
    } else {
        assert((a + b).drop_last() =~= a + b.drop_last());
        lemma_digits_val_concat(a, b.drop_last());
        assert((a + b).last() == b.last());
        let p = pow10((b.len() - 1) as nat);
        assert(10 * (digits_val(a) * p) == digits_val(a) * (10 * p)) by (nonlinear_arith);
    }
}

/// Reads the digits of `s` between `from` and `to` as a number, refusing
/// a non-digit character and any value above `limit`.
pub fn digits_value_checked(s: &str, from: usize, to: usize, limit: u64) -> (r: Option<u64>)
    requires
        from <= to <= s@.len(),
        limit <= ACC_LIMIT,
    ensures
        r is Some <==> (all_digits(s@.subrange(from as int, to as int)) && digits_val(
            s@.subrange(from as int, to as int),
        ) <= limit),
        r matches Some(v) ==> v as int == digits_val(s@.subrange(from as int, to as int)),
{
    let ghost sub = s@.subrange(from as int, to as int);
    let mut acc: u64 = 0;
    let mut j: usize = from;
    while j < to
        invariant
            from <= j <= to <= s@.len(),
            limit <= ACC_LIMIT,
            sub == s@.subrange(from as int, to as int),
            all_digits(sub.take(j - from)),
            acc as int == digits_val(sub.take(j - from)),
            acc <= limit,
        decreases to - j,
    {
        let c = s.get_char(j);
        proof {
            assert(sub[j - from] == s@[j as int]);
        }
        let u = c as u32;
        if u < 48 || u > 57 {
            proof {
                assert(!is_digit(sub[j - from]));
            }
            return None;
        }
        let d = (u - 48) as u64;
        proof {
            assert(sub.take(j - from + 1).drop_last() =~= sub.take(j - from));
            assert(sub.take(j - from + 1).last() == sub[j - from]);
        }
        let next = acc * 10 + d;
        if next > limit {
            proof {
                let pre = sub.take(j - from + 1);
                assert forall|k: int| 0 <= k < pre.len() implies is_digit(pre[k]) by {
                    assert(pre[k] == sub[k]);
                }
                if all_digits(sub) {
                    lemma_digits_val_take_le(sub, j - from + 1);
                }
            }
            return None;
        }
        acc = next;
        j += 1;
    }
    proof {
        assert(sub.take(to - from) =~= sub);
    }
    Some(acc)
}

/// `s` has an optional single leading sign here.
pub open spec fn has_neg_sign(s: Seq<char>) -> bool {
    s.len() > 0 && s[0] == '-'
}

/// Length of the optional leading sign of `s`: `1` or `0`.
pub open spec fn sign_len(s: Seq<char>) -> int {
    if s.len() > 0 && (s[0] == '-' || s[0] == '+') {
        1
    } else {
        0
    }
}

/// The digits of `s` after its optional sign.
pub open spec fn unsigned_part(s: Seq<char>) -> Seq<char> {
    s.skip(sign_len(s))
}

/// `s` is an optionally signed decimal numeral whose value fits in `i32`.
pub open spec fn is_valid_i32(s: Seq<char>) -> bool {
    let ds = unsigned_part(s);
    &&& ds.len() > 0
    &&& all_digits(ds)
    &&& (if has_neg_sign(s) {
        digits_val(ds) <= 2147483648
    } else {
        digits_val(ds) <= 2147483647
    })
}

/// The signed value of a numeral accepted by [`is_valid_i32`].
pub open spec fn i32_of(s: Seq<char>) -> int {
    if has_neg_sign(s) {
        -digits_val(unsigned_part(s))
    } else {
        digits_val(unsigned_part(s))
    }
}

/// Parses an optionally signed decimal numeral, exactly when it fits `i32`.
pub fn parse_i32(s: &str) -> (r: Option<i32>)
    ensures
        r is Some <==> is_valid_i32(s@),
        r matches Some(v) ==> v as int == i32_of(s@),
{
    let n = s.unicode_len();
    if n == 0 {
        proof {
            assert(unsigned_part(s@) =~= s@);
        }
        return None;
    }
    let c0 = s.get_char(0);
    let neg = c0 == '-';
    let start: usize = if c0 == '-' || c0 == '+' {
        1
    } else {
        0
    };
    proof {
        assert(sign_len(s@) == start as int);
        assert(unsigned_part(s@) =~= s@.subrange(start as int, n as int));
    }
    if start == n {
        return None;
    }
    let limit: u64 = if neg {
        2147483648
    } else {
        2147483647
    };
    match digits_value_checked(s, start, n, limit) {
        Some(v) => {
            if neg {
                Some((-(v as i64)) as i32)
            } else {
                Some(v as i32)
            }
        },
        None => None,
    }
}

} // verus!
