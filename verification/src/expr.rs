//! The scale-expression evaluator.
//!
//! A scale expression describes how to change a replica count. It is one of
//! three transformations:
//! - set-to-fixed (`--replicas 7`): ignore the current count;
//! - relative-additive (`+2`, `-2`, `2`): add a signed amount;
//! - relative-percentage (`+50%`, `-12.5%`): multiply by an exact rational
//!   factor `(100 ± magnitude) / 100` and round toward negative infinity.
//!
//! Percentages are held as an exact integer fraction `num / den`, so the
//! documented "multiply, floor, then add" order is reproduced without any
//! floating-point rounding. The final count is clamped to the `i32` range.

use vstd::prelude::*;

use vstd::arithmetic::div_mod::{
    lemma_fundamental_div_mod,
    lemma_fundamental_div_mod_converse_div,
};
use vstd::arithmetic::mul::lemma_mul_inequality;

use crate::digits::{
    all_digits,
    digits_val,
    digits_value_checked,
    has_neg_sign,
    is_digit,
    lemma_digits_val_concat,
    lemma_digits_val_lt_pow10,
    lemma_digits_val_nonneg,
    lemma_pow10_le,
    lemma_pow10_pos,
    pow10,
    sign_len,
    unsigned_part,
};

verus! {

/// Largest percentage magnitude (scaled to an integer by its decimal places)
/// that a token may carry.
pub const PCT_MAG_LIMIT: u64 = 1_000_000_000_000_000_000;

/// Most decimal places a percentage magnitude may carry.
pub const PCT_FRAC_MAX: usize = 6;

/// A parsed scale expression: an inspectable transformation from the current
/// replica count to the target count.
#[derive(Debug, Clone, Copy, PartialEq, Eq, Structural)]
pub enum ScaleOp {
    /// Set the count to this value, whatever it was (`--replicas N`).
    Absolute(i32),
    /// Add this signed amount to the count (`+N`, `-N`, `N`).
    Relative(i32),
    /// Multiply the count by `num / den` and round toward negative infinity
    /// (`+P%`, `-P%`, `P%`). `den` is `100` scaled by the magnitude's decimal
    /// places; `num` is `den` plus or minus the scaled magnitude.
    Percent { num: i64, den: i64 },
}

/// `v` forced into the `i32` range.
pub open spec fn clamp_i32(v: int) -> int {
    if v < -2147483648 {
        -2147483648
    } else if v > 2147483647 {
        2147483647
    } else {
        v
    }
}

impl ScaleOp {
    /// A percentage carries a positive denominator; the parser only ever
    /// builds such values.
    pub open spec fn wf(self) -> bool {
        match self {
            ScaleOp::Percent { den, .. } => den > 0,
            _ => true,
        }
    }

    /// What applying the transformation to count `x` yields. Division is
    /// mathematical (Euclidean), so `x * num / den` rounds toward negative
    /// infinity.
    pub open spec fn apply_spec(self, x: int) -> int {
        match self {
            ScaleOp::Absolute(n) => n as int,
            ScaleOp::Relative(d) => clamp_i32(x + d),
            ScaleOp::Percent { num, den } => clamp_i32((x * num) / (den as int)),
        }
    }

    /// Applies the transformation to the current replica count.
    ///
    /// The result is a pure function of `self` and `x`: evaluating twice on
    /// the same input yields the same output.
    pub fn apply(&self, x: i32) -> (r: i32)
        requires
            self.wf(),
        ensures
            r as int == self.apply_spec(x as int),
    {
        match self {
            ScaleOp::Absolute(n) => *n,
            ScaleOp::Relative(d) => {
                let v: i64 = (x as i64) + (*d as i64);
                if v < -2147483648 {
                    i32::MIN
                } else if v > 2147483647 {
                    i32::MAX
                } else {
                    v as i32
                }
            },
            ScaleOp::Percent { num, den } => {
                proof {
                    let xi = x as int;
                    let ni = *num as int;
                    assert(-(2147483648int * 9223372036854775808int) <= xi * ni <= 2147483648int
                        * 9223372036854775808int) by (nonlinear_arith)
                        requires
                            -2147483648 <= xi <= 2147483647,
                            -9223372036854775808 <= ni <= 9223372036854775807,
                    ;
                }
                let p: i128 = (x as i128) * (*num as i128);
                let q = floor_div_i128(p, *den as i128);
                if q < -2147483648 {
                    i32::MIN
                } else if q > 2147483647 {
                    i32::MAX
                } else {
                    q as i32
                }
            },
        }
    }
}

/// Index of the first `'.'` in `s`, or `s.len()` when there is none.
pub open spec fn dot_index(s: Seq<char>) -> int
    decreases s.len(),
{
    if s.len() == 0 {
        0
    } else if s[0] == '.' {
        0
    } else {
        1 + dot_index(s.drop_first())
    }
}

/// The characterization of [`dot_index`]: a position with no dot before it,
/// and a dot at it unless it is the end, is the dot index.
pub proof fn lemma_dot_index_eq(s: Seq<char>, d: int)
    requires
        0 <= d <= s.len(),
        forall|k: int| 0 <= k < d ==> s[k] != '.',
        d < s.len() ==> s[d] == '.',
    ensures
        dot_index(s) == d,
    decreases s.len(),
{
    if s.len() > 0 && s[0] != '.' {
        assert forall|k: int| 0 <= k < d - 1 implies s.drop_first()[k] != '.' by {
            assert(s.drop_first()[k] == s[k + 1]);
        }
        if d - 1 < s.drop_first().len() {
            assert(s.drop_first()[d - 1] == s[d]);
        }
        lemma_dot_index_eq(s.drop_first(), d - 1);
    }
}

/// The digits of a percentage magnitude before its optional decimal point.
pub open spec fn pct_int(mag: Seq<char>) -> Seq<char> {
    mag.take(dot_index(mag))
}

/// The digits of a percentage magnitude after its optional decimal point.
pub open spec fn pct_frac(mag: Seq<char>) -> Seq<char> {
    if dot_index(mag) < mag.len() {
        mag.skip(dot_index(mag) + 1)
    } else {
        Seq::empty()
    }
}

/// The magnitude scaled to an integer: its digits with the point removed.
pub open spec fn pct_combined(mag: Seq<char>) -> int {
    digits_val(pct_int(mag) + pct_frac(mag))
}

/// The magnitude of a percentage token is accepted when it is digits with at
/// most one decimal point and at least one digit on either side of it, at
/// most [`PCT_FRAC_MAX`] decimal places, and a scaled value of at most
/// [`PCT_MAG_LIMIT`].
pub open spec fn pct_valid(mag: Seq<char>) -> bool {
    &&& (dot_index(mag) >= 1 || pct_frac(mag).len() >= 1)
    &&& all_digits(pct_int(mag))
    &&& all_digits(pct_frac(mag))
    &&& pct_frac(mag).len() <= PCT_FRAC_MAX
    &&& pct_combined(mag) <= PCT_MAG_LIMIT
}

/// Denominator of the exact percentage factor: `100` scaled by the decimal
/// places of the magnitude.
pub open spec fn pct_den(mag: Seq<char>) -> int {
    100 * pow10(pct_frac(mag).len())
}

/// Numerator of the exact percentage factor `(100 ± magnitude) / 100`.
pub open spec fn pct_num(neg: bool, mag: Seq<char>) -> int {
    if neg {
        pct_den(mag) - pct_combined(mag)
    } else {
        pct_den(mag) + pct_combined(mag)
    }
}

/// What [`parse_op`] yields on a token, applying the grammar in order:
/// strip one optional sign, then try the percentage form, then the plain
/// integer form; anything else is a non-match.
pub open spec fn parse_op_spec(s: Seq<char>) -> Option<ScaleOp> {
    let neg = has_neg_sign(s);
    let rest = unsigned_part(s);
    if rest.len() > 0 && rest.last() == '%' {
        let mag = rest.drop_last();
        if pct_valid(mag) {
            Some(
                (ScaleOp::Percent {
                    num: pct_num(neg, mag) as i64,
                    den: pct_den(mag) as i64,
                }),
            )
        } else {
            None
        }
    } else if rest.len() > 0 && all_digits(rest) && digits_val(rest) <= 2147483647 {
        Some(ScaleOp::Relative((if neg {
            -digits_val(rest)
        } else {
            digits_val(rest)
        }) as i32))
    } else {
        None
    }
}

pub proof fn lemma_pow10_frac_max()
    ensures
        pow10(PCT_FRAC_MAX as nat) == 1000000,
{
    reveal_with_fuel(pow10, 8);
}

/// Parses one token as a scale expression.
///
/// A `None` is a silent non-match, not an error: the token is simply not a
/// scale expression, and the caller decides what that means.
#[verifier::rlimit(60)]
pub fn parse_op(s: &str) -> (r: Option<ScaleOp>)
    ensures
        r == parse_op_spec(s@),
        r matches Some(op) ==> op.wf(),
{
    let n = s.unicode_len();
    if n == 0 {
        proof {
            assert(unsigned_part(s@) =~= s@);
        }
        return None;
    }
    let c0 = s.get_char(0);
    let neg = c0 == '-';
    let start: usize = if c0 == '-' || c0 == '+' {
        1
    } else {
        0
    };
    let ghost rest = unsigned_part(s@);
    proof {
        assert(sign_len(s@) == start as int);
        assert(rest =~= s@.subrange(start as int, n as int));
    }
    if start == n {
        return None;
    }
    let clast = s.get_char(n - 1);
    proof {
        assert(rest.last() == s@[n - 1]);
    }
    if clast == '%' {
        let mend = n - 1;
        let ghost mag = rest.drop_last();
        proof {
            assert(mag =~= s@.subrange(start as int, mend as int));
        }
        let mut j: usize = start;
        while j < mend && s.get_char(j) != '.'
            invariant
                start <= j <= mend < s@.len(),
                forall|k: int| start <= k < j ==> s@[k] != '.',
            decreases mend - j,
        {
            j += 1;
        }
        let dotp: usize = j;
        proof {
            assert forall|k: int| 0 <= k < dotp - start implies mag[k] != '.' by {
                assert(mag[k] == s@[start + k]);
            }
            if dotp - start < mag.len() {
                assert(mag[dotp - start] == s@[dotp as int]);
            }
            lemma_dot_index_eq(mag, dotp as int - start as int);
        }
        if dotp == start && dotp + 1 >= mend {
            return None;
        }
        let ghost ip = pct_int(mag);
        let ghost fp = pct_frac(mag);
        let flen: usize = if dotp < mend {
            mend - dotp - 1
        } else {
            0
        };
        proof {
            assert(ip =~= s@.subrange(start as int, dotp as int));
            if dotp < mend {
                assert(fp =~= s@.subrange(dotp as int + 1, mend as int));
            }
            assert(fp.len() == flen as int);
            lemma_digits_val_concat(ip, fp);
            lemma_pow10_pos(fp.len());
        }
        if flen > PCT_FRAC_MAX {
            return None;
        }
        let v2: u64 = if dotp < mend {
            match digits_value_checked(s, dotp + 1, mend, PCT_MAG_LIMIT) {
                Some(v) => v,
                None => {
                    proof {
                        if pct_valid(mag) {
                            lemma_digits_val_nonneg(ip);
                            assert(digits_val(ip) * pow10(fp.len()) >= 0 * pow10(fp.len())) by {
                                lemma_mul_inequality(0, digits_val(ip), pow10(fp.len()));
                            }
                        }
                    }
                    return None;
                },
            }
        } else {
            0
        };
        let v1: u64 = match digits_value_checked(s, start, dotp, PCT_MAG_LIMIT) {
            Some(v) => v,
            None => {
                proof {
                    if pct_valid(mag) {
                        lemma_digits_val_nonneg(fp);
                        assert(digits_val(ip) * pow10(fp.len()) >= digits_val(ip) * 1) by {
                            lemma_mul_inequality(1, pow10(fp.len()), digits_val(ip));
                            lemma_mul_inequality(0, digits_val(ip), pow10(fp.len()));
                            assert(pow10(fp.len()) * digits_val(ip) == digits_val(ip) * pow10(
                                fp.len(),
                            )) by (nonlinear_arith);
                        }
                    }
                }
                return None;
            },
        };
        let mut den0: u64 = 1;
        let mut t: usize = 0;
        while t < flen
            invariant
                t <= flen <= PCT_FRAC_MAX,
                den0 as int == pow10(t as nat),
            decreases flen - t,
        {
            proof {
                lemma_pow10_le(t as nat, (PCT_FRAC_MAX - 1) as nat);
                reveal_with_fuel(pow10, 8);
            }
            den0 = den0 * 10;
            t += 1;
        }
        proof {
            lemma_pow10_le(flen as nat, PCT_FRAC_MAX as nat);
            lemma_pow10_frac_max();
            lemma_pow10_pos(flen as nat);
            lemma_digits_val_nonneg(ip);
            lemma_digits_val_nonneg(fp);
            lemma_digits_val_lt_pow10(fp);
        }
        proof {
            assert(den0 as int == pow10(fp.len()));
        }
        if v1 > PCT_MAG_LIMIT / den0 {
            proof {
                let l = PCT_MAG_LIMIT as int;
                let d = den0 as int;
                lemma_fundamental_div_mod(l, d);
                assert((l / d + 1) * d == (l / d) * d + d && (l / d) * d == d * (l / d))
                    by (nonlinear_arith);
                lemma_mul_inequality(l / d + 1, v1 as int, d);
                assert(v1 as int * d > l);
                assert(pct_combined(mag) > PCT_MAG_LIMIT);
            }
            return None;
        }
        proof {
            let l = PCT_MAG_LIMIT as int;
            let d = den0 as int;
            lemma_fundamental_div_mod(l, d);
            lemma_mul_inequality(v1 as int, l / d, d);
            assert((l / d) * d == d * (l / d)) by (nonlinear_arith);
            assert(v1 as int * d <= l);
        }
        let hi = v1 * den0;
        let num_u = hi + v2;
        if num_u > PCT_MAG_LIMIT {
            return None;
        }
        let den_i: i64 = 100 * (den0 as i64);
        let m: i64 = if neg {
            den_i - (num_u as i64)
        } else {
            den_i + (num_u as i64)
        };
        proof {
            assert(pct_valid(mag));
            assert(pct_num(neg, mag) == m as int);
            assert(pct_den(mag) == den_i as int);
        }
        Some(ScaleOp::Percent { num: m, den: den_i })
    } else {
        match digits_value_checked(s, start, n, 2147483647) {
            Some(v) => {
                let d: i32 = if neg {
                    -(v as i32)
                } else {
                    v as i32
                };
                Some(ScaleOp::Relative(d))
            },
            None => None,
        }
    }
}

/// Law: for every count `x` and every percentage token `"+P%"`, `"-P%"` or
/// `"P%"` with integer magnitude `P`, parsing succeeds and evaluating on `x`
/// yields `floor(x * (100 ± P) / 100)`, clamped to the `i32` range.
pub proof fn lemma_percent_eval(x: int, sign: Seq<char>, mag: Seq<char>)
    requires
        sign == seq!['+'] || sign == seq!['-'] || sign == Seq::<char>::empty(),
        mag.len() >= 1,
        all_digits(mag),
        digits_val(mag) <= PCT_MAG_LIMIT,
    ensures
        ({
            let dir: int = if sign == seq!['-'] {
                -1
            } else {
                1
            };
            let target = x * (100 + dir * digits_val(mag)) / 100;
            &&& parse_op_spec(sign + mag + seq!['%']) matches Some(op)
            &&& parse_op_spec(sign + mag + seq!['%']).unwrap().apply_spec(x) == clamp_i32(target)
            &&& (-2147483648 <= target <= 2147483647 ==> parse_op_spec(
                sign + mag + seq!['%'],
            ).unwrap().apply_spec(x) == target)
        }),
{
    let tok = sign + mag + seq!['%'];
    let neg = sign == seq!['-'];
    if sign == seq!['+'] || sign == seq!['-'] {
        assert(tok[0] == sign[0]);
    } else {
        assert(tok[0] == mag[0]);
        assert(is_digit(mag[0]));
    }
    assert(has_neg_sign(tok) == neg);
    assert(unsigned_part(tok) =~= mag + seq!['%']);
    let rest = unsigned_part(tok);
    assert(rest.last() == '%');
    assert(rest.drop_last() =~= mag);
    assert forall|k: int| 0 <= k < mag.len() implies mag[k] != '.' by {
        assert(is_digit(mag[k]));
    }
    lemma_dot_index_eq(mag, mag.len() as int);
    assert(pct_int(mag) =~= mag);
    assert(pct_frac(mag) =~= Seq::<char>::empty());
    assert(pct_int(mag) + pct_frac(mag) =~= mag);
    assert(pct_den(mag) == 100);
    assert(pct_valid(mag));
    lemma_digits_val_nonneg(mag);
    let num = pct_num(neg, mag);
    assert(-1000000000000000000 + 100 <= num <= 1000000000000000000 + 100);
    assert(num == 100 + (if neg {
        -1int
    } else {
        1int
    }) * digits_val(mag));
    assert(parse_op_spec(tok) == Some(
        (ScaleOp::Percent { num: num as i64, den: 100 as i64 }),
    ));
}

/// Law: for every count `x` and every additive token `"+N"`, `"-N"` or `"N"`
/// with integer magnitude `N`, parsing succeeds and evaluating on `x` yields
/// `x ± N`, clamped to the `i32` range.
pub proof fn lemma_additive_eval(x: int, sign: Seq<char>, mag: Seq<char>)
    requires
        sign == seq!['+'] || sign == seq!['-'] || sign == Seq::<char>::empty(),
        mag.len() >= 1,
        all_digits(mag),
        digits_val(mag) <= 2147483647,
    ensures
        ({
            let dir: int = if sign == seq!['-'] {
                -1
            } else {
                1
            };
            let target = x + dir * digits_val(mag);
            &&& parse_op_spec(sign + mag) matches Some(op)
            &&& parse_op_spec(sign + mag).unwrap().apply_spec(x) == clamp_i32(target)
            &&& (-2147483648 <= target <= 2147483647 ==> parse_op_spec(
                sign + mag,
            ).unwrap().apply_spec(x) == target)
        }),
{
    let tok = sign + mag;
    let neg = sign == seq!['-'];
    if sign == seq!['+'] || sign == seq!['-'] {
        assert(tok[0] == sign[0]);
    } else {
        assert(tok[0] == mag[0]);
        assert(is_digit(mag[0]));
    }
    assert(has_neg_sign(tok) == neg);
    assert(unsigned_part(tok) =~= mag);
    let rest = unsigned_part(tok);
    assert(rest.last() == mag.last());
    assert(is_digit(mag.last()));
    assert(rest.last() != '%');
    let d: int = if neg {
        -digits_val(mag)
    } else {
        digits_val(mag)
    };
    lemma_digits_val_nonneg(mag);
    assert(parse_op_spec(tok) == Some(ScaleOp::Relative(d as i32)));
}

/// Law: `--replicas N` yields the constant transformation. Whatever the
/// current count `x`, applying [`ScaleOp::Absolute`] yields exactly `n`.
pub proof fn lemma_absolute_eval(n: i32, x: int)
    ensures
        ScaleOp::Absolute(n).apply_spec(x) == n,
{
}

/// Division rounding toward negative infinity, as spec-level `/` does for a
/// positive divisor.
fn floor_div_i128(a: i128, b: i128) -> (r: i128)
    requires
        b > 0,
        a > i128::MIN,
    ensures
        r == a as int / b as int,
{
    if a >= 0 {
        let q = (a as u128) / (b as u128);
        proof {
            lemma_fundamental_div_mod(a as int, b as int);
        }
        q as i128
    } else {
        let na = (-a) as u128;
        let nb = b as u128;
        let q0 = na / nb;
        let r0 = na % nb;
        proof {
            lemma_fundamental_div_mod(na as int, nb as int);
            assert(na as int == (q0 as int) * (b as int) + r0 as int) by {
                assert((nb as int) * (q0 as int) == (q0 as int) * (nb as int)) by (nonlinear_arith);
            }
        }
        if r0 == 0 {
            proof {
                assert(a as int == (-(q0 as int)) * (b as int) + 0) by {
                    assert((-(q0 as int)) * (b as int) == -((q0 as int) * (b as int)))
                        by (nonlinear_arith);
                }
                lemma_fundamental_div_mod_converse_div(a as int, b as int, -(q0 as int), 0);
            }
            -(q0 as i128)
        } else {
            proof {
                assert(a as int == (-(q0 as int) - 1) * (b as int) + (b as int - r0 as int)) by {
                    assert((-(q0 as int) - 1) * (b as int) == -((q0 as int) * (b as int)) - (
                    b as int)) by (nonlinear_arith);
                }
                lemma_fundamental_div_mod_converse_div(
                    a as int,
                    b as int,
                    -(q0 as int) - 1,
                    b as int - r0 as int,
                );
            }
            -(q0 as i128) - 1
        }
    }
}

} // verus!
