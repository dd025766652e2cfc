//! Parsing of the numeric texts that snapshot documents carry.
//!
//! Snapshot fields arrive as the JSON text of each value.  Prices and
//! volumes are read into the fixed-point representation of `stats` (six
//! fractional digits, magnitude at most `VALUE_LIMIT`); timestamps are read
//! as plain 64-bit integers.  The grammar is the JSON number grammar: an
//! optional minus, an integer part, an optional fraction and an optional
//! exponent; anything else, and any value out of range, parses to nothing.

use vstd::prelude::*;
use vstd::string::StrSliceExecFns;

use crate::text::spec_pow10;

verus! {

/// A decimal digit.
pub open spec fn is_digit(c: char) -> bool {
    48 <= c as u32 <= 57
}

/// The value of a decimal digit.
pub open spec fn digit_val(c: char) -> int {
    c as u32 - 48
}

/// Number of consecutive digits of `s` starting at `i`.
pub open spec fn digits_len(s: Seq<char>, i: int) -> int
    decreases s.len() - i when i <= s.len()
{
    if i < 0 || i >= s.len() || !is_digit(s[i]) {
        0
    } else {
        1 + digits_len(s, i + 1)
    }
}

/// The value of the digit run `s[i..j)`.
pub open spec fn digits_val(s: Seq<char>, i: int, j: int) -> int
    decreases j - i,
{
    if j <= i {
        0
    } else {
        digits_val(s, i, j - 1) * 10 + digit_val(s[j - 1])
    }
}

/// Every position of `s[i..j)` holds a digit.
pub open spec fn all_digits(s: Seq<char>, i: int, j: int) -> bool {
    forall|k: int| i <= k < j ==> is_digit(#[trigger] s[k])
}

/// A digit run has a non-negative value.
pub proof fn lemma_digits_val_nonneg(s: Seq<char>, i: int, j: int)
    requires
        all_digits(s, i, j),
    ensures
        digits_val(s, i, j) >= 0,
    decreases j - i,
{
    if j > i {
        lemma_digits_val_nonneg(s, i, j - 1);
    }
}

/// Extending a digit run never shrinks its value.
pub proof fn lemma_digits_val_extend(s: Seq<char>, i: int, j0: int, j: int)
    requires
        i <= j0 <= j,
        all_digits(s, i, j),
    ensures
        digits_val(s, i, j) >= digits_val(s, i, j0),
    decreases j - j0,
{
    if j > j0 {
        lemma_digits_val_extend(s, i, j0, j - 1);
        lemma_digits_val_nonneg(s, i, j - 1);
    }
}

/// Whether the character of `s` at `j` is a digit.
fn is_digit_at(s: &str, j: usize) -> (r: bool)
    requires
        j < s@.len(),
    ensures
        r == is_digit(s@[j as int]),
{
    let c = s.get_char(j);
    let u = c as u32;
    48 <= u && u <= 57
}

/// Largest digit-run value tracked exactly; beyond it a number is rejected.
pub const MANT_LIMIT_U128: u128 = 1_000_000_000_000_000_000_000_000_000_000;

/// Scan the digit run of `s` starting at `start`: its end, and its value
/// when that value stays below the given limit.
pub(crate) fn scan_digits(s: &str, start: usize, limit: u128) -> (r: (usize, Option<u128>))
    requires
        start <= s@.len(),
        1 <= limit <= (u128::MAX - 9) / 10,
    ensures
        r.0 - start == digits_len(s@, start as int),
        start <= r.0 <= s@.len(),
        all_digits(s@, start as int, r.0 as int),
        match r.1 {
            Some(v) => v == digits_val(s@, start as int, r.0 as int) && v < limit,
            None => digits_val(s@, start as int, r.0 as int) >= limit,
        },
{
    let n = s.unicode_len();
    let mut j = start;
    let mut acc: u128 = 0;
    let mut sat = false;
    let ghost mut jsat: int = 0;
    while j < n && is_digit_at(s, j)
        invariant
            start <= j <= n,
            n == s@.len(),
            1 <= limit <= (u128::MAX - 9) / 10,
            digits_len(s@, start as int) == j - start + digits_len(s@, j as int),
            all_digits(s@, start as int, j as int),
            !sat ==> acc == digits_val(s@, start as int, j as int) && acc < limit,
            sat ==> start <= jsat <= j && digits_val(s@, start as int, jsat) >= limit,
        decreases n - j,
    {
        let c = s.get_char(j);
        let d = (c as u32 - 48) as u128;
        if !sat {
            let next = acc * 10 + d;
            if next < limit {
                acc = next;
            } else {
                proof {
                    jsat = j + 1;
                }
                sat = true;
            }
        }
        j += 1;
    }
    proof {
        if sat {
            lemma_digits_val_extend(s@, start as int, jsat, j as int);
        }
    }
    if sat {
        (j, None)
    } else {
        (j, Some(acc))
    }
}

/// Ten to the power of every exponent is positive.
proof fn lemma_pow10_pos(k: nat)
    ensures
        spec_pow10(k) >= 1,
    decreases k,
{
    if k > 0 {
        lemma_pow10_pos((k - 1) as nat);
    }
}

/// Powers of ten grow with the exponent.
proof fn lemma_pow10_monotone(a: nat, b: nat)
    requires
        a <= b,
    ensures
        spec_pow10(a) <= spec_pow10(b),
    decreases b,
{
    lemma_pow10_pos(a);
    if a < b {
        lemma_pow10_monotone(a, (b - 1) as nat);
        lemma_pow10_pos((b - 1) as nat);
    }
}

/// The concrete powers of ten the parser reasons with.
proof fn lemma_pow10_values()
    ensures
        spec_pow10(6) == 1_000_000,
        spec_pow10(16) == 10_000_000_000_000_000,
        spec_pow10(17) == 100_000_000_000_000_000,
        spec_pow10(30) == 1_000_000_000_000_000_000_000_000_000_000,
        spec_pow10(31) == 10_000_000_000_000_000_000_000_000_000_000,
{
    reveal_with_fuel(spec_pow10, 33);
}

/// Ten to the power `k`, for the exponents the parser evaluates.
fn pow10_u128(k: usize) -> (r: u128)
    requires
        k <= 31,
    ensures
        r == spec_pow10(k as nat),
        r >= 1,
{
    proof {
        lemma_pow10_values();
    }
    let mut acc: u128 = 1;
    let mut j: usize = 0;
    while j < k
        invariant
            0 <= j <= k <= 31,
            acc == spec_pow10(j as nat),
        decreases k - j,
    {
        proof {
            lemma_pow10_monotone((j + 1) as nat, 31);
            lemma_pow10_values();
            assert(spec_pow10(31nat) == 10 * spec_pow10(30nat));
        }
        acc = acc * 10;
        j += 1;
    }
    proof {
        lemma_pow10_pos(k as nat);
    }
    acc
}

/// Compare `m * p` against `limit` through the quotient `limit / p`.
proof fn lemma_mul_vs_div(m: int, p: int, limit: int)
    requires
        p >= 1,
        m >= 0,
        limit >= 0,
    ensures
        m <= limit / p ==> m * p <= limit,
        m > limit / p ==> m * p > limit,
{
    vstd::arithmetic::div_mod::lemma_fundamental_div_mod(limit, p);
    vstd::arithmetic::div_mod::lemma_mod_bound(limit, p);
    let q = limit / p;
    let r = limit % p;
    if m <= q {
        assert(m * p <= q * p) by (nonlinear_arith)
            requires
                m <= q,
                p >= 1,
                m >= 0,
        ;
        assert(q * p == p * q) by (nonlinear_arith);
    } else {
        assert(m * p >= (q + 1) * p) by (nonlinear_arith)
            requires
                m >= q + 1,
                p >= 1,
        ;
        assert((q + 1) * p == p * q + p) by (nonlinear_arith);
    }
}

/// A signed 64-bit integer in decimal text: an optional minus and digits,
/// nothing else, with a value in the `i64` range.
pub open spec fn spec_parse_i64(s: Seq<char>) -> Option<i64> {
    let neg = s.len() > 0 && s[0] == '-';
    let i0: int = if neg {
        1
    } else {
        0
    };
    let d = digits_len(s, i0);
    if d == 0 || i0 + d != s.len() {
        None
    } else {
        let v = digits_val(s, i0, s.len() as int);
        if neg {
            if v <= 9223372036854775808 {
                Some((-v) as i64)
            } else {
                None
            }
        } else {
            if v <= 9223372036854775807 {
                Some(v as i64)
            } else {
                None
            }
        }
    }
}

/// Parse a signed 64-bit integer from decimal text.
pub fn parse_i64_str(s: &str) -> (r: Option<i64>)
    ensures
        r == spec_parse_i64(s@),
{
    let n = s.unicode_len();
    let neg = n > 0 && s.get_char(0) == '-';
    let start: usize = if neg {
        1
    } else {
        0
    };
    if start >= n {
        return None;
    }
    let (j, acc) = scan_digits(s, start, 10_000_000_000_000_000_000);
    if j == start || j != n {
        return None;
    }
    match acc {
        None => {
            proof {
                assert(digits_val(s@, start as int, n as int) >= 10_000_000_000_000_000_000);
            }
            None
        },
        Some(v) => {
            if neg {
                if v <= 9223372036854775808 {
                    Some((-(v as i128)) as i64)
                } else {
                    None
                }
            } else {
                if v <= 9223372036854775807 {
                    Some(v as i64)
                } else {
                    None
                }
            }
        },
    }
}

/// The parts of a JSON number text: sign, mantissa digits as one integer,
/// fraction length and explicit exponent.
pub struct NumberParts {
    pub neg: bool,
    pub mant: int,
    pub frac_len: int,
    pub exp: int,
}

/// The JSON number grammar over a character sequence: an optional minus, a
/// non-empty integer part, an optional non-empty fraction and an optional
/// signed exponent, covering the whole text.
pub open spec fn spec_number_parts(s: Seq<char>) -> Option<NumberParts> {
    let neg = s.len() > 0 && s[0] == '-';
    let i0: int = if neg {
        1
    } else {
        0
    };
    let di = digits_len(s, i0);
    if di == 0 {
        None
    } else {
        let i1 = i0 + di;
        let has_frac = i1 < s.len() && s[i1] == '.';
        let df = if has_frac {
            digits_len(s, i1 + 1)
        } else {
            0
        };
        if has_frac && df == 0 {
            None
        } else {
            let i2 = if has_frac {
                i1 + 1 + df
            } else {
                i1
            };
            let mant = digits_val(s, i0, i1) * spec_pow10(df as nat) + if has_frac {
                digits_val(s, i1 + 1, i2)
            } else {
                0
            };
            let has_exp = i2 < s.len() && (s[i2] == 'e' || s[i2] == 'E');
            if !has_exp {
                if i2 == s.len() {
                    Some(NumberParts { neg, mant, frac_len: df, exp: 0 })
                } else {
                    None
                }
            } else {
                let es = i2 + 1;
                let eneg = es < s.len() && s[es] == '-';
                let dstart = if es < s.len() && (s[es] == '-' || s[es] == '+') {
                    es + 1
                } else {
                    es
                };
                let de = digits_len(s, dstart);
                if de == 0 || dstart + de != s.len() {
                    None
                } else {
                    let ev = digits_val(s, dstart, s.len() as int);
                    Some(
                        NumberParts {
                            neg,
                            mant,
                            frac_len: df,
                            exp: if eneg {
                                -ev
                            } else {
                                ev
                            },
                        },
                    )
                }
            }
        }
    }
}

/// The fixed-point value of a parsed number: the mantissa shifted by the
/// exponent onto the six-digit scale, truncated toward zero, rejected when
/// the mantissa digits or the magnitude pass the tracked limits.
pub open spec fn spec_scaled_value(p: NumberParts) -> Option<i64> {
    if p.mant >= MANT_LIMIT_U128 {
        None
    } else {
        let e10 = p.exp - p.frac_len + 6;
        let a = if e10 >= 0 {
            p.mant * (spec_pow10(e10 as nat) as int)
        } else {
            p.mant / (spec_pow10((-e10) as nat) as int)
        };
        if a > crate::stats::VALUE_LIMIT {
            None
        } else {
            Some(
                (if p.neg {
                    -a
                } else {
                    a
                }) as i64,
            )
        }
    }
}

/// A JSON number text as a scaled fixed-point value.
pub open spec fn spec_parse_scaled(s: Seq<char>) -> Option<i64> {
    match spec_number_parts(s) {
        None => None,
        Some(p) => spec_scaled_value(p),
    }
}

/// Cap under which exponent digits are tracked exactly.
const EXP_LIMIT_U128: u128 = 10_000_000_000_000_000_000_000_000;

/// Every position of a digit run holds a digit.
proof fn lemma_digits_len_digits(s: Seq<char>, i: int, k: int)
    requires
        0 <= i <= k,
        i <= s.len(),
        k < i + digits_len(s, i),
    ensures
        is_digit(s[k]),
    decreases k - i,
{
    assert(digits_len(s, i) > 0);
    assert(0 <= i < s.len() && is_digit(s[i]));
    assert(digits_len(s, i) == 1 + digits_len(s, i + 1));
    if k > i {
        lemma_digits_len_digits(s, i + 1, k);
    }
}

/// The mantissa of a parsed number is non-negative.
proof fn lemma_parts_mant_nonneg(s: Seq<char>)
    requires
        spec_number_parts(s) is Some,
    ensures
        spec_number_parts(s)->Some_0.mant >= 0,
{
    let p = spec_number_parts(s)->Some_0;
    let neg = s.len() > 0 && s[0] == '-';
    let i0: int = if neg {
        1
    } else {
        0
    };
    let di = digits_len(s, i0);
    let i1 = i0 + di;
    assert forall|k: int| i0 <= k < i1 implies is_digit(#[trigger] s[k]) by {
        lemma_digits_len_digits(s, i0, k);
    }
    lemma_digits_val_nonneg(s, i0, i1);
    let has_frac = i1 < s.len() && s[i1] == '.';
    let df = if has_frac {
        digits_len(s, i1 + 1)
    } else {
        0
    };
    if has_frac {
        assert forall|k: int| i1 + 1 <= k < i1 + 1 + df implies is_digit(#[trigger] s[k]) by {
            lemma_digits_len_digits(s, i1 + 1, k);
        }
        lemma_digits_val_nonneg(s, i1 + 1, i1 + 1 + df);
    }
    lemma_pow10_pos(df as nat);
    assert(digits_val(s, i0, i1) * spec_pow10(df as nat) >= 0) by (nonlinear_arith)
        requires
            digits_val(s, i0, i1) >= 0,
            spec_pow10(df as nat) >= 1,
    ;
}

/// A parsed scaled value stays within the fixed-point bounds.
pub proof fn lemma_parse_scaled_bounds(s: Seq<char>)
    ensures
        spec_parse_scaled(s) matches Some(v) ==> -crate::stats::VALUE_LIMIT <= v
            <= crate::stats::VALUE_LIMIT,
{
    if spec_parse_scaled(s) is Some {
        let p = spec_number_parts(s)->Some_0;
        lemma_parts_mant_nonneg(s);
        let e10 = p.exp - p.frac_len + 6;
        if e10 >= 0 {
            lemma_pow10_pos(e10 as nat);
            assert(p.mant * (spec_pow10(e10 as nat) as int) >= 0) by (nonlinear_arith)
                requires
                    p.mant >= 0,
                    spec_pow10(e10 as nat) >= 1,
            ;
        } else {
            lemma_pow10_pos((-e10) as nat);
            vstd::arithmetic::div_mod::lemma_div_pos_is_pos(
                p.mant,
                spec_pow10((-e10) as nat) as int,
            );
        }
    }
}

/// Parse a JSON number text into a scaled fixed-point value.
#[verifier::rlimit(100)]
pub fn parse_scaled_decimal(s: &str) -> (r: Option<i64>)
    ensures
        r == spec_parse_scaled(s@),
{
    proof {
        lemma_pow10_values();
    }
    let n = s.unicode_len();
    let neg = n > 0 && s.get_char(0) == '-';
    let i0: usize = if neg {
        1
    } else {
        0
    };
    if i0 >= n {
        return None;
    }
    let (i1, int_acc) = scan_digits(s, i0, MANT_LIMIT_U128);
    if i1 == i0 {
        return None;
    }
    let has_frac = i1 < n && s.get_char(i1) == '.';
    let (i2, frac_acc, df) = if has_frac {
        let (e, a) = scan_digits(s, i1 + 1, MANT_LIMIT_U128);
        if e == i1 + 1 {
            return None;
        }
        (e, a, e - (i1 + 1))
    } else {
        (i1, Some(0u128), 0usize)
    };
    // Mantissa: integer digits shifted over the fraction, plus the fraction.
    let mant: Option<u128> = match (int_acc, frac_acc) {
        (Some(iv), Some(fv)) => {
            if iv >= 1 && df >= 31 {
                proof {
                    lemma_pow10_monotone(31, df as nat);
                    assert((digits_val(s@, i0 as int, i1 as int)) * spec_pow10(df as nat)
                        >= spec_pow10(df as nat)) by (nonlinear_arith)
                        requires
                            digits_val(s@, i0 as int, i1 as int) >= 1,
                            spec_pow10(df as nat) >= 0,
                    ;
                    if has_frac {
                        lemma_digits_val_nonneg(s@, i1 + 1, i2 as int);
                    }
                }
                None
            } else if iv == 0 {
                proof {
                    assert(0 * (spec_pow10(df as nat) as int) == 0) by (nonlinear_arith);
                }
                Some(fv)
            } else {
                let p = pow10_u128(df);
                let q = (MANT_LIMIT_U128 - 1) / p;
                proof {
                    lemma_mul_vs_div(iv as int, p as int, (MANT_LIMIT_U128 - 1) as int);
                    if has_frac {
                        lemma_digits_val_nonneg(s@, i1 + 1, i2 as int);
                    }
                }
                if iv > q {
                    None
                } else {
                    let shifted = iv * p;
                    proof {
                        assert(shifted == digits_val(s@, i0 as int, i1 as int) * (spec_pow10(
                            df as nat,
                        ) as int));
                    }
                    if shifted >= MANT_LIMIT_U128 - fv {
                        None
                    } else {
                        Some(shifted + fv)
                    }
                }
            }
        },
        (None, _) => {
            proof {
                lemma_pow10_pos(df as nat);
                assert((digits_val(s@, i0 as int, i1 as int)) * spec_pow10(df as nat)
                    >= digits_val(s@, i0 as int, i1 as int)) by (nonlinear_arith)
                    requires
                        digits_val(s@, i0 as int, i1 as int) >= 0,
                        spec_pow10(df as nat) >= 1,
                ;
                lemma_digits_val_nonneg(s@, i0 as int, i1 as int);
                if has_frac {
                    lemma_digits_val_nonneg(s@, i1 + 1, i2 as int);
                }
            }
            None
        },
        (_, None) => {
            proof {
                lemma_pow10_pos(df as nat);
                lemma_digits_val_nonneg(s@, i0 as int, i1 as int);
                assert((digits_val(s@, i0 as int, i1 as int)) * spec_pow10(df as nat) >= 0)
                    by (nonlinear_arith)
                    requires
                        digits_val(s@, i0 as int, i1 as int) >= 0,
                        spec_pow10(df as nat) >= 1,
                ;
            }
            None
        },
    };
    // Exponent.
    let has_exp = i2 < n && {
        let c = s.get_char(i2);
        c == 'e' || c == 'E'
    };
    let (exp_neg, exp_acc): (bool, Option<u128>) = if has_exp {
        let es = i2 + 1;
        let eneg = es < n && s.get_char(es) == '-';
        let epos = es < n && s.get_char(es) == '+';
        let dstart = if eneg || epos {
            es + 1
        } else {
            es
        };
        if dstart > n {
            return None;
        }
        let (je, ea) = scan_digits(s, dstart, EXP_LIMIT_U128);
        if je == dstart || je != n {
            return None;
        }
        (eneg, ea)
    } else {
        if i2 != n {
            return None;
        }
        (false, Some(0u128))
    };
    // Combine mantissa and exponent into the scaled value.
    let mv = match mant {
        None => {
            return None;
        },
        Some(v) => v,
    };
    let ghost parts = spec_number_parts(s@)->Some_0;
    proof {
        let sv = s@;
        let i0s: int = if neg {
            1
        } else {
            0
        };
        assert(i0s == i0);
        assert(digits_len(sv, i0s) == i1 - i0);
        assert(i1 - i0 > 0);
        let i1s = i0s + digits_len(sv, i0s);
        assert(i1s == i1);
        let has_frac_s = i1s < sv.len() && sv[i1s] == '.';
        assert(has_frac_s == has_frac);
        if has_frac {
            assert(digits_len(sv, i1s + 1) == df);
            assert(df > 0);
        }
        let i2s: int = if has_frac_s {
            i1s + 1 + df
        } else {
            i1s
        };
        assert(i2s == i2);
        let has_exp_s = i2s < sv.len() && (sv[i2s] == 'e' || sv[i2s] == 'E');
        assert(has_exp_s == has_exp);
        if !has_exp {
            assert(i2 == n);
        }
        assert(spec_number_parts(sv) is Some);
        assert(parts.neg == neg);
        assert(parts.frac_len == df);
        assert(parts.mant == mv);
    }
    if mv == 0 {
        proof {
            let e10 = parts.exp - parts.frac_len + 6;
            if e10 >= 0 {
                assert(0 * spec_pow10(e10 as nat) == 0) by (nonlinear_arith);
            } else {
                lemma_pow10_pos((-e10) as nat);
                vstd::arithmetic::div_mod::lemma_basic_div(0, spec_pow10((-e10) as nat) as int);
            }
        }
        return Some(0);
    }
    let ev = match exp_acc {
        None => {
            // The exponent magnitude is beyond any tracked range: the value
            // either vastly overflows the limit or truncates to zero.
            if exp_neg {
                proof {
                    let e10 = parts.exp - parts.frac_len + 6;
                    assert(parts.exp <= -(EXP_LIMIT_U128 as int));
                    assert(e10 < 0);
                    lemma_pow10_monotone(31, (-e10) as nat);
                    vstd::arithmetic::div_mod::lemma_basic_div(
                        parts.mant,
                        spec_pow10((-e10) as nat) as int,
                    );
                }
                return Some(0);
            } else {
                proof {
                    let e10 = parts.exp - parts.frac_len + 6;
                    assert(parts.exp >= EXP_LIMIT_U128 as int);
                    assert(e10 >= 17);
                    lemma_pow10_monotone(17, e10 as nat);
                    assert(parts.mant * spec_pow10(e10 as nat) >= spec_pow10(e10 as nat))
                        by (nonlinear_arith)
                        requires
                            parts.mant >= 1,
                            spec_pow10(e10 as nat) >= 0,
                    ;
                }
                return None;
            }
        },
        Some(v) => v,
    };
    let e10: i128 = (if exp_neg {
        -(ev as i128)
    } else {
        ev as i128
    }) - (df as i128) + 6;
    proof {
        assert(e10 == parts.exp - parts.frac_len + 6);
    }
    let a: u128 = if e10 >= 0 {
        if e10 >= 17 {
            proof {
                lemma_pow10_monotone(17, e10 as nat);
                assert(parts.mant * spec_pow10(e10 as nat) >= spec_pow10(e10 as nat))
                    by (nonlinear_arith)
                    requires
                        parts.mant >= 1,
                        spec_pow10(e10 as nat) >= 0,
                ;
            }
            return None;
        }
        let p = pow10_u128(e10 as usize);
        let q = (crate::stats::VALUE_LIMIT as u128) / p;
        proof {
            lemma_mul_vs_div(mv as int, p as int, crate::stats::VALUE_LIMIT as int);
        }
        if mv > q {
            return None;
        }
        mv * p
    } else {
        if e10 <= -31 {
            proof {
                lemma_pow10_monotone(31, (-e10) as nat);
                vstd::arithmetic::div_mod::lemma_basic_div(
                    parts.mant,
                    spec_pow10((-e10) as nat) as int,
                );
            }
            return Some(0);
        }
        let p = pow10_u128((-e10) as usize);
        mv / p
    };
    if a > crate::stats::VALUE_LIMIT as u128 {
        return None;
    }
    if neg {
        Some((-(a as i128)) as i64)
    } else {
        Some(a as i64)
    }
}

} // verus!
