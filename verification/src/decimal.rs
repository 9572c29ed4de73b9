//! Decimal literals: rescaling a literal's unscaled integer exactly, and typing a literal
//! against the decimal type its context asks for.
use vstd::prelude::*;
use crate::text::{nat_text, write_u64};
use crate::ty::{Type, TypeV, append};

verus! {

/// Ten to the power `n`.
pub open spec fn pow10(n: nat) -> int
    decreases n,
{
    if n == 0 {
        1
    } else {
        10 * pow10((n - 1) as nat)
    }
}

/// Powers of ten are positive and grow with the exponent.
pub proof fn lemma_pow10_grows(a: nat, b: nat)
    requires
        a <= b,
    ensures
        1 <= pow10(a) <= pow10(b),
    decreases b,
{
    if b > a {
        lemma_pow10_grows(a, (b - 1) as nat);
    } else {
        lemma_pow10_positive(a);
    }
}

/// Powers of ten are positive.
pub proof fn lemma_pow10_positive(n: nat)
    ensures
        pow10(n) >= 1,
    decreases n,
{
    if n > 0 {
        lemma_pow10_positive((n - 1) as nat);
    }
}

/// The magnitude of an integer.
pub open spec fn magnitude(u: int) -> int {
    if u < 0 { -u } else { u }
}

/// Division that rounds toward zero, as Rust's `/` does.
pub open spec fn quotient_toward_zero(u: int, f: int) -> int {
    if u < 0 { -(magnitude(u) / f) } else { u / f }
}

/// Ten to the power `n` as an i64, or `None` when it does not fit one.
pub fn checked_pow10(n: u32) -> (r: Option<i64>)
    ensures
        r is Some <==> pow10(n as nat) <= i64::MAX,
        r matches Some(v) ==> v == pow10(n as nat),
{
    let mut acc: i64 = 1;
    let mut i: u32 = 0;
    while i < n
        invariant
            0 <= i <= n,
            acc == pow10(i as nat),
        decreases n - i,
    {
        match acc.checked_mul(10) {
            Some(next) => {
                acc = next;
            },
            None => {
                proof {
                    lemma_pow10_grows((i + 1) as nat, n as nat);
                }
                return None;
            },
        }
        i = i + 1;
    }
    Some(acc)
}

/// The refusal of a widening that overflows an i64.
pub open spec fn widen_overflow_text() -> Seq<char> {
    "decimal overflow while widening scale"@
}

/// The refusal of a narrowing that would drop digits.
pub open spec fn lose_digits_text(from_scale: u32, to_scale: u32) -> Seq<char> {
    "this literal needs "@ + nat_text(from_scale as nat) + " decimal places but the context has only "@
        + nat_text(to_scale as nat)
        + ", and dropping digits from money is refused. Either widen the binding to Decimal<"@
        + nat_text(from_scale as nat) + ">, or write a literal that fits in "@ + nat_text(to_scale as nat)
        + ". (A percent literal like `8.25%` needs 2 more places than the percentage itself: `8.25%` is exactly 0.0825, so it is a Decimal<4>.)"@
}

/// A decimal's unscaled integer rescaled exactly from `from_scale` to `to_scale`: widening
/// multiplies by a power of ten, and must fit an i64; narrowing divides, and is allowed only when
/// nothing is lost. Zero is exact at every scale.
pub open spec fn normalized(unscaled: i64, from_scale: u32, to_scale: u32) -> Result<int, Seq<char>> {
    if from_scale == to_scale || unscaled == 0 {
        Ok(unscaled as int)
    } else if to_scale > from_scale {
        let f = pow10((to_scale - from_scale) as nat);
        if f > i64::MAX || unscaled * f > i64::MAX || unscaled * f < i64::MIN {
            Err(widen_overflow_text())
        } else {
            Ok(unscaled * f)
        }
    } else {
        let f = pow10((from_scale - to_scale) as nat);
        if f > i64::MAX || magnitude(unscaled as int) % f != 0 {
            Err(lose_digits_text(from_scale, to_scale))
        } else {
            Ok(quotient_toward_zero(unscaled as int, f))
        }
    }
}

fn lose_digits(from_scale: u32, to_scale: u32) -> (r: String)
    ensures
        r@ == lose_digits_text(from_scale, to_scale),
{
    let mut out = String::new();
    append(&mut out, "this literal needs ");
    write_u64(&mut out, from_scale as u64);
    append(&mut out, " decimal places but the context has only ");
    write_u64(&mut out, to_scale as u64);
    append(&mut out, ", and dropping digits from money is refused. Either widen the binding to Decimal<");
    write_u64(&mut out, from_scale as u64);
    append(&mut out, ">, or write a literal that fits in ");
    write_u64(&mut out, to_scale as u64);
    append(&mut out, ". (A percent literal like `8.25%` needs 2 more places than the percentage itself: `8.25%` is exactly 0.0825, so it is a Decimal<4>.)");
    assert(out@ =~= lose_digits_text(from_scale, to_scale));
    out
}

/// Rescales a decimal's unscaled integer from `from_scale` to `to_scale`, exactly: see
/// [`normalized`]. Silently dropping precision on money is what Burxt exists to prevent.
pub fn normalize_decimal(unscaled: i64, from_scale: u32, to_scale: u32) -> (r: Result<i64, String>)
    ensures
        match r {
            Ok(v) => normalized(unscaled, from_scale, to_scale) == Ok::<int, Seq<char>>(v as int),
            Err(e) => normalized(unscaled, from_scale, to_scale) == Err::<int, Seq<char>>(e@),
        },
{
    if from_scale == to_scale || unscaled == 0 {
        return Ok(unscaled);
    }
    if to_scale > from_scale {
        let factor = match checked_pow10(to_scale - from_scale) {
            Some(f) => f,
            None => {
                let mut out = String::new();
                append(&mut out, "decimal overflow while widening scale");
                return Err(out);
            },
        };
        match unscaled.checked_mul(factor) {
            Some(v) => Ok(v),
            None => {
                let mut out = String::new();
                append(&mut out, "decimal overflow while widening scale");
                Err(out)
            },
        }
    } else {
        let factor = match checked_pow10(from_scale - to_scale) {
            Some(f) => f,
            None => return Err(lose_digits(from_scale, to_scale)),
        };
        proof {
            lemma_pow10_grows(0, (from_scale - to_scale) as nat);
        }
        if unscaled % factor == 0 {
            Ok(unscaled / factor)
        } else {
            Err(lose_digits(from_scale, to_scale))
        }
    }
}

/// The refusal of a decimal literal past 18 fractional digits.
pub open spec fn too_many_digits_text(scale: u32) -> Seq<char> {
    "this decimal literal has "@ + nat_text(scale as nat)
        + " fractional digits, but Decimal supports at most 18 — a scaled i64 holds no more"@
}

/// The type and value a decimal literal `unscaled × 10^-scale` gets: the scale and rounding
/// contract of the decimal type the context asks for, or its own scale with no contract. The
/// contract never rounds the literal; the literal must be exactly representable.
pub open spec fn literal_typed(unscaled: i64, scale: u32, expected: Option<TypeV>) -> Result<(TypeV, int), Seq<char>> {
    let (target, rounding) = match expected {
        Some(TypeV::Decimal { scale: s, rounding }) => (s, rounding),
        _ => (scale, None),
    };
    if target > 18 {
        Err(too_many_digits_text(target))
    } else {
        match normalized(unscaled, scale, target) {
            Ok(v) => Ok((TypeV::Decimal { scale: target, rounding }, v)),
            Err(e) => Err(e),
        }
    }
}

/// Types a decimal literal: see [`literal_typed`]. Answers the literal's type and its unscaled
/// integer at that type's scale.
pub fn check_decimal_literal(unscaled: i64, scale: u32, expected: Option<&Type>) -> (r: Result<(Type, i64), String>)
    ensures
        match r {
            Ok((t, v)) => literal_typed(unscaled, scale, match expected { Some(t) => Some(t@), None => None })
                == Ok::<(TypeV, int), Seq<char>>((t@, v as int)),
            Err(e) => literal_typed(unscaled, scale, match expected { Some(t) => Some(t@), None => None })
                == Err::<(TypeV, int), Seq<char>>(e@),
        },
{
    let (target, rounding) = match expected {
        Some(Type::Decimal { scale: s, rounding }) => (*s, *rounding),
        _ => (scale, None),
    };
    proof {
        match expected {
            Some(t) => crate::ty::lemma_view_variant(*t),
            None => {},
        }
    }
    if target > 18 {
        let mut out = String::new();
        append(&mut out, "this decimal literal has ");
        write_u64(&mut out, target as u64);
        append(&mut out, " fractional digits, but Decimal supports at most 18 — a scaled i64 holds no more");
        assert(out@ =~= too_many_digits_text(target));
        return Err(out);
    }
    let v = normalize_decimal(unscaled, scale, target)?;
    Ok((Type::Decimal { scale: target, rounding }, v))
}

/// Widening a literal's scale is exact: narrowing the result back gives the literal again.
pub proof fn lemma_widen_then_narrow(unscaled: i64, from_scale: u32, to_scale: u32)
    requires
        from_scale <= to_scale,
        normalized(unscaled, from_scale, to_scale) is Ok,
    ensures
        normalized(normalized(unscaled, from_scale, to_scale)->Ok_0 as i64, to_scale, from_scale)
            == Ok::<int, Seq<char>>(unscaled as int),
{
    if from_scale != to_scale && unscaled != 0 {
        let f = pow10((to_scale - from_scale) as nat);
        lemma_pow10_grows(0, (to_scale - from_scale) as nat);
        let u = unscaled as int;
        let v = u * f;
        let m = magnitude(u);
        assert(magnitude(v) == m * f) by (nonlinear_arith)
            requires v == u * f, f >= 1, m == magnitude(u);
        assert(v != 0 && (v < 0) == (u < 0)) by (nonlinear_arith)
            requires u != 0, f >= 1, v == u * f;
        assert((m * f) % f == 0 && (m * f) / f == m) by (nonlinear_arith)
            requires f >= 1;
    }
}

/// A narrowing that succeeds loses nothing: the result times the power of ten is the literal.
pub proof fn lemma_narrow_is_exact(unscaled: i64, from_scale: u32, to_scale: u32)
    requires
        to_scale <= from_scale,
        normalized(unscaled, from_scale, to_scale) is Ok,
    ensures
        normalized(unscaled, from_scale, to_scale)->Ok_0 * pow10((from_scale - to_scale) as nat) == unscaled,
{
    let r = normalized(unscaled, from_scale, to_scale)->Ok_0;
    let p = pow10((from_scale - to_scale) as nat);
    if from_scale == to_scale {
        assert(p == 1);
        assert(r * p == unscaled) by (nonlinear_arith)
            requires p == 1, r == unscaled;
    } else if unscaled == 0 {
        assert(r * p == unscaled) by (nonlinear_arith)
            requires r == 0, unscaled == 0;
    } else {
        let f = pow10((from_scale - to_scale) as nat);
        lemma_pow10_grows(0, (from_scale - to_scale) as nat);
        let m = magnitude(unscaled as int);
        assert(m % f == 0);
        assert(normalized(unscaled, from_scale, to_scale)->Ok_0 == quotient_toward_zero(unscaled as int, f));
        assert((m / f) * f == m) by (nonlinear_arith)
            requires m % f == 0, f >= 1;
        assert(quotient_toward_zero(unscaled as int, f) * f == unscaled) by (nonlinear_arith)
            requires (m / f) * f == m, m == magnitude(unscaled as int),
                quotient_toward_zero(unscaled as int, f) == (if unscaled < 0 { -(m / f) } else { m / f });
    }
}

} // verus!
