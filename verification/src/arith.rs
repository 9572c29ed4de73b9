//! The arithmetic rules: what type each operator gives, and when it is refused.
//!
//! Money never changes scale or rounding behind the author's back: decimals of different scales
//! do not add, decimals with different rounding contracts do not mix, a product of two decimals
//! needs a rounding contract to say how it returns to scale, and `/` on two Ints
//! is refused because one operator cannot say which way it rounds.
use vstd::prelude::*;
use crate::ops::{BinOp, binop_text, write_binop};
use crate::text::{nat_text, write_u64};
use crate::ty::{Type, TypeV, Rounding, type_text, append};

verus! {

/// The sentence that tells a reader how to get a region.
pub open spec fn needs_region_text(what: Seq<char>) -> Seq<char> {
    what + ", so it needs a region: there is none open here. Wrap it in `region name { ... }`, or declare the enclosing function `-> ... allocates` to build in the caller's region."@
}

/// The refusal of `/` on two Ints.
pub open spec fn int_division_text() -> Seq<char> {
    "`/` on two Ints would have to round, and one operator cannot say which way: -7 divided by 2 is -3 rounding toward zero and -4 rounding down. Say which you mean — `divide_floor(a, b)`, `divide_toward_zero(a, b)`, or `remainder(a, b)` for the remainder."@
}

/// The start shared by the decimal refusals: `cannot OP LHS and RHS`.
pub open spec fn cannot_text(op: Seq<char>, l: TypeV, r: TypeV) -> Seq<char> {
    "cannot "@ + op + " "@ + type_text(l) + " and "@ + type_text(r)
}

/// Two decimals that must be the same decimal type, combined by `op`: equal types give that
/// type; different scales are refused; a rounding contract on one side only, or two different
/// contracts, are refused, because two decimals that differ in their contract are different types
/// and are never reconciled silently.
pub open spec fn matched(op: Seq<char>, l: TypeV, r: TypeV) -> Result<TypeV, Seq<char>> {
    if l == r {
        Ok(l)
    } else {
        match (l, r) {
            (TypeV::Decimal { scale: a, rounding: ra }, TypeV::Decimal { scale: b, rounding: rb }) => {
                if a != b {
                    Err(cannot_text(op, l, r) + ": scales must match. Burxt does not silently rescale money."@)
                } else {
                    match (ra, rb) {
                        (Some(x), Some(y)) => if x != y {
                            Err(cannot_text(op, l, r)
                                + ": these are two different rounding contracts, and picking one would be a decision nobody wrote down. Make them the same, or drop one to a plain Decimal<"@
                                + nat_text(a as nat) + ">."@)
                        } else {
                            Ok(TypeV::Decimal { scale: a, rounding: Some(x) })
                        },
                        (None, None) => Ok(TypeV::Decimal { scale: a, rounding: None }),
                        _ => Err(cannot_text(op, l, r) + ": rounding contracts must match. Burxt does not silently pick one."@),
                    }
                }
            },
            _ => Err(cannot_text(op, l, r) + ": rounding contracts must match. Burxt does not silently pick one."@),
        }
    }
}

/// An operation that rounds: allowed on a decimal that carries a rounding contract.
pub open spec fn rounded(op: BinOp, dec: TypeV) -> Result<TypeV, Seq<char>> {
    match dec {
        TypeV::Decimal { scale, rounding: Some(_) } => Ok(dec),
        TypeV::Decimal { scale, rounding: None } => Err(
            "`"@ + binop_text(op) + "` on "@ + type_text(dec)
                + " needs an explicit rounding contract, because the exact result can have more than "@
                + nat_text(scale as nat) + " decimal places. Declare one in the type, e.g. Decimal<"@
                + nat_text(scale as nat) + ", RoundHalfEven> or Decimal<"@ + nat_text(scale as nat)
                + ", RoundHalfUp>."@,
        ),
        _ => Err(Seq::empty()),
    }
}

/// The end of the refusal of a decimal product that no rounding contract governs.
pub open spec fn no_contract_text() -> Seq<char> {
    ", and no rounding contract says how to bring it back to scale. Give both operands the same one, e.g. Decimal<2, RoundHalfEven>, or bind the product to a Decimal with a rounding contract, e.g. `let x: Decimal<2, RoundHalfEven> = ...`."@
}

/// The start of the refusals of a decimal product.
pub open spec fn product_text(l: TypeV, r: TypeV, exact: nat) -> Seq<char> {
    "this multiplication of "@ + type_text(l) + " by "@ + type_text(r) + " has an exact product with "@
        + nat_text(exact) + " decimal places"@
}

/// Decimal times decimal. The exact product's scale is the sum of the operands' scales, and
/// only a rounding contract may bring it back: one asked for by the context, or the one both
/// operands carry when they are the same type. A context asking for exactly the product's scale
/// takes the exact product. With no contract anywhere the product is refused.
pub open spec fn product(l: TypeV, r: TypeV, expected: Option<TypeV>) -> Result<TypeV, Seq<char>>
    recommends
        l is Decimal,
        r is Decimal,
{
    let exact = l->scale + r->scale;
    let representable = exact <= 18;
    let exact_ty = TypeV::Decimal { scale: exact as u32, rounding: None };
    match expected {
        Some(TypeV::Decimal { scale, rounding: Some(_) }) => Ok(expected.unwrap()),
        Some(TypeV::Decimal { scale, rounding: None }) => if representable && scale == exact {
            Ok(exact_ty)
        } else {
            Err(product_text(l, r, exact as nat) + ", and reaching Decimal<"@ + nat_text(scale as nat)
                + "> means rounding it. Say how — Decimal<"@ + nat_text(scale as nat)
                + ", RoundHalfEven> — or take the exact answer with Decimal<"@ + nat_text(exact as nat) + ">"@
                + (if representable { Seq::empty() } else { ", which does not fit an i64"@ }) + "."@)
        },
        _ => if l == r && l->rounding is Some {
            Ok(l)
        } else {
            Err(product_text(l, r, exact as nat) + no_contract_text())
        },
    }
}

/// The type of `l op r`, or the refusal: the core rules of Burxt arithmetic. `expected` is the
/// type the context asks for, if any; `has_region` says whether a region is open to allocate in.
pub open spec fn binop_rule(
    op: BinOp,
    l: TypeV,
    r: TypeV,
    expected: Option<TypeV>,
    has_region: bool,
) -> Result<TypeV, Seq<char>> {
    if op == BinOp::Div && l is Int && r is Int {
        Err(int_division_text())
    } else if l is Int && r is Int {
        Ok(TypeV::Int)
    } else if op == BinOp::Add && l is String && r is String {
        if has_region {
            Ok(TypeV::String)
        } else {
            Err(needs_region_text("joining strings with `+` allocates"@))
        }
    } else if (op == BinOp::Add || op == BinOp::Sub) && l is Decimal && r is Decimal {
        matched(binop_text(op), l, r)
    } else if op == BinOp::Mul && l is Decimal && r is Int {
        Ok(l)
    } else if op == BinOp::Mul && l is Int && r is Decimal {
        Ok(r)
    } else if op == BinOp::Mul && l is Decimal && r is Decimal {
        product(l, r, expected)
    } else if op == BinOp::Div && l is Decimal && r is Decimal {
        match matched(binop_text(op), l, r) {
            Ok(t) => rounded(op, t),
            Err(e) => Err(e),
        }
    } else if op == BinOp::Div && l is Decimal && r is Int {
        rounded(op, l)
    } else {
        Err("type error: cannot apply `"@ + binop_text(op) + "` to "@ + type_text(l) + " and "@ + type_text(r))
    }
}

/// Adding, subtracting or dividing two decimals never rescales or reconciles them: it is accepted
/// only when both operands are the same decimal type, scale and rounding contract alike, and then
/// answers that type; operands of different scales are always refused. A quotient is accepted
/// only when that type carries a rounding contract.
pub proof fn lemma_decimal_operands_match(op: BinOp, l: TypeV, r: TypeV, expected: Option<TypeV>, has_region: bool)
    requires
        l is Decimal,
        r is Decimal,
        op == BinOp::Add || op == BinOp::Sub || op == BinOp::Div,
    ensures
        binop_rule(op, l, r, expected, has_region) is Ok ==> l == r && binop_rule(op, l, r, expected, has_region)->Ok_0 == l,
        l->scale != r->scale ==> binop_rule(op, l, r, expected, has_region) is Err,
        op == BinOp::Div && binop_rule(op, l, r, expected, has_region) is Ok ==> l->rounding is Some,
{
}

/// Dividing a decimal by an Int keeps the decimal's type, and is accepted only when that type
/// carries a rounding contract; dividing two Ints is always refused.
pub proof fn lemma_division_rounds(l: TypeV, r: TypeV, expected: Option<TypeV>, has_region: bool)
    ensures
        l is Decimal && r is Int ==> (binop_rule(BinOp::Div, l, r, expected, has_region) is Ok
            <==> l->rounding is Some),
        l is Decimal && r is Int && binop_rule(BinOp::Div, l, r, expected, has_region) is Ok
            ==> binop_rule(BinOp::Div, l, r, expected, has_region)->Ok_0 == l,
        l is Int && r is Int ==> binop_rule(BinOp::Div, l, r, expected, has_region) is Err,
{
}

/// No implicit conversion between money and whole numbers in a sum: adding or subtracting a
/// decimal and an Int is refused either way round; and joining two strings with `+` is accepted
/// exactly when a region is open to allocate in.
pub proof fn lemma_no_mixed_sums(op: BinOp, l: TypeV, r: TypeV, expected: Option<TypeV>, has_region: bool)
    ensures
        (op == BinOp::Add || op == BinOp::Sub) && ((l is Decimal && r is Int) || (l is Int && r is Decimal))
            ==> binop_rule(op, l, r, expected, has_region) is Err,
        l is String && r is String ==> (binop_rule(BinOp::Add, l, r, expected, has_region) is Ok <==> has_region),
        l is String && r is String && has_region ==> binop_rule(BinOp::Add, l, r, expected, has_region) == Ok::<TypeV, Seq<char>>(TypeV::String),
        l is Int && r is Int && op != BinOp::Div ==> binop_rule(op, l, r, expected, has_region) == Ok::<TypeV, Seq<char>>(TypeV::Int),
{
}

/// Scaling money by a whole number keeps its type. A product of two decimals never loses
/// precision silently: with no type asked for, it is accepted only for two operands of the same
/// decimal type with a rounding contract, and answers that type; asked for a decimal without a
/// contract, it is accepted only at exactly the sum of the operands' scales.
pub proof fn lemma_products(l: TypeV, r: TypeV, expected: Option<TypeV>, has_region: bool)
    ensures
        l is Decimal && r is Int ==> binop_rule(BinOp::Mul, l, r, expected, has_region) == Ok::<TypeV, Seq<char>>(l),
        l is Int && r is Decimal ==> binop_rule(BinOp::Mul, l, r, expected, has_region) == Ok::<TypeV, Seq<char>>(r),
        l is Decimal && r is Decimal && expected is None && binop_rule(BinOp::Mul, l, r, expected, has_region) is Ok
            ==> l == r && l->rounding is Some && binop_rule(BinOp::Mul, l, r, expected, has_region)->Ok_0 == l,
        l is Decimal && r is Decimal && expected is Some && expected->Some_0 is Decimal
            && expected->Some_0->rounding is None
            && binop_rule(BinOp::Mul, l, r, expected, has_region) is Ok
            ==> binop_rule(BinOp::Mul, l, r, expected, has_region)->Ok_0 == expected->Some_0
                && expected->Some_0->scale == l->scale + r->scale,
{
}

/// Whether a value of type `have` may go where `want` was declared: the same type, or a
/// decimal of the same scale with a rounding contract added. Dropping a contract is refused.
pub open spec fn storable_spec(have: TypeV, want: TypeV) -> bool {
    have == want || match (have, want) {
        (TypeV::Decimal { scale: a, rounding: None }, TypeV::Decimal { scale: b, rounding: Some(_) }) => a == b,
        _ => false,
    }
}

/// The decimal scales of two operands fit a `u32` when added.
pub open spec fn scales_fit(l: TypeV, r: TypeV) -> bool {
    (l is Decimal && r is Decimal) ==> l->scale + r->scale <= u32::MAX
}

fn write_cannot(out: &mut String, op: &str, lhs: &Type, rhs: &Type)
    ensures
        final(out)@ == old(out)@ + cannot_text(op@, lhs@, rhs@),
{
    let ghost start = out@;
    append(out, "cannot ");
    append(out, op);
    append(out, " ");
    lhs.write_text(out);
    append(out, " and ");
    rhs.write_text(out);
    assert(out@ =~= start + cannot_text(op@, lhs@, rhs@));
}

/// Both operands must be the same decimal type: equal scale and the same rounding contract, or
/// none on either side; see [`matched`].
pub fn matching_decimal(op: &str, lhs: &Type, rhs: &Type) -> (r: Result<Type, String>)
    ensures
        match r {
            Ok(t) => matched(op@, lhs@, rhs@) == Ok::<TypeV, Seq<char>>(t@),
            Err(e) => matched(op@, lhs@, rhs@) == Err::<TypeV, Seq<char>>(e@),
        },
{
    if lhs.same(rhs) {
        return Ok(lhs.duplicate());
    }
    if let (Type::Decimal { scale: a, rounding: ra }, Type::Decimal { scale: b, rounding: rb }) = (lhs, rhs) {
        let mut out = String::new();
        if *a != *b {
            write_cannot(&mut out, op, lhs, rhs);
            append(&mut out, ": scales must match. Burxt does not silently rescale money.");
            return Err(out);
        }
        match (ra, rb) {
            (Some(x), Some(y)) => {
                if *x != *y {
                    write_cannot(&mut out, op, lhs, rhs);
                    append(&mut out, ": these are two different rounding contracts, and picking one would be a decision nobody wrote down. Make them the same, or drop one to a plain Decimal<");
                    write_u64(&mut out, *a as u64);
                    append(&mut out, ">.");
                    return Err(out);
                }
                return Ok(Type::Decimal { scale: *a, rounding: Some(*x) });
            },
            (None, None) => return Ok(Type::Decimal { scale: *a, rounding: None }),
            _ => {
                write_cannot(&mut out, op, lhs, rhs);
                append(&mut out, ": rounding contracts must match. Burxt does not silently pick one.");
                return Err(out);
            },
        }
    }
    proof {
        crate::ty::lemma_view_variant(*lhs);
        crate::ty::lemma_view_variant(*rhs);
    }
    let mut out = String::new();
    write_cannot(&mut out, op, lhs, rhs);
    append(&mut out, ": rounding contracts must match. Burxt does not silently pick one.");
    Err(out)
}

/// The operation rounds, so the decimal type must carry a rounding contract.
pub fn require_rounding(op: BinOp, dec: &Type) -> (r: Result<Type, String>)
    requires
        dec@ is Decimal,
    ensures
        match r {
            Ok(t) => rounded(op, dec@) == Ok::<TypeV, Seq<char>>(t@),
            Err(e) => rounded(op, dec@) == Err::<TypeV, Seq<char>>(e@),
        },
{
    proof {
        crate::ty::lemma_view_variant(*dec);
    }
    match dec {
        Type::Decimal { scale, rounding: Some(_) } => Ok(dec.duplicate()),
        Type::Decimal { scale, rounding: None } => {
            let mut out = String::new();
            append(&mut out, "`");
            write_binop(&mut out, op);
            append(&mut out, "` on ");
            dec.write_text(&mut out);
            append(&mut out, " needs an explicit rounding contract, because the exact result can have more than ");
            write_u64(&mut out, *scale as u64);
            append(&mut out, " decimal places. Declare one in the type, e.g. Decimal<");
            write_u64(&mut out, *scale as u64);
            append(&mut out, ", RoundHalfEven> or Decimal<");
            write_u64(&mut out, *scale as u64);
            append(&mut out, ", RoundHalfUp>.");
            assert(out@ =~= rounded(op, dec@)->Err_0);
            Err(out)
        },
        _ => Err(String::new()),
    }
}

fn write_product_start(out: &mut String, lhs: &Type, rhs: &Type, exact: u64)
    ensures
        final(out)@ == old(out)@ + product_text(lhs@, rhs@, exact as nat),
{
    let ghost start = out@;
    append(out, "this multiplication of ");
    lhs.write_text(out);
    append(out, " by ");
    rhs.write_text(out);
    append(out, " has an exact product with ");
    write_u64(out, exact);
    append(out, " decimal places");
    assert(out@ =~= start + product_text(lhs@, rhs@, exact as nat));
}

/// Decimal times decimal: see [`product`].
fn decimal_product(lhs: &Type, rhs: &Type, expected: Option<&Type>) -> (r: Result<Type, String>)
    requires
        lhs@ is Decimal,
        rhs@ is Decimal,
        scales_fit(lhs@, rhs@),
    ensures
        match r {
            Ok(t) => product(lhs@, rhs@, match expected { Some(t) => Some(t@), None => None })
                == Ok::<TypeV, Seq<char>>(t@),
            Err(e) => product(lhs@, rhs@, match expected { Some(t) => Some(t@), None => None })
                == Err::<TypeV, Seq<char>>(e@),
        },
{
    proof {
        crate::ty::lemma_view_variant(*lhs);
        crate::ty::lemma_view_variant(*rhs);
    }
    let (ls, lr) = match lhs {
        Type::Decimal { scale, rounding } => (*scale, *rounding),
        _ => (0, None),
    };
    let rs = match rhs {
        Type::Decimal { scale, .. } => *scale,
        _ => 0,
    };
    let exact: u32 = ls + rs;
    let representable = exact <= 18;
    match expected {
        Some(t) => {
            proof {
                crate::ty::lemma_view_variant(*t);
            }
            match t {
                Type::Decimal { scale, rounding: Some(_) } => {
                    return Ok(t.duplicate());
                },
                Type::Decimal { scale, rounding: None } => {
                    if representable && *scale == exact {
                        return Ok(Type::Decimal { scale: exact, rounding: None });
                    }
                    let mut out = String::new();
                    let ghost start = out@;
                    write_product_start(&mut out, lhs, rhs, exact as u64);
                    append(&mut out, ", and reaching Decimal<");
                    write_u64(&mut out, *scale as u64);
                    append(&mut out, "> means rounding it. Say how — Decimal<");
                    write_u64(&mut out, *scale as u64);
                    append(&mut out, ", RoundHalfEven> — or take the exact answer with Decimal<");
                    write_u64(&mut out, exact as u64);
                    append(&mut out, ">");
                    if !representable {
                        append(&mut out, ", which does not fit an i64");
                    }
                    append(&mut out, ".");
                    assert(out@ =~= product(lhs@, rhs@, Some(t@))->Err_0);
                    return Err(out);
                },
                _ => {},
            }
        },
        None => {},
    }
    if lhs.same(rhs) && lr.is_some() {
        return Ok(lhs.duplicate());
    }
    let mut out = String::new();
    write_product_start(&mut out, lhs, rhs, exact as u64);
    append(&mut out, ", and no rounding contract says how to bring it back to scale. Give both operands the same one, e.g. Decimal<2, RoundHalfEven>, or bind the product to a Decimal with a rounding contract, e.g. `let x: Decimal<2, RoundHalfEven> = ...`.");
    assert(out@ =~= product(lhs@, rhs@, match expected { Some(t) => Some(t@), None => None })->Err_0);
    Err(out)
}

/// The type of `lhs op rhs`, or the message that refuses it; see [`binop_rule`].
pub fn check_binop(
    op: BinOp,
    lhs: &Type,
    rhs: &Type,
    expected: Option<&Type>,
    has_region: bool,
) -> (r: Result<Type, String>)
    requires
        scales_fit(lhs@, rhs@),
    ensures
        match r {
            Ok(t) => binop_rule(op, lhs@, rhs@, match expected { Some(t) => Some(t@), None => None }, has_region)
                == Ok::<TypeV, Seq<char>>(t@),
            Err(e) => binop_rule(op, lhs@, rhs@, match expected { Some(t) => Some(t@), None => None }, has_region)
                == Err::<TypeV, Seq<char>>(e@),
        },
{
    proof {
        crate::ty::lemma_view_variant(*lhs);
        crate::ty::lemma_view_variant(*rhs);
    }
    let l_int = matches!(lhs, Type::Int);
    let r_int = matches!(rhs, Type::Int);
    let l_dec = matches!(lhs, Type::Decimal { .. });
    let r_dec = matches!(rhs, Type::Decimal { .. });
    if op == BinOp::Div && l_int && r_int {
        let mut out = String::new();
        append(&mut out, "`/` on two Ints would have to round, and one operator cannot say which way: -7 divided by 2 is -3 rounding toward zero and -4 rounding down. Say which you mean — `divide_floor(a, b)`, `divide_toward_zero(a, b)`, or `remainder(a, b)` for the remainder.");
        return Err(out);
    }
    if l_int && r_int {
        return Ok(Type::Int);
    }
    if op == BinOp::Add && matches!(lhs, Type::String) && matches!(rhs, Type::String) {
        if has_region {
            return Ok(Type::String);
        }
        let mut out = String::new();
        append(&mut out, "joining strings with `+` allocates");
        append(&mut out, ", so it needs a region: there is none open here. Wrap it in `region name { ... }`, or declare the enclosing function `-> ... allocates` to build in the caller's region.");
        return Err(out);
    }
    if (op == BinOp::Add || op == BinOp::Sub) && l_dec && r_dec {
        let op_text = if op == BinOp::Add { "+" } else { "-" };
        return matching_decimal(op_text, lhs, rhs);
    }
    if op == BinOp::Mul && l_dec && r_int {
        return Ok(lhs.duplicate());
    }
    if op == BinOp::Mul && l_int && r_dec {
        return Ok(rhs.duplicate());
    }
    if op == BinOp::Mul && l_dec && r_dec {
        return decimal_product(lhs, rhs, expected);
    }
    if op == BinOp::Div && l_dec && r_dec {
        let result = matching_decimal("/", lhs, rhs)?;
        proof {
            crate::ty::lemma_view_variant(result);
        }
        return require_rounding(op, &result);
    }
    if op == BinOp::Div && l_dec && r_int {
        return require_rounding(op, lhs);
    }
    let mut out = String::new();
    append(&mut out, "type error: cannot apply `");
    write_binop(&mut out, op);
    append(&mut out, "` to ");
    lhs.write_text(&mut out);
    append(&mut out, " and ");
    rhs.write_text(&mut out);
    assert(out@ =~= binop_rule(op, lhs@, rhs@, match expected { Some(t) => Some(t@), None => None }, has_region)->Err_0);
    Err(out)
}

/// Whether a value of type `have` may go where `want` was declared: see [`storable_spec`].
pub fn storable(have: &Type, want: &Type) -> (r: bool)
    ensures
        r == storable_spec(have@, want@),
{
    proof {
        crate::ty::lemma_view_variant(*have);
        crate::ty::lemma_view_variant(*want);
    }
    if have.same(want) {
        return true;
    }
    match (have, want) {
        (Type::Decimal { scale: a, rounding: None }, Type::Decimal { scale: b, rounding: Some(_) }) => *a == *b,
        _ => false,
    }
}

} // verus!
