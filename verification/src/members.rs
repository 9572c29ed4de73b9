//! Reaching into a value: a field of a class or a position of a tuple, and the variant an enum
//! value is built from.
use vstd::prelude::*;
use crate::allocation::shown_type_name;
use crate::compare::view_fields;
use crate::generics::{Instances, InstancesV, shown};
use crate::messages::{field_list, field_list_text, is_tuple_symbol};
use crate::names::NameMap;
use crate::release::{has_name, listed};
use crate::storage::{Layouts, LayoutsV, fields_of, fields_of_name, view_variants};
use crate::arith::{storable, storable_spec};
use crate::typed::{TypedExpr, TypedExprKind};
use crate::text::{int_text, nat_text, push_char, write_i64, write_u64};
use crate::ty::{Type, TypeV, append, type_text, view_types, lemma_view_types};

verus! {

/// Whether a character is a decimal digit.
pub open spec fn is_digit(c: char) -> bool {
    '0' <= c && c <= '9'
}

/// The number a run of decimal digits stands for.
pub open spec fn digits_value(s: Seq<char>) -> nat
    decreases s.len(),
{
    if s.len() == 0 {
        0
    } else {
        10 * digits_value(s.drop_last()) + ((s.last() as int) - ('0' as int)) as nat
    }
}

/// A field name without the `+` it may begin with.
pub open spec fn unsigned_digits(field: Seq<char>) -> Seq<char> {
    if field.len() > 0 && field[0] == '+' { field.drop_first() } else { field }
}

/// Whether every character is a decimal digit.
pub open spec fn all_digits(s: Seq<char>) -> bool {
    forall|i: int| 0 <= i < s.len() ==> is_digit(#[trigger] s[i])
}

/// The position a field name written after a tuple stands for: decimal digits, optionally after
/// a `+`, as an unsigned integer is read from text.
pub open spec fn position_named(field: Seq<char>) -> Option<nat> {
    if unsigned_digits(field).len() > 0 && all_digits(unsigned_digits(field)) {
        Some(digits_value(unsigned_digits(field)))
    } else {
        None
    }
}

/// The positions of a tuple of `n` values, each written `` `.i` ``, separated by `, `.
pub open spec fn positions_text(n: nat) -> Seq<char>
    decreases n,
{
    if n == 0 {
        Seq::empty()
    } else if n == 1 {
        "`.0`"@
    } else {
        positions_text((n - 1) as nat) + ", `."@ + nat_text((n - 1) as nat) + "`"@
    }
}

/// The refusal of `.field` on a tuple, shown as `shown`, of `n` values.
pub open spec fn no_position_text(shown: Seq<char>, n: nat, field: Seq<char>) -> Seq<char> {
    "`"@ + shown + "` is a tuple of "@ + nat_text(n) + " values, so it has no `."@ + field + "`. Its positions are "@
        + positions_text(n) + ", counting from zero."@
}

/// The first position of `field` among the fields, if it is there.
pub open spec fn field_position(fs: Seq<(Seq<char>, TypeV)>, field: Seq<char>) -> Option<int> {
    if exists|i: int| 0 <= i < fs.len() && #[trigger] fs[i].0 == field {
        Some(choose|i: int| 0 <= i < fs.len() && #[trigger] fs[i].0 == field
            && forall|j: int| 0 <= j < i ==> #[trigger] fs[j].0 != field)
    } else {
        None
    }
}

/// What `.field` on a value of type `ty` resolves to: its position and type, or the refusal.
/// `receiver` is the class whose method is being checked, if any; `private` names the private
/// fields of each class.
pub open spec fn field_answer(
    d: LayoutsV,
    inst: InstancesV,
    depth: nat,
    private: Map<Seq<char>, Seq<String>>,
    receiver: Option<Seq<char>>,
    ty: TypeV,
    field: Seq<char>,
) -> Result<(int, TypeV), Seq<char>> {
    match ty {
        TypeV::Tuple(elements) => match position_named(field) {
            Some(i) => if i < elements.len() {
                Ok((i as int, elements[i as int]))
            } else {
                Err(no_position_text(type_text(ty), elements.len(), field))
            },
            None => Err(no_position_text(type_text(ty), elements.len(), field)),
        },
        TypeV::Named(name) => if receiver != Some(name) && private.contains_key(name) && listed(private[name], field) {
            Err("`"@ + name + "."@ + field + "` is private: it is reachable only from `"@ + name
                + "`'s own methods. Read it through a method that `"@ + name
                + "` provides, or drop `private` from the field if it is part of the type's API."@)
        } else {
            match fields_of(d, name) {
                None => Err("unknown type `"@ + name + "`"@),
                Some(fs) => match field_position(fs, field) {
                    Some(i) => Ok((i, fs[i].1)),
                    None => if name.len() > 0 && name[0] == '(' {
                        Err(no_position_text(name, fs.len(), field))
                    } else {
                        Err("`"@ + shown(TypeV::Named(name), inst, depth) + "` has no field named `"@ + field
                            + "`. Its fields are: "@ + field_list_text(d, inst, depth, name) + "."@)
                    },
                },
            }
        },
        _ => Err("`."@ + field + "` needs a class value, but the value has type "@ + type_text(ty) + "."@),
    }
}

proof fn lemma_digits_grow(s: Seq<char>, k: int)
    requires
        0 <= k <= s.len(),
    ensures
        digits_value(s.take(k)) <= digits_value(s),
    decreases s.len() - k,
{
    if k < s.len() {
        lemma_digits_grow(s, k + 1);
        assert(s.take(k + 1).drop_last() =~= s.take(k));
    } else {
        assert(s.take(k) =~= s);
    }
}

/// The position `field` names, when it names one below `len`.
fn position_below(field: &String, len: usize) -> (r: Option<usize>)
    ensures
        match r {
            Some(i) => position_named(field@) == Some(i as nat) && i < len,
            None => !(position_named(field@) matches Some(i) && i < len),
        },
{
    let n = field.unicode_len();
    if len == 0 {
        return None;
    }
    let mut start: usize = 0;
    if n > 0 && field.get_char(0) == '+' {
        start = 1;
    }
    let ghost digits = unsigned_digits(field@);
    assert(digits =~= field@.subrange(start as int, n as int));
    if start == n {
        return None;
    }
    let mut value: usize = 0;
    let mut i: usize = start;
    while i < n
        invariant
            start <= i <= n,
            n == field@.len(),
            digits == unsigned_digits(field@),
            digits =~= field@.subrange(start as int, n as int),
            value < len,
            value == digits_value(digits.take(i - start)),
            forall|k: int| 0 <= k < i - start ==> is_digit(#[trigger] digits[k]),
        decreases n - i,
    {
        let c = field.get_char(i);
        if !('0' <= c && c <= '9') {
            assert(!is_digit(digits[i - start]));
            assert(!all_digits(digits));
            assert(position_named(field@) is None);
            return None;
        }
        let d: usize = (c as u32 - '0' as u32) as usize;
        assert(digits[i - start] == c);
        assert(digits.take(i + 1 - start).drop_last() =~= digits.take(i - start));
        assert(digits_value(digits.take(i + 1 - start)) == 10 * value + d);
        if value >= len / 10 + 1 {
            proof {
                lemma_digits_grow(digits, i + 1 - start);
                let v = value as int;
                let l = len as int;
                assert(10 * v >= l) by (nonlinear_arith)
                    requires v >= l / 10 + 1, l >= 0;
            }
            return None;
        }
        proof {
            let v = value as int;
            let l = len as int;
            assert(10 * v <= l) by (nonlinear_arith)
                requires v < l / 10 + 1, l >= 0;
        }
        let tens = value * 10;
        if d >= len - tens {
            proof {
                lemma_digits_grow(digits, i + 1 - start);
            }
            return None;
        }
        let next = tens + d;
        if next >= len {
            proof {
                lemma_digits_grow(digits, i + 1 - start);
            }
            return None;
        }
        value = next;
        i = i + 1;
    }
    assert(digits.take(i - start) =~= digits);
    assert(all_digits(digits));
    Some(value)
}

fn write_positions(out: &mut String, n: usize)
    ensures
        final(out)@ == old(out)@ + positions_text(n as nat),
{
    let mut i: usize = 0;
    while i < n
        invariant
            0 <= i <= n,
            out@ == old(out)@ + positions_text(i as nat),
        decreases n - i,
    {
        if i == 0 {
            append(out, "`.0`");
        } else {
            append(out, ", `.");
            write_u64(out, i as u64);
            append(out, "`");
        }
        assert(out@ =~= old(out)@ + positions_text((i + 1) as nat));
        i = i + 1;
    }
}

fn no_position(shown: &String, n: usize, field: &String) -> (r: String)
    ensures
        r@ == no_position_text(shown@, n as nat, field@),
{
    let mut out = String::new();
    append(&mut out, "`");
    append(&mut out, shown.as_str());
    append(&mut out, "` is a tuple of ");
    write_u64(&mut out, n as u64);
    append(&mut out, " values, so it has no `.");
    append(&mut out, field.as_str());
    append(&mut out, "`. Its positions are ");
    write_positions(&mut out, n);
    append(&mut out, ", counting from zero.");
    assert(out@ =~= no_position_text(shown@, n as nat, field@));
    out
}

/// Resolves `.field` on a value of type `ty` to the field's position and type. A tuple is read
/// by position, `.0` first; a class by field name, where a private field is reachable only from
/// the class's own methods (`receiver` names the class whose method is being checked). Refused,
/// with a sentence saying what is there instead, when no such position or field exists, when the
/// field is private, when the class is unknown, and when the value is not a class or a tuple.
#[verifier::loop_isolation(false)]
pub fn resolve_field(
    layouts: &Layouts,
    instances: &Instances,
    private: &NameMap<Vec<String>>,
    receiver: &Option<String>,
    ty: &Type,
    field: &String,
) -> (r: Result<(u32, Type), String>)
    ensures
        match field_answer(layouts@, instances@, instances.count(), private@,
            match receiver { Some(c) => Some(c@), None => None }, ty@, field@) {
            Ok((i, t)) => r matches Ok((j, u)) && j == i as u32 && u@ == t,
            Err(m) => r matches Err(e) && e@ == m,
        },
{
    match ty {
        Type::Tuple(elements) => {
            proof {
                crate::ty::lemma_view_types(elements@);
            }
            match position_below(field, elements.len()) {
                Some(i) => {
                    let t = elements[i].duplicate();
                    let j = i as u32;
                    assert(j == (i as int) as u32);
                    assert(t@ == view_types(elements@)[i as int]);
                    Ok((j, t))
                },
                None => {
                    let shown_ty = ty.text();
                    Err(no_position(&shown_ty, elements.len(), field))
                },
            }
        },
        Type::Named(name) => {
            let mine = match receiver {
                Some(c) => *c == *name,
                None => false,
            };
            if !mine {
                match private.get(name) {
                    Some(hidden) => {
                        if has_name(hidden, field) {
                            let mut out = String::new();
                            append(&mut out, "`");
                            append(&mut out, name.as_str());
                            append(&mut out, ".");
                            append(&mut out, field.as_str());
                            append(&mut out, "` is private: it is reachable only from `");
                            append(&mut out, name.as_str());
                            append(&mut out, "`'s own methods. Read it through a method that `");
                            append(&mut out, name.as_str());
                            append(&mut out, "` provides, or drop `private` from the field if it is part of the type's API.");
                            return Err(out);
                        }
                    },
                    None => {},
                }
            }
            match fields_of_name(layouts, name) {
                None => {
                    let mut out = String::new();
                    append(&mut out, "unknown type `");
                    append(&mut out, name.as_str());
                    append(&mut out, "`");
                    Err(out)
                },
                Some(fields) => {
                    let ghost fs = view_fields(fields@);
                    let mut i: usize = 0;
                    while i < fields.len()
                        invariant
                            0 <= i <= fields@.len(),
                            fs == view_fields(fields@),
                            forall|j: int| 0 <= j < i ==> #[trigger] fs[j].0 != field@,
                        decreases fields.len() - i,
                    {
                        if fields[i].0 == *field {
                            assert(fs[i as int].0 == field@);
                            assert(field_position(fs, field@) == Some(i as int)) by {
                                let k = choose|k: int| 0 <= k < fs.len() && #[trigger] fs[k].0 == field@
                                    && forall|j: int| 0 <= j < k ==> #[trigger] fs[j].0 != field@;
                                assert(0 <= k < fs.len() && fs[k].0 == field@
                                    && forall|j: int| 0 <= j < k ==> #[trigger] fs[j].0 != field@);
                                if k < i {
                                    assert(fs[k].0 != field@);
                                } else if k > i {
                                    assert(fs[i as int].0 != field@);
                                }
                            }
                            let t = fields[i].1.duplicate();
                            assert(t@ == fs[i as int].1);
                            let j = i as u32;
                            assert(j == (i as int) as u32);
                            assert(field_answer(layouts@, instances@, instances.count(), private@,
                                match receiver { Some(c) => Some(c@), None => None }, ty@, field@)
                                == Ok::<(int, TypeV), Seq<char>>((i as int, fs[i as int].1)));
                            return Ok((j, t));
                        }
                        i = i + 1;
                    }
                    assert(field_position(fs, field@) is None);
                    if is_tuple_symbol(name.as_str()) {
                        Err(no_position(name, fields.len(), field))
                    } else {
                        let mut out = String::new();
                        append(&mut out, "`");
                        let shown_name = shown_type_name(name, instances);
                        append(&mut out, shown_name.as_str());
                        append(&mut out, "` has no field named `");
                        append(&mut out, field.as_str());
                        append(&mut out, "`. Its fields are: ");
                        let listing = field_list(layouts, instances, name);
                        append(&mut out, listing.as_str());
                        append(&mut out, ".");
                        Err(out)
                    }
                },
            }
        },
        _ => {
            let mut out = String::new();
            append(&mut out, "`.");
            append(&mut out, field.as_str());
            append(&mut out, "` needs a class value, but the value has type ");
            ty.write_text(&mut out);
            append(&mut out, ".");
            assert(out@ =~= "`."@ + field@ + "` needs a class value, but the value has type "@ + type_text(ty@) + "."@);
            Err(out)
        },
    }
}

/// The first position of variant `v`, if the enum has it.
pub open spec fn variant_position(vs: Seq<(Seq<char>, Seq<TypeV>)>, v: Seq<char>) -> Option<int> {
    if exists|i: int| 0 <= i < vs.len() && #[trigger] vs[i].0 == v {
        Some(choose|i: int| 0 <= i < vs.len() && #[trigger] vs[i].0 == v
            && forall|j: int| 0 <= j < i ==> #[trigger] vs[j].0 != v)
    } else {
        None
    }
}

/// The names of the variants, separated by `, `.
pub open spec fn variant_names_text(vs: Seq<(Seq<char>, Seq<TypeV>)>) -> Seq<char>
    decreases vs.len(),
{
    if vs.len() == 0 {
        Seq::empty()
    } else if vs.len() == 1 {
        vs[0].0
    } else {
        variant_names_text(vs.drop_last()) + ", "@ + vs.last().0
    }
}

/// Among the first `n` payload values, the first whose type cannot be stored where the variant
/// expects its payload.
pub open spec fn first_unstorable(have: Seq<TypeV>, want: Seq<TypeV>, n: nat) -> Option<int>
    decreases n,
{
    if n == 0 {
        None
    } else {
        match first_unstorable(have, want, (n - 1) as nat) {
            Some(i) => Some(i),
            None => if storable_spec(have[n - 1], want[n - 1]) { None } else { Some(n - 1) },
        }
    }
}

/// The tag of variant `v` of enum `e` built from payload values of types `have`, or the refusal.
pub open spec fn variant_answer(
    e: Seq<char>,
    vs: Seq<(Seq<char>, Seq<TypeV>)>,
    v: Seq<char>,
    have: Seq<TypeV>,
) -> Result<int, Seq<char>> {
    match variant_position(vs, v) {
        None => Err(no_variant_text(e, vs, v)),
        Some(tag) => {
            let want = vs[tag].1;
            if have.len() != want.len() {
                Err("`"@ + e + "."@ + v + "` carries "@ + nat_text(want.len()) + " value(s), but "@ + nat_text(have.len())
                    + " were given"@)
            } else {
                match first_unstorable(have, want, have.len()) {
                    Some(i) => Err("in `"@ + e + "."@ + v + "`, payload "@ + nat_text((i + 1) as nat) + " must be "@
                        + type_text(want[i]) + ", but it has type "@ + type_text(have[i])),
                    None => Ok(tag),
                }
            }
        },
    }
}

/// The types of checked expressions.
pub open spec fn types_of(args: Seq<TypedExpr>) -> Seq<TypeV> {
    Seq::new(args.len(), |i: int| args[i].ty@)
}

/// The refusal of a variant the enum does not have, listing the ones it has.
pub open spec fn no_variant_text(e: Seq<char>, vs: Seq<(Seq<char>, Seq<TypeV>)>, v: Seq<char>) -> Seq<char> {
    "`"@ + e + "` has no variant named `"@ + v + "`. Its variants are: "@ + variant_names_text(vs) + "."@
}

/// The position of variant `variant` among `variants` of enum `enum_name`: the first one so
/// named, or the refusal listing the variants there are.
#[verifier::loop_isolation(false)]
pub(crate) fn find_variant(enum_name: &String, variants: &Vec<(String, Vec<Type>)>, variant: &String) -> (r: Result<usize, String>)
    ensures
        match variant_position(view_variants(variants@), variant@) {
            Some(t) => r matches Ok(k) && k as int == t && t < variants@.len(),
            None => r matches Err(e) && e@ == no_variant_text(enum_name@, view_variants(variants@), variant@),
        },
{
    let ghost vs = view_variants(variants@);
    let mut tag: usize = 0;
    while tag < variants.len()
        invariant
            0 <= tag <= variants@.len(),
            vs == view_variants(variants@),
            forall|j: int| 0 <= j < tag ==> #[trigger] vs[j].0 != variant@,
        decreases variants.len() - tag,
    {
        if variants[tag].0 == *variant {
            break;
        }
        tag = tag + 1;
    }
    if tag == variants.len() {
        assert(variant_position(vs, variant@) is None);
        let mut out = String::new();
        append(&mut out, "`");
        append(&mut out, enum_name.as_str());
        append(&mut out, "` has no variant named `");
        append(&mut out, variant.as_str());
        append(&mut out, "`. Its variants are: ");
        let mut i: usize = 0;
        while i < variants.len()
            invariant
                0 <= i <= variants@.len(),
                vs == view_variants(variants@),
                out@ == "`"@ + enum_name@ + "` has no variant named `"@ + variant@ + "`. Its variants are: "@
                    + variant_names_text(vs.take(i as int)),
            decreases variants.len() - i,
        {
            if i > 0 {
                append(&mut out, ", ");
            }
            append(&mut out, variants[i].0.as_str());
            assert(vs.take(i + 1).drop_last() =~= vs.take(i as int));
            i = i + 1;
        }
        assert(vs.take(i as int) =~= vs);
        append(&mut out, ".");
        return Err(out);
    }
    assert(vs[tag as int].0 == variant@);
    assert(variant_position(vs, variant@) == Some(tag as int)) by {
        let k = choose|k: int| 0 <= k < vs.len() && #[trigger] vs[k].0 == variant@
            && forall|j: int| 0 <= j < k ==> #[trigger] vs[j].0 != variant@;
        assert(0 <= k < vs.len() && vs[k].0 == variant@ && forall|j: int| 0 <= j < k ==> #[trigger] vs[j].0 != variant@);
        if k < tag {
            assert(vs[k].0 != variant@);
        } else if k > tag {
            assert(vs[tag as int].0 != variant@);
        }
    }
    Ok(tag)
}

/// Builds `E.v(...)` from the variants of enum `enum_name` and the payload values, each already
/// checked against the type the variant expects there. The result is the variant literal with
/// the variant's tag, of type `enum_name`. Refused when the enum has no such variant, when the
/// number of values differs from the variant's payload, and when a value's type cannot be stored
/// where the payload expects it (the first such value is named, counting from one).
#[verifier::loop_isolation(false)]
pub fn build_variant(
    enum_name: &String,
    variants: &Vec<(String, Vec<Type>)>,
    variant: &String,
    arguments: Vec<TypedExpr>,
) -> (r: Result<TypedExpr, String>)
    ensures
        match variant_answer(enum_name@, view_variants(variants@), variant@, types_of(arguments@)) {
            Ok(tag) => r matches Ok(t) && t.ty@ == TypeV::Named(enum_name@)
                && (t.kind matches TypedExprKind::VariantLit { enum_name: n, tag: k, arguments: a }
                && n@ == enum_name@ && k == tag as u32 && a@ == arguments@),
            Err(m) => r matches Err(e) && e@ == m,
        },
{
    let ghost vs = view_variants(variants@);
    let tag = match find_variant(enum_name, variants, variant) {
        Ok(t) => t,
        Err(e) => return Err(e),
    };
    let payload = &variants[tag].1;
    proof {
        lemma_view_types(payload@);
    }
    let ghost want = view_types(payload@);
    let ghost have = types_of(arguments@);
    if arguments.len() != payload.len() {
        let mut out = String::new();
        append(&mut out, "`");
        append(&mut out, enum_name.as_str());
        append(&mut out, ".");
        append(&mut out, variant.as_str());
        append(&mut out, "` carries ");
        write_u64(&mut out, payload.len() as u64);
        append(&mut out, " value(s), but ");
        write_u64(&mut out, arguments.len() as u64);
        append(&mut out, " were given");
        return Err(out);
    }
    let mut i: usize = 0;
    while i < arguments.len()
        invariant
            0 <= i <= arguments@.len(),
            arguments@.len() == payload@.len(),
            have == types_of(arguments@),
            want == view_types(payload@),
            want.len() == payload@.len(),
            forall|k: int| 0 <= k < payload@.len() ==> #[trigger] want[k] == payload@[k]@,
            first_unstorable(have, want, i as nat) is None,
        decreases arguments.len() - i,
    {
        if !storable(&arguments[i].ty, &payload[i]) {
            proof {
                lemma_first_unstorable_stands(have, want, (i + 1) as nat, have.len());
            }
            let mut out = String::new();
            append(&mut out, "in `");
            append(&mut out, enum_name.as_str());
            append(&mut out, ".");
            append(&mut out, variant.as_str());
            append(&mut out, "`, payload ");
            write_u64(&mut out, i as u64 + 1);
            append(&mut out, " must be ");
            payload[i].write_text(&mut out);
            append(&mut out, ", but it has type ");
            arguments[i].ty.write_text(&mut out);
            assert(have[i as int] == arguments@[i as int].ty@);
            assert(out@ =~= "in `"@ + enum_name@ + "."@ + variant@ + "`, payload "@ + nat_text((i + 1) as nat) + " must be "@
                + type_text(want[i as int]) + ", but it has type "@ + type_text(have[i as int]));
            return Err(out);
        }
        i = i + 1;
    }
    let ty = Type::Named(enum_name.clone());
    let kind = TypedExprKind::VariantLit { enum_name: enum_name.clone(), tag: tag as u32, arguments };
    assert((tag as u32) == (tag as int) as u32);
    Ok(TypedExpr { ty, kind })
}

/// A value found unstorable among the first values stays the first found among more of them.
proof fn lemma_first_unstorable_stands(have: Seq<TypeV>, want: Seq<TypeV>, m: nat, n: nat)
    requires
        m <= n,
        first_unstorable(have, want, m) is Some,
    ensures
        first_unstorable(have, want, n) == first_unstorable(have, want, m),
    decreases n - m,
{
    if m < n {
        lemma_first_unstorable_stands(have, want, m, (n - 1) as nat);
    }
}

/// The refusal of an index, already checked, into `what` of length `len` (`0` for a growable
/// array, whose length is known only at run time), if it is refused: an index must be an `Int`,
/// and a literal index that is out of bounds would always fail, so it fails now.
pub open spec fn index_refusal(what: Seq<char>, len: u32, index: TypedExpr) -> Option<Seq<char>> {
    if index.ty@ != TypeV::Int {
        Some("an array index must be an Int, but this one has type "@ + type_text(index.ty@))
    } else {
        match index.kind {
            TypedExprKind::IntLit(n) => if len == 0 {
                if n < 0 {
                    Some("index "@ + int_text(n as int) + " is negative, so it is out of bounds for "@ + what
                        + " whatever its length turns out to be."@)
                } else {
                    None
                }
            } else if n < 0 || n >= len {
                Some("index "@ + int_text(n as int) + " is out of bounds for "@ + what + ": valid indexes are 0 to "@
                    + nat_text((len - 1) as nat) + ". This would always fail at runtime, so it is refused now."@)
            } else {
                None
            },
            _ => None,
        }
    }
}

/// Checks an index into `what` (the indexed value's type, as text) of length `len`, `0` for a
/// growable array, given the index expression already checked: the index itself when it is
/// accepted, the refusal of [`index_refusal`] when it is not.
pub fn check_index(what: &str, len: u32, index: TypedExpr) -> (r: Result<TypedExpr, String>)
    ensures
        match index_refusal(what@, len, index) {
            Some(m) => r matches Err(e) && e@ == m,
            None => r == Ok::<TypedExpr, String>(index),
        },
{
    if !matches!(index.ty, Type::Int) {
        let mut out = String::new();
        append(&mut out, "an array index must be an Int, but this one has type ");
        index.ty.write_text(&mut out);
        return Err(out);
    }
    match index.kind {
        TypedExprKind::IntLit(n) => {
            if len == 0 {
                if n < 0 {
                    let mut out = String::new();
                    append(&mut out, "index ");
                    write_i64(&mut out, n);
                    append(&mut out, " is negative, so it is out of bounds for ");
                    append(&mut out, what);
                    append(&mut out, " whatever its length turns out to be.");
                    return Err(out);
                }
            } else if n < 0 || n >= len as i64 {
                let mut out = String::new();
                append(&mut out, "index ");
                write_i64(&mut out, n);
                append(&mut out, " is out of bounds for ");
                append(&mut out, what);
                append(&mut out, ": valid indexes are 0 to ");
                write_u64(&mut out, (len - 1) as u64);
                append(&mut out, ". This would always fail at runtime, so it is refused now.");
                return Err(out);
            }
        },
        _ => {},
    }
    Ok(index)
}

} // verus!
