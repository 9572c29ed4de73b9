//! The types a Burxt program can name, and their mathematical view.
use vstd::prelude::*;
use crate::text::{nat_text, push_char, write_u64};

verus! {

/// A rounding contract carried by a `Decimal` type.
#[derive(PartialEq, Eq, Structural, Clone, Copy, Debug)]
pub enum Rounding {
    RoundHalfEven,
    RoundHalfUp,
    RoundHalfDown,
    RoundDown,
    RoundUp,
}

/// A Burxt type.
#[derive(Debug)]
pub enum Type {
    Int,
    Bool,
    String,
    Decimal { scale: u32, rounding: Option<Rounding> },
    Named(String),
    Param(String),
    Dyn(String),
    Array { elem: Box<Type>, len: u32 },
    Slice(Box<Type>),
    Generic { name: String, arguments: Vec<Type> },
    DynGeneric { name: String, arguments: Vec<Type> },
    Tuple(Vec<Type>),
    Handle(Box<Type>),
    CInt,
    CDouble,
    CPointer,
    Width { signed: bool, bits: u32 },
}

/// The mathematical value of a [`Type`]: names as character sequences.
pub ghost enum TypeV {
    Int,
    Bool,
    String,
    Decimal { scale: u32, rounding: Option<Rounding> },
    Named(Seq<char>),
    Param(Seq<char>),
    Dyn(Seq<char>),
    Array { elem: Box<TypeV>, len: u32 },
    Slice(Box<TypeV>),
    Generic { name: Seq<char>, arguments: Seq<TypeV> },
    DynGeneric { name: Seq<char>, arguments: Seq<TypeV> },
    Tuple(Seq<TypeV>),
    Handle(Box<TypeV>),
    CInt,
    CDouble,
    CPointer,
    Width { signed: bool, bits: u32 },
}

pub open spec fn view_type(t: Type) -> TypeV
    decreases t, 1int,
{
    match t {
        Type::Int => TypeV::Int,
        Type::Bool => TypeV::Bool,
        Type::String => TypeV::String,
        Type::Decimal { scale, rounding } => TypeV::Decimal { scale, rounding },
        Type::Named(n) => TypeV::Named(n@),
        Type::Param(n) => TypeV::Param(n@),
        Type::Dyn(n) => TypeV::Dyn(n@),
        Type::Array { elem, len } => TypeV::Array { elem: Box::new(view_type(*elem)), len },
        Type::Slice(elem) => TypeV::Slice(Box::new(view_type(*elem))),
        Type::Generic { name, arguments } => TypeV::Generic { name: name@, arguments: view_types(arguments@) },
        Type::DynGeneric { name, arguments } => TypeV::DynGeneric { name: name@, arguments: view_types(arguments@) },
        Type::Tuple(elements) => TypeV::Tuple(view_types(elements@)),
        Type::Handle(inner) => TypeV::Handle(Box::new(view_type(*inner))),
        Type::CInt => TypeV::CInt,
        Type::CDouble => TypeV::CDouble,
        Type::CPointer => TypeV::CPointer,
        Type::Width { signed, bits } => TypeV::Width { signed, bits },
    }
}

pub open spec fn view_types(ts: Seq<Type>) -> Seq<TypeV>
    decreases ts, 0int,
{
    if ts.len() == 0 {
        Seq::empty()
    } else {
        view_types(ts.drop_last()).push(view_type(ts.last()))
    }
}


/// The name a rounding contract is written with.
pub open spec fn rounding_text(r: Rounding) -> Seq<char> {
    match r {
        Rounding::RoundHalfEven => "RoundHalfEven"@,
        Rounding::RoundHalfUp => "RoundHalfUp"@,
        Rounding::RoundHalfDown => "RoundHalfDown"@,
        Rounding::RoundDown => "RoundDown"@,
        Rounding::RoundUp => "RoundUp"@,
    }
}

/// A type written the way a Burxt program writes it.
pub open spec fn type_text(t: TypeV) -> Seq<char>
    decreases t, 1int,
{
    match t {
        TypeV::Int => "Int"@,
        TypeV::Bool => "Bool"@,
        TypeV::String => "String"@,
        TypeV::Decimal { scale, rounding } => match rounding {
            None => "Decimal<"@ + nat_text(scale as nat) + ">"@,
            Some(r) => "Decimal<"@ + nat_text(scale as nat) + ", "@ + rounding_text(r) + ">"@,
        },
        TypeV::Named(n) => n,
        TypeV::Param(n) => n,
        TypeV::Dyn(n) => "dynamic "@ + n,
        TypeV::Array { elem, len } => "["@ + type_text(*elem) + "; "@ + nat_text(len as nat) + "]"@,
        TypeV::Slice(elem) => "["@ + type_text(*elem) + "]"@,
        TypeV::Generic { name, arguments } => name + "<"@ + list_text(arguments) + ">"@,
        TypeV::DynGeneric { name, arguments } => "dynamic "@ + name + "<"@ + list_text(arguments) + ">"@,
        TypeV::Tuple(elements) => "("@ + list_text(elements) + ")"@,
        TypeV::Handle(inner) => "Handle<"@ + type_text(*inner) + ">"@,
        TypeV::CInt => "CInt"@,
        TypeV::CDouble => "CDouble"@,
        TypeV::CPointer => "CPointer"@,
        TypeV::Width { signed, bits } => (if signed { "i"@ } else { "u"@ }) + nat_text(bits as nat),
    }
}

/// Types written one after another, separated by `, `.
pub open spec fn list_text(ts: Seq<TypeV>) -> Seq<char>
    decreases ts, 0int,
{
    if ts.len() == 0 {
        Seq::empty()
    } else if ts.len() == 1 {
        type_text(ts[0])
    } else {
        list_text(ts.drop_last()) + ", "@ + type_text(ts.last())
    }
}

/// The view of a sequence of types is taken element by element.
pub proof fn lemma_view_types(ts: Seq<Type>)
    ensures
        view_types(ts).len() == ts.len(),
        forall|i: int| 0 <= i < ts.len() ==> #[trigger] view_types(ts)[i] == view_type(ts[i]),
    decreases ts.len(),
{
    if ts.len() > 0 {
        lemma_view_types(ts.drop_last());
    }
}

/// Appends `s` to `out`.
pub(crate) fn append(out: &mut String, s: &str)
    ensures
        final(out)@ == old(out)@ + s@,
{
    out.append(s);
}

fn write_rounding(out: &mut String, r: Rounding)
    ensures
        final(out)@ == old(out)@ + rounding_text(r),
{
    match r {
        Rounding::RoundHalfEven => append(out, "RoundHalfEven"),
        Rounding::RoundHalfUp => append(out, "RoundHalfUp"),
        Rounding::RoundHalfDown => append(out, "RoundHalfDown"),
        Rounding::RoundDown => append(out, "RoundDown"),
        Rounding::RoundUp => append(out, "RoundUp"),
    }
}

impl Type {
    /// The type as a Burxt program writes it.
    pub fn text(&self) -> (r: String)
        ensures
            r@ == type_text(self@),
    {
        let mut out = String::new();
        self.write_text(&mut out);
        assert(out@ =~= type_text(self@));
        out
    }

    /// Appends the type as a Burxt program writes it.
    pub fn write_text(&self, out: &mut String)
        ensures
            final(out)@ == old(out)@ + type_text(self@),
        decreases self,
    {
        let ghost start = out@;
        match self {
            Type::Int => append(out, "Int"),
            Type::Bool => append(out, "Bool"),
            Type::String => append(out, "String"),
            Type::Decimal { scale, rounding } => {
                append(out, "Decimal<");
                write_u64(out, *scale as u64);
                match rounding {
                    None => {},
                    Some(r) => {
                        append(out, ", ");
                        write_rounding(out, *r);
                    },
                }
                append(out, ">");
            },
            Type::Named(n) => append(out, n.as_str()),
            Type::Param(n) => append(out, n.as_str()),
            Type::Dyn(n) => {
                append(out, "dynamic ");
                append(out, n.as_str());
            },
            Type::Array { elem, len } => {
                append(out, "[");
                elem.write_text(out);
                append(out, "; ");
                write_u64(out, *len as u64);
                append(out, "]");
            },
            Type::Slice(elem) => {
                append(out, "[");
                elem.write_text(out);
                append(out, "]");
            },
            Type::Generic { name, arguments } => {
                append(out, name.as_str());
                append(out, "<");
                write_list(arguments, out);
                append(out, ">");
            },
            Type::DynGeneric { name, arguments } => {
                append(out, "dynamic ");
                append(out, name.as_str());
                append(out, "<");
                write_list(arguments, out);
                append(out, ">");
            },
            Type::Tuple(elements) => {
                append(out, "(");
                write_list(elements, out);
                append(out, ")");
            },
            Type::Handle(inner) => {
                append(out, "Handle<");
                inner.write_text(out);
                append(out, ">");
            },
            Type::CInt => append(out, "CInt"),
            Type::CDouble => append(out, "CDouble"),
            Type::CPointer => append(out, "CPointer"),
            Type::Width { signed, bits } => {
                if *signed {
                    append(out, "i");
                } else {
                    append(out, "u");
                }
                write_u64(out, *bits as u64);
            },
        }
        assert(out@ =~= start + type_text(self@));
    }
}

/// Appends types separated by `, `.
pub fn write_list(ts: &Vec<Type>, out: &mut String)
    ensures
        final(out)@ == old(out)@ + list_text(view_types(ts@)),
    decreases ts,
{
    let ghost start = out@;
    proof {
        lemma_view_types(ts@);
    }
    let mut i: usize = 0;
    while i < ts.len()
        invariant
            0 <= i <= ts.len(),
            view_types(ts@).len() == ts@.len(),
            forall|k: int| 0 <= k < ts@.len() ==> #[trigger] view_types(ts@)[k] == view_type(ts@[k]),
            out@ == start + list_text(view_types(ts@).take(i as int)),
        decreases ts.len() - i,
    {
        let ghost before = out@;
        if i > 0 {
            append(out, ", ");
        }
        proof {
            assert(decreases_to!(ts => ts@[i as int]));
        }
        ts[i].write_text(out);
        proof {
            let vs = view_types(ts@);
            assert(vs.take(i + 1).drop_last() =~= vs.take(i as int));
            assert(vs.take(i + 1).last() == vs[i as int]);
            if i == 0 {
                assert(list_text(vs.take(1)) == type_text(vs[0]));
            }
        }
        i = i + 1;
        assert(out@ =~= start + list_text(view_types(ts@).take(i as int)));
    }
    assert(view_types(ts@).take(i as int) =~= view_types(ts@));
}

impl View for Type {
    type V = TypeV;

    open spec fn view(&self) -> TypeV {
        view_type(*self)
    }
}

impl Type {
    /// A copy of the type, equal to it in every part.
    pub fn duplicate(&self) -> (r: Type)
        ensures
            r@ == self@,
        decreases self,
    {
        match self {
            Type::Int => Type::Int,
            Type::Bool => Type::Bool,
            Type::String => Type::String,
            Type::Decimal { scale, rounding } => Type::Decimal { scale: *scale, rounding: *rounding },
            Type::Named(n) => Type::Named(n.clone()),
            Type::Param(n) => Type::Param(n.clone()),
            Type::Dyn(n) => Type::Dyn(n.clone()),
            Type::Array { elem, len } => Type::Array { elem: Box::new(elem.duplicate()), len: *len },
            Type::Slice(elem) => Type::Slice(Box::new(elem.duplicate())),
            Type::Generic { name, arguments } => {
                let a = duplicate_list(arguments);
                Type::Generic { name: name.clone(), arguments: a }
            },
            Type::DynGeneric { name, arguments } => {
                let a = duplicate_list(arguments);
                Type::DynGeneric { name: name.clone(), arguments: a }
            },
            Type::Tuple(elements) => Type::Tuple(duplicate_list(elements)),
            Type::Handle(inner) => Type::Handle(Box::new(inner.duplicate())),
            Type::CInt => Type::CInt,
            Type::CDouble => Type::CDouble,
            Type::CPointer => Type::CPointer,
            Type::Width { signed, bits } => Type::Width { signed: *signed, bits: *bits },
        }
    }

    /// Whether two types are the same type.
    pub fn same(&self, other: &Type) -> (r: bool)
        ensures
            r == (self@ == other@),
        decreases self,
    {
        proof {
            lemma_view_variant(*other);
        }
        match self {
            Type::Int => match other {
                Type::Int => true,
                _ => false,
            },
            Type::Bool => match other {
                Type::Bool => true,
                _ => false,
            },
            Type::String => match other {
                Type::String => true,
                _ => false,
            },
            Type::Decimal { scale: a, rounding: ra } => match other {
                Type::Decimal { scale: b, rounding: rb } => {
                    let same_rounding = match (ra, rb) {
                        (None, None) => true,
                        (Some(x), Some(y)) => *x == *y,
                        _ => false,
                    };
                    *a == *b && same_rounding
                },
                _ => false,
            },
            Type::Named(a) => match other {
                Type::Named(b) => *a == *b,
                _ => false,
            },
            Type::Param(a) => match other {
                Type::Param(b) => *a == *b,
                _ => false,
            },
            Type::Dyn(a) => match other {
                Type::Dyn(b) => *a == *b,
                _ => false,
            },
            Type::Array { elem: a, len: la } => match other {
                Type::Array { elem: b, len: lb } => *la == *lb && a.same(b),
                _ => false,
            },
            Type::Slice(a) => match other {
                Type::Slice(b) => a.same(b),
                _ => false,
            },
            Type::Generic { name: a, arguments: xs } => match other {
                Type::Generic { name: b, arguments: ys } => *a == *b && same_list(xs, ys),
                _ => false,
            },
            Type::DynGeneric { name: a, arguments: xs } => match other {
                Type::DynGeneric { name: b, arguments: ys } => *a == *b && same_list(xs, ys),
                _ => false,
            },
            Type::Tuple(xs) => match other {
                Type::Tuple(ys) =>  same_list(xs, ys),
                _ => false,
            },
            Type::Handle(a) => match other {
                Type::Handle(b) => a.same(b),
                _ => false,
            },
            Type::CInt => match other {
                Type::CInt => true,
                _ => false,
            },
            Type::CDouble => match other {
                Type::CDouble => true,
                _ => false,
            },
            Type::CPointer => match other {
                Type::CPointer => true,
                _ => false,
            },
            Type::Width { signed: sa, bits: ba } => match other {
                Type::Width { signed: sb, bits: bb } => *sa == *sb && *ba == *bb,
                _ => false,
            },
        }
    }
}

/// A type and its view have the same variant.
pub proof fn lemma_view_variant(t: Type)
    ensures
        (t@ is Int) == (t is Int),
        (t@ is Bool) == (t is Bool),
        (t@ is String) == (t is String),
        (t@ is Decimal) == (t is Decimal),
        (t@ is Named) == (t is Named),
        (t@ is Param) == (t is Param),
        (t@ is Dyn) == (t is Dyn),
        (t@ is Array) == (t is Array),
        (t@ is Slice) == (t is Slice),
        (t@ is Generic) == (t is Generic),
        (t@ is DynGeneric) == (t is DynGeneric),
        (t@ is Tuple) == (t is Tuple),
        (t@ is Handle) == (t is Handle),
        (t@ is CInt) == (t is CInt),
        (t@ is CDouble) == (t is CDouble),
        (t@ is CPointer) == (t is CPointer),
        (t@ is Width) == (t is Width),
{
}

/// Two sequences of types are equal when they have the same length and agree at every index.
pub proof fn lemma_views_equal(xs: Seq<Type>, ys: Seq<Type>)
    requires
        xs.len() == ys.len(),
        forall|i: int| 0 <= i < xs.len() ==> view_type(#[trigger] xs[i]) == view_type(ys[i]),
    ensures
        view_types(xs) == view_types(ys),
{
    lemma_view_types(xs);
    lemma_view_types(ys);
    assert(view_types(xs) =~= view_types(ys));
}

/// A copy of every type in a list.
pub fn duplicate_list(ts: &Vec<Type>) -> (r: Vec<Type>)
    ensures
        view_types(r@) == view_types(ts@),
    decreases ts,
{
    let mut out: Vec<Type> = Vec::new();
    let mut i: usize = 0;
    while i < ts.len()
        invariant
            0 <= i <= ts.len(),
            out@.len() == i,
            forall|k: int| 0 <= k < i ==> view_type(#[trigger] out@[k]) == view_type(ts@[k]),
        decreases ts.len() - i,
    {
        proof {
            assert(decreases_to!(ts => ts@[i as int]));
        }
        let t = ts[i].duplicate();
        out.push(t);
        i = i + 1;
    }
    proof {
        lemma_views_equal(out@, ts@);
    }
    out
}

/// Whether two lists of types are equal, element by element.
pub fn same_list(xs: &Vec<Type>, ys: &Vec<Type>) -> (r: bool)
    ensures
        r == (view_types(xs@) == view_types(ys@)),
    decreases xs,
{
    proof {
        lemma_view_types(xs@);
        lemma_view_types(ys@);
    }
    if xs.len() != ys.len() {
        assert(view_types(xs@).len() != view_types(ys@).len());
        return false;
    }
    let mut i: usize = 0;
    while i < xs.len()
        invariant
            0 <= i <= xs.len(),
            xs.len() == ys.len(),
            view_types(xs@).len() == xs@.len(),
            view_types(ys@).len() == ys@.len(),
            forall|k: int| 0 <= k < xs@.len() ==> #[trigger] view_types(xs@)[k] == view_type(xs@[k]),
            forall|k: int| 0 <= k < ys@.len() ==> #[trigger] view_types(ys@)[k] == view_type(ys@[k]),
            forall|k: int| 0 <= k < i ==> view_type(#[trigger] xs@[k]) == view_type(ys@[k]),
        decreases xs.len() - i,
    {
        proof {
            assert(decreases_to!(xs => xs@[i as int]));
        }
        if !xs[i].same(&ys[i]) {
            assert(view_types(xs@)[i as int] != view_types(ys@)[i as int]);
            return false;
        }
        i = i + 1;
    }
    proof {
        lemma_views_equal(xs@, ys@);
    }
    true
}

} // verus!
