//! The symbol an instantiation of a generic gets, and how a symbol reads to a person.
use vstd::prelude::*;
use crate::text::push_char;
use crate::release::{has_name, listed};
use crate::ty::{Type, TypeV, type_text, view_types, lemma_view_types, append, duplicate_list};

verus! {

/// Whether a character may stand in a symbol as it is: an ASCII letter or digit.
pub open spec fn symbol_char(c: char) -> bool {
    ('a' <= c && c <= 'z') || ('A' <= c && c <= 'Z') || ('0' <= c && c <= '9')
}

/// Text with every character that may not stand in a symbol replaced by `_`.
pub open spec fn sanitized(s: Seq<char>) -> Seq<char> {
    Seq::new(s.len(), |i: int| if symbol_char(s[i]) { s[i] } else { '_' })
}

/// The suffix each type argument adds to a symbol: `$` and the type's text, sanitized.
pub open spec fn mangled_arguments(args: Seq<TypeV>) -> Seq<char>
    decreases args.len(),
{
    if args.len() == 0 {
        Seq::empty()
    } else {
        mangled_arguments(args.drop_last()) + seq!['$'] + sanitized(type_text(args.last()))
    }
}

/// The symbol of one instantiation: `identity$Int`, `largest$Decimal_2_`.
pub open spec fn mangled(name: Seq<char>, args: Seq<TypeV>) -> Seq<char> {
    name + mangled_arguments(args)
}

/// The symbol one instantiation gets: the generic's name, then `$` and each type argument's
/// text with every character other than an ASCII letter or digit turned into `_`. Neither `$`
/// nor `_` can appear in a Burxt identifier, so the symbol never collides with a written name.
pub fn mangle(name: &str, arguments: &[Type]) -> (r: String)
    ensures
        r@ == mangled(name@, view_types(arguments@)),
{
    let mut out = String::new();
    append(&mut out, name);
    let mut i: usize = 0;
    proof {
        lemma_view_types(arguments@);
    }
    while i < arguments.len()
        invariant
            0 <= i <= arguments@.len(),
            view_types(arguments@).len() == arguments@.len(),
            forall|k: int| 0 <= k < arguments@.len() ==> #[trigger] view_types(arguments@)[k] == arguments@[k]@,
            out@ == name@ + mangled_arguments(view_types(arguments@).take(i as int)),
        decreases arguments.len() - i,
    {
        let ghost before = out@;
        push_char(&mut out, '$');
        let text = arguments[i].text();
        let n = text.as_str().unicode_len();
        let ghost mid = out@;
        let mut j: usize = 0;
        while j < n
            invariant
                0 <= j <= n,
                n == text@.len(),
                out@ == mid + sanitized(text@).take(j as int),
            decreases n - j,
        {
            let c = text.as_str().get_char(j);
            if ('a' <= c && c <= 'z') || ('A' <= c && c <= 'Z') || ('0' <= c && c <= '9') {
                push_char(&mut out, c);
            } else {
                push_char(&mut out, '_');
            }
            assert(sanitized(text@).take(j + 1) =~= sanitized(text@).take(j as int).push(sanitized(text@)[j as int]));
            j = j + 1;
        }
        proof {
            let vs = view_types(arguments@);
            assert(sanitized(text@).take(n as int) =~= sanitized(text@));
            assert(vs.take(i + 1).drop_last() =~= vs.take(i as int));
            assert(vs.take(i + 1).last() == vs[i as int]);
        }
        i = i + 1;
        assert(out@ =~= name@ + mangled_arguments(view_types(arguments@).take(i as int)));
    }
    assert(view_types(arguments@).take(i as int) =~= view_types(arguments@));
    out
}

/// Every `$` written as `, `.
pub open spec fn commas(s: Seq<char>) -> Seq<char>
    decreases s.len(),
{
    if s.len() == 0 {
        Seq::empty()
    } else {
        (if s[0] == '$' { ", "@ } else { seq![s[0]] }) + commas(s.skip(1))
    }
}

/// A symbol the way its author spelled it: the part before the first `$` is the generic, and
/// the parts after it, separated by `$`, are its arguments between `<` and `>`.
pub open spec fn written_symbol(s: Seq<char>) -> Seq<char>
    decreases s.len(),
{
    if s.len() == 0 {
        Seq::empty()
    } else if s[0] == '$' {
        "<"@ + commas(s.skip(1)) + ">"@
    } else {
        seq![s[0]] + written_symbol(s.skip(1))
    }
}

/// A symbol with no `$` reads as itself.
pub proof fn lemma_plain_symbol(s: Seq<char>)
    requires
        forall|i: int| 0 <= i < s.len() ==> s[i] != '$',
    ensures
        written_symbol(s) == s,
    decreases s.len(),
{
    if s.len() > 0 {
        lemma_plain_symbol(s.skip(1));
        assert(seq![s[0]] + s.skip(1) =~= s);
    }
}

/// The way a mangled instantiation was spelled, for a message a reader has to act on:
/// `Option$Node` reads as `Option<Node>`, `Pair$Int$String` as `Pair<Int, String>`.
pub fn as_written(symbol: &str) -> (r: String)
    ensures
        r@ == written_symbol(symbol@),
{
    let s = symbol;
    let n = s.unicode_len();
    let mut out = String::new();
    let mut seen = false;
    let mut i: usize = 0;
    assert(s@.skip(0) =~= s@);
    while i < n
        invariant
            0 <= i <= n,
            n == s@.len(),
            written_symbol(s@) == out@ + (if seen { commas(s@.skip(i as int)) + ">"@ } else {
                written_symbol(s@.skip(i as int))
            }),
        decreases n - i,
    {
        let c = s.get_char(i);
        let ghost rest = s@.skip(i as int);
        proof {
            assert(rest[0] == c);
            assert(rest.skip(1) =~= s@.skip(i + 1));
        }
        if seen {
            if c == '$' {
                append(&mut out, ", ");
            } else {
                push_char(&mut out, c);
            }
            assert(commas(rest) == (if c == '$' { ", "@ } else { seq![c] }) + commas(s@.skip(i + 1)));
        } else {
            if c == '$' {
                push_char(&mut out, '<');
                seen = true;
                assert(written_symbol(rest) == "<"@ + commas(s@.skip(i + 1)) + ">"@);
                proof {
                    reveal_strlit("<");
                }
            } else {
                push_char(&mut out, c);
            }
        }
        i = i + 1;
        assert(written_symbol(s@) =~= out@ + (if seen { commas(s@.skip(i as int)) + ">"@ } else {
            written_symbol(s@.skip(i as int))
        }));
    }
    if seen {
        append(&mut out, ">");
    }
    assert(s@.skip(n as int) =~= Seq::<char>::empty());
    assert(out@ =~= written_symbol(s@));
    out
}

/// Asks for the instantiation of generic `name` at `type_args`, and answers its symbol. The
/// first time a symbol is asked for it joins `seen`, and the instantiation joins `wanted`, the
/// instantiations still to be built, at the end; asking again changes neither, so each
/// instantiation is built once however often it is used.
pub fn want(
    seen: &mut Vec<String>,
    wanted: &mut Vec<(String, Vec<Type>)>,
    name: &String,
    type_args: &Vec<Type>,
) -> (r: String)
    ensures
        r@ == mangled(name@, view_types(type_args@)),
        listed(old(seen)@, r@) ==> final(seen)@ == old(seen)@ && final(wanted)@ == old(wanted)@,
        !listed(old(seen)@, r@) ==> {
            &&& final(seen)@.len() == old(seen)@.len() + 1
            &&& final(seen)@.drop_last() == old(seen)@
            &&& final(seen)@.last()@ == r@
            &&& final(wanted)@.len() == old(wanted)@.len() + 1
            &&& final(wanted)@.drop_last() == old(wanted)@
            &&& final(wanted)@.last().0@ == name@
            &&& view_types(final(wanted)@.last().1@) == view_types(type_args@)
        },
{
    let symbol = mangle(name.as_str(), type_args.as_slice());
    if !has_name(seen, &symbol) {
        seen.push(symbol.clone());
        wanted.push((name.clone(), duplicate_list(type_args)));
        assert(seen@.drop_last() =~= old(seen)@);
        assert(wanted@.drop_last() =~= old(wanted)@);
    }
    symbol
}

} // verus!
