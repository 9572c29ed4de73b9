//! The names a program may not declare, because the language already gives them a meaning.
use vstd::prelude::*;
use crate::text::same_text;

verus! {

/// The built-in names. A function, `const` or binding may not take one: `main` would look like an
/// entry point and not be one, `exit` is what a failed contract calls, `result` names the value
/// an `ensures` clause is about, and the rest are builtins.
pub open spec fn reserved_names() -> Seq<Seq<char>> {
    seq![
        "len"@,
        "byte_at"@,
        "push"@,
        "read_file"@,
        "to_string"@,
        "old"@,
        "substring"@,
        "truncate"@,
        "write_file"@,
        "argument"@,
        "argument_count"@,
        "divide_floor"@,
        "divide_toward_zero"@,
        "remainder"@,
        "write_bytes"@,
        "hash"@,
        "main"@,
        "exit"@,
        "result"@,
        "bit_and"@,
        "bit_or"@,
        "bit_xor"@,
        "bit_not"@,
        "shift_left"@,
        "shift_right_zeros"@,
        "shift_right_sign"@,
        "c_is_null"@,
        "c_string_at"@,
        "c_bytes_at"@,
        "c_bytes_to"@,
        "byte_as_string"@,
        "handle_of"@,
        "handle_value"@,
    ]
}

/// Every name the language or its runtime gives a meaning is reserved: the three the runtime owns
/// (`main`, emitted from the top-level statements; `exit`, which a failed contract or a bounds
/// violation calls; `result`, which an `ensures` clause binds) and each builtin function.
pub proof fn lemma_builtin_names_reserved()
    ensures
        reserved_names().contains("len"@),
        reserved_names().contains("byte_at"@),
        reserved_names().contains("push"@),
        reserved_names().contains("read_file"@),
        reserved_names().contains("to_string"@),
        reserved_names().contains("old"@),
        reserved_names().contains("substring"@),
        reserved_names().contains("truncate"@),
        reserved_names().contains("write_file"@),
        reserved_names().contains("argument"@),
        reserved_names().contains("argument_count"@),
        reserved_names().contains("divide_floor"@),
        reserved_names().contains("divide_toward_zero"@),
        reserved_names().contains("remainder"@),
        reserved_names().contains("write_bytes"@),
        reserved_names().contains("hash"@),
        reserved_names().contains("main"@),
        reserved_names().contains("exit"@),
        reserved_names().contains("result"@),
        reserved_names().contains("bit_and"@),
        reserved_names().contains("bit_or"@),
        reserved_names().contains("bit_xor"@),
        reserved_names().contains("bit_not"@),
        reserved_names().contains("shift_left"@),
        reserved_names().contains("shift_right_zeros"@),
        reserved_names().contains("shift_right_sign"@),
        reserved_names().contains("c_is_null"@),
        reserved_names().contains("c_string_at"@),
        reserved_names().contains("c_bytes_at"@),
        reserved_names().contains("c_bytes_to"@),
        reserved_names().contains("byte_as_string"@),
        reserved_names().contains("handle_of"@),
        reserved_names().contains("handle_value"@),
{
    assert(reserved_names()[0] == "len"@);
    assert(reserved_names()[1] == "byte_at"@);
    assert(reserved_names()[2] == "push"@);
    assert(reserved_names()[3] == "read_file"@);
    assert(reserved_names()[4] == "to_string"@);
    assert(reserved_names()[5] == "old"@);
    assert(reserved_names()[6] == "substring"@);
    assert(reserved_names()[7] == "truncate"@);
    assert(reserved_names()[8] == "write_file"@);
    assert(reserved_names()[9] == "argument"@);
    assert(reserved_names()[10] == "argument_count"@);
    assert(reserved_names()[11] == "divide_floor"@);
    assert(reserved_names()[12] == "divide_toward_zero"@);
    assert(reserved_names()[13] == "remainder"@);
    assert(reserved_names()[14] == "write_bytes"@);
    assert(reserved_names()[15] == "hash"@);
    assert(reserved_names()[16] == "main"@);
    assert(reserved_names()[17] == "exit"@);
    assert(reserved_names()[18] == "result"@);
    assert(reserved_names()[19] == "bit_and"@);
    assert(reserved_names()[20] == "bit_or"@);
    assert(reserved_names()[21] == "bit_xor"@);
    assert(reserved_names()[22] == "bit_not"@);
    assert(reserved_names()[23] == "shift_left"@);
    assert(reserved_names()[24] == "shift_right_zeros"@);
    assert(reserved_names()[25] == "shift_right_sign"@);
    assert(reserved_names()[26] == "c_is_null"@);
    assert(reserved_names()[27] == "c_string_at"@);
    assert(reserved_names()[28] == "c_bytes_at"@);
    assert(reserved_names()[29] == "c_bytes_to"@);
    assert(reserved_names()[30] == "byte_as_string"@);
    assert(reserved_names()[31] == "handle_of"@);
    assert(reserved_names()[32] == "handle_value"@);
}

/// Whether `name` is one of the built-in names.
pub fn is_reserved_name(name: &str) -> (r: bool)
    ensures
        r == reserved_names().contains(name@),
        name@ == "main"@ || name@ == "exit"@ || name@ == "result"@ ==> r,
{
    proof {
        lemma_builtin_names_reserved();
    }
    let names: [&str; 33] = [
        "len",
        "byte_at",
        "push",
        "read_file",
        "to_string",
        "old",
        "substring",
        "truncate",
        "write_file",
        "argument",
        "argument_count",
        "divide_floor",
        "divide_toward_zero",
        "remainder",
        "write_bytes",
        "hash",
        "main",
        "exit",
        "result",
        "bit_and",
        "bit_or",
        "bit_xor",
        "bit_not",
        "shift_left",
        "shift_right_zeros",
        "shift_right_sign",
        "c_is_null",
        "c_string_at",
        "c_bytes_at",
        "c_bytes_to",
        "byte_as_string",
        "handle_of",
        "handle_value",
    ];
    assert(names@.len() == reserved_names().len());
    assert(forall|k: int| 0 <= k < 33 ==> #[trigger] names@[k]@ == reserved_names()[k]);
    let mut i: usize = 0;
    while i < 33
        invariant
            0 <= i <= 33,
            names@.len() == reserved_names().len(),
            reserved_names().len() == 33,
            forall|k: int| 0 <= k < 33 ==> #[trigger] names@[k]@ == reserved_names()[k],
            forall|k: int| 0 <= k < i ==> reserved_names()[k] != name@,
        decreases 33 - i,
    {
        if same_text(name, names[i]) {
            assert(reserved_names()[i as int] == name@);
            return true;
        }
        i = i + 1;
    }
    false
}

} // verus!
