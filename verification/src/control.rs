//! `if` and `while`: a condition is a Bool, because Burxt has no truthiness.
use vstd::prelude::*;
use crate::ty::{Type, TypeV, append, type_text};
use crate::messages::{impure, impure_text};
use crate::names::NameMap;
use crate::text::{int_text, write_i64};
use crate::typed::{TypedExpr, TypedExprKind, TypedStmt, TypedStmtKind};

verus! {

/// The refusal of a condition of type `t`, for an `if` (`is_if`) or a `while`.
pub open spec fn condition_text(is_if: bool, t: TypeV) -> Seq<char> {
    (if is_if { "an `if` condition must be a Bool (e.g. a comparison), but this one has type "@ } else {
        "a `while` condition must be a Bool (e.g. a comparison), but this one has type "@
    }) + type_text(t)
}

fn condition_refusal(is_if: bool, t: &Type) -> (r: String)
    ensures
        r@ == condition_text(is_if, t@),
{
    let mut out = String::new();
    if is_if {
        append(&mut out, "an `if` condition must be a Bool (e.g. a comparison), but this one has type ");
    } else {
        append(&mut out, "a `while` condition must be a Bool (e.g. a comparison), but this one has type ");
    }
    t.write_text(&mut out);
    out
}

/// Types `if cond { then } else { else }` from the checked condition and the checked blocks: the
/// condition must be a Bool; the blocks are taken as they are.
pub fn check_if(cond: TypedExpr, then_block: Vec<TypedStmt>, else_block: Option<Vec<TypedStmt>>) -> (r: Result<TypedStmtKind, String>)
    ensures
        cond.ty@ == TypeV::Bool ==> r == Ok::<TypedStmtKind, String>(TypedStmtKind::If { cond, then_block, else_block }),
        cond.ty@ != TypeV::Bool ==> (r matches Err(e) && e@ == condition_text(true, cond.ty@)),
{
    proof {
        crate::ty::lemma_view_variant(cond.ty);
    }
    if !matches!(cond.ty, Type::Bool) {
        return Err(condition_refusal(true, &cond.ty));
    }
    Ok(TypedStmtKind::If { cond, then_block, else_block })
}

/// Types `while cond { body }` from the checked condition and the checked body: the condition
/// must be a Bool.
pub fn check_while(cond: TypedExpr, body: Vec<TypedStmt>) -> (r: Result<TypedStmtKind, String>)
    ensures
        cond.ty@ == TypeV::Bool ==> r == Ok::<TypedStmtKind, String>(TypedStmtKind::While { cond, body }),
        cond.ty@ != TypeV::Bool ==> (r matches Err(e) && e@ == condition_text(false, cond.ty@)),
{
    proof {
        crate::ty::lemma_view_variant(cond.ty);
    }
    if !matches!(cond.ty, Type::Bool) {
        return Err(condition_refusal(false, &cond.ty));
    }
    Ok(TypedStmtKind::While { cond, body })
}

/// Types `break` (`is_break`) or `continue` with `loop_depth` loops open around it.
pub fn check_loop_jump(is_break: bool, loop_depth: usize) -> (r: Result<TypedStmtKind, String>)
    ensures
        loop_depth > 0 ==> r == Ok::<TypedStmtKind, String>(if is_break { TypedStmtKind::Break } else { TypedStmtKind::Continue }),
        loop_depth == 0 ==> (r matches Err(e) && e@ == (if is_break {
            "`break` only means something inside a loop: there is none here."@
        } else {
            "`continue` only means something inside a loop: there is none here."@
        })),
{
    if loop_depth == 0 {
        if is_break {
            return Err(String::from_str("`break` only means something inside a loop: there is none here."));
        }
        return Err(String::from_str("`continue` only means something inside a loop: there is none here."));
    }
    if is_break { Ok(TypedStmtKind::Break) } else { Ok(TypedStmtKind::Continue) }
}

/// The refusal of opening `region name` inside the region `open` (if one is open), or with a name a
/// variable in scope (`env`) already has.
pub open spec fn region_refusal(open: Option<Seq<char>>, env: Map<Seq<char>, (TypeV, bool)>, name: Seq<char>) -> Option<Seq<char>> {
    match open {
        Some(o) => Some("`region "@ + name + "` cannot open inside `region "@ + o
            + "` — nested regions are not available yet. Close the outer one first, or use a single region for both."@),
        None => if env.contains_key(name) {
            Some("`"@ + name + "` is already a variable, so it cannot name a region too — pick a different name."@)
        } else {
            None
        },
    }
}

/// Checks that `region name { ... }` may open here: see [`region_refusal`].
pub fn region_may_open(current_region: &Option<String>, env: &NameMap<(Type, bool)>, name: &String) -> (r: Result<(), String>)
    ensures
        match region_refusal(match current_region { Some(c) => Some(c@), None => None }, env@, name@) {
            Some(m) => r matches Err(e) && e@ == m,
            None => r is Ok,
        },
{
    if let Some(open) = current_region {
        let mut out = String::new();
        append(&mut out, "`region ");
        append(&mut out, name.as_str());
        append(&mut out, "` cannot open inside `region ");
        append(&mut out, open.as_str());
        append(&mut out, "` — nested regions are not available yet. Close the outer one first, or use a single region for both.");
        return Err(out);
    }
    if env.get(name).is_some() {
        let mut out = String::new();
        append(&mut out, "`");
        append(&mut out, name.as_str());
        append(&mut out, "` is already a variable, so it cannot name a region too — pick a different name.");
        return Err(out);
    }
    Ok(())
}

/// What `exit(code)` gives, with `refusal` what the purity rule says of exiting here, the number
/// of arguments written, and the outcome of checking the first against Int: a status is one Int,
/// and a literal status must be 0 to 255, all a shell can read.
pub open spec fn exit_rule(refusal: Option<Seq<char>>, n_args: nat, code: Result<TypedExpr, String>) -> Result<TypedExpr, Seq<char>> {
    match refusal {
        Some(m) => Err(m),
        None => if n_args != 1 {
            Err("exit(code) takes one Int — the status a shell reads"@)
        } else {
            match code {
                Err(m) => Err(m@),
                Ok(c) => if c.ty@ != TypeV::Int {
                    Err("exit(code) takes an Int, but this has type "@ + type_text(c.ty@))
                } else {
                    match c.kind {
                        TypedExprKind::IntLit(n) => if n < 0 || n > 255 {
                            Err("exit("@ + int_text(n as int) + ") cannot be reported: a process status is 0 to 255, and a shell reads only the low eight bits — so "@
                                + int_text(n as int) + " would arrive as "@ + int_text(n as int % 256) + ". Pick a status in range."@)
                        } else {
                            Ok(c)
                        },
                        _ => Ok(c),
                    }
                },
            }
        },
    }
}

/// Types the statement `exit(code)`: see [`exit_rule`]. `in_pure` and `in_contract` are what the
/// purity rule reads; `code` is looked at only when exactly one argument is written.
pub fn check_exit(in_pure: &Option<String>, in_contract: bool, n_args: usize, code: Result<TypedExpr, String>) -> (r: Result<TypedStmtKind, String>)
    ensures
        match exit_rule(impure_text(match in_pure { Some(n) => Some(n@), None => None }, in_contract, "exit"@), n_args as nat, code) {
            Ok(c) => r == Ok::<TypedStmtKind, String>(TypedStmtKind::Exit(c)),
            Err(m) => r matches Err(e) && e@ == m,
        },
{
    if let Some(why) = impure(in_pure, in_contract, "exit") {
        return Err(why);
    }
    if n_args != 1 {
        return Err(String::from_str("exit(code) takes one Int — the status a shell reads"));
    }
    let c = match code {
        Ok(c) => c,
        Err(m) => return Err(m),
    };
    proof {
        crate::ty::lemma_view_variant(c.ty);
    }
    if !matches!(c.ty, Type::Int) {
        let mut out = String::new();
        append(&mut out, "exit(code) takes an Int, but this has type ");
        c.ty.write_text(&mut out);
        return Err(out);
    }
    if let TypedExprKind::IntLit(n) = c.kind {
        if n < 0 || n > 255 {
            let low = n & 0xff;
            assert(low == n % 256) by (bit_vector)
                requires low == n & 0xff;
            let mut out = String::new();
            append(&mut out, "exit(");
            write_i64(&mut out, n);
            append(&mut out, ") cannot be reported: a process status is 0 to 255, and a shell reads only the low eight bits — so ");
            write_i64(&mut out, n);
            append(&mut out, " would arrive as ");
            write_i64(&mut out, low);
            append(&mut out, ". Pick a status in range.");
            return Err(out);
        }
    }
    Ok(TypedStmtKind::Exit(c))
}

} // verus!
