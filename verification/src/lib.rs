//! Type rules of the Burxt compiler's checking stage, verified.
pub mod allocation;
pub mod arith;
pub mod checker;
pub mod ast;
pub mod bindings;
pub mod blocks;
pub mod boundary;
pub mod compare;
pub mod conformance;
pub mod contracts;
pub mod control;
pub mod construction;
pub mod decimal;
pub mod diagnostics;
pub mod escape;
pub mod expansion;
pub mod expressions;
pub mod functions;
pub mod generic_variants;
pub mod generics;
pub mod inference;
pub mod loops;
pub mod matching;
pub mod members;
pub mod messages;
pub mod methods;
pub mod names;
pub mod objects;
pub mod ops;
pub mod probe;
pub mod relay;
pub mod release;
pub mod report;
pub mod reserved;

pub mod rewrite;
pub mod scalar_match;
pub mod storage;
pub mod symbols;
pub mod tail_calls;
pub mod text;
pub mod ty;
pub mod typed;
pub mod validity;
pub mod walk;
