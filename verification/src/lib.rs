use vstd::prelude::*;

pub mod text;
pub mod error;
pub mod path;
pub mod strkey;
pub mod ninja;
pub mod pbbuild;
pub mod value;
pub mod expr;
pub mod eval;
pub mod lexer;
pub mod pbcst;
pub mod syntax;
pub mod grammar;
pub mod lower;
pub mod parser;
pub mod builtins;
pub mod ninjaexpr;
pub mod context;
pub mod snippet;
pub mod stats;
pub mod datamodel;
pub mod lineindex;

verus! {
}
