use vstd::prelude::*;
use crate::error::{Error, ErrorType};
use crate::expr::Expr;
use crate::lexer::{Token, lexed, lex_spec, descs, TokKind, LexErrV};
use crate::lower::{lower, lower_node, int_lit, decode};
use crate::path::VirtPath;
use crate::pbcst::{PbNode, parse, node_toks};
use crate::syntax::keys;
use crate::grammar::readable;
use crate::text::copy_str;
use crate::value::{Value, ValueV};

verus! {

/// The expression that a source text of the build language reads as: the
/// tokens the lexer reads from the text spell a syntax tree whose
/// operators are nested by precedence and grouping, and the expression is
/// the one that tree stands for.
pub open spec fn reads_as(code: Seq<char>, e: crate::expr::ExprV) -> bool {
    exists|toks: Seq<Token>, n: PbNode|
        #![trigger lexed(code, toks), lower(n)]
        lexed(code, toks) && lex_spec(code) == Ok::<Seq<(TokKind, int, int)>, LexErrV>(descs(toks))
            && node_toks(n) == keys(toks) && crate::syntax::nested_ok(n) && lower(n) == Some(e)
}

/// `n` is a syntax tree of `code`: it spells the tokens the lexer reads
/// from the text, with its operators nested by precedence and grouping.
pub open spec fn reads_tree(code: Seq<char>, n: PbNode) -> bool {
    exists|toks: Seq<Token>|
        #[trigger] lexed(code, toks) && lex_spec(code) == Ok::<Seq<(TokKind, int, int)>, LexErrV>(descs(toks))
            && node_toks(n) == keys(toks) && crate::syntax::nested_ok(n)
}

/// A failure to read `code`: a parse error, carrying the lexer's message
/// when the lexer stops. Reading fails only where the text does not lex,
/// its tokens do not make up an expression of the grammar, or a tree of it
/// does not stand for an expression (such as an integer literal out of
/// range); so a text that the grammar accepts, all of whose trees stand
/// for an expression, always reads.
pub open spec fn read_error(code: Seq<char>, e: crate::error::ErrorV) -> bool {
    &&& e.typ == ErrorType::Parse
    &&& lex_spec(code) matches Err(le) ==> e.msg == le.0
    &&& !readable(code) || exists|n: PbNode| reads_tree(code, n) && lower(n) is None
}

/// Reads `code`, a file of the build language, as an expression located
/// in `file`.
pub fn parse_str(code: &str, file: &VirtPath) -> (r: Result<Expr, Error>)
    ensures
        match r {
            Ok(e) => reads_as(code@, e@),
            Err(e) => read_error(code@, e@),
        },
{
    let tree = parse(code, file)?;
    assert(lex_spec(code@) is Ok);
    assert(reads_tree(code@, tree));
    let e = lower_node(&tree)?;
    Ok(e)
}

/// What a literal of the language makes of the text that a value is read
/// from.
pub trait ParsableValue: Sized {
    /// A value from the digits of an integer literal.
    fn parse_int(value: &str) -> Option<Self>;

    /// A value from the decoded text of a string literal.
    fn parse_string(value: &str) -> Option<Self>;

    /// A value from a boolean literal.
    fn from_bool(value: bool) -> Self;
}

impl ParsableValue for Value {
    fn parse_int(value: &str) -> (r: Option<Value>)
        ensures
            r matches Some(v) ==> int_lit(value@) matches Some(i) && v@ == ValueV::Int(i),
            r is None <==> int_lit(value@) is None,
    {
        match crate::lower::parse_int_lit(value) {
            Some(i) => Some(Value::Int(i)),
            None => None,
        }
    }

    fn parse_string(value: &str) -> (r: Option<Value>)
        ensures
            r matches Some(v) ==> v@ == ValueV::Str(value@),
            r is Some,
    {
        Some(Value::String(copy_str(value)))
    }

    fn from_bool(value: bool) -> (r: Value)
        ensures
            r@ == ValueV::Bool(value),
    {
        Value::Bool(value)
    }
}

/// A reader of the build language.
pub struct Parser {
    pub file: VirtPath,
}

impl Parser {
    /// A reader whose expressions are located in an unnamed source tree.
    pub fn new() -> (p: Parser)
        ensures
            p.file@.name == ""@,
            p.file@.root == "."@,
            p.file@.locked == Seq::<Seq<char>>::empty(),
            p.file@.parts == Seq::<Seq<char>>::empty(),
    {
        Parser { file: VirtPath::new("") }
    }

    /// Reads `code` as an expression.
    pub fn parse_str(&self, code: &str) -> (r: Result<Expr, Error>)
        ensures
            match r {
                Ok(e) => reads_as(code@, e@),
                Err(e) => read_error(code@, e@),
            },
    {
        parse_str(code, &self.file)
    }
}

} // verus!
