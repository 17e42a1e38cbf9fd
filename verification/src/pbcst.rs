use vstd::prelude::*;
use crate::error::{Loc, Error, ErrorType, span_view};
use crate::lexer::{Tok, Token, tok_text, lex, lexed, lex_spec, descs, TokKind, LexErrV};
use crate::path::VirtPath;
use crate::syntax::{parse_expr, perr, keys, ks, kinds};
use crate::grammar::{readable, accepts};
use crate::text::{copy_str, push_str, push_char};

verus! {

/// A binary operator as written.
#[derive(Debug, PartialEq, Eq, Copy, Clone, Structural)]
pub enum BinaryOp {
    HasAttr,
    ListConcat,
    Mult,
    Div,
    Sub,
    Add,
    Update,
    Lt,
    Le,
    Gt,
    Ge,
    Eq,
    Neq,
    LogAnd,
    LogOr,
    LogImpl,
}

/// A unary operator as written.
#[derive(Debug, PartialEq, Eq, Copy, Clone, Structural)]
pub enum UnaryOp {
    Neg,
    Not,
}

/// What a map builds.
#[derive(Debug, PartialEq, Eq, Copy, Clone, Structural)]
pub enum MapKind {
    List,
    Object,
}

/// A node of the concrete syntax tree: what was written, where, and (at
/// the root) the source text itself.
#[derive(Debug)]
pub struct PbNode {
    pub kind: PbNodeKind,
    pub loc: Loc,
    pub source: Option<String>,
}

/// A piece of a string literal: raw text, or an embedded `${...}`.
#[derive(Debug)]
pub enum StrPart {
    Chunk(String),
    Embed(PbNode),
}

#[derive(Debug)]
pub enum PbNodeKind {
    Group(Box<PbNode>),
    Let(Vec<LetBinding>, Box<PbNode>),
    Bind(Vec<Assignment>, Box<PbNode>),
    FuncDef(Vec<Matcher>, Box<PbNode>),
    Binary(BinaryOp, Box<PbNode>, Box<PbNode>),
    Unary(UnaryOp, Box<PbNode>),
    FuncCall(Box<PbNode>, Box<PbNode>),
    AttrSel(Box<PbNode>, Attr),
    Fold { func: Box<PbNode>, init: Option<Box<PbNode>>, input: Box<PbNode> },
    Mapping { kind: MapKind, func: Box<PbNode>, input: Box<PbNode>, filter: Option<Box<PbNode>> },
    Switch { input: Box<PbNode>, cases: Vec<SwitchCase>, default: Option<Box<PbNode>> },
    Object(Vec<Assignment>),
    List(Vec<PbNode>, bool),
    Tuple(Vec<PbNode>, bool),
    Bool(bool),
    Int(String),
    String(Vec<StrPart>),
    Var(String),
    Null,
}

/// The attribute after a `.`: a name, or `{expr}`.
#[derive(Debug)]
pub enum Attr {
    Ident(String, Loc),
    Dynamic(Box<PbNode>),
}

/// `matcher = value;` in a `let`.
#[derive(Debug)]
pub struct LetBinding {
    pub matcher: Matcher,
    pub value: PbNode,
    pub loc: Loc,
}

/// `key = value;` in an object or a `bind`; `key;` alone takes the
/// variable of that name.
#[derive(Debug)]
pub struct Assignment {
    pub key: Key,
    pub value: Option<PbNode>,
    pub loc: Loc,
}

/// The key of an assignment: a name, or a string literal.
#[derive(Debug)]
pub enum Key {
    Ident(String, Loc),
    String(Vec<String>, Loc),
}

/// `matcher => value;` in a `switch`.
#[derive(Debug)]
pub struct SwitchCase {
    pub matcher: PbNode,
    pub value: PbNode,
    pub loc: Loc,
}

/// A pattern as written.
#[derive(Debug)]
pub struct Matcher {
    pub kind: MatcherKind,
    pub loc: Loc,
}

#[derive(Debug)]
pub enum MatcherKind {
    Alias(Box<Matcher>, String, Loc),
    DontCare,
    Ident(String),
    Tuple(Vec<Matcher>, bool),
    Object { fields: Vec<ObjectMatcher>, exhaustive: bool },
}

/// `key`, `key = matcher`, with an optional `? default`, in an object
/// pattern.
#[derive(Debug)]
pub struct ObjectMatcher {
    pub key: String,
    pub matcher: Option<Matcher>,
    pub default: Option<PbNode>,
    pub loc: Loc,
}

/* The tokens a tree stands for */

/// A token as the parser compares them: its class (names, numbers,
/// string text and the close of an embedding need telling apart from the
/// rest) and its text.
pub open spec fn tkey(t: Tok) -> (int, Seq<char>) {
    (match t {
        Tok::Ident(_) => 1int,
        Tok::Number(_) => 2int,
        Tok::StringChunk(_) => 3int,
        Tok::StringEmbedEnd => 4int,
        _ => 0int,
    }, tok_text(t))
}

pub open spec fn k1(t: Tok) -> Seq<(int, Seq<char>)> {
    seq![tkey(t)]
}

pub open spec fn binop_tok(op: BinaryOp) -> Tok {
    match op {
        BinaryOp::HasAttr => Tok::BinOpHasAttr,
        BinaryOp::ListConcat => Tok::BinOpListConcat,
        BinaryOp::Mult => Tok::BinOpMult,
        BinaryOp::Div => Tok::BinOpDiv,
        BinaryOp::Sub => Tok::Minus,
        BinaryOp::Add => Tok::BinOpAdd,
        BinaryOp::Update => Tok::BinOpUpdate,
        BinaryOp::Lt => Tok::BinOpLt,
        BinaryOp::Le => Tok::BinOpLe,
        BinaryOp::Gt => Tok::BinOpGt,
        BinaryOp::Ge => Tok::BinOpGe,
        BinaryOp::Eq => Tok::BinOpEq,
        BinaryOp::Neq => Tok::BinOpNeq,
        BinaryOp::LogAnd => Tok::BinOpLogAnd,
        BinaryOp::LogOr => Tok::BinOpLogOr,
        BinaryOp::LogImpl => Tok::BinOpLogImpl,
    }
}

pub open spec fn ident_key(s: Seq<char>) -> (int, Seq<char>) {
    (1int, s)
}

pub open spec fn opt_node_toks(o: Option<Box<PbNode>>) -> Seq<(int, Seq<char>)>
    decreases o, 0nat,
{
    match o {
        Some(x) => node_toks(*x),
        None => Seq::empty(),
    }
}

/// The tokens a node stands for, in order.
pub open spec fn node_toks(n: PbNode) -> Seq<(int, Seq<char>)>
    decreases n, 0nat,
{
    match n.kind {
        PbNodeKind::Group(x) => k1(Tok::LPar) + node_toks(*x) + k1(Tok::RPar),
        PbNodeKind::Let(bs, body) => k1(Tok::Let) + lets_toks(bs@) + k1(Tok::In) + node_toks(*body),
        PbNodeKind::Bind(asg, body) => k1(Tok::Bind) + assigns_toks(asg@) + k1(Tok::In) + node_toks(*body),
        PbNodeKind::FuncDef(ms, body) => k1(Tok::Pipe) + matchers_toks(ms@) + k1(Tok::Pipe) + node_toks(*body),
        PbNodeKind::Binary(op, l, r) => node_toks(*l) + k1(binop_tok(op)) + node_toks(*r),
        PbNodeKind::Unary(op, x) => (if op == UnaryOp::Neg { k1(Tok::Minus) } else { k1(Tok::UnOpNot) }) + node_toks(*x),
        PbNodeKind::FuncCall(f, a) => node_toks(*f) + node_toks(*a),
        PbNodeKind::AttrSel(l, attr) => node_toks(*l) + k1(Tok::Dot) + match attr {
            Attr::Ident(name, _) => seq![ident_key(name@)],
            Attr::Dynamic(x) => k1(Tok::LBrace) + node_toks(*x) + k1(Tok::RBrace),
        },
        PbNodeKind::Fold { func, init, input } => k1(Tok::LPar) + node_toks(*func) + k1(Tok::For)
            + (match init {
                Some(i) => node_toks(*i) + k1(Tok::Colon),
                None => Seq::empty(),
            }) + node_toks(*input) + k1(Tok::RPar),
        PbNodeKind::Mapping { kind, func, input, filter } => (if kind == MapKind::List { k1(Tok::LSqBracket) } else {
                k1(Tok::LBrace)
            }) + node_toks(*func) + k1(Tok::For) + node_toks(*input)
            + (match filter {
                Some(x) => k1(Tok::If) + node_toks(*x),
                None => Seq::empty(),
            }) + (if kind == MapKind::List { k1(Tok::RSqBracket) } else { k1(Tok::RBrace) }),
        PbNodeKind::Switch { input, cases, default } => k1(Tok::Switch) + node_toks(*input) + k1(Tok::LBrace)
            + cases_toks(cases@) + (match default {
                Some(d) => k1(Tok::Underscore) + k1(Tok::RDoubleArrow) + node_toks(*d) + k1(Tok::SemiColon),
                None => Seq::empty(),
            }) + k1(Tok::RBrace),
        PbNodeKind::Object(asg) => k1(Tok::LBrace) + assigns_toks(asg@) + k1(Tok::RBrace),
        PbNodeKind::List(items, trailing) => k1(Tok::LSqBracket) + items_toks(items@)
            + (if trailing { k1(Tok::Comma) } else { Seq::empty() }) + k1(Tok::RSqBracket),
        PbNodeKind::Tuple(items, trailing) => k1(Tok::LPar) + items_toks(items@)
            + (if trailing { k1(Tok::Comma) } else { Seq::empty() }) + k1(Tok::RPar),
        PbNodeKind::Bool(b) => if b { k1(Tok::True) } else { k1(Tok::False) },
        PbNodeKind::Int(s) => seq![(2int, s@)],
        PbNodeKind::String(parts) => k1(Tok::StringQuote) + parts_toks(parts@) + k1(Tok::StringQuote),
        PbNodeKind::Var(s) => seq![ident_key(s@)],
        PbNodeKind::Null => k1(Tok::Null),
    }
}

/// Items separated by commas.
pub open spec fn items_toks(items: Seq<PbNode>) -> Seq<(int, Seq<char>)>
    decreases items, 0nat,
{
    if items.len() == 0 {
        Seq::empty()
    } else if items.len() == 1 {
        node_toks(items[0])
    } else {
        items_toks(items.drop_last()) + k1(Tok::Comma) + node_toks(items.last())
    }
}

pub open spec fn parts_toks(parts: Seq<StrPart>) -> Seq<(int, Seq<char>)>
    decreases parts, 0nat,
{
    if parts.len() == 0 {
        Seq::empty()
    } else {
        parts_toks(parts.drop_last()) + match parts.last() {
            StrPart::Chunk(s) => seq![(3int, s@)],
            StrPart::Embed(x) => k1(Tok::StringEmbedStart) + node_toks(x) + seq![(4int, seq!['}'])],
        }
    }
}

pub open spec fn chunks_toks(chunks: Seq<String>) -> Seq<(int, Seq<char>)>
    decreases chunks.len(),
{
    if chunks.len() == 0 { Seq::empty() } else { chunks_toks(chunks.drop_last()) + seq![(3int, chunks.last()@)] }
}

pub open spec fn key_toks(k: Key) -> Seq<(int, Seq<char>)> {
    match k {
        Key::Ident(s, _) => seq![ident_key(s@)],
        Key::String(chunks, _) => k1(Tok::StringQuote) + chunks_toks(chunks@) + k1(Tok::StringQuote),
    }
}

pub open spec fn assign_toks(a: Assignment) -> Seq<(int, Seq<char>)>
    decreases a, 0nat,
{
    key_toks(a.key) + (match a.value {
        Some(v) => k1(Tok::Assign) + node_toks(v),
        None => Seq::empty(),
    }) + k1(Tok::SemiColon)
}

pub open spec fn assigns_toks(asg: Seq<Assignment>) -> Seq<(int, Seq<char>)>
    decreases asg, 0nat,
{
    if asg.len() == 0 { Seq::empty() } else { assigns_toks(asg.drop_last()) + assign_toks(asg.last()) }
}

pub open spec fn lets_toks(bs: Seq<LetBinding>) -> Seq<(int, Seq<char>)>
    decreases bs, 0nat,
{
    if bs.len() == 0 {
        Seq::empty()
    } else {
        lets_toks(bs.drop_last()) + matcher_toks(bs.last().matcher) + k1(Tok::Assign) + node_toks(bs.last().value)
            + k1(Tok::SemiColon)
    }
}

pub open spec fn cases_toks(cs: Seq<SwitchCase>) -> Seq<(int, Seq<char>)>
    decreases cs, 0nat,
{
    if cs.len() == 0 {
        Seq::empty()
    } else {
        cases_toks(cs.drop_last()) + node_toks(cs.last().matcher) + k1(Tok::RDoubleArrow) + node_toks(cs.last().value)
            + k1(Tok::SemiColon)
    }
}

/// Matchers one after the other (the parameters of a function).
pub open spec fn matchers_toks(ms: Seq<Matcher>) -> Seq<(int, Seq<char>)>
    decreases ms, 0nat,
{
    if ms.len() == 0 { Seq::empty() } else { matchers_toks(ms.drop_last()) + matcher_toks(ms.last()) }
}

/// Matchers separated by commas.
pub open spec fn mitems_toks(ms: Seq<Matcher>) -> Seq<(int, Seq<char>)>
    decreases ms, 0nat,
{
    if ms.len() == 0 {
        Seq::empty()
    } else if ms.len() == 1 {
        matcher_toks(ms[0])
    } else {
        mitems_toks(ms.drop_last()) + k1(Tok::Comma) + matcher_toks(ms.last())
    }
}

pub open spec fn ofield_toks(f: ObjectMatcher) -> Seq<(int, Seq<char>)>
    decreases f, 0nat,
{
    seq![ident_key(f.key@)] + (match f.matcher {
        Some(m) => k1(Tok::Assign) + matcher_toks(m),
        None => Seq::empty(),
    }) + (match f.default {
        Some(d) => k1(Tok::BinOpHasAttr) + node_toks(d),
        None => Seq::empty(),
    })
}

pub open spec fn ofields_toks(fs: Seq<ObjectMatcher>) -> Seq<(int, Seq<char>)>
    decreases fs, 0nat,
{
    if fs.len() == 0 {
        Seq::empty()
    } else if fs.len() == 1 {
        ofield_toks(fs[0])
    } else {
        ofields_toks(fs.drop_last()) + k1(Tok::Comma) + ofield_toks(fs.last())
    }
}

pub open spec fn matcher_toks(m: Matcher) -> Seq<(int, Seq<char>)>
    decreases m, 0nat,
{
    match m.kind {
        MatcherKind::Alias(inner, name, _) => matcher_toks(*inner) + k1(Tok::At) + seq![ident_key(name@)],
        MatcherKind::DontCare => k1(Tok::Underscore),
        MatcherKind::Ident(name) => seq![ident_key(name@)],
        MatcherKind::Tuple(ms, trailing) => k1(Tok::LPar) + mitems_toks(ms@)
            + (if trailing { k1(Tok::Comma) } else { Seq::empty() }) + k1(Tok::RPar),
        MatcherKind::Object { fields, exhaustive } => k1(Tok::LBrace) + ofields_toks(fields@)
            + (if exhaustive {
                Seq::empty()
            } else if fields.len() == 0 {
                k1(Tok::TripleDots)
            } else {
                k1(Tok::Comma) + k1(Tok::TripleDots)
            }) + k1(Tok::RBrace),
    }
}

/* Reading */

/// The syntax tree of `code`, a file of the build language: its root
/// holds the source text. On success the tree stands for exactly the
/// tokens of the source, in order.
pub fn parse(code: &str, file: &VirtPath) -> (r: Result<PbNode, Error>)
    ensures
        match r {
            Ok(n) => (exists|toks: Seq<Token>|
                #[trigger] lexed(code@, toks) && lex_spec(code@) == Ok::<Seq<(TokKind, int, int)>, LexErrV>(descs(toks))
                    && node_toks(n) == keys(toks) && toks.len() > 0 && n.loc.start == toks[0].start
                    && n.loc.end == toks.last().end) && crate::syntax::nested_ok(n) && (n.source matches Some(s) && s@ == code@)
                    && node_src(n) == code@,
            Err(e) => e.typ == ErrorType::Parse && (lex_spec(code@) matches Err(le) ==> e.msg@ == le.0
                && e.frames_view() == seq![span_view(file@, le.1 as usize, le.2 as usize)]),
        },
        r is Ok <==> readable(code@),
{
    let toks = match lex(code) {
        Ok(t) => t,
        Err(le) => {
            let e = Error::new(ErrorType::Parse, le.message);
            return Err(e.loc(le.start, le.end, file));
        },
    };
    proof {
        assert(descs(toks@).map_values(|x: (TokKind, int, int)| x.0) =~= kinds(toks@));
    }
    let (mut n, q) = parse_expr(&toks, file, 0)?;
    if q < toks.len() {
        return Err(perr(&toks, file, q, "unexpected token"));
    }
    proof {
        assert(ks(toks@, 0, toks@.len() as int) =~= keys(toks@));
    }
    n.source = Some(copy_str(code));
    Ok(n)
}

/* Printing */

pub open spec fn opt_src(o: Option<Box<PbNode>>) -> Seq<char>
    decreases o, 0nat,
{
    match o {
        Some(x) => node_src(*x),
        None => Seq::empty(),
    }
}

/// The source text of a node: the text it was read from, where it holds
/// it, else the node written out again.
pub open spec fn node_src(n: PbNode) -> Seq<char>
    decreases n, 1nat,
{
    match n.source {
        Some(s) => s@,
        None => kind_src(n),
    }
}

/// A tree that holds the text it was read from (as `parse` gives it)
/// writes out as exactly that text.
pub proof fn lemma_parsed_tree_writes_its_source(n: PbNode, code: Seq<char>)
    requires
        n.source matches Some(s) && s@ == code,
    ensures
        node_src(n) == code,
{
}

/// A node written out, tokens joined without spaces but where they are
/// needed.
pub open spec fn kind_src(n: PbNode) -> Seq<char>
    decreases n, 0nat,
{
    match n.kind {
        PbNodeKind::Group(x) => "("@ + node_src(*x) + ")"@,
        PbNodeKind::Let(bs, body) => "let "@ + lets_src(bs@) + "in "@ + node_src(*body),
        PbNodeKind::Bind(asg, body) => "bind "@ + assigns_src(asg@) + "in "@ + node_src(*body),
        PbNodeKind::FuncDef(ms, body) => "|"@ + params_src(ms@) + "|"@ + node_src(*body),
        PbNodeKind::Binary(op, l, r) => node_src(*l) + tok_text(binop_tok(op)) + node_src(*r),
        PbNodeKind::Unary(op, x) => (if op == UnaryOp::Neg { "-"@ } else { "!"@ }) + node_src(*x),
        PbNodeKind::FuncCall(f, a) => node_src(*f) + " "@ + node_src(*a),
        PbNodeKind::AttrSel(l, attr) => node_src(*l) + match attr {
            Attr::Ident(name, _) => "."@ + name@,
            Attr::Dynamic(x) => ".{"@ + node_src(*x) + "}"@,
        },
        PbNodeKind::Fold { func, init, input } => "("@ + node_src(*func) + " for "@ + (match init {
            Some(i) => node_src(*i) + ":"@,
            None => Seq::empty(),
        }) + node_src(*input) + ")"@,
        PbNodeKind::Mapping { kind, func, input, filter } => (if kind == MapKind::List { "["@ } else { "{"@ })
            + node_src(*func) + " for "@ + node_src(*input) + (match filter {
            Some(x) => " if "@ + node_src(*x),
            None => Seq::empty(),
        }) + (if kind == MapKind::List { "]"@ } else { "}"@ }),
        PbNodeKind::Switch { input, cases, default } => "switch "@ + node_src(*input) + " {"@ + cases_src(cases@)
            + (match default {
            Some(d) => "_=>"@ + node_src(*d) + ";"@,
            None => Seq::empty(),
        }) + "}"@,
        PbNodeKind::Object(asg) => "{"@ + assigns_src(asg@) + "}"@,
        PbNodeKind::List(items, trailing) => "["@ + items_src(items@) + (if trailing { ","@ } else {
            Seq::empty()
        }) + "]"@,
        PbNodeKind::Tuple(items, trailing) => "("@ + items_src(items@) + (if trailing { ","@ } else {
            Seq::empty()
        }) + ")"@,
        PbNodeKind::Bool(b) => if b { "true"@ } else { "false"@ },
        PbNodeKind::Int(s) => s@,
        PbNodeKind::String(parts) => "\""@ + parts_src(parts@) + "\""@,
        PbNodeKind::Var(s) => s@,
        PbNodeKind::Null => "null"@,
    }
}

pub open spec fn items_src(s: Seq<PbNode>) -> Seq<char>
    decreases s, 0nat,
{
    if s.len() == 0 {
        Seq::empty()
    } else if s.len() == 1 {
        node_src(s[0])
    } else {
        items_src(s.drop_last()) + ","@ + node_src(s.last())
    }
}

pub open spec fn parts_src(s: Seq<StrPart>) -> Seq<char>
    decreases s, 0nat,
{
    if s.len() == 0 {
        Seq::empty()
    } else {
        parts_src(s.drop_last()) + match s.last() {
            StrPart::Chunk(c) => c@,
            StrPart::Embed(x) => "${"@ + node_src(x) + "}"@,
        }
    }
}

pub open spec fn chunks_src(s: Seq<String>) -> Seq<char>
    decreases s.len(),
{
    if s.len() == 0 { Seq::empty() } else { chunks_src(s.drop_last()) + s.last()@ }
}

pub open spec fn key_src(k: Key) -> Seq<char> {
    match k {
        Key::Ident(s, _) => s@,
        Key::String(chunks, _) => "\""@ + chunks_src(chunks@) + "\""@,
    }
}

pub open spec fn assigns_src(s: Seq<Assignment>) -> Seq<char>
    decreases s, 0nat,
{
    if s.len() == 0 {
        Seq::empty()
    } else {
        assigns_src(s.drop_last()) + key_src(s.last().key) + (match s.last().value {
            Some(v) => "="@ + node_src(v),
            None => Seq::empty(),
        }) + ";"@
    }
}

pub open spec fn lets_src(s: Seq<LetBinding>) -> Seq<char>
    decreases s, 0nat,
{
    if s.len() == 0 {
        Seq::empty()
    } else {
        lets_src(s.drop_last()) + matcher_src(s.last().matcher) + "="@ + node_src(s.last().value) + ";"@
    }
}

pub open spec fn cases_src(s: Seq<SwitchCase>) -> Seq<char>
    decreases s, 0nat,
{
    if s.len() == 0 {
        Seq::empty()
    } else {
        cases_src(s.drop_last()) + node_src(s.last().matcher) + "=>"@ + node_src(s.last().value) + ";"@
    }
}

/// Function parameters, separated by spaces.
pub open spec fn params_src(s: Seq<Matcher>) -> Seq<char>
    decreases s, 0nat,
{
    if s.len() == 0 {
        Seq::empty()
    } else if s.len() == 1 {
        matcher_src(s[0])
    } else {
        params_src(s.drop_last()) + " "@ + matcher_src(s.last())
    }
}

/// Matchers separated by commas.
pub open spec fn mitems_src(s: Seq<Matcher>) -> Seq<char>
    decreases s, 0nat,
{
    if s.len() == 0 {
        Seq::empty()
    } else if s.len() == 1 {
        matcher_src(s[0])
    } else {
        mitems_src(s.drop_last()) + ","@ + matcher_src(s.last())
    }
}

pub open spec fn ofield_src(f: ObjectMatcher) -> Seq<char>
    decreases f, 0nat,
{
    f.key@ + (match f.matcher {
        Some(m) => "="@ + matcher_src(m),
        None => Seq::empty(),
    }) + (match f.default {
        Some(d) => "?"@ + node_src(d),
        None => Seq::empty(),
    })
}

pub open spec fn ofields_src(s: Seq<ObjectMatcher>) -> Seq<char>
    decreases s, 0nat,
{
    if s.len() == 0 {
        Seq::empty()
    } else if s.len() == 1 {
        ofield_src(s[0])
    } else {
        ofields_src(s.drop_last()) + ","@ + ofield_src(s.last())
    }
}

/// A matcher written out.
pub open spec fn matcher_src(m: Matcher) -> Seq<char>
    decreases m, 0nat,
{
    match m.kind {
        MatcherKind::Alias(inner, name, _) => matcher_src(*inner) + "@"@ + name@,
        MatcherKind::DontCare => "_"@,
        MatcherKind::Ident(name) => name@,
        MatcherKind::Tuple(ms, trailing) => "("@ + mitems_src(ms@) + (if trailing { ","@ } else {
            Seq::empty()
        }) + ")"@,
        MatcherKind::Object { fields, exhaustive } => "{"@ + ofields_src(fields@) + (if exhaustive {
            Seq::empty()
        } else if fields.len() == 0 {
            "..."@
        } else {
            ",..."@
        }) + "}"@,
    }
}

impl PbNode {
    /// A node of the syntax tree at `[left, right)` of `file`, holding no
    /// source text.
    pub fn new(kind: PbNodeKind, left: usize, right: usize, file: &VirtPath) -> (r: PbNode)
        ensures
            r.kind == kind,
            r.loc.file@ == file@,
            r.loc.start == left,
            r.loc.end == right,
            r.source is None,
    {
        PbNode { kind, loc: Loc::new(file.copy(), left, right), source: None }
    }

    /// The source text of this node: the text it was read from, where it
    /// holds it (the root of a parsed tree does), else the node written
    /// out again.
    pub fn to_source(&self) -> (r: String)
        ensures
            r@ == node_src(*self),
    {
        let mut out = String::new();
        write_node(&mut out, self);
        proof {
            assert(out@ =~= Seq::<char>::empty() + node_src(*self));
        }
        out
    }
}

impl Matcher {
    /// A matcher at `[left, right)` of `file`.
    pub fn new(kind: MatcherKind, left: usize, right: usize, file: &VirtPath) -> (r: Matcher)
        ensures
            r.kind == kind,
            r.loc.file@ == file@,
            r.loc.start == left,
            r.loc.end == right,
    {
        Matcher { kind, loc: Loc::new(file.copy(), left, right) }
    }

    /// This matcher written out.
    pub fn to_source(&self) -> (r: String)
        ensures
            r@ == matcher_src(*self),
    {
        let mut out = String::new();
        write_matcher(&mut out, self);
        proof {
            assert(out@ =~= Seq::<char>::empty() + matcher_src(*self));
        }
        out
    }
}

fn write_binop(out: &mut String, op: BinaryOp)
    ensures
        final(out)@ == old(out)@ + tok_text(binop_tok(op)),
{
    let ghost o = out@;
    match op {
        BinaryOp::HasAttr => push_char(out, '?'),
        BinaryOp::ListConcat => {
            push_char(out, '+');
            push_char(out, '+');
        },
        BinaryOp::Mult => push_char(out, '*'),
        BinaryOp::Div => push_char(out, '/'),
        BinaryOp::Sub => push_char(out, '-'),
        BinaryOp::Add => push_char(out, '+'),
        BinaryOp::Update => {
            push_char(out, '/');
            push_char(out, '/');
        },
        BinaryOp::Lt => push_char(out, '<'),
        BinaryOp::Le => {
            push_char(out, '<');
            push_char(out, '=');
        },
        BinaryOp::Gt => push_char(out, '>'),
        BinaryOp::Ge => {
            push_char(out, '>');
            push_char(out, '=');
        },
        BinaryOp::Eq => {
            push_char(out, '=');
            push_char(out, '=');
        },
        BinaryOp::Neq => {
            push_char(out, '!');
            push_char(out, '=');
        },
        BinaryOp::LogAnd => {
            push_char(out, '&');
            push_char(out, '&');
        },
        BinaryOp::LogOr => {
            push_char(out, '|');
            push_char(out, '|');
        },
        BinaryOp::LogImpl => {
            push_char(out, '-');
            push_char(out, '>');
        },
    }
    proof {
        assert(out@ =~= o + tok_text(binop_tok(op)));
    }
}

fn write_opt(out: &mut String, x: &Option<Box<PbNode>>)
    ensures
        final(out)@ == old(out)@ + opt_src(*x),
    decreases x,
{
    match x {
        Some(b) => write_node(out, b),
        None => {
            proof {
                assert(out@ =~= out@ + Seq::<char>::empty());
            }
        },
    }
}

#[verifier::rlimit(80)]
fn write_node(out: &mut String, n: &PbNode)
    ensures
        final(out)@ == old(out)@ + node_src(*n),
    decreases n,
{
    let ghost o = out@;
    match &n.source {
        Some(s) => {
            push_str(out, s.as_str());
            return;
        },
        None => {},
    }
    match &n.kind {
        PbNodeKind::Group(x) => {
            push_str(out, "(");
            write_node(out, x);
            push_str(out, ")");
        },
        PbNodeKind::Let(bs, body) => {
            push_str(out, "let ");
            write_lets(out, bs);
            push_str(out, "in ");
            write_node(out, body);
        },
        PbNodeKind::Bind(asg, body) => {
            push_str(out, "bind ");
            write_assigns(out, asg);
            push_str(out, "in ");
            write_node(out, body);
        },
        PbNodeKind::FuncDef(ms, body) => {
            push_str(out, "|");
            write_params(out, ms, " ");
            push_str(out, "|");
            write_node(out, body);
        },
        PbNodeKind::Binary(op, l, r) => {
            write_node(out, l);
            write_binop(out, *op);
            write_node(out, r);
        },
        PbNodeKind::Unary(op, x) => {
            match op {
                UnaryOp::Neg => push_str(out, "-"),
                UnaryOp::Not => push_str(out, "!"),
            }
            write_node(out, x);
        },
        PbNodeKind::FuncCall(f, a) => {
            write_node(out, f);
            push_str(out, " ");
            write_node(out, a);
        },
        PbNodeKind::AttrSel(l, attr) => {
            write_node(out, l);
            match attr {
                Attr::Ident(name, _) => {
                    push_str(out, ".");
                    push_str(out, name.as_str());
                },
                Attr::Dynamic(x) => {
                    push_str(out, ".{");
                    write_node(out, x);
                    push_str(out, "}");
                },
            }
        },
        PbNodeKind::Fold { func, init, input } => {
            push_str(out, "(");
            write_node(out, func);
            push_str(out, " for ");
            match init {
                Some(i) => {
                    write_node(out, i);
                    push_str(out, ":");
                },
                None => {},
            }
            write_node(out, input);
            push_str(out, ")");
        },
        PbNodeKind::Mapping { kind, func, input, filter } => {
            match kind {
                MapKind::List => push_str(out, "["),
                MapKind::Object => push_str(out, "{"),
            }
            write_node(out, func);
            push_str(out, " for ");
            write_node(out, input);
            match filter {
                Some(x) => {
                    push_str(out, " if ");
                    write_node(out, x);
                },
                None => {},
            }
            match kind {
                MapKind::List => push_str(out, "]"),
                MapKind::Object => push_str(out, "}"),
            }
        },
        PbNodeKind::Switch { input, cases, default } => {
            push_str(out, "switch ");
            write_node(out, input);
            push_str(out, " {");
            write_cases(out, cases);
            match default {
                Some(d) => {
                    push_str(out, "_=>");
                    write_node(out, d);
                    push_str(out, ";");
                },
                None => {},
            }
            push_str(out, "}");
        },
        PbNodeKind::Object(asg) => {
            push_str(out, "{");
            write_assigns(out, asg);
            push_str(out, "}");
        },
        PbNodeKind::List(items, trailing) => {
            push_str(out, "[");
            write_items(out, items);
            if *trailing {
                push_str(out, ",");
            }
            push_str(out, "]");
        },
        PbNodeKind::Tuple(items, trailing) => {
            push_str(out, "(");
            write_items(out, items);
            if *trailing {
                push_str(out, ",");
            }
            push_str(out, ")");
        },
        PbNodeKind::Bool(b) => {
            if *b {
                push_str(out, "true");
            } else {
                push_str(out, "false");
            }
        },
        PbNodeKind::Int(s) => push_str(out, s.as_str()),
        PbNodeKind::String(parts) => {
            push_str(out, "\"");
            write_parts(out, parts);
            push_str(out, "\"");
        },
        PbNodeKind::Var(s) => push_str(out, s.as_str()),
        PbNodeKind::Null => push_str(out, "null"),
    }
    proof {
        assert(out@ =~= o + node_src(*n));
    }
}

fn write_items(out: &mut String, s: &Vec<PbNode>)
    ensures
        final(out)@ == old(out)@ + items_src(s@),
    decreases s,
{
    let ghost o = out@;
    let mut i: usize = 0;
    proof {
        assert(s@.subrange(0, 0) =~= Seq::<PbNode>::empty());
        assert(out@ =~= o + items_src(s@.subrange(0, 0)));
    }
    while i < s.len()
        invariant
            i <= s.len(),
            out@ == o + items_src(s@.subrange(0, i as int)),
        decreases s.len() - i,
    {
        let ghost before = out@;
        if i > 0 {
            push_str(out, ",");
        }
        write_node(out, &s[i]);
        proof {
            let t = s@.subrange(0, i + 1);
            assert(t.drop_last() =~= s@.subrange(0, i as int));
            assert(t.last() == s@[i as int]);
            if i == 0 {
                assert(t =~= seq![s@[0]]);
            }
            assert(out@ =~= o + items_src(t));
        }
        i = i + 1;
    }
    proof {
        assert(s@.subrange(0, s.len() as int) =~= s@);
    }
}

fn write_parts(out: &mut String, s: &Vec<StrPart>)
    ensures
        final(out)@ == old(out)@ + parts_src(s@),
    decreases s,
{
    let ghost o = out@;
    let mut i: usize = 0;
    proof {
        assert(s@.subrange(0, 0) =~= Seq::<StrPart>::empty());
        assert(out@ =~= o + parts_src(s@.subrange(0, 0)));
    }
    while i < s.len()
        invariant
            i <= s.len(),
            out@ == o + parts_src(s@.subrange(0, i as int)),
        decreases s.len() - i,
    {
        match &s[i] {
            StrPart::Chunk(c) => push_str(out, c.as_str()),
            StrPart::Embed(x) => {
                push_str(out, "${");
                write_node(out, x);
                push_str(out, "}");
            },
        }
        proof {
            let t = s@.subrange(0, i + 1);
            assert(t.drop_last() =~= s@.subrange(0, i as int));
            assert(t.last() == s@[i as int]);
            assert(out@ =~= o + parts_src(t));
        }
        i = i + 1;
    }
    proof {
        assert(s@.subrange(0, s.len() as int) =~= s@);
    }
}

fn write_assigns(out: &mut String, s: &Vec<Assignment>)
    ensures
        final(out)@ == old(out)@ + assigns_src(s@),
    decreases s,
{
    let ghost o = out@;
    let mut i: usize = 0;
    proof {
        assert(s@.subrange(0, 0) =~= Seq::<Assignment>::empty());
        assert(out@ =~= o + assigns_src(s@.subrange(0, 0)));
    }
    while i < s.len()
        invariant
            i <= s.len(),
            out@ == o + assigns_src(s@.subrange(0, i as int)),
        decreases s.len() - i,
    {
        let a = &s[i];
        let ghost before = out@;
        match &a.key {
            Key::Ident(name, _) => push_str(out, name.as_str()),
            Key::String(chunks, _) => {
                push_str(out, "\"");
                let mut j: usize = 0;
                let ghost mid = out@;
                proof {
                    assert(chunks@.subrange(0, 0) =~= Seq::<String>::empty());
                    assert(out@ =~= mid + chunks_src(chunks@.subrange(0, 0)));
                }
                while j < chunks.len()
                    invariant
                        j <= chunks.len(),
                        out@ == mid + chunks_src(chunks@.subrange(0, j as int)),
                    decreases chunks.len() - j,
                {
                    push_str(out, chunks[j].as_str());
                    proof {
                        assert(chunks@.subrange(0, j + 1).drop_last() =~= chunks@.subrange(0, j as int));
                        assert(out@ =~= mid + chunks_src(chunks@.subrange(0, j + 1)));
                    }
                    j = j + 1;
                }
                proof {
                    assert(chunks@.subrange(0, chunks.len() as int) =~= chunks@);
                }
                push_str(out, "\"");
            },
        }
        proof {
            assert(out@ =~= before + key_src(a.key));
        }
        let ghost after_key = out@;
        match &a.value {
            Some(v) => {
                push_str(out, "=");
                write_node(out, v);
            },
            None => {},
        }
        push_str(out, ";");
        proof {
            let t = s@.subrange(0, i + 1);
            assert(t.drop_last() =~= s@.subrange(0, i as int));
            assert(t.last() == s@[i as int]);
            assert(out@ =~= o + assigns_src(t));
        }
        i = i + 1;
    }
    proof {
        assert(s@.subrange(0, s.len() as int) =~= s@);
    }
}

fn write_lets(out: &mut String, s: &Vec<LetBinding>)
    ensures
        final(out)@ == old(out)@ + lets_src(s@),
    decreases s,
{
    let ghost o = out@;
    let mut i: usize = 0;
    proof {
        assert(s@.subrange(0, 0) =~= Seq::<LetBinding>::empty());
        assert(out@ =~= o + lets_src(s@.subrange(0, 0)));
    }
    while i < s.len()
        invariant
            i <= s.len(),
            out@ == o + lets_src(s@.subrange(0, i as int)),
        decreases s.len() - i,
    {
        write_matcher(out, &s[i].matcher);
        push_str(out, "=");
        write_node(out, &s[i].value);
        push_str(out, ";");
        proof {
            let t = s@.subrange(0, i + 1);
            assert(t.drop_last() =~= s@.subrange(0, i as int));
            assert(t.last() == s@[i as int]);
            assert(out@ =~= o + lets_src(t));
        }
        i = i + 1;
    }
    proof {
        assert(s@.subrange(0, s.len() as int) =~= s@);
    }
}

fn write_cases(out: &mut String, s: &Vec<SwitchCase>)
    ensures
        final(out)@ == old(out)@ + cases_src(s@),
    decreases s,
{
    let ghost o = out@;
    let mut i: usize = 0;
    proof {
        assert(s@.subrange(0, 0) =~= Seq::<SwitchCase>::empty());
        assert(out@ =~= o + cases_src(s@.subrange(0, 0)));
    }
    while i < s.len()
        invariant
            i <= s.len(),
            out@ == o + cases_src(s@.subrange(0, i as int)),
        decreases s.len() - i,
    {
        write_node(out, &s[i].matcher);
        push_str(out, "=>");
        write_node(out, &s[i].value);
        push_str(out, ";");
        proof {
            let t = s@.subrange(0, i + 1);
            assert(t.drop_last() =~= s@.subrange(0, i as int));
            assert(t.last() == s@[i as int]);
            assert(out@ =~= o + cases_src(t));
        }
        i = i + 1;
    }
    proof {
        assert(s@.subrange(0, s.len() as int) =~= s@);
    }
}

/// Matchers separated by `sep`: a space between parameters, a comma
/// between the items of a tuple.
fn write_params(out: &mut String, s: &Vec<Matcher>, sep: &str)
    requires
        sep@ == " "@ || sep@ == ","@,
    ensures
        sep@ == " "@ ==> final(out)@ == old(out)@ + params_src(s@),
        sep@ == ","@ ==> final(out)@ == old(out)@ + mitems_src(s@),
    decreases s,
{
    let ghost o = out@;
    let mut i: usize = 0;
    proof {
        assert(s@.subrange(0, 0) =~= Seq::<Matcher>::empty());
        assert(out@ =~= o + params_src(s@.subrange(0, 0)));
        assert(out@ =~= o + mitems_src(s@.subrange(0, 0)));
    }
    while i < s.len()
        invariant
            i <= s.len(),
            sep@ == " "@ || sep@ == ","@,
            sep@ == " "@ ==> out@ == o + params_src(s@.subrange(0, i as int)),
            sep@ == ","@ ==> out@ == o + mitems_src(s@.subrange(0, i as int)),
        decreases s.len() - i,
    {
        if i > 0 {
            push_str(out, sep);
        }
        write_matcher(out, &s[i]);
        proof {
            let t = s@.subrange(0, i + 1);
            assert(t.drop_last() =~= s@.subrange(0, i as int));
            assert(t.last() == s@[i as int]);
            if i == 0 {
                assert(t =~= seq![s@[0]]);
            }
            if sep@ == " "@ {
                assert(out@ =~= o + params_src(t));
            }
            if sep@ == ","@ {
                assert(out@ =~= o + mitems_src(t));
            }
        }
        i = i + 1;
    }
    proof {
        assert(s@.subrange(0, s.len() as int) =~= s@);
    }
}

#[verifier::rlimit(60)]
#[verifier::spinoff_prover]
fn write_ofields(out: &mut String, s: &Vec<ObjectMatcher>)
    ensures
        final(out)@ == old(out)@ + ofields_src(s@),
    decreases s,
{
    let ghost o = out@;
    let mut i: usize = 0;
    proof {
        assert(s@.subrange(0, 0) =~= Seq::<ObjectMatcher>::empty());
        assert(out@ =~= o + ofields_src(s@.subrange(0, 0)));
    }
    while i < s.len()
        invariant
            i <= s.len(),
            out@ == o + ofields_src(s@.subrange(0, i as int)),
        decreases s.len() - i,
    {
        if i > 0 {
            push_str(out, ",");
        }
        let ghost before = out@;
        let f = &s[i];
        push_str(out, f.key.as_str());
        match &f.matcher {
            Some(m) => {
                push_str(out, "=");
                write_matcher(out, m);
            },
            None => {},
        }
        match &f.default {
            Some(d) => {
                push_str(out, "?");
                write_node(out, d);
            },
            None => {},
        }
        proof {
            assert(out@ =~= before + ofield_src(*f));
            let t = s@.subrange(0, i + 1);
            assert(t.drop_last() =~= s@.subrange(0, i as int));
            assert(t.last() == s@[i as int]);
            if i == 0 {
                assert(t =~= seq![s@[0]]);
            }
            assert(out@ =~= o + ofields_src(t));
        }
        i = i + 1;
    }
    proof {
        assert(s@.subrange(0, s.len() as int) =~= s@);
    }
}

fn write_matcher(out: &mut String, m: &Matcher)
    ensures
        final(out)@ == old(out)@ + matcher_src(*m),
    decreases m,
{
    let ghost o = out@;
    match &m.kind {
        MatcherKind::Alias(inner, name, _) => {
            write_matcher(out, inner);
            push_str(out, "@");
            push_str(out, name.as_str());
        },
        MatcherKind::DontCare => push_str(out, "_"),
        MatcherKind::Ident(name) => push_str(out, name.as_str()),
        MatcherKind::Tuple(ms, trailing) => {
            push_str(out, "(");
            write_params(out, ms, ",");
            if *trailing {
                push_str(out, ",");
            }
            push_str(out, ")");
        },
        MatcherKind::Object { fields, exhaustive } => {
            push_str(out, "{");
            write_ofields(out, fields);
            if !*exhaustive {
                if fields.len() == 0 {
                    push_str(out, "...");
                } else {
                    push_str(out, ",...");
                }
            }
            push_str(out, "}");
        },
    }
    proof {
        assert(out@ =~= o + matcher_src(*m));
    }
}

} // verus!
