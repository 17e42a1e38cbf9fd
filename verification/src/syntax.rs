use vstd::prelude::*;
use crate::error::{Loc, Error, ErrorType};
use crate::lexer::{Tok, Token, TokKind, kind_of};
use crate::grammar::{
    is_tok, adv, is_op, starts_arg_k, right_level, g_expr, g_level, g_chain, g_app, g_args, g_select, g_sels,
    g_atom, g_string, g_paren, closes_k, g_items, g_bracket, g_map_rest, map_close, opens_object, g_brace,
    g_assigns, g_assignment, g_key, g_switch, g_cases, g_lets, g_bind, g_fdef, g_matcher, g_aliases, g_mprimary,
    g_mtuple, g_mitems, g_mobject, g_ofields, g_ofield, tok_level, lemma_tok_level, ends_at, opens_tail,
};
use crate::path::VirtPath;
use crate::pbcst::{
    PbNode, PbNodeKind, BinaryOp, UnaryOp, MapKind, StrPart, Attr, LetBinding, Assignment, Key, SwitchCase,
    Matcher, MatcherKind, ObjectMatcher, tkey, k1, binop_tok, node_toks, items_toks, parts_toks, chunks_toks,
    key_toks, assign_toks, assigns_toks, lets_toks, cases_toks, matchers_toks, mitems_toks, ofield_toks,
    ofields_toks, matcher_toks,
};
use crate::text::copy_str;

verus! {

/* What a parse consumed */

/// The kinds of the tokens, which is what the grammar looks at.
pub open spec fn kinds(toks: Seq<Token>) -> Seq<TokKind> {
    toks.map_values(|t: Token| kind_of(t.tok))
}

/// A reading that succeeds exactly where the grammar `g` says the form
/// ends, and fails exactly where the grammar finds no such form.
pub open spec fn ends_as<T>(r: Result<(T, usize), Error>, g: Option<int>) -> bool {
    match r {
        Ok((_, q)) => g == Some(q as int),
        Err(_) => g is None,
    }
}

/// The token classes and texts of a token sequence.
pub open spec fn keys(toks: Seq<Token>) -> Seq<(int, Seq<char>)> {
    toks.map_values(|t: Token| tkey(t.tok))
}

/// The keys of the tokens in `[a, b)`.
pub open spec fn ks(toks: Seq<Token>, a: int, b: int) -> Seq<(int, Seq<char>)> {
    keys(toks).subrange(a, b)
}

/// A node read from the tokens starting at `p`: it stands for exactly the
/// tokens up to where reading stopped, which is past `p`.
pub open spec fn node_res(toks: Seq<Token>, p: int, r: Result<(PbNode, usize), Error>) -> bool {
    match r {
        Ok((n, q)) => p < q <= toks.len() && node_toks(n) == ks(toks, p, q as int) && n.loc.start == toks[p].start
            && n.loc.end == toks[q - 1].end,
        Err(e) => e.typ == ErrorType::Parse,
    }
}

pub open spec fn matcher_res(toks: Seq<Token>, p: int, r: Result<(Matcher, usize), Error>) -> bool {
    match r {
        Ok((m, q)) => p < q <= toks.len() && matcher_toks(m) == ks(toks, p, q as int),
        Err(e) => e.typ == ErrorType::Parse,
    }
}

proof fn lemma_cat(toks: Seq<Token>, a: int, b: int, c: int)
    requires
        0 <= a <= b <= c <= toks.len(),
    ensures
        ks(toks, a, b) + ks(toks, b, c) == ks(toks, a, c),
{
    assert(ks(toks, a, b) + ks(toks, b, c) =~= ks(toks, a, c));
}

proof fn lemma_one(toks: Seq<Token>, a: int)
    requires
        0 <= a < toks.len(),
    ensures
        ks(toks, a, a + 1) == k1(toks[a].tok),
{
    assert(ks(toks, a, a + 1) =~= k1(toks[a].tok));
}

proof fn lemma_empty(toks: Seq<Token>, a: int)
    requires
        0 <= a <= toks.len(),
    ensures
        ks(toks, a, a) == Seq::<(int, Seq<char>)>::empty(),
{
    assert(ks(toks, a, a) =~= Seq::<(int, Seq<char>)>::empty());
}

/* Building blocks */

pub(crate) fn perr(toks: &Vec<Token>, file: &VirtPath, p: usize, what: &str) -> (e: Error)
    ensures
        e.typ == ErrorType::Parse,
{
    let mut msg = copy_str(what);
    if p < toks.len() {
        let e = Error::new(ErrorType::Parse, msg);
        e.loc(toks[p].start, toks[p].end, file)
    } else {
        crate::text::push_str(&mut msg, " at end of input");
        let end = if toks.len() > 0 { toks[toks.len() - 1].end } else { 0 };
        let e = Error::new(ErrorType::Parse, msg);
        e.loc(end, end, file)
    }
}

/// The location spanned by the tokens `[p, q)`.
fn span(toks: &Vec<Token>, file: &VirtPath, p: usize, q: usize) -> (l: Loc)
    requires
        p < q <= toks.len(),
    ensures
        l.start == toks@[p as int].start,
        l.end == toks@[q - 1].end,
{
    Loc::new(file.copy(), toks[p].start, toks[q - 1].end)
}

fn node(kind: PbNodeKind, toks: &Vec<Token>, file: &VirtPath, p: usize, q: usize) -> (n: PbNode)
    requires
        p < q <= toks.len(),
    ensures
        n.kind == kind,
        n.source is None,
        n.loc.start == toks@[p as int].start,
        n.loc.end == toks@[q - 1].end,
{
    PbNode { kind, loc: span(toks, file, p, q), source: None }
}

/// The binary operator that `t` is at precedence level `lvl`, if any.
pub open spec fn level_op(lvl: u8, t: Tok) -> Option<BinaryOp> {
    match (lvl, t) {
        (12, Tok::BinOpLogImpl) => Some(BinaryOp::LogImpl),
        (11, Tok::BinOpLogOr) => Some(BinaryOp::LogOr),
        (10, Tok::BinOpLogAnd) => Some(BinaryOp::LogAnd),
        (9, Tok::BinOpEq) => Some(BinaryOp::Eq),
        (9, Tok::BinOpNeq) => Some(BinaryOp::Neq),
        (8, Tok::BinOpLt) => Some(BinaryOp::Lt),
        (8, Tok::BinOpLe) => Some(BinaryOp::Le),
        (8, Tok::BinOpGt) => Some(BinaryOp::Gt),
        (8, Tok::BinOpGe) => Some(BinaryOp::Ge),
        (7, Tok::BinOpUpdate) => Some(BinaryOp::Update),
        (5, Tok::BinOpAdd) => Some(BinaryOp::Add),
        (5, Tok::Minus) => Some(BinaryOp::Sub),
        (4, Tok::BinOpMult) => Some(BinaryOp::Mult),
        (4, Tok::BinOpDiv) => Some(BinaryOp::Div),
        (3, Tok::BinOpListConcat) => Some(BinaryOp::ListConcat),
        (2, Tok::BinOpHasAttr) => Some(BinaryOp::HasAttr),
        _ => None,
    }
}

/// The precedence level of a binary operator (a higher level binds
/// looser): `->`, `||`, `&&`, `==` `!=`, comparisons, `//`, `+` `-`,
/// `*` `/`, `++`, `?`; `!` sits between `//` and `+`, unary `-` below `?`.
pub open spec fn op_level(op: BinaryOp) -> int {
    match op {
        BinaryOp::LogImpl => 12,
        BinaryOp::LogOr => 11,
        BinaryOp::LogAnd => 10,
        BinaryOp::Eq | BinaryOp::Neq => 9,
        BinaryOp::Lt | BinaryOp::Le | BinaryOp::Gt | BinaryOp::Ge => 8,
        BinaryOp::Update => 7,
        BinaryOp::Add | BinaryOp::Sub => 5,
        BinaryOp::Mult | BinaryOp::Div => 4,
        BinaryOp::ListConcat => 3,
        BinaryOp::HasAttr => 2,
    }
}

/// A form that reaches as far to the right as it can: `let`, `bind`, a
/// function, and anything that ends in one.
pub open spec fn open_end(n: PbNode) -> bool
    decreases n,
{
    match n.kind {
        PbNodeKind::Let(..) | PbNodeKind::Bind(..) | PbNodeKind::FuncDef(..) => true,
        PbNodeKind::Binary(_, _, r) => open_end(*r),
        PbNodeKind::Unary(_, x) => open_end(*x),
        PbNodeKind::FuncCall(_, a) => open_end(*a),
        _ => false,
    }
}

/// The operators of `n` are nested as precedence and grouping ask, with
/// `n` itself at level `lvl` or tighter: a binary node's operands are
/// tighter than its operator, except the one on the side the operator
/// groups towards (the left, or the right for `->`, `//` and `++`), which
/// may be at the same level; `!` takes an operand at its own level or
/// tighter, as does unary `-`. A function application is at level 0: its
/// function is an application or tighter and its argument is at level -1,
/// the level of selections, literals, names and bracketed or keyword
/// forms; the left side of a selection is at level -1 too. So `f a b` is
/// `(f a) b`, `f a.b` is `f (a.b)` and `- f x` is `-(f x)`. A form that
/// reaches as far right as it can (`open_end`) is never the left operand,
/// the function, the argument or the selected value of another form: so
/// `let a = 1; in a + 1` is a `let` whose body is `a + 1`.
pub open spec fn layered(n: PbNode, lvl: int) -> bool
    decreases n,
{
    match n.kind {
        PbNodeKind::Binary(op, l, r) => {
            let lv = op_level(op);
            &&& lv <= lvl
            &&& !open_end(*l)
            &&& if right_assoc(lv as u8) {
                layered(*l, lv - 1) && layered(*r, lv)
            } else {
                layered(*l, lv) && layered(*r, lv - 1)
            }
        },
        PbNodeKind::Unary(UnaryOp::Not, x) => 6 <= lvl && layered(*x, 6),
        PbNodeKind::Unary(UnaryOp::Neg, x) => 1 <= lvl && layered(*x, 1),
        PbNodeKind::FuncCall(f, a) => 0 <= lvl && layered(*f, 0) && layered(*a, -1) && !open_end(*f)
            && !open_end(*a),
        PbNodeKind::AttrSel(x, _) => -1 <= lvl && layered(*x, -1) && !open_end(*x),
        _ => -1 <= lvl,
    }
}

proof fn lemma_layered_up(n: PbNode, a: int, b: int)
    requires
        layered(n, a),
        a <= b,
    ensures
        layered(n, b),
{
}

/// Every expression inside `n`, at whatever depth, has its operators
/// nested as `layered` says, and so does `n` (at the loosest level).
pub open spec fn nested_ok(n: PbNode) -> bool
    decreases n, 1nat,
{
    layered(n, 12) && parts_nested(n)
}

/// The expressions directly inside `n` are `nested_ok`.
pub open spec fn parts_nested(n: PbNode) -> bool
    decreases n, 0nat,
{
    match n.kind {
        PbNodeKind::Group(x) => nested_ok(*x),
        PbNodeKind::Let(bs, body) => lets_nested(bs@) && nested_ok(*body),
        PbNodeKind::Bind(asg, body) => assigns_nested(asg@) && nested_ok(*body),
        PbNodeKind::FuncDef(ms, body) => matchers_nested(ms@) && nested_ok(*body),
        PbNodeKind::Binary(_, l, r) => nested_ok(*l) && nested_ok(*r),
        PbNodeKind::Unary(_, x) => nested_ok(*x),
        PbNodeKind::FuncCall(f, a) => nested_ok(*f) && nested_ok(*a),
        PbNodeKind::AttrSel(l, attr) => nested_ok(*l) && match attr {
            Attr::Dynamic(x) => nested_ok(*x),
            Attr::Ident(_, _) => true,
        },
        PbNodeKind::Fold { func, init, input } => nested_ok(*func) && nested_ok(*input) && match init {
            Some(i) => nested_ok(*i),
            None => true,
        },
        PbNodeKind::Mapping { kind, func, input, filter } => nested_ok(*func) && nested_ok(*input) && match filter {
            Some(x) => nested_ok(*x),
            None => true,
        },
        PbNodeKind::Switch { input, cases, default } => nested_ok(*input) && layered(*input, -1) && cases_nested(cases@) && match default {
            Some(d) => nested_ok(*d),
            None => true,
        },
        PbNodeKind::Object(asg) => assigns_nested(asg@),
        PbNodeKind::List(items, _) => items_nested(items@),
        PbNodeKind::Tuple(items, _) => items_nested(items@),
        PbNodeKind::String(parts) => strparts_nested(parts@),
        _ => true,
    }
}

pub open spec fn items_nested(s: Seq<PbNode>) -> bool
    decreases s, 2nat,
{
    forall|i: int| 0 <= i < s.len() ==> nested_ok(#[trigger] s[i])
}

pub open spec fn strparts_nested(s: Seq<StrPart>) -> bool
    decreases s, 2nat,
{
    forall|i: int| 0 <= i < s.len() ==> match #[trigger] s[i] {
        StrPart::Embed(x) => nested_ok(x),
        StrPart::Chunk(_) => true,
    }
}

pub open spec fn assign_nested(a: Assignment) -> bool
    decreases a, 1nat,
{
    match a.value {
        Some(v) => nested_ok(v),
        None => true,
    }
}

pub open spec fn assigns_nested(s: Seq<Assignment>) -> bool
    decreases s, 2nat,
{
    forall|i: int| 0 <= i < s.len() ==> assign_nested(#[trigger] s[i])
}

pub open spec fn lets_nested(s: Seq<LetBinding>) -> bool
    decreases s, 2nat,
{
    forall|i: int| 0 <= i < s.len() ==> matcher_nested((#[trigger] s[i]).matcher) && nested_ok(s[i].value)
}

pub open spec fn cases_nested(s: Seq<SwitchCase>) -> bool
    decreases s, 2nat,
{
    forall|i: int| 0 <= i < s.len() ==> nested_ok((#[trigger] s[i]).matcher) && nested_ok(s[i].value)
}

/// The defaults inside a pattern are `nested_ok`.
pub open spec fn matcher_nested(m: Matcher) -> bool
    decreases m, 1nat,
{
    match m.kind {
        MatcherKind::Alias(inner, _, _) => matcher_nested(*inner),
        MatcherKind::Tuple(ms, _) => matchers_nested(ms@),
        MatcherKind::Object { fields, exhaustive } => ofields_nested(fields@),
        _ => true,
    }
}

pub open spec fn matchers_nested(s: Seq<Matcher>) -> bool
    decreases s, 2nat,
{
    forall|i: int| 0 <= i < s.len() ==> matcher_nested(#[trigger] s[i])
}

pub open spec fn ofield_nested(f: ObjectMatcher) -> bool
    decreases f, 1nat,
{
    (match f.matcher {
        Some(m) => matcher_nested(m),
        None => true,
    }) && match f.default {
        Some(d) => nested_ok(d),
        None => true,
    }
}

pub open spec fn ofields_nested(s: Seq<ObjectMatcher>) -> bool
    decreases s, 2nat,
{
    forall|i: int| 0 <= i < s.len() ==> ofield_nested(#[trigger] s[i])
}

fn op_at(lvl: u8, t: &Tok) -> (r: Option<BinaryOp>)
    ensures
        r == level_op(lvl, *t),
        r matches Some(op) ==> tkey(*t) == tkey(binop_tok(op)),
{
    match (lvl, t) {
        (12, Tok::BinOpLogImpl) => Some(BinaryOp::LogImpl),
        (11, Tok::BinOpLogOr) => Some(BinaryOp::LogOr),
        (10, Tok::BinOpLogAnd) => Some(BinaryOp::LogAnd),
        (9, Tok::BinOpEq) => Some(BinaryOp::Eq),
        (9, Tok::BinOpNeq) => Some(BinaryOp::Neq),
        (8, Tok::BinOpLt) => Some(BinaryOp::Lt),
        (8, Tok::BinOpLe) => Some(BinaryOp::Le),
        (8, Tok::BinOpGt) => Some(BinaryOp::Gt),
        (8, Tok::BinOpGe) => Some(BinaryOp::Ge),
        (7, Tok::BinOpUpdate) => Some(BinaryOp::Update),
        (5, Tok::BinOpAdd) => Some(BinaryOp::Add),
        (5, Tok::Minus) => Some(BinaryOp::Sub),
        (4, Tok::BinOpMult) => Some(BinaryOp::Mult),
        (4, Tok::BinOpDiv) => Some(BinaryOp::Div),
        (3, Tok::BinOpListConcat) => Some(BinaryOp::ListConcat),
        (2, Tok::BinOpHasAttr) => Some(BinaryOp::HasAttr),
        _ => None,
    }
}

/// Whether the operators of level `lvl` group to the right.
pub open spec fn right_assoc(lvl: u8) -> bool {
    lvl == 12 || lvl == 7 || lvl == 3
}

/// Whether a token can begin an argument of a function call.
fn starts_arg(t: &Tok) -> (r: bool)
    ensures
        r == starts_arg_k(kind_of(*t)),
{
    match t {
        Tok::Ident(_) | Tok::Number(_) | Tok::StringQuote | Tok::LPar | Tok::LSqBracket | Tok::LBrace
        | Tok::True | Tok::False | Tok::Null => true,
        _ => false,
    }
}

/* Expressions */

/// An expression starting at `p`.
pub fn parse_expr(toks: &Vec<Token>, file: &VirtPath, p: usize) -> (r: Result<(PbNode, usize), Error>)
    requires
        p <= toks.len(),
    ensures
        node_res(toks@, p as int, r),
        r matches Ok((n, _)) ==> layered(n, 12),
        r matches Ok((n, _)) ==> parts_nested(n),
        ends_as(r, g_expr(kinds(toks@), p as int)),
        r matches Ok((_, q)) ==> ends_at(kinds(toks@), q as int, 12),
    decreases toks@.len() - p, 30int,
{
    parse_level(toks, file, p, 12)
}

/// An expression of precedence level `lvl` (or tighter) starting at `p`.
fn parse_level(toks: &Vec<Token>, file: &VirtPath, p: usize, lvl: u8) -> (r: Result<(PbNode, usize), Error>)
    requires
        p <= toks.len(),
        lvl <= 12,
    ensures
        node_res(toks@, p as int, r),
        r matches Ok((n, _)) ==> layered(n, lvl as int),
        r matches Ok((n, _)) ==> parts_nested(n),
        ends_as(r, g_level(kinds(toks@), p as int, lvl as int)),
        r matches Ok((_, q)) ==> ends_at(kinds(toks@), q as int, lvl as int),
        r matches Ok((n, q)) ==> (open_end(n) ==> ends_at(kinds(toks@), q as int, 12)),
    decreases toks@.len() - p, 10 + lvl as int,
{
    let ghost k = kinds(toks@);
    if lvl == 0 {
        return parse_app(toks, file, p);
    }
    if lvl == 6 || lvl == 1 {
        // prefix operators
        if p < toks.len() && ((lvl == 6 && matches!(toks[p].tok, Tok::UnOpNot)) || (lvl == 1 && matches!(
            toks[p].tok,
            Tok::Minus
        ))) {
            let (x, q) = parse_level(toks, file, p + 1, lvl)?;
            proof {
                lemma_layered_up(x, lvl as int, 12);
            }
            let op = if lvl == 6 { UnaryOp::Not } else { UnaryOp::Neg };
            let n = node(PbNodeKind::Unary(op, Box::new(x)), toks, file, p, q);
            proof {
                lemma_one(toks@, p as int);
                lemma_cat(toks@, p as int, p + 1, q as int);
            }
            return Ok((n, q));
        }
        return parse_level(toks, file, p, lvl - 1);
    }
    let (first, q0) = parse_level(toks, file, p, lvl - 1)?;
    proof {
        lemma_layered_up(first, lvl - 1, lvl as int);
    }
    let mut lhs = first;
    let mut q = q0;
    if lvl == 12 || lvl == 7 || lvl == 3 {
        if q < toks.len() {
            if let Some(op) = op_at(lvl, &toks[q].tok) {
                proof {
                    lemma_tok_level(lvl as int, k[q as int]);
                }
                let (rhs, q2) = parse_level(toks, file, q + 1, lvl)?;
                proof {
                    lemma_layered_up(first, lvl as int, 12);
                    lemma_layered_up(rhs, lvl as int, 12);
                }
                let n = node(PbNodeKind::Binary(op, Box::new(lhs), Box::new(rhs)), toks, file, p, q2);
                proof {
                    lemma_one(toks@, q as int);
                    lemma_cat(toks@, p as int, q as int, q + 1);
                    lemma_cat(toks@, p as int, q + 1, q2 as int);
                }
                return Ok((n, q2));
            }
            proof {
                lemma_tok_level(lvl as int, k[q as int]);
            }
        }
        return Ok((lhs, q));
    }
    loop
        invariant
            p < q <= toks.len(),
            lvl <= 12,
            node_toks(lhs) == ks(toks@, p as int, q as int),
            lhs.loc.start == toks@[p as int].start,
            lhs.loc.end == toks@[q - 1].end,
            layered(lhs, lvl as int),
            parts_nested(lhs),
            !right_assoc(lvl),
            k == kinds(toks@),
            2 <= lvl,
            g_level(k, p as int, lvl as int) == g_chain(k, q as int, lvl as int),
            ends_at(k, q as int, lvl - 1),
            open_end(lhs) ==> ends_at(k, q as int, 12),
        decreases toks@.len() - q,
    {
        if q >= toks.len() {
            return Ok((lhs, q));
        }
        match op_at(lvl, &toks[q].tok) {
            Some(op) => {
                proof {
                    lemma_tok_level(lvl as int, k[q as int]);
                }
                let (rhs, q2) = parse_level(toks, file, q + 1, lvl - 1)?;
                let ghost l0 = lhs;
                let ghost r0 = rhs;
                proof {
                    assert(op_level(op) == lvl as int);
                    assert(!right_assoc(lvl));
                    assert(layered(l0, lvl as int));
                    assert(layered(r0, lvl - 1));
                    lemma_layered_up(l0, lvl as int, 12);
                    lemma_layered_up(r0, lvl - 1, 12);
                }
                let n = node(PbNodeKind::Binary(op, Box::new(lhs), Box::new(rhs)), toks, file, p, q2);
                proof {
                    assert(layered(n, lvl as int));
                    lemma_one(toks@, q as int);
                    lemma_cat(toks@, p as int, q as int, q + 1);
                    lemma_cat(toks@, p as int, q + 1, q2 as int);
                }
                lhs = n;
                q = q2;
            },
            None => {
                assert(!is_op(lvl as int, k[q as int]));
                proof {
                    lemma_tok_level(lvl as int, k[q as int]);
                }
                return Ok((lhs, q));
            },
        }
    }
}

/// Function application: a selection followed by arguments.
fn parse_app(toks: &Vec<Token>, file: &VirtPath, p: usize) -> (r: Result<(PbNode, usize), Error>)
    requires
        p <= toks.len(),
    ensures
        node_res(toks@, p as int, r),
        r matches Ok((n, _)) ==> layered(n, 0),
        r matches Ok((n, _)) ==> parts_nested(n),
        ends_as(r, g_app(kinds(toks@), p as int)),
        r matches Ok((_, q)) ==> ends_at(kinds(toks@), q as int, 0),
        r matches Ok((n, q)) ==> (open_end(n) ==> ends_at(kinds(toks@), q as int, 12)),
    decreases toks@.len() - p, 5int,
{
    let ghost k = kinds(toks@);
    let (first, q0) = parse_select(toks, file, p)?;
    let mut f = first;
    let mut q = q0;
    loop
        invariant
            p < q <= toks.len(),
            node_toks(f) == ks(toks@, p as int, q as int),
            f.loc.start == toks@[p as int].start,
            f.loc.end == toks@[q - 1].end,
            layered(f, 0),
            parts_nested(f),
            k == kinds(toks@),
            g_app(k, p as int) == g_args(k, q as int),
            q == toks.len() || !(is_tok(k, q as int, Tok::Dot) && toks.len() - q > 1),
            open_end(f) ==> ends_at(k, q as int, 12),
        decreases toks@.len() - q,
    {
        if q >= toks.len() || !starts_arg(&toks[q].tok) {
            return Ok((f, q));
        }
        let (a, q2) = parse_select(toks, file, q)?;
        proof {
            lemma_layered_up(f, 0, 12);
            lemma_layered_up(a, -1, 12);
        }
        let n = node(PbNodeKind::FuncCall(Box::new(f), Box::new(a)), toks, file, p, q2);
        proof {
            lemma_cat(toks@, p as int, q as int, q2 as int);
        }
        f = n;
        q = q2;
    }
}

/// An atom followed by attribute selections.
fn parse_select(toks: &Vec<Token>, file: &VirtPath, p: usize) -> (r: Result<(PbNode, usize), Error>)
    requires
        p <= toks.len(),
    ensures
        node_res(toks@, p as int, r),
        r matches Ok((n, _)) ==> layered(n, -1),
        r matches Ok((n, _)) ==> parts_nested(n),
        ends_as(r, g_select(kinds(toks@), p as int)),
        r matches Ok((_, q)) ==> (q == toks.len() || !(is_tok(kinds(toks@), q as int, Tok::Dot) && toks.len() - q > 1)),
        r matches Ok((n, q)) ==> (open_end(n) ==> ends_at(kinds(toks@), q as int, 12) && opens_tail(kinds(toks@), p as int)),
    decreases toks@.len() - p, 4int,
{
    let ghost k = kinds(toks@);
    let (first, q0) = parse_atom(toks, file, p)?;
    let mut x = first;
    let mut q = q0;
    loop
        invariant
            p < q <= toks.len(),
            node_toks(x) == ks(toks@, p as int, q as int),
            x.loc.start == toks@[p as int].start,
            x.loc.end == toks@[q - 1].end,
            layered(x, -1),
            parts_nested(x),
            k == kinds(toks@),
            g_select(k, p as int) == g_sels(k, q as int),
            open_end(x) ==> ends_at(k, q as int, 12) && opens_tail(k, p as int),
        decreases toks@.len() - q,
    {
        proof {
            lemma_layered_up(x, -1, 12);
        }
        if toks.len() - q <= 1 || !matches!(toks[q].tok, Tok::Dot) {
            return Ok((x, q));
        }
        match &toks[q + 1].tok {
            Tok::Ident(name) => {
                let aloc = span(toks, file, q + 1, q + 2);
                let n = node(
                    PbNodeKind::AttrSel(Box::new(x), Attr::Ident(copy_str(name.as_str()), aloc)),
                    toks,
                    file,
                    p,
                    q + 2,
                );
                proof {
                    lemma_one(toks@, q as int);
                    lemma_one(toks@, q + 1);
                    lemma_cat(toks@, p as int, q as int, q + 1);
                    lemma_cat(toks@, p as int, q + 1, q + 2);
                }
                x = n;
                q = q + 2;
            },
            Tok::LBrace => {
                let (e, q2) = parse_expr(toks, file, q + 2)?;
                if q2 >= toks.len() || !matches!(toks[q2].tok, Tok::RBrace) {
                    return Err(perr(toks, file, q2, "expected `}`"));
                }
                assert(nested_ok(e));
                let n = node(PbNodeKind::AttrSel(Box::new(x), Attr::Dynamic(Box::new(e))), toks, file, p, q2 + 1);
                proof {
                    lemma_one(toks@, q as int);
                    lemma_one(toks@, q + 1);
                    lemma_one(toks@, q2 as int);
                    lemma_cat(toks@, p as int, q as int, q + 1);
                    lemma_cat(toks@, p as int, q + 1, q + 2);
                    lemma_cat(toks@, p as int, q + 2, q2 as int);
                    lemma_cat(toks@, p as int, q2 as int, q2 + 1);
                }
                x = n;
                q = q2 + 1;
            },
            _ => {
                return Err(perr(toks, file, q + 1, "expected an attribute name"));
            },
        }
    }
}

/// A literal, a name, or a bracketed form.
fn parse_atom(toks: &Vec<Token>, file: &VirtPath, p: usize) -> (r: Result<(PbNode, usize), Error>)
    requires
        p <= toks.len(),
    ensures
        node_res(toks@, p as int, r),
        r matches Ok((n, _)) ==> layered(n, -1),
        r matches Ok((n, _)) ==> parts_nested(n),
        ends_as(r, g_atom(kinds(toks@), p as int)),
        r matches Ok((n, q)) ==> (open_end(n) ==> ends_at(kinds(toks@), q as int, 12) && opens_tail(kinds(toks@), p as int)),
    decreases toks@.len() - p, 3int,
{
    if p >= toks.len() {
        return Err(perr(toks, file, p, "unexpected end of input"));
    }
    proof {
        lemma_one(toks@, p as int);
    }
    match &toks[p].tok {
        Tok::Number(s) => Ok((node(PbNodeKind::Int(copy_str(s.as_str())), toks, file, p, p + 1), p + 1)),
        Tok::Ident(s) => Ok((node(PbNodeKind::Var(copy_str(s.as_str())), toks, file, p, p + 1), p + 1)),
        Tok::True => Ok((node(PbNodeKind::Bool(true), toks, file, p, p + 1), p + 1)),
        Tok::False => Ok((node(PbNodeKind::Bool(false), toks, file, p, p + 1), p + 1)),
        Tok::Null => Ok((node(PbNodeKind::Null, toks, file, p, p + 1), p + 1)),
        Tok::StringQuote => parse_string(toks, file, p),
        Tok::LPar => parse_paren(toks, file, p),
        Tok::LSqBracket => parse_bracket(toks, file, p),
        Tok::LBrace => parse_brace(toks, file, p),
        Tok::Switch => parse_switch(toks, file, p),
        Tok::Let => parse_let(toks, file, p),
        Tok::Bind => parse_bind(toks, file, p),
        Tok::Pipe => parse_funcdef(toks, file, p),
        _ => Err(perr(toks, file, p, "unexpected token")),
    }
}


/// Whether the token at `q` is the closing bracket of a tuple (`)`) or of
/// a list (`]`).
fn closes(toks: &Vec<Token>, q: usize, par: bool) -> (r: bool)
    requires
        q < toks.len(),
    ensures
        r ==> toks@[q as int].tok == (if par { Tok::RPar } else { Tok::RSqBracket }),
        r == closes_k(kinds(toks@), q as int, par),
{
    if par {
        matches!(toks[q].tok, Tok::RPar)
    } else {
        matches!(toks[q].tok, Tok::RSqBracket)
    }
}

/// The rest of a comma-separated list of expressions whose first item,
/// starting at `s`, has been read up to `q0`: up to (not including) the
/// closing bracket, with a trailing comma if there is one.
fn parse_items_rest(toks: &Vec<Token>, file: &VirtPath, s: usize, first: PbNode, q0: usize, par: bool) -> (r: Result<
    (Vec<PbNode>, bool, usize),
    Error,
>)
    requires
        s < q0 <= toks.len(),
        node_toks(first) == ks(toks@, s as int, q0 as int),
        nested_ok(first),
    ensures
        r matches Ok((items, _, _)) ==> items_nested(items@),
        match r {
            Ok((items, trailing, q)) => q0 <= q < toks.len() && items_toks(items@) + (if trailing {
                k1(Tok::Comma)
            } else {
                Seq::empty()
            }) == ks(toks@, s as int, q as int) && toks@[q as int].tok == (if par { Tok::RPar } else {
                Tok::RSqBracket
            }),
            Err(e) => e.typ == ErrorType::Parse,
        },
        match r { Ok((_, _, q)) => g_items(kinds(toks@), q0 as int, par) == Some(q as int), Err(_) => g_items(kinds(toks@), q0 as int, par) is None },
    decreases toks@.len() - q0, 0int,
{
    let ghost k = kinds(toks@);
    let mut items: Vec<PbNode> = Vec::new();
    items.push(first);
    let mut q = q0;
    proof {
        assert(items@ =~= seq![first]);
    }
    loop
        invariant
            s < q0 <= q <= toks.len(),
            items@.len() >= 1,
            items_toks(items@) == ks(toks@, s as int, q as int),
            items_nested(items@),
            k == kinds(toks@),
            g_items(k, q0 as int, par) == g_items(k, q as int, par),
        decreases toks@.len() - q,
    {
        if q >= toks.len() {
            return Err(perr(toks, file, q, "unclosed bracket"));
        }
        if closes(toks, q, par) {
            proof {
                assert(items_toks(items@) + Seq::<(int, Seq<char>)>::empty() =~= items_toks(items@));
            }
            return Ok((items, false, q));
        }
        if !matches!(toks[q].tok, Tok::Comma) {
            return Err(perr(toks, file, q, "expected `,` or a closing bracket"));
        }
        proof {
            lemma_one(toks@, q as int);
            lemma_cat(toks@, s as int, q as int, q + 1);
        }
        if q + 1 < toks.len() && closes(toks, q + 1, par) {
            return Ok((items, true, q + 1));
        }
        let (e, q2) = parse_expr(toks, file, q + 1)?;
        let ghost old_items = items@;
        items.push(e);
        proof {
            assert(items@.drop_last() =~= old_items);
            assert(nested_ok(items@.last()));
            assert(items_nested(items@));
            lemma_cat(toks@, s as int, q + 1, q2 as int);
        }
        q = q2;
    }
}

/// `(...)` starting at `p`: a group, a tuple or a fold.
#[verifier::rlimit(60)]
#[verifier::spinoff_prover]
fn parse_paren(toks: &Vec<Token>, file: &VirtPath, p: usize) -> (r: Result<(PbNode, usize), Error>)
    requires
        p < toks.len(),
        toks@[p as int].tok is LPar,
    ensures
        node_res(toks@, p as int, r),
        r matches Ok((n, _)) ==> layered(n, -1),
        r matches Ok((n, _)) ==> parts_nested(n),
        ends_as(r, g_paren(kinds(toks@), p as int)),
        r matches Ok((n, _)) ==> !open_end(n),
    decreases toks@.len() - p, 0int,
{
    let ghost k = kinds(toks@);
    proof {
        lemma_one(toks@, p as int);
    }
    if p + 1 < toks.len() && matches!(toks[p + 1].tok, Tok::RPar) {
        let v: Vec<PbNode> = Vec::new();
        proof {
            assert(items_toks(v@) == Seq::<(int, Seq<char>)>::empty());
        }
        let n = node(PbNodeKind::Tuple(v, false), toks, file, p, p + 2);
        proof {
            lemma_one(toks@, p + 1);
            lemma_cat(toks@, p as int, p + 1, p + 2);
            assert(node_toks(n) =~= ks(toks@, p as int, p + 2));
        }
        return Ok((n, p + 2));
    }
    let (e, q) = parse_expr(toks, file, p + 1)?;
    if q >= toks.len() {
        return Err(perr(toks, file, q, "expected `)`"));
    }
    proof {
        lemma_one(toks@, q as int);
        lemma_cat(toks@, p as int, p + 1, q as int);
        lemma_cat(toks@, p as int, q as int, q + 1);
    }
    match &toks[q].tok {
        Tok::RPar => {
            let n = node(PbNodeKind::Group(Box::new(e)), toks, file, p, q + 1);
            proof {
                assert(node_toks(n) =~= ks(toks@, p as int, q + 1));
            }
            Ok((n, q + 1))
        },
        Tok::For => {
            let (e1, q1) = parse_expr(toks, file, q + 1)?;
            if q1 >= toks.len() {
                return Err(perr(toks, file, q1, "expected `)`"));
            }
            proof {
                lemma_one(toks@, q1 as int);
                lemma_cat(toks@, p as int, q + 1, q1 as int);
                lemma_cat(toks@, p as int, q1 as int, q1 + 1);
            }
            if matches!(toks[q1].tok, Tok::Colon) {
                let (e2, q2) = parse_expr(toks, file, q1 + 1)?;
                if q2 >= toks.len() || !matches!(toks[q2].tok, Tok::RPar) {
                    return Err(perr(toks, file, q2, "expected `)`"));
                }
                let n = node(
                    PbNodeKind::Fold { func: Box::new(e), init: Some(Box::new(e1)), input: Box::new(e2) },
                    toks,
                    file,
                    p,
                    q2 + 1,
                );
                proof {
                    lemma_one(toks@, q2 as int);
                    lemma_cat(toks@, p as int, q1 + 1, q2 as int);
                    lemma_cat(toks@, p as int, q2 as int, q2 + 1);
                    assert(node_toks(n) =~= ks(toks@, p as int, q2 + 1));
                }
                Ok((n, q2 + 1))
            } else if matches!(toks[q1].tok, Tok::RPar) {
                let n = node(
                    PbNodeKind::Fold { func: Box::new(e), init: None, input: Box::new(e1) },
                    toks,
                    file,
                    p,
                    q1 + 1,
                );
                proof {
                    assert(node_toks(n) =~= ks(toks@, p as int, q1 + 1));
                }
                Ok((n, q1 + 1))
            } else {
                Err(perr(toks, file, q1, "expected `:` or `)`"))
            }
        },
        Tok::Comma => {
            let (items, trailing, q2) = parse_items_rest(toks, file, p + 1, e, q, true)?;
            let n = node(PbNodeKind::Tuple(items, trailing), toks, file, p, q2 + 1);
            proof {
                lemma_one(toks@, q2 as int);
                lemma_cat(toks@, p as int, p + 1, q2 as int);
                lemma_cat(toks@, p as int, q2 as int, q2 + 1);
                assert(node_toks(n) =~= ks(toks@, p as int, q2 + 1));
            }
            Ok((n, q2 + 1))
        },
        _ => Err(perr(toks, file, q, "expected `)`, `,` or `for`")),
    }
}

/// `[...]` starting at `p`: a list or a list map.
fn parse_bracket(toks: &Vec<Token>, file: &VirtPath, p: usize) -> (r: Result<(PbNode, usize), Error>)
    requires
        p < toks.len(),
        toks@[p as int].tok is LSqBracket,
    ensures
        node_res(toks@, p as int, r),
        r matches Ok((n, _)) ==> layered(n, -1),
        r matches Ok((n, _)) ==> parts_nested(n),
        ends_as(r, g_bracket(kinds(toks@), p as int)),
        r matches Ok((n, _)) ==> !open_end(n),
    decreases toks@.len() - p, 0int,
{
    let ghost k = kinds(toks@);
    proof {
        lemma_one(toks@, p as int);
    }
    if p + 1 < toks.len() && matches!(toks[p + 1].tok, Tok::RSqBracket) {
        let v: Vec<PbNode> = Vec::new();
        proof {
            assert(items_toks(v@) == Seq::<(int, Seq<char>)>::empty());
        }
        let n = node(PbNodeKind::List(v, false), toks, file, p, p + 2);
        proof {
            lemma_one(toks@, p + 1);
            lemma_cat(toks@, p as int, p + 1, p + 2);
            assert(node_toks(n) =~= ks(toks@, p as int, p + 2));
        }
        return Ok((n, p + 2));
    }
    let (e, q) = parse_expr(toks, file, p + 1)?;
    if q >= toks.len() {
        return Err(perr(toks, file, q, "expected `]`"));
    }
    proof {
        lemma_one(toks@, q as int);
        lemma_cat(toks@, p as int, p + 1, q as int);
        lemma_cat(toks@, p as int, q as int, q + 1);
    }
    if matches!(toks[q].tok, Tok::For) {
        let (r, q1) = parse_map_rest(toks, file, p, e, q, MapKind::List)?;
        return Ok((r, q1));
    }
    let (items, trailing, q2) = parse_items_rest(toks, file, p + 1, e, q, false)?;
    let n = node(PbNodeKind::List(items, trailing), toks, file, p, q2 + 1);
    proof {
        lemma_one(toks@, q2 as int);
        lemma_cat(toks@, p as int, p + 1, q2 as int);
        lemma_cat(toks@, p as int, q2 as int, q2 + 1);
        assert(node_toks(n) =~= ks(toks@, p as int, q2 + 1));
    }
    Ok((n, q2 + 1))
}

/// The rest of a map, `for input [if filter]` and the closing bracket,
/// after its function (read from `p + 1` up to the `for` at `q`).
#[verifier::rlimit(60)]
#[verifier::spinoff_prover]
fn parse_map_rest(toks: &Vec<Token>, file: &VirtPath, p: usize, func: PbNode, q: usize, kind: MapKind) -> (r: Result<
    (PbNode, usize),
    Error,
>)
    requires
        p < q < toks.len(),
        toks@[q as int].tok is For,
        ks(toks@, p as int, q + 1) == (if kind == MapKind::List { k1(Tok::LSqBracket) } else {
            k1(Tok::LBrace)
        }) + node_toks(func) + k1(Tok::For),
        nested_ok(func),
    ensures
        node_res(toks@, p as int, r),
        r matches Ok((n, _)) ==> layered(n, -1),
        r matches Ok((n, _)) ==> parts_nested(n),
        ends_as(r, g_map_rest(kinds(toks@), q as int, kind == MapKind::List)),
        r matches Ok((n, _)) ==> !open_end(n),
    decreases toks@.len() - q, 0int,
{
    let ghost k = kinds(toks@);
    let (input, q1) = parse_expr(toks, file, q + 1)?;
    proof {
        lemma_cat(toks@, p as int, q + 1, q1 as int);
    }
    let mut filter: Option<Box<PbNode>> = None;
    let mut c = q1;
    if q1 < toks.len() && matches!(toks[q1].tok, Tok::If) {
        let (f, q2) = parse_expr(toks, file, q1 + 1)?;
        proof {
            lemma_one(toks@, q1 as int);
            lemma_cat(toks@, q1 as int, q1 + 1, q2 as int);
            lemma_cat(toks@, p as int, q1 as int, q2 as int);
        }
        filter = Some(Box::new(f));
        c = q2;
    } else {
        proof {
            lemma_empty(toks@, q1 as int);
        }
    }
    let close = if kind == MapKind::List {
        c < toks.len() && matches!(toks[c].tok, Tok::RSqBracket)
    } else {
        c < toks.len() && matches!(toks[c].tok, Tok::RBrace)
    };
    if !close {
        return Err(perr(toks, file, c, "expected the end of the map"));
    }
    proof {
        lemma_one(toks@, c as int);
        lemma_cat(toks@, p as int, c as int, c + 1);
    }
    let n = node(PbNodeKind::Mapping { kind, func: Box::new(func), input: Box::new(input), filter }, toks, file, p, c + 1);
    Ok((n, c + 1))
}

/// `{...}` starting at `p`: an object or an object map.
fn parse_brace(toks: &Vec<Token>, file: &VirtPath, p: usize) -> (r: Result<(PbNode, usize), Error>)
    requires
        p < toks.len(),
        toks@[p as int].tok is LBrace,
    ensures
        node_res(toks@, p as int, r),
        r matches Ok((n, _)) ==> layered(n, -1),
        r matches Ok((n, _)) ==> parts_nested(n),
        ends_as(r, g_brace(kinds(toks@), p as int)),
        r matches Ok((n, _)) ==> !open_end(n),
    decreases toks@.len() - p, 0int,
{
    let ghost k = kinds(toks@);
    proof {
        lemma_one(toks@, p as int);
    }
    let is_object = p + 1 < toks.len() && (matches!(toks[p + 1].tok, Tok::RBrace) || matches!(
        toks[p + 1].tok,
        Tok::StringQuote
    ) || (matches!(toks[p + 1].tok, Tok::Ident(_)) && p + 2 < toks.len() && (matches!(
        toks[p + 2].tok,
        Tok::Assign
    ) || matches!(toks[p + 2].tok, Tok::SemiColon))));
    if is_object {
        let (asg, q) = parse_assigns(toks, file, p + 1, true)?;
        let n = node(PbNodeKind::Object(asg), toks, file, p, q + 1);
        proof {
            lemma_one(toks@, q as int);
            lemma_cat(toks@, p as int, p + 1, q as int);
            lemma_cat(toks@, p as int, q as int, q + 1);
        }
        return Ok((n, q + 1));
    }
    let (e, q) = parse_expr(toks, file, p + 1)?;
    if q >= toks.len() || !matches!(toks[q].tok, Tok::For) {
        return Err(perr(toks, file, q, "expected `for`"));
    }
    proof {
        lemma_one(toks@, q as int);
        lemma_cat(toks@, p as int, p + 1, q as int);
        lemma_cat(toks@, p as int, q as int, q + 1);
    }
    parse_map_rest(toks, file, p, e, q, MapKind::Object)
}

/// Assignments from `s` up to the closing `}` (`brace`) or the `in`.
fn parse_assigns(toks: &Vec<Token>, file: &VirtPath, s: usize, brace: bool) -> (r: Result<
    (Vec<Assignment>, usize),
    Error,
>)
    requires
        s <= toks.len(),
    ensures
        match r {
            Ok((asg, q)) => s <= q < toks.len() && assigns_toks(asg@) == ks(toks@, s as int, q as int)
                && toks@[q as int].tok == (if brace { Tok::RBrace } else { Tok::In }) && assigns_nested(asg@),
            Err(e) => e.typ == ErrorType::Parse,
        },
        ends_as(r, g_assigns(kinds(toks@), s as int, brace)),
    decreases toks@.len() - s, 1int,
{
    let ghost k = kinds(toks@);
    let mut asg: Vec<Assignment> = Vec::new();
    let mut q = s;
    proof {
        lemma_empty(toks@, s as int);
    }
    loop
        invariant
            s <= q <= toks.len(),
            assigns_toks(asg@) == ks(toks@, s as int, q as int),
            assigns_nested(asg@),
            k == kinds(toks@),
            g_assigns(k, s as int, brace) == g_assigns(k, q as int, brace),
        decreases toks@.len() - q,
    {
        if q >= toks.len() {
            return Err(perr(toks, file, q, if brace { "expected `}`" } else { "expected `in`" }));
        }
        let done = if brace { matches!(toks[q].tok, Tok::RBrace) } else { matches!(toks[q].tok, Tok::In) };
        if done {
            return Ok((asg, q));
        }
        let (a, q2) = parse_assignment(toks, file, q)?;
        let ghost old_asg = asg@;
        asg.push(a);
        proof {
            assert(asg@.drop_last() =~= old_asg);
            assert(assign_nested(asg@.last()));
            assert(assigns_nested(asg@));
            lemma_cat(toks@, s as int, q as int, q2 as int);
        }
        q = q2;
    }
}

/// `key = value;` or `key;` starting at `p`.
fn parse_assignment(toks: &Vec<Token>, file: &VirtPath, p: usize) -> (r: Result<(Assignment, usize), Error>)
    requires
        p < toks.len(),
    ensures
        match r {
            Ok((a, q)) => p < q <= toks.len() && assign_toks(a) == ks(toks@, p as int, q as int) && assign_nested(a),
            Err(e) => e.typ == ErrorType::Parse,
        },
        ends_as(r, g_assignment(kinds(toks@), p as int)),
    decreases toks@.len() - p, 0int,
{
    let ghost k = kinds(toks@);
    let (key, kq) = match &toks[p].tok {
        Tok::Ident(name) => {
            proof {
                lemma_one(toks@, p as int);
            }
            (Key::Ident(copy_str(name.as_str()), span(toks, file, p, p + 1)), p + 1)
        },
        Tok::StringQuote => parse_key_string(toks, file, p)?,
        _ => {
            return Err(perr(toks, file, p, "expected a key"));
        },
    };
    if kq >= toks.len() {
        return Err(perr(toks, file, kq, "expected `=` or `;`"));
    }
    proof {
        lemma_one(toks@, kq as int);
    }
    if matches!(toks[kq].tok, Tok::SemiColon) {
        let a = Assignment { key, value: None, loc: span(toks, file, p, kq + 1) };
        proof {
            lemma_cat(toks@, p as int, kq as int, kq + 1);
        }
        return Ok((a, kq + 1));
    }
    if !matches!(toks[kq].tok, Tok::Assign) {
        return Err(perr(toks, file, kq, "expected `=` or `;`"));
    }
    let (v, q2) = parse_expr(toks, file, kq + 1)?;
    if q2 >= toks.len() || !matches!(toks[q2].tok, Tok::SemiColon) {
        return Err(perr(toks, file, q2, "expected `;`"));
    }
    proof {
        lemma_one(toks@, q2 as int);
        lemma_cat(toks@, p as int, kq as int, kq + 1);
        lemma_cat(toks@, p as int, kq + 1, q2 as int);
        lemma_cat(toks@, p as int, q2 as int, q2 + 1);
    }
    let a = Assignment { key, value: Some(v), loc: span(toks, file, p, q2 + 1) };
    Ok((a, q2 + 1))
}

/// A string key `"..."` starting at `p`; it may not embed expressions.
fn parse_key_string(toks: &Vec<Token>, file: &VirtPath, p: usize) -> (r: Result<(Key, usize), Error>)
    requires
        p < toks.len(),
        toks@[p as int].tok is StringQuote,
    ensures
        match r {
            Ok((k, q)) => p < q <= toks.len() && key_toks(k) == ks(toks@, p as int, q as int),
            Err(e) => e.typ == ErrorType::Parse,
        },
        ends_as(r, g_key(kinds(toks@), p + 1)),
{
    let ghost k = kinds(toks@);
    let mut chunks: Vec<String> = Vec::new();
    let mut q = p + 1;
    proof {
        lemma_one(toks@, p as int);
    }
    loop
        invariant
            p < q <= toks.len(),
            toks@[p as int].tok is StringQuote,
            k1(Tok::StringQuote) + chunks_toks(chunks@) == ks(toks@, p as int, q as int),
            k == kinds(toks@),
            g_key(k, p + 1) == g_key(k, q as int),
        decreases toks@.len() - q,
    {
        if q >= toks.len() {
            return Err(perr(toks, file, q, "unterminated string"));
        }
        proof {
            lemma_one(toks@, q as int);
            lemma_cat(toks@, p as int, q as int, q + 1);
        }
        match &toks[q].tok {
            Tok::StringChunk(c) => {
                let ghost old = chunks@;
                chunks.push(copy_str(c.as_str()));
                proof {
                    assert(chunks@.drop_last() =~= old);
                }
                q = q + 1;
            },
            Tok::StringQuote => {
                let k = Key::String(chunks, span(toks, file, p, q + 1));
                return Ok((k, q + 1));
            },
            _ => {
                return Err(perr(toks, file, q, "object keys cannot contain string interpolation"));
            },
        }
    }
}

/// A string literal starting at `p`.
fn parse_string(toks: &Vec<Token>, file: &VirtPath, p: usize) -> (r: Result<(PbNode, usize), Error>)
    requires
        p < toks.len(),
        toks@[p as int].tok is StringQuote,
    ensures
        node_res(toks@, p as int, r),
        r matches Ok((n, _)) ==> layered(n, -1),
        r matches Ok((n, _)) ==> parts_nested(n),
        ends_as(r, g_string(kinds(toks@), p + 1)),
        r matches Ok((n, _)) ==> !open_end(n),
    decreases toks@.len() - p, 0int,
{
    let ghost k = kinds(toks@);
    let mut parts: Vec<StrPart> = Vec::new();
    let mut q = p + 1;
    proof {
        lemma_one(toks@, p as int);
    }
    loop
        invariant
            p < q <= toks.len(),
            toks@[p as int].tok is StringQuote,
            k1(Tok::StringQuote) + parts_toks(parts@) == ks(toks@, p as int, q as int),
            strparts_nested(parts@),
            k == kinds(toks@),
            g_string(k, p + 1) == g_string(k, q as int),
        decreases toks@.len() - q,
    {
        if q >= toks.len() {
            return Err(perr(toks, file, q, "unterminated string"));
        }
        proof {
            lemma_one(toks@, q as int);
            lemma_cat(toks@, p as int, q as int, q + 1);
        }
        match &toks[q].tok {
            Tok::StringChunk(c) => {
                let ghost old = parts@;
                parts.push(StrPart::Chunk(copy_str(c.as_str())));
                proof {
                    assert(parts@.drop_last() =~= old);
                    assert(strparts_nested(parts@)) by {
                        assert forall|i: int| 0 <= i < parts@.len() implies match #[trigger] parts@[i] {
                            StrPart::Embed(x) => nested_ok(x),
                            _ => true,
                        } by {
                            if i < old.len() {
                                assert(parts@[i] == old[i]);
                            }
                        }
                    }
                }
                q = q + 1;
            },
            Tok::StringEmbedStart => {
                let (e, q2) = parse_expr(toks, file, q + 1)?;
                if q2 >= toks.len() || !matches!(toks[q2].tok, Tok::StringEmbedEnd) {
                    return Err(perr(toks, file, q2, "expected `}`"));
                }
                proof {
                    lemma_one(toks@, q2 as int);
                    lemma_cat(toks@, p as int, q + 1, q2 as int);
                    lemma_cat(toks@, p as int, q2 as int, q2 + 1);
                }
                let ghost old = parts@;
                parts.push(StrPart::Embed(e));
                proof {
                    assert(parts@.drop_last() =~= old);
                    assert(nested_ok(e));
                    assert(strparts_nested(parts@)) by {
                        assert forall|i: int| 0 <= i < parts@.len() implies match #[trigger] parts@[i] {
                            StrPart::Embed(x) => nested_ok(x),
                            _ => true,
                        } by {
                            if i < old.len() {
                                assert(parts@[i] == old[i]);
                            }
                        }
                    }
                }
                q = q2 + 1;
            },
            Tok::StringQuote => {
                let n = node(PbNodeKind::String(parts), toks, file, p, q + 1);
                return Ok((n, q + 1));
            },
            _ => {
                return Err(perr(toks, file, q, "unexpected token in string"));
            },
        }
    }
}

/// `switch input { case => value; ... _ => default; }` starting at `p`.
#[verifier::rlimit(60)]
#[verifier::spinoff_prover]
fn parse_switch(toks: &Vec<Token>, file: &VirtPath, p: usize) -> (r: Result<(PbNode, usize), Error>)
    requires
        p < toks.len(),
        toks@[p as int].tok is Switch,
    ensures
        node_res(toks@, p as int, r),
        r matches Ok((n, _)) ==> layered(n, -1),
        r matches Ok((n, _)) ==> parts_nested(n),
        ends_as(r, g_switch(kinds(toks@), p as int)),
        r matches Ok((n, _)) ==> !open_end(n),
    decreases toks@.len() - p, 0int,
{
    let ghost k = kinds(toks@);
    proof {
        lemma_one(toks@, p as int);
    }
    let (input, q) = parse_select(toks, file, p + 1)?;
    proof {
        lemma_layered_up(input, -1, 12);
    }
    if q >= toks.len() || !matches!(toks[q].tok, Tok::LBrace) {
        return Err(perr(toks, file, q, "expected `{`"));
    }
    proof {
        lemma_one(toks@, q as int);
        lemma_cat(toks@, p as int, p + 1, q as int);
        lemma_cat(toks@, p as int, q as int, q + 1);
    }
    let mut cases: Vec<SwitchCase> = Vec::new();
    let mut c = q + 1;
    proof {
        lemma_empty(toks@, c as int);
        lemma_cat(toks@, p as int, c as int, c as int);
    }
    loop
        invariant
            p < q < c <= toks.len(),
            k1(Tok::Switch) + node_toks(input) + k1(Tok::LBrace) + cases_toks(cases@) == ks(toks@, p as int, c as int),
            nested_ok(input),
            layered(input, -1),
            cases_nested(cases@),
            k == kinds(toks@),
            g_switch(k, p as int) == g_cases(k, c as int),
        decreases toks@.len() - c,
    {
        if c >= toks.len() {
            return Err(perr(toks, file, c, "expected `}`"));
        }
        proof {
            lemma_one(toks@, c as int);
        }
        if matches!(toks[c].tok, Tok::RBrace) {
            proof {
                lemma_cat(toks@, p as int, c as int, c + 1);
            }
            let n = node(PbNodeKind::Switch { input: Box::new(input), cases, default: None }, toks, file, p, c + 1);
            return Ok((n, c + 1));
        }
        if matches!(toks[c].tok, Tok::Underscore) && c + 1 < toks.len() && matches!(toks[c + 1].tok, Tok::RDoubleArrow) {
            let (d, q2) = parse_expr(toks, file, c + 2)?;
            if q2 >= toks.len() || toks.len() - q2 <= 1 || !matches!(toks[q2].tok, Tok::SemiColon) || !matches!(toks[q2 + 1].tok, Tok::RBrace) {
                return Err(perr(toks, file, q2, "expected `;` and the end of the switch"));
            }
            proof {
                lemma_one(toks@, c + 1);
                lemma_one(toks@, q2 as int);
                lemma_one(toks@, q2 + 1);
                lemma_cat(toks@, p as int, c as int, c + 1);
                lemma_cat(toks@, p as int, c + 1, c + 2);
                lemma_cat(toks@, p as int, c + 2, q2 as int);
                lemma_cat(toks@, p as int, q2 as int, q2 + 1);
                lemma_cat(toks@, p as int, q2 + 1, q2 + 2);
            }
            let n = node(
                PbNodeKind::Switch { input: Box::new(input), cases, default: Some(Box::new(d)) },
                toks,
                file,
                p,
                q2 + 2,
            );
            proof {
                assert(node_toks(n) =~= ks(toks@, p as int, q2 + 2));
            }
            return Ok((n, q2 + 2));
        }
        let (m, c1) = parse_expr(toks, file, c)?;
        if c1 >= toks.len() || !matches!(toks[c1].tok, Tok::RDoubleArrow) {
            return Err(perr(toks, file, c1, "expected `=>`"));
        }
        let (v, c2) = parse_expr(toks, file, c1 + 1)?;
        if c2 >= toks.len() || !matches!(toks[c2].tok, Tok::SemiColon) {
            return Err(perr(toks, file, c2, "expected `;`"));
        }
        proof {
            lemma_one(toks@, c1 as int);
            lemma_one(toks@, c2 as int);
            lemma_cat(toks@, p as int, c as int, c1 as int);
            lemma_cat(toks@, p as int, c1 as int, c1 + 1);
            lemma_cat(toks@, p as int, c1 + 1, c2 as int);
            lemma_cat(toks@, p as int, c2 as int, c2 + 1);
        }
        let case = SwitchCase { matcher: m, value: v, loc: span(toks, file, c, c2 + 1) };
        let ghost old = cases@;
        cases.push(case);
        proof {
            assert(cases@.drop_last() =~= old);
            assert(nested_ok(m) && nested_ok(v));
            assert(cases_nested(cases@)) by {
                assert forall|i: int| 0 <= i < cases@.len() implies nested_ok((#[trigger] cases@[i]).matcher)
                    && nested_ok(cases@[i].value) by {
                    if i < old.len() {
                        assert(cases@[i] == old[i]);
                    }
                }
            }
        }
        c = c2 + 1;
    }
}

/// `let matcher = value; ... in body` starting at `p`.
fn parse_let(toks: &Vec<Token>, file: &VirtPath, p: usize) -> (r: Result<(PbNode, usize), Error>)
    requires
        p < toks.len(),
        toks@[p as int].tok is Let,
    ensures
        node_res(toks@, p as int, r),
        r matches Ok((n, _)) ==> layered(n, -1),
        r matches Ok((n, _)) ==> parts_nested(n),
        ends_as(r, g_lets(kinds(toks@), p + 1)),
        r matches Ok((_, q)) ==> ends_at(kinds(toks@), q as int, 12),
    decreases toks@.len() - p, 0int,
{
    let ghost k = kinds(toks@);
    let mut bs: Vec<LetBinding> = Vec::new();
    let mut c = p + 1;
    proof {
        lemma_one(toks@, p as int);
    }
    loop
        invariant
            p < c <= toks.len(),
            k1(Tok::Let) + lets_toks(bs@) == ks(toks@, p as int, c as int),
            lets_nested(bs@),
            k == kinds(toks@),
            g_lets(k, p + 1) == g_lets(k, c as int),
        decreases toks@.len() - c,
    {
        if c >= toks.len() {
            return Err(perr(toks, file, c, "expected `in`"));
        }
        proof {
            lemma_one(toks@, c as int);
        }
        if matches!(toks[c].tok, Tok::In) {
            let (body, q) = parse_expr(toks, file, c + 1)?;
            proof {
                lemma_cat(toks@, p as int, c as int, c + 1);
                lemma_cat(toks@, p as int, c + 1, q as int);
            }
            let n = node(PbNodeKind::Let(bs, Box::new(body)), toks, file, p, q);
            return Ok((n, q));
        }
        let (m, c1) = parse_matcher(toks, file, c)?;
        if c1 >= toks.len() || !matches!(toks[c1].tok, Tok::Assign) {
            return Err(perr(toks, file, c1, "expected `=`"));
        }
        let (v, c2) = parse_expr(toks, file, c1 + 1)?;
        if c2 >= toks.len() || !matches!(toks[c2].tok, Tok::SemiColon) {
            return Err(perr(toks, file, c2, "expected `;`"));
        }
        proof {
            lemma_one(toks@, c1 as int);
            lemma_one(toks@, c2 as int);
            lemma_cat(toks@, p as int, c as int, c1 as int);
            lemma_cat(toks@, p as int, c1 as int, c1 + 1);
            lemma_cat(toks@, p as int, c1 + 1, c2 as int);
            lemma_cat(toks@, p as int, c2 as int, c2 + 1);
        }
        let b = LetBinding { matcher: m, value: v, loc: span(toks, file, c, c2 + 1) };
        let ghost old = bs@;
        bs.push(b);
        proof {
            assert(bs@.drop_last() =~= old);
            assert(matcher_nested(m) && nested_ok(v));
            assert(lets_nested(bs@)) by {
                assert forall|i: int| 0 <= i < bs@.len() implies matcher_nested((#[trigger] bs@[i]).matcher)
                    && nested_ok(bs@[i].value) by {
                    if i < old.len() {
                        assert(bs@[i] == old[i]);
                    }
                }
            }
        }
        c = c2 + 1;
    }
}

/// `bind key = value; ... in body` starting at `p`.
fn parse_bind(toks: &Vec<Token>, file: &VirtPath, p: usize) -> (r: Result<(PbNode, usize), Error>)
    requires
        p < toks.len(),
        toks@[p as int].tok is Bind,
    ensures
        node_res(toks@, p as int, r),
        r matches Ok((n, _)) ==> layered(n, -1),
        r matches Ok((n, _)) ==> parts_nested(n),
        ends_as(r, g_bind(kinds(toks@), p as int)),
        r matches Ok((_, q)) ==> ends_at(kinds(toks@), q as int, 12),
    decreases toks@.len() - p, 0int,
{
    let ghost k = kinds(toks@);
    proof {
        lemma_one(toks@, p as int);
    }
    let (asg, c) = parse_assigns(toks, file, p + 1, false)?;
    let (body, q) = parse_expr(toks, file, c + 1)?;
    proof {
        lemma_one(toks@, c as int);
        lemma_cat(toks@, p as int, p + 1, c as int);
        lemma_cat(toks@, p as int, c as int, c + 1);
        lemma_cat(toks@, p as int, c + 1, q as int);
    }
    let n = node(PbNodeKind::Bind(asg, Box::new(body)), toks, file, p, q);
    Ok((n, q))
}

/// `|matcher ...| body` starting at `p`.
fn parse_funcdef(toks: &Vec<Token>, file: &VirtPath, p: usize) -> (r: Result<(PbNode, usize), Error>)
    requires
        p < toks.len(),
        toks@[p as int].tok is Pipe,
    ensures
        node_res(toks@, p as int, r),
        r matches Ok((n, _)) ==> layered(n, -1),
        r matches Ok((n, _)) ==> parts_nested(n),
        ends_as(r, g_fdef(kinds(toks@), p + 1)),
        r matches Ok((_, q)) ==> ends_at(kinds(toks@), q as int, 12),
    decreases toks@.len() - p, 0int,
{
    let ghost k = kinds(toks@);
    let mut ms: Vec<Matcher> = Vec::new();
    let mut c = p + 1;
    proof {
        lemma_one(toks@, p as int);
    }
    loop
        invariant
            p < c <= toks.len(),
            k1(Tok::Pipe) + matchers_toks(ms@) == ks(toks@, p as int, c as int),
            matchers_nested(ms@),
            k == kinds(toks@),
            g_fdef(k, p + 1) == g_fdef(k, c as int),
        decreases toks@.len() - c,
    {
        if c >= toks.len() {
            return Err(perr(toks, file, c, "expected `|`"));
        }
        if matches!(toks[c].tok, Tok::Pipe) {
            let (body, q) = parse_expr(toks, file, c + 1)?;
            proof {
                lemma_one(toks@, c as int);
                lemma_cat(toks@, p as int, c as int, c + 1);
                lemma_cat(toks@, p as int, c + 1, q as int);
            }
            let n = node(PbNodeKind::FuncDef(ms, Box::new(body)), toks, file, p, q);
            return Ok((n, q));
        }
        let (m, c1) = parse_matcher(toks, file, c)?;
        proof {
            lemma_cat(toks@, p as int, c as int, c1 as int);
        }
        let ghost old = ms@;
        ms.push(m);
        proof {
            assert(ms@.drop_last() =~= old);
            assert(matchers_nested(ms@)) by {
                assert forall|i: int| 0 <= i < ms@.len() implies matcher_nested(#[trigger] ms@[i]) by {
                    if i < old.len() {
                        assert(ms@[i] == old[i]);
                    }
                }
            }
        }
        c = c1;
    }
}

/* Matchers */

/// A matcher starting at `p`, with any `@ name` aliases after it.
pub fn parse_matcher(toks: &Vec<Token>, file: &VirtPath, p: usize) -> (r: Result<(Matcher, usize), Error>)
    requires
        p <= toks.len(),
    ensures
        matcher_res(toks@, p as int, r),
        r matches Ok((m, _)) ==> matcher_nested(m),
        ends_as(r, g_matcher(kinds(toks@), p as int)),
    decreases toks@.len() - p, 2int,
{
    let ghost k = kinds(toks@);
    let (first, q0) = parse_mprimary(toks, file, p)?;
    let mut m = first;
    let mut q = q0;
    loop
        invariant
            p < q <= toks.len(),
            matcher_toks(m) == ks(toks@, p as int, q as int),
            matcher_nested(m),
            k == kinds(toks@),
            g_matcher(k, p as int) == g_aliases(k, q as int),
        decreases toks@.len() - q,
    {
        if toks.len() - q <= 1 || !matches!(toks[q].tok, Tok::At) {
            return Ok((m, q));
        }
        match &toks[q + 1].tok {
            Tok::Ident(name) => {
                proof {
                    lemma_one(toks@, q as int);
                    lemma_one(toks@, q + 1);
                    lemma_cat(toks@, p as int, q as int, q + 1);
                    lemma_cat(toks@, p as int, q + 1, q + 2);
                }
                let nloc = span(toks, file, q + 1, q + 2);
                let mloc = span(toks, file, p, q + 2);
                m = Matcher { kind: MatcherKind::Alias(Box::new(m), copy_str(name.as_str()), nloc), loc: mloc };
                q = q + 2;
            },
            _ => {
                return Err(perr(toks, file, q + 1, "expected a name after `@`"));
            },
        }
    }
}

fn parse_mprimary(toks: &Vec<Token>, file: &VirtPath, p: usize) -> (r: Result<(Matcher, usize), Error>)
    requires
        p <= toks.len(),
    ensures
        matcher_res(toks@, p as int, r),
        r matches Ok((m, _)) ==> matcher_nested(m),
        ends_as(r, g_mprimary(kinds(toks@), p as int)),
    decreases toks@.len() - p, 1int,
{
    if p >= toks.len() {
        return Err(perr(toks, file, p, "expected a pattern"));
    }
    proof {
        lemma_one(toks@, p as int);
    }
    match &toks[p].tok {
        Tok::Ident(name) => Ok(
            (Matcher { kind: MatcherKind::Ident(copy_str(name.as_str())), loc: span(toks, file, p, p + 1) }, p + 1),
        ),
        Tok::Underscore => Ok((Matcher { kind: MatcherKind::DontCare, loc: span(toks, file, p, p + 1) }, p + 1)),
        Tok::LPar => parse_mtuple(toks, file, p),
        Tok::LBrace => parse_mobject(toks, file, p),
        _ => Err(perr(toks, file, p, "expected a pattern")),
    }
}

/// `(matcher, ...)` starting at `p`.
fn parse_mtuple(toks: &Vec<Token>, file: &VirtPath, p: usize) -> (r: Result<(Matcher, usize), Error>)
    requires
        p < toks.len(),
        toks@[p as int].tok is LPar,
    ensures
        matcher_res(toks@, p as int, r),
        r matches Ok((m, _)) ==> matcher_nested(m),
        ends_as(r, g_mtuple(kinds(toks@), p as int)),
    decreases toks@.len() - p, 0int,
{
    let ghost k = kinds(toks@);
    proof {
        lemma_one(toks@, p as int);
    }
    if p + 1 < toks.len() && matches!(toks[p + 1].tok, Tok::RPar) {
        proof {
            lemma_one(toks@, p + 1);
            lemma_cat(toks@, p as int, p + 1, p + 2);
        }
        let v: Vec<Matcher> = Vec::new();
        proof {
            assert(mitems_toks(v@) == Seq::<(int, Seq<char>)>::empty());
            assert(matchers_nested(v@));
        }
        let m = Matcher { kind: MatcherKind::Tuple(v, false), loc: span(toks, file, p, p + 2) };
        proof {
            assert(matcher_toks(m) =~= ks(toks@, p as int, p + 2));
        }
        return Ok((m, p + 2));
    }
    let (first, q0) = parse_matcher(toks, file, p + 1)?;
    let mut items: Vec<Matcher> = Vec::new();
    items.push(first);
    let mut q = q0;
    proof {
        assert(items@ =~= seq![first]);
    }
    loop
        invariant
            p + 1 < q <= toks.len(),
            toks@[p as int].tok is LPar,
            items@.len() >= 1,
            mitems_toks(items@) == ks(toks@, p + 1, q as int),
            matchers_nested(items@),
            k == kinds(toks@),
            g_mtuple(k, p as int) == g_mitems(k, q as int),
        decreases toks@.len() - q,
    {
        if q >= toks.len() {
            return Err(perr(toks, file, q, "expected `)`"));
        }
        proof {
            lemma_one(toks@, q as int);
            lemma_cat(toks@, p as int, p + 1, q as int);
            lemma_cat(toks@, p as int, q as int, q + 1);
        }
        if matches!(toks[q].tok, Tok::RPar) {
            proof {
                assert(mitems_toks(items@) + Seq::<(int, Seq<char>)>::empty() =~= mitems_toks(items@));
            }
            let m = Matcher { kind: MatcherKind::Tuple(items, false), loc: span(toks, file, p, q + 1) };
            proof {
                assert(matcher_toks(m) =~= ks(toks@, p as int, (q + 1) as int));
            }
            return Ok((m, q + 1));
        }
        if !matches!(toks[q].tok, Tok::Comma) {
            return Err(perr(toks, file, q, "expected `,` or `)`"));
        }
        if q + 1 < toks.len() && matches!(toks[q + 1].tok, Tok::RPar) {
            proof {
                lemma_one(toks@, q + 1);
                lemma_cat(toks@, p + 1, q as int, q + 1);
                lemma_cat(toks@, p as int, p + 1, q + 1);
                lemma_cat(toks@, p as int, q + 1, q + 2);
            }
            let m = Matcher { kind: MatcherKind::Tuple(items, true), loc: span(toks, file, p, q + 2) };
            proof {
                assert(matcher_toks(m) =~= ks(toks@, p as int, (q + 2) as int));
            }
            return Ok((m, q + 2));
        }
        let (e, q2) = parse_matcher(toks, file, q + 1)?;
        let ghost old = items@;
        items.push(e);
        proof {
            assert(items@.drop_last() =~= old);
            assert(matchers_nested(items@)) by {
                assert forall|i: int| 0 <= i < items@.len() implies matcher_nested(#[trigger] items@[i]) by {
                    if i < old.len() {
                        assert(items@[i] == old[i]);
                    }
                }
            }
            lemma_cat(toks@, p + 1, q as int, q + 1);
            lemma_cat(toks@, p + 1, q + 1, q2 as int);
        }
        q = q2;
    }
}

/// `{ key, key = matcher, key ? default, ... }` starting at `p`.
fn parse_mobject(toks: &Vec<Token>, file: &VirtPath, p: usize) -> (r: Result<(Matcher, usize), Error>)
    requires
        p < toks.len(),
        toks@[p as int].tok is LBrace,
    ensures
        matcher_res(toks@, p as int, r),
        r matches Ok((m, _)) ==> matcher_nested(m),
        ends_as(r, g_mobject(kinds(toks@), p as int)),
    decreases toks@.len() - p, 0int,
{
    let ghost k = kinds(toks@);
    proof {
        lemma_one(toks@, p as int);
    }
    if p + 1 < toks.len() && matches!(toks[p + 1].tok, Tok::RBrace) {
        proof {
            lemma_one(toks@, p + 1);
            lemma_cat(toks@, p as int, p + 1, p + 2);
        }
        let v: Vec<ObjectMatcher> = Vec::new();
        proof {
            assert(ofields_toks(v@) == Seq::<(int, Seq<char>)>::empty());
            assert(ofields_nested(v@));
        }
        let m = Matcher { kind: MatcherKind::Object { fields: v, exhaustive: true }, loc: span(toks, file, p, p + 2) };
        proof {
            assert(matcher_toks(m) =~= ks(toks@, p as int, (p + 2) as int));
        }
        return Ok((m, p + 2));
    }
    if toks.len() - p > 2 && matches!(toks[p + 1].tok, Tok::TripleDots) && matches!(toks[p + 2].tok, Tok::RBrace) {
        proof {
            lemma_one(toks@, p + 1);
            lemma_one(toks@, p + 2);
            lemma_cat(toks@, p as int, p + 1, p + 2);
            lemma_cat(toks@, p as int, p + 2, p + 3);
        }
        let v: Vec<ObjectMatcher> = Vec::new();
        proof {
            assert(ofields_toks(v@) == Seq::<(int, Seq<char>)>::empty());
            assert(ofields_nested(v@));
        }
        let m = Matcher { kind: MatcherKind::Object { fields: v, exhaustive: false }, loc: span(toks, file, p, p + 3) };
        proof {
            assert(matcher_toks(m) =~= ks(toks@, p as int, (p + 3) as int));
        }
        return Ok((m, p + 3));
    }
    let (first, q0) = parse_ofield(toks, file, p + 1)?;
    let mut fields: Vec<ObjectMatcher> = Vec::new();
    fields.push(first);
    let mut q = q0;
    proof {
        assert(fields@ =~= seq![first]);
    }
    loop
        invariant
            p + 1 < q <= toks.len(),
            toks@[p as int].tok is LBrace,
            fields@.len() >= 1,
            ofields_toks(fields@) == ks(toks@, p + 1, q as int),
            ofields_nested(fields@),
            k == kinds(toks@),
            g_mobject(k, p as int) == g_ofields(k, q as int),
        decreases toks@.len() - q,
    {
        if q >= toks.len() {
            return Err(perr(toks, file, q, "expected `}`"));
        }
        proof {
            lemma_one(toks@, q as int);
            lemma_cat(toks@, p as int, p + 1, q as int);
            lemma_cat(toks@, p as int, q as int, q + 1);
        }
        if matches!(toks[q].tok, Tok::RBrace) {
            let m = Matcher { kind: MatcherKind::Object { fields, exhaustive: true }, loc: span(toks, file, p, q + 1) };
            proof {
                assert(matcher_toks(m) =~= ks(toks@, p as int, (q + 1) as int));
            }
            return Ok((m, q + 1));
        }
        if !matches!(toks[q].tok, Tok::Comma) {
            return Err(perr(toks, file, q, "expected `,` or `}`"));
        }
        if q < toks.len() && toks.len() - q > 2 && matches!(toks[q + 1].tok, Tok::TripleDots) && matches!(toks[q + 2].tok, Tok::RBrace) {
            proof {
                lemma_one(toks@, q + 1);
                lemma_one(toks@, q + 2);
                lemma_cat(toks@, p as int, q + 1, q + 2);
                lemma_cat(toks@, p as int, q + 2, q + 3);
            }
            let m = Matcher { kind: MatcherKind::Object { fields, exhaustive: false }, loc: span(toks, file, p, q + 3) };
            proof {
                assert(matcher_toks(m) =~= ks(toks@, p as int, (q + 3) as int));
            }
            return Ok((m, q + 3));
        }
        let (f, q2) = parse_ofield(toks, file, q + 1)?;
        let ghost old = fields@;
        fields.push(f);
        proof {
            assert(fields@.drop_last() =~= old);
            assert(ofields_nested(fields@)) by {
                assert forall|i: int| 0 <= i < fields@.len() implies ofield_nested(#[trigger] fields@[i]) by {
                    if i < old.len() {
                        assert(fields@[i] == old[i]);
                    }
                }
            }
            lemma_cat(toks@, p + 1, q as int, q + 1);
            lemma_cat(toks@, p + 1, q + 1, q2 as int);
        }
        q = q2;
    }
}

/// One field of an object matcher starting at `p`.
fn parse_ofield(toks: &Vec<Token>, file: &VirtPath, p: usize) -> (r: Result<(ObjectMatcher, usize), Error>)
    requires
        p <= toks.len(),
    ensures
        match r {
            Ok((f, q)) => p < q <= toks.len() && ofield_toks(f) == ks(toks@, p as int, q as int) && ofield_nested(f),
            Err(e) => e.typ == ErrorType::Parse,
        },
        ends_as(r, g_ofield(kinds(toks@), p as int)),
    decreases toks@.len() - p, 0int,
{
    if p >= toks.len() {
        return Err(perr(toks, file, p, "expected a field name"));
    }
    let key = match &toks[p].tok {
        Tok::Ident(name) => copy_str(name.as_str()),
        _ => {
            return Err(perr(toks, file, p, "expected a field name"));
        },
    };
    proof {
        lemma_one(toks@, p as int);
    }
    let mut q = p + 1;
    let mut matcher: Option<Matcher> = None;
    if q < toks.len() && matches!(toks[q].tok, Tok::Assign) {
        let (m, q2) = parse_matcher(toks, file, q + 1)?;
        proof {
            lemma_one(toks@, q as int);
            lemma_cat(toks@, q as int, q + 1, q2 as int);
            lemma_cat(toks@, p as int, q as int, q2 as int);
        }
        matcher = Some(m);
        q = q2;
    } else {
        proof {
            lemma_empty(toks@, q as int);
        }
    }
    let ghost qm = q;
    let mut default: Option<PbNode> = None;
    if q < toks.len() && matches!(toks[q].tok, Tok::BinOpHasAttr) {
        let (d, q2) = parse_expr(toks, file, q + 1)?;
        proof {
            lemma_one(toks@, q as int);
            lemma_cat(toks@, q as int, q + 1, q2 as int);
            lemma_cat(toks@, p as int, q as int, q2 as int);
        }
        default = Some(d);
        q = q2;
    } else {
        proof {
            lemma_empty(toks@, q as int);
        }
    }
    let f = ObjectMatcher { key, matcher, default, loc: span(toks, file, p, q) };
    Ok((f, q))
}

} // verus!
