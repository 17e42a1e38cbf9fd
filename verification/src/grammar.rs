use vstd::prelude::*;
use crate::lexer::{Tok, TokKind, lex_spec, LexErrV};
use crate::syntax::level_op;

verus! {

/*
 The grammar of the build language, over the kinds of the tokens. Each
 function says where a form that starts at `p` ends (one past its last
 token), or `None` where the tokens at `p` do not start that form. The
 grammar decides with at most two tokens of lookahead, and every repeated
 part is read as far as it goes.
*/

/// The token at `i` is the fixed token `t`.
pub open spec fn is_tok(k: Seq<TokKind>, i: int, t: Tok) -> bool {
    0 <= i < k.len() && k[i] == TokKind::Fixed(t)
}

/// `q` is a place past `p` within the tokens.
pub open spec fn adv(k: Seq<TokKind>, p: int, q: int) -> bool {
    p < q <= k.len()
}

/// A binary operator of level `lvl`.
pub open spec fn is_op(lvl: int, kd: TokKind) -> bool {
    match kd {
        TokKind::Fixed(t) => 0 <= lvl <= 12 && level_op(lvl as u8, t) is Some,
        _ => false,
    }
}

/// The precedence level of a binary operator token, or 99 for any other
/// token.
pub open spec fn tok_level(kd: TokKind) -> int {
    match kd {
        TokKind::Fixed(t) => match t {
            Tok::BinOpLogImpl => 12,
            Tok::BinOpLogOr => 11,
            Tok::BinOpLogAnd => 10,
            Tok::BinOpEq | Tok::BinOpNeq => 9,
            Tok::BinOpLt | Tok::BinOpLe | Tok::BinOpGt | Tok::BinOpGe => 8,
            Tok::BinOpUpdate => 7,
            Tok::BinOpAdd | Tok::Minus => 5,
            Tok::BinOpMult | Tok::BinOpDiv => 4,
            Tok::BinOpListConcat => 3,
            Tok::BinOpHasAttr => 2,
            _ => 99,
        },
        _ => 99,
    }
}

pub proof fn lemma_tok_level(lvl: int, kd: TokKind)
    requires
        0 <= lvl <= 12,
    ensures
        is_op(lvl, kd) <==> tok_level(kd) == lvl,
{
}

/// Where a form ending before `q` cannot go on: the token at `q` is no
/// binary operator of level `lvl` or tighter, cannot begin an argument,
/// and is no `.` that a selection could follow.
pub open spec fn ends_at(k: Seq<TokKind>, q: int, lvl: int) -> bool {
    q == k.len() || (0 <= q < k.len() && tok_level(k[q]) > lvl && !starts_arg_k(k[q]) && !(is_tok(k, q, Tok::Dot)
        && k.len() - q > 1))
}

/// The token at `p` begins a form that reaches as far right as it can.
pub open spec fn opens_tail(k: Seq<TokKind>, p: int) -> bool {
    is_tok(k, p, Tok::Let) || is_tok(k, p, Tok::Bind) || is_tok(k, p, Tok::Pipe)
}

/// A token that can begin an argument of a function call.
pub open spec fn starts_arg_k(kd: TokKind) -> bool {
    match kd {
        TokKind::Ident | TokKind::Number => true,
        TokKind::Fixed(t) => t == Tok::StringQuote || t == Tok::LPar || t == Tok::LSqBracket || t == Tok::LBrace
            || t == Tok::True || t == Tok::False || t == Tok::Null,
        _ => false,
    }
}

/// The operators of `->`, `//` and `++` group to the right.
pub open spec fn right_level(lvl: int) -> bool {
    lvl == 12 || lvl == 7 || lvl == 3
}

/// An expression.
pub open spec fn g_expr(k: Seq<TokKind>, p: int) -> Option<int>
    decreases k.len() - p, 30int,
{
    if 0 <= p <= k.len() {
        g_level(k, p, 12)
    } else {
        None
    }
}

/// An expression of precedence level `lvl` or tighter: `!` and unary `-`
/// take an operand of their own level; the other levels are one operand
/// of the next tighter level followed by operators of this level, each
/// with its right operand (of this level for `->`, `//`, `++`, which then
/// end the chain, of the tighter level otherwise).
pub open spec fn g_level(k: Seq<TokKind>, p: int, lvl: int) -> Option<int>
    decreases k.len() - p, 10 + lvl,
{
    if !(0 <= p <= k.len()) || lvl < 0 {
        None
    } else if lvl == 0 {
        g_app(k, p)
    } else if lvl == 6 || lvl == 1 {
        if (lvl == 6 && is_tok(k, p, Tok::UnOpNot)) || (lvl == 1 && is_tok(k, p, Tok::Minus)) {
            g_level(k, p + 1, lvl)
        } else {
            g_level(k, p, lvl - 1)
        }
    } else {
        match g_level(k, p, lvl - 1) {
            None => None,
            Some(q0) => if !adv(k, p, q0) {
                None
            } else if right_level(lvl) {
                if q0 < k.len() && is_op(lvl, k[q0]) {
                    g_level(k, q0 + 1, lvl)
                } else {
                    Some(q0)
                }
            } else {
                g_chain(k, q0, lvl)
            },
        }
    }
}

/// The rest of a chain of left-grouping operators of level `lvl`, from `q`.
pub open spec fn g_chain(k: Seq<TokKind>, q: int, lvl: int) -> Option<int>
    decreases k.len() - q, 0int,
{
    if !(0 <= q <= k.len()) || lvl < 1 {
        None
    } else if q == k.len() || !is_op(lvl, k[q]) {
        Some(q)
    } else {
        match g_level(k, q + 1, lvl - 1) {
            None => None,
            Some(q2) => if adv(k, q, q2) { g_chain(k, q2, lvl) } else { None },
        }
    }
}

/// A function application: a selection followed by arguments.
pub open spec fn g_app(k: Seq<TokKind>, p: int) -> Option<int>
    decreases k.len() - p, 5int,
{
    if !(0 <= p <= k.len()) {
        None
    } else {
        match g_select(k, p) {
            None => None,
            Some(q0) => if adv(k, p, q0) { g_args(k, q0) } else { None },
        }
    }
}

/// The arguments of an application, from `q`.
pub open spec fn g_args(k: Seq<TokKind>, q: int) -> Option<int>
    decreases k.len() - q, 5int,
{
    if !(0 <= q <= k.len()) {
        None
    } else if q == k.len() || !starts_arg_k(k[q]) {
        Some(q)
    } else {
        match g_select(k, q) {
            None => None,
            Some(q2) => if adv(k, q, q2) { g_args(k, q2) } else { None },
        }
    }
}

/// An atom followed by attribute selections `.name` or `.{expr}`.
pub open spec fn g_select(k: Seq<TokKind>, p: int) -> Option<int>
    decreases k.len() - p, 4int,
{
    if !(0 <= p <= k.len()) {
        None
    } else {
        match g_atom(k, p) {
            None => None,
            Some(q0) => if adv(k, p, q0) { g_sels(k, q0) } else { None },
        }
    }
}

/// The selections after an atom, from `q`.
pub open spec fn g_sels(k: Seq<TokKind>, q: int) -> Option<int>
    decreases k.len() - q, 0int,
{
    if !(0 <= q <= k.len()) {
        None
    } else if k.len() - q <= 1 || !is_tok(k, q, Tok::Dot) {
        Some(q)
    } else if k[q + 1] == TokKind::Ident {
        g_sels(k, q + 2)
    } else if k[q + 1] == TokKind::Fixed(Tok::LBrace) {
        match g_expr(k, q + 2) {
            None => None,
            Some(q2) => if adv(k, q + 1, q2) && is_tok(k, q2, Tok::RBrace) { g_sels(k, q2 + 1) } else { None },
        }
    } else {
        None
    }
}

/// A literal, a name, or a bracketed or keyword form.
pub open spec fn g_atom(k: Seq<TokKind>, p: int) -> Option<int>
    decreases k.len() - p, 3int,
{
    if !(0 <= p < k.len()) {
        None
    } else {
        match k[p] {
            TokKind::Number | TokKind::Ident => Some(p + 1),
            TokKind::Fixed(t) => match t {
                Tok::True | Tok::False | Tok::Null => Some(p + 1),
                Tok::StringQuote => g_string(k, p + 1),
                Tok::LPar => g_paren(k, p),
                Tok::LSqBracket => g_bracket(k, p),
                Tok::LBrace => g_brace(k, p),
                Tok::Switch => g_switch(k, p),
                Tok::Let => g_lets(k, p + 1),
                Tok::Bind => g_bind(k, p),
                Tok::Pipe => g_fdef(k, p + 1),
                _ => None,
            },
            _ => None,
        }
    }
}

/// The rest of a string literal, from `q`: chunks and `${expr}` parts up
/// to the closing quote.
pub open spec fn g_string(k: Seq<TokKind>, q: int) -> Option<int>
    decreases k.len() - q, 0int,
{
    if !(0 <= q < k.len()) {
        None
    } else {
        match k[q] {
            TokKind::Chunk => g_string(k, q + 1),
            TokKind::Fixed(Tok::StringQuote) => Some(q + 1),
            TokKind::Fixed(Tok::StringEmbedStart) => match g_expr(k, q + 1) {
                None => None,
                Some(q2) => if adv(k, q, q2) && is_tok(k, q2, Tok::StringEmbedEnd) { g_string(k, q2 + 1) } else { None },
            },
            _ => None,
        }
    }
}

/// `(...)` at `p`: `()`, a group `(e)`, a fold `(f for x)` or
/// `(f for init : x)`, or a tuple `(e, ...)`.
pub open spec fn g_paren(k: Seq<TokKind>, p: int) -> Option<int>
    decreases k.len() - p, 0int,
{
    if !(0 <= p < k.len()) {
        None
    } else if is_tok(k, p + 1, Tok::RPar) {
        Some(p + 2)
    } else {
        match g_expr(k, p + 1) {
            None => None,
            Some(q) => if !adv(k, p, q) || q == k.len() {
                None
            } else if is_tok(k, q, Tok::RPar) {
                Some(q + 1)
            } else if is_tok(k, q, Tok::For) {
                match g_expr(k, q + 1) {
                    None => None,
                    Some(q1) => if !adv(k, q, q1) || q1 == k.len() {
                        None
                    } else if is_tok(k, q1, Tok::Colon) {
                        match g_expr(k, q1 + 1) {
                            None => None,
                            Some(q2) => if adv(k, q1, q2) && is_tok(k, q2, Tok::RPar) { Some(q2 + 1) } else { None },
                        }
                    } else if is_tok(k, q1, Tok::RPar) {
                        Some(q1 + 1)
                    } else {
                        None
                    }
                }
            } else if is_tok(k, q, Tok::Comma) {
                match g_items(k, q, true) {
                    None => None,
                    Some(q2) => Some(q2 + 1),
                }
            } else {
                None
            },
        }
    }
}

/// The closing bracket of a tuple (`par`) or list.
pub open spec fn closes_k(k: Seq<TokKind>, q: int, par: bool) -> bool {
    if par { is_tok(k, q, Tok::RPar) } else { is_tok(k, q, Tok::RSqBracket) }
}

/// The rest of a comma-separated list of expressions from `q`, with at
/// most one trailing comma: where its closing bracket stands.
pub open spec fn g_items(k: Seq<TokKind>, q: int, par: bool) -> Option<int>
    decreases k.len() - q, 0int,
{
    if !(0 <= q < k.len()) {
        None
    } else if closes_k(k, q, par) {
        Some(q)
    } else if !is_tok(k, q, Tok::Comma) {
        None
    } else if closes_k(k, q + 1, par) {
        Some(q + 1)
    } else {
        match g_expr(k, q + 1) {
            None => None,
            Some(q2) => if adv(k, q, q2) { g_items(k, q2, par) } else { None },
        }
    }
}

/// `[...]` at `p`: `[]`, a list map `[f for x if c]`, or a list.
pub open spec fn g_bracket(k: Seq<TokKind>, p: int) -> Option<int>
    decreases k.len() - p, 0int,
{
    if !(0 <= p < k.len()) {
        None
    } else if is_tok(k, p + 1, Tok::RSqBracket) {
        Some(p + 2)
    } else {
        match g_expr(k, p + 1) {
            None => None,
            Some(q) => if !adv(k, p, q) || q == k.len() {
                None
            } else if is_tok(k, q, Tok::For) {
                g_map_rest(k, q, true)
            } else {
                match g_items(k, q, false) {
                    None => None,
                    Some(q2) => Some(q2 + 1),
                }
            },
        }
    }
}

/// The rest of a map from its `for` at `q`: `for input [if filter]` and
/// the closing bracket of a list map (`list`) or object map.
pub open spec fn g_map_rest(k: Seq<TokKind>, q: int, list: bool) -> Option<int>
    decreases k.len() - q, 0int,
{
    if !(0 <= q < k.len()) {
        None
    } else {
        match g_expr(k, q + 1) {
            None => None,
            Some(q1) => if !adv(k, q, q1) {
                None
            } else if is_tok(k, q1, Tok::If) {
                match g_expr(k, q1 + 1) {
                    None => None,
                    Some(q2) => if adv(k, q1, q2) { map_close(k, q2, list) } else { None },
                }
            } else {
                map_close(k, q1, list)
            },
        }
    }
}

pub open spec fn map_close(k: Seq<TokKind>, c: int, list: bool) -> Option<int> {
    if (list && is_tok(k, c, Tok::RSqBracket)) || (!list && is_tok(k, c, Tok::RBrace)) {
        Some(c + 1)
    } else {
        None
    }
}

/// Whether `{` at `p` opens an object rather than an object map: it is
/// followed by `}`, by a string key, or by a name and `=` or `;`.
pub open spec fn opens_object(k: Seq<TokKind>, p: int) -> bool {
    p + 1 < k.len() && (is_tok(k, p + 1, Tok::RBrace) || is_tok(k, p + 1, Tok::StringQuote) || (k[p + 1]
        == TokKind::Ident && p + 2 < k.len() && (is_tok(k, p + 2, Tok::Assign) || is_tok(k, p + 2, Tok::SemiColon))))
}

/// `{...}` at `p`: an object or an object map.
pub open spec fn g_brace(k: Seq<TokKind>, p: int) -> Option<int>
    decreases k.len() - p, 0int,
{
    if !(0 <= p < k.len()) {
        None
    } else if opens_object(k, p) {
        match g_assigns(k, p + 1, true) {
            None => None,
            Some(q) => Some(q + 1),
        }
    } else {
        match g_expr(k, p + 1) {
            None => None,
            Some(q) => if adv(k, p, q) && is_tok(k, q, Tok::For) { g_map_rest(k, q, false) } else { None },
        }
    }
}

/// Assignments from `q` up to the closing `}` (`brace`) or the `in`:
/// where that token stands.
pub open spec fn g_assigns(k: Seq<TokKind>, q: int, brace: bool) -> Option<int>
    decreases k.len() - q, 1int,
{
    if !(0 <= q < k.len()) {
        None
    } else if (brace && is_tok(k, q, Tok::RBrace)) || (!brace && is_tok(k, q, Tok::In)) {
        Some(q)
    } else {
        match g_assignment(k, q) {
            None => None,
            Some(q2) => if adv(k, q, q2) { g_assigns(k, q2, brace) } else { None },
        }
    }
}

/// `key = value;` or `key;` at `p`, the key a name or a string without
/// interpolation.
pub open spec fn g_assignment(k: Seq<TokKind>, p: int) -> Option<int>
    decreases k.len() - p, 0int,
{
    if !(0 <= p < k.len()) {
        None
    } else {
        let kq = if k[p] == TokKind::Ident {
            Some(p + 1)
        } else if is_tok(k, p, Tok::StringQuote) {
            g_key(k, p + 1)
        } else {
            None
        };
        match kq {
            None => None,
            Some(kq) => if !adv(k, p, kq) || kq == k.len() {
                None
            } else if is_tok(k, kq, Tok::SemiColon) {
                Some(kq + 1)
            } else if !is_tok(k, kq, Tok::Assign) {
                None
            } else {
                match g_expr(k, kq + 1) {
                    None => None,
                    Some(q2) => if adv(k, kq, q2) && is_tok(k, q2, Tok::SemiColon) { Some(q2 + 1) } else { None },
                }
            },
        }
    }
}

/// The rest of a string key from `q`: chunks up to the closing quote.
pub open spec fn g_key(k: Seq<TokKind>, q: int) -> Option<int>
    decreases k.len() - q,
{
    if !(0 <= q < k.len()) {
        None
    } else if k[q] == TokKind::Chunk {
        g_key(k, q + 1)
    } else if is_tok(k, q, Tok::StringQuote) {
        Some(q + 1)
    } else {
        None
    }
}

/// `switch input { m => v; ... [_ => d;] }` at `p`; the input is a
/// selection.
pub open spec fn g_switch(k: Seq<TokKind>, p: int) -> Option<int>
    decreases k.len() - p, 0int,
{
    if !(0 <= p < k.len()) {
        None
    } else {
        match g_select(k, p + 1) {
            None => None,
            Some(q) => if adv(k, p, q) && is_tok(k, q, Tok::LBrace) { g_cases(k, q + 1) } else { None },
        }
    }
}

/// The cases of a switch from `c`, up to and including its `}`.
pub open spec fn g_cases(k: Seq<TokKind>, c: int) -> Option<int>
    decreases k.len() - c, 31int,
{
    if !(0 <= c < k.len()) {
        None
    } else if is_tok(k, c, Tok::RBrace) {
        Some(c + 1)
    } else if is_tok(k, c, Tok::Underscore) && is_tok(k, c + 1, Tok::RDoubleArrow) {
        match g_expr(k, c + 2) {
            None => None,
            Some(q2) => if adv(k, c + 1, q2) && is_tok(k, q2, Tok::SemiColon) && is_tok(k, q2 + 1, Tok::RBrace) {
                Some(q2 + 2)
            } else {
                None
            },
        }
    } else {
        match g_expr(k, c) {
            None => None,
            Some(c1) => if !adv(k, c, c1) || !is_tok(k, c1, Tok::RDoubleArrow) {
                None
            } else {
                match g_expr(k, c1 + 1) {
                    None => None,
                    Some(c2) => if adv(k, c1, c2) && is_tok(k, c2, Tok::SemiColon) { g_cases(k, c2 + 1) } else { None },
                }
            },
        }
    }
}

/// The bindings of a `let` from `c` (`matcher = value;` each), then `in`
/// and the body.
pub open spec fn g_lets(k: Seq<TokKind>, c: int) -> Option<int>
    decreases k.len() - c, 3int,
{
    if !(0 <= c < k.len()) {
        None
    } else if is_tok(k, c, Tok::In) {
        g_expr(k, c + 1)
    } else {
        match g_matcher(k, c) {
            None => None,
            Some(c1) => if !adv(k, c, c1) || !is_tok(k, c1, Tok::Assign) {
                None
            } else {
                match g_expr(k, c1 + 1) {
                    None => None,
                    Some(c2) => if adv(k, c1, c2) && is_tok(k, c2, Tok::SemiColon) { g_lets(k, c2 + 1) } else { None },
                }
            },
        }
    }
}

/// `bind key = value; ... in body` at `p`.
pub open spec fn g_bind(k: Seq<TokKind>, p: int) -> Option<int>
    decreases k.len() - p, 0int,
{
    if !(0 <= p < k.len()) {
        None
    } else {
        match g_assigns(k, p + 1, false) {
            None => None,
            Some(c) => if adv(k, p, c) && c < k.len() { g_expr(k, c + 1) } else { None },
        }
    }
}

/// The matchers of a function from `c`, then `|` and the body.
pub open spec fn g_fdef(k: Seq<TokKind>, c: int) -> Option<int>
    decreases k.len() - c, 3int,
{
    if !(0 <= c < k.len()) {
        None
    } else if is_tok(k, c, Tok::Pipe) {
        g_expr(k, c + 1)
    } else {
        match g_matcher(k, c) {
            None => None,
            Some(c1) => if adv(k, c, c1) { g_fdef(k, c1) } else { None },
        }
    }
}

/// A pattern: a primary pattern with any `@ name` aliases after it.
pub open spec fn g_matcher(k: Seq<TokKind>, p: int) -> Option<int>
    decreases k.len() - p, 2int,
{
    if !(0 <= p <= k.len()) {
        None
    } else {
        match g_mprimary(k, p) {
            None => None,
            Some(q0) => if adv(k, p, q0) { g_aliases(k, q0) } else { None },
        }
    }
}

pub open spec fn g_aliases(k: Seq<TokKind>, q: int) -> Option<int>
    decreases k.len() - q,
{
    if !(0 <= q <= k.len()) {
        None
    } else if k.len() - q <= 1 || !is_tok(k, q, Tok::At) {
        Some(q)
    } else if k[q + 1] == TokKind::Ident {
        g_aliases(k, q + 2)
    } else {
        None
    }
}

/// A name, `_`, a tuple pattern or an object pattern.
pub open spec fn g_mprimary(k: Seq<TokKind>, p: int) -> Option<int>
    decreases k.len() - p, 1int,
{
    if !(0 <= p < k.len()) {
        None
    } else {
        match k[p] {
            TokKind::Ident => Some(p + 1),
            TokKind::Fixed(Tok::Underscore) => Some(p + 1),
            TokKind::Fixed(Tok::LPar) => g_mtuple(k, p),
            TokKind::Fixed(Tok::LBrace) => g_mobject(k, p),
            _ => None,
        }
    }
}

/// `(m, ...)` at `p`.
pub open spec fn g_mtuple(k: Seq<TokKind>, p: int) -> Option<int>
    decreases k.len() - p, 0int,
{
    if !(0 <= p < k.len()) {
        None
    } else if is_tok(k, p + 1, Tok::RPar) {
        Some(p + 2)
    } else {
        match g_matcher(k, p + 1) {
            None => None,
            Some(q0) => if adv(k, p, q0) { g_mitems(k, q0) } else { None },
        }
    }
}

pub open spec fn g_mitems(k: Seq<TokKind>, q: int) -> Option<int>
    decreases k.len() - q, 0int,
{
    if !(0 <= q < k.len()) {
        None
    } else if is_tok(k, q, Tok::RPar) {
        Some(q + 1)
    } else if !is_tok(k, q, Tok::Comma) {
        None
    } else if is_tok(k, q + 1, Tok::RPar) {
        Some(q + 2)
    } else {
        match g_matcher(k, q + 1) {
            None => None,
            Some(q2) => if adv(k, q, q2) { g_mitems(k, q2) } else { None },
        }
    }
}

/// `{ field, ... [, ...] }` at `p`.
pub open spec fn g_mobject(k: Seq<TokKind>, p: int) -> Option<int>
    decreases k.len() - p, 0int,
{
    if !(0 <= p < k.len()) {
        None
    } else if is_tok(k, p + 1, Tok::RBrace) {
        Some(p + 2)
    } else if is_tok(k, p + 1, Tok::TripleDots) && is_tok(k, p + 2, Tok::RBrace) {
        Some(p + 3)
    } else {
        match g_ofield(k, p + 1) {
            None => None,
            Some(q0) => if adv(k, p, q0) { g_ofields(k, q0) } else { None },
        }
    }
}

pub open spec fn g_ofields(k: Seq<TokKind>, q: int) -> Option<int>
    decreases k.len() - q, 0int,
{
    if !(0 <= q < k.len()) {
        None
    } else if is_tok(k, q, Tok::RBrace) {
        Some(q + 1)
    } else if !is_tok(k, q, Tok::Comma) {
        None
    } else if is_tok(k, q + 1, Tok::TripleDots) && is_tok(k, q + 2, Tok::RBrace) {
        Some(q + 3)
    } else {
        match g_ofield(k, q + 1) {
            None => None,
            Some(q2) => if adv(k, q, q2) { g_ofields(k, q2) } else { None },
        }
    }
}

/// `name [= matcher] [? default]` at `p`.
pub open spec fn g_ofield(k: Seq<TokKind>, p: int) -> Option<int>
    decreases k.len() - p, 0int,
{
    if !(0 <= p < k.len()) || k[p] != TokKind::Ident {
        None
    } else {
        let qm = if is_tok(k, p + 1, Tok::Assign) { g_matcher(k, p + 2) } else { Some(p + 1) };
        match qm {
            None => None,
            Some(qm) => if !adv(k, p, qm) {
                None
            } else if is_tok(k, qm, Tok::BinOpHasAttr) {
                match g_expr(k, qm + 1) {
                    None => None,
                    Some(q2) => if adv(k, qm, q2) { Some(q2) } else { None },
                }
            } else {
                Some(qm)
            },
        }
    }
}

/// The kinds of tokens `d` (as the lexer describes them) make up one
/// expression of the language.
pub open spec fn accepts(d: Seq<(TokKind, int, int)>) -> bool {
    let k = d.map_values(|x: (TokKind, int, int)| x.0);
    g_expr(k, 0) == Some(k.len() as int)
}

/// The text `code` lexes, and its tokens make up one expression.
pub open spec fn readable(code: Seq<char>) -> bool {
    lex_spec(code) matches Ok(d) && accepts(d)
}

} // verus!
