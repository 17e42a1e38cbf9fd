use vstd::prelude::*;
use crate::error::{Loc, LocView, Error, ErrorType};
use crate::eval::{mk, set_insert, set_insert_exec};
use crate::expr::{
    Expr, ExprType, ExprV, TokV, ExprBinOp, ExprUnOp, ExprMapType, Matcher as EMatcher, MatcherV, exprs_v, set_v,
    lets_v, cases_v, matchers_v, omatch_v, opt_v,
};
use crate::pbcst::{
    PbNode, PbNodeKind, BinaryOp, UnaryOp, MapKind, StrPart, Attr, LetBinding, Assignment, Key, SwitchCase, Matcher,
    MatcherKind, ObjectMatcher,
};
use crate::text::{chars_of, push_char, push_str, copy_str, is_ascii_digit};
use crate::value::{Value, ValueV};

verus! {

/* Escapes in string text */

pub open spec fn hex_val(c: char) -> int {
    if '0' <= c && c <= '9' {
        c as int - '0' as int
    } else if 'a' <= c && c <= 'f' {
        c as int - 'a' as int + 10
    } else if 'A' <= c && c <= 'F' {
        c as int - 'A' as int + 10
    } else {
        -1
    }
}

/// The value of the four hex digits at `s[i..i+4]`, or -1 when one is
/// not a hex digit.
pub open spec fn hex4(s: Seq<char>, i: int) -> int {
    if hex_val(s[i]) < 0 || hex_val(s[i + 1]) < 0 || hex_val(s[i + 2]) < 0 || hex_val(s[i + 3]) < 0 {
        -1
    } else {
        ((hex_val(s[i]) * 16 + hex_val(s[i + 1])) * 16 + hex_val(s[i + 2])) * 16 + hex_val(s[i + 3])
    }
}

/// A Unicode scalar value.
pub open spec fn scalar(v: int) -> bool {
    0 <= v <= 0x10FFFF && !(0xD800 <= v <= 0xDFFF)
}

/// The character whose scalar value is `v`.
pub open spec fn char_of(v: int) -> char {
    v as char
}

/// The character that `\c` stands for.
pub open spec fn escaped(c: char) -> char {
    if c == 'n' {
        '\n'
    } else if c == 'r' {
        '\r'
    } else if c == 't' {
        '\t'
    } else {
        c
    }
}

pub open spec fn prepend(c: char, o: Option<Seq<char>>) -> Option<Seq<char>> {
    match o {
        Some(t) => Some(seq![c] + t),
        None => None,
    }
}

/// The text that the raw text of a string literal stands for: `\n`, `\r`,
/// `\t` and `\uXXXX` decoded, any other `\c` taken as `c`, `$$` as `$`.
/// None where an escape is cut short or names no character.
pub open spec fn decode(s: Seq<char>) -> Option<Seq<char>>
    decreases s.len(),
{
    if s.len() == 0 {
        Some(Seq::empty())
    } else if s[0] == '\\' {
        if s.len() < 2 {
            None
        } else if s[1] == 'u' {
            if s.len() < 6 || !scalar(hex4(s, 2)) {
                None
            } else {
                prepend(char_of(hex4(s, 2)), decode(s.subrange(6, s.len() as int)))
            }
        } else {
            prepend(escaped(s[1]), decode(s.subrange(2, s.len() as int)))
        }
    } else if s[0] == '$' {
        if s.len() >= 2 && s[1] == '$' {
            prepend('$', decode(s.subrange(2, s.len() as int)))
        } else {
            None
        }
    } else {
        prepend(s[0], decode(s.subrange(1, s.len() as int)))
    }
}

/// Decoding reads the text from the front: `\t`, `\n` and `\r` give the
/// tab (U+0009), newline (U+000A) and carriage return (U+000D), `\\`,
/// `\"` and `\$` give the character escaped, `$$` gives `$`, and any
/// character other than `\` and `$` stands for itself; the rest of the
/// text is decoded the same way.
pub proof fn lemma_decode_front(rest: Seq<char>, c: char)
    ensures
        decode(seq!['\\', 't'] + rest) == prepend('\u{9}', decode(rest)),
        decode(seq!['\\', 'n'] + rest) == prepend('\u{a}', decode(rest)),
        decode(seq!['\\', 'r'] + rest) == prepend('\u{d}', decode(rest)),
        decode(seq!['\\', '\\'] + rest) == prepend('\\', decode(rest)),
        decode(seq!['\\', '"'] + rest) == prepend('"', decode(rest)),
        decode(seq!['\\', '$'] + rest) == prepend('$', decode(rest)),
        decode(seq!['$', '$'] + rest) == prepend('$', decode(rest)),
        c != '\\' && c != '$' ==> decode(seq![c] + rest) == prepend(c, decode(rest)),
        decode(seq!['\\', 't'] + rest) matches Some(d) ==> d.len() > 0 && d[0] == '\u{9}' && d[0] as u32 == 9,
{
    assert((seq!['\\', 't'] + rest).subrange(2, (seq!['\\', 't'] + rest).len() as int) =~= rest);
    assert((seq!['\\', 'n'] + rest).subrange(2, (seq!['\\', 'n'] + rest).len() as int) =~= rest);
    assert((seq!['\\', 'r'] + rest).subrange(2, (seq!['\\', 'r'] + rest).len() as int) =~= rest);
    assert((seq!['\\', '\\'] + rest).subrange(2, (seq!['\\', '\\'] + rest).len() as int) =~= rest);
    assert((seq!['\\', '"'] + rest).subrange(2, (seq!['\\', '"'] + rest).len() as int) =~= rest);
    assert((seq!['\\', '$'] + rest).subrange(2, (seq!['\\', '$'] + rest).len() as int) =~= rest);
    assert((seq!['$', '$'] + rest).subrange(2, (seq!['$', '$'] + rest).len() as int) =~= rest);
    assert((seq![c] + rest).subrange(1, (seq![c] + rest).len() as int) =~= rest);
}

/// `\u` followed by four decimal hex digits gives the character with that
/// hexadecimal value (below U+A000, so always a character).
pub proof fn lemma_decode_unicode(rest: Seq<char>, a: char, b: char, c: char, d: char)
    requires
        '0' <= a <= '9',
        '0' <= b <= '9',
        '0' <= c <= '9',
        '0' <= d <= '9',
    ensures
        decode(seq!['\\', 'u', a, b, c, d] + rest) == prepend(
            (((a as int - 48) * 4096 + (b as int - 48) * 256 + (c as int - 48) * 16 + (d as int - 48)) as char),
            decode(rest),
        ),
{
    let s = seq!['\\', 'u', a, b, c, d] + rest;
    assert(s[2] == a && s[3] == b && s[4] == c && s[5] == d);
    assert(s.subrange(6, s.len() as int) =~= rest);
    assert(hex4(s, 2) == (a as int - 48) * 4096 + (b as int - 48) * 256 + (c as int - 48) * 16 + (d as int - 48));
}

/// `char::from_u32`: the character with scalar value `u`, if there is one.
#[verifier::external_body]
fn char_from_u32(u: u32) -> (r: Option<char>)
    ensures
        r matches Some(c) ==> c == u as char,
        r is None <==> !scalar(u as int),
{
    char::from_u32(u)
}

fn hex_digit(c: char) -> (r: u32)
    ensures
        hex_val(c) < 0 ==> r == 16,
        hex_val(c) >= 0 ==> r == hex_val(c),
{
    if '0' <= c && c <= '9' {
        (c as u32) - ('0' as u32)
    } else if 'a' <= c && c <= 'f' {
        (c as u32) - ('a' as u32) + 10
    } else if 'A' <= c && c <= 'F' {
        (c as u32) - ('A' as u32) + 10
    } else {
        16
    }
}

/// Decodes the escapes of the raw text of a string literal.
pub fn decode_str(s: &str) -> (r: Option<String>)
    ensures
        match r {
            Some(t) => decode(s@) == Some(t@),
            None => decode(s@) is None,
        },
{
    let cs = chars_of(s);
    let n = cs.len();
    let mut out = String::new();
    let mut i: usize = 0;
    proof {
        assert(s@.subrange(0, n as int) =~= s@);
        match decode(s@) {
            Some(t) => {
                assert(out@ + t =~= t);
            },
            None => {},
        }
    }
    loop
        invariant
            cs@ == s@,
            n == cs.len(),
            i <= n,
            decode(s@) == match decode(s@.subrange(i as int, n as int)) {
                Some(t) => Some(out@ + t),
                None => None,
            },
        decreases n - i,
    {
        let ghost rest = s@.subrange(i as int, n as int);
        if i == n {
            proof {
                assert(rest.len() == 0);
                assert(out@ + Seq::<char>::empty() =~= out@);
            }
            return Some(out);
        }
        let c = cs[i];
        let mut step: usize = 1;
        let mut d = c;
        if c == '\\' {
            if n - i < 2 {
                return None;
            }
            let e = cs[i + 1];
            if e == 'u' {
                if n - i < 6 {
                    return None;
                }
                let h0 = hex_digit(cs[i + 2]);
                let h1 = hex_digit(cs[i + 3]);
                let h2 = hex_digit(cs[i + 4]);
                let h3 = hex_digit(cs[i + 5]);
                if h0 >= 16 || h1 >= 16 || h2 >= 16 || h3 >= 16 {
                    proof {
                        assert(hex4(rest, 2) == -1);
                    }
                    return None;
                }
                let v = ((h0 * 16 + h1) * 16 + h2) * 16 + h3;
                proof {
                    assert(hex4(rest, 2) == v as int);
                }
                match char_from_u32(v) {
                    Some(ch) => {
                        d = ch;
                        step = 6;
                    },
                    None => {
                        return None;
                    },
                }
            } else {
                d = if e == 'n' {
                    '\n'
                } else if e == 'r' {
                    '\r'
                } else if e == 't' {
                    '\t'
                } else {
                    e
                };
                step = 2;
            }
        } else if c == '$' {
            if n - i < 2 || cs[i + 1] != '$' {
                return None;
            }
            step = 2;
        }
        proof {
            assert(rest.subrange(step as int, rest.len() as int) =~= s@.subrange(i + step, n as int));
            if step == 6 {
                assert(d == char_of(hex4(rest, 2)));
            }
            match decode(s@.subrange(i + step, n as int)) {
                Some(t) => {
                    assert(out@ + (seq![d] + t) =~= out@.push(d) + t);
                },
                None => {},
            }
        }
        push_char(&mut out, d);
        i = i + step;
    }
}

/* Integer literals */

pub open spec fn dec_value(s: Seq<char>) -> int
    decreases s.len(),
{
    if s.len() == 0 {
        0
    } else {
        dec_value(s.drop_last()) * 10 + (s.last() as int - '0' as int)
    }
}

/// The value of a literal of decimal digits, when it fits in an `i64`.
pub open spec fn int_lit(s: Seq<char>) -> Option<i64> {
    if s.len() > 0 && (forall|i: int| 0 <= i < s.len() ==> is_ascii_digit(#[trigger] s[i])) && dec_value(s)
        <= i64::MAX {
        Some(dec_value(s) as i64)
    } else {
        None
    }
}

proof fn lemma_dec_grows(s: Seq<char>, i: int, j: int)
    requires
        0 <= i <= j <= s.len(),
        forall|k: int| 0 <= k < s.len() ==> is_ascii_digit(#[trigger] s[k]),
    ensures
        dec_value(s.subrange(0, j)) >= dec_value(s.subrange(0, i)),
        dec_value(s.subrange(0, j)) >= 0,
    decreases j,
{
    if j > 0 {
        assert(s.subrange(0, j).drop_last() =~= s.subrange(0, j - 1));
        assert(is_ascii_digit(s[j - 1]));
        if i < j {
            lemma_dec_grows(s, i, j - 1);
        } else {
            lemma_dec_grows(s, j - 1, j - 1);
        }
    } else {
        assert(s.subrange(0, 0) =~= Seq::<char>::empty());
    }
}

/// Reads a literal of decimal digits.
pub fn parse_int_lit(s: &str) -> (r: Option<i64>)
    ensures
        r == int_lit(s@),
{
    let cs = chars_of(s);
    let n = cs.len();
    if n == 0 {
        return None;
    }
    let mut acc: i64 = 0;
    let mut i: usize = 0;
    proof {
        assert(s@.subrange(0, 0) =~= Seq::<char>::empty());
    }
    while i < n
        invariant
            cs@ == s@,
            n == cs.len(),
            n > 0,
            i <= n,
            acc as int == dec_value(s@.subrange(0, i as int)),
            acc >= 0,
            forall|k: int| 0 <= k < i ==> is_ascii_digit(#[trigger] s@[k]),
        decreases n - i,
    {
        let c = cs[i];
        if !('0' <= c && c <= '9') {
            return None;
        }
        let d = (c as u32 - '0' as u32) as i64;
        proof {
            assert(s@.subrange(0, i + 1).drop_last() =~= s@.subrange(0, i as int));
        }
        if acc > (i64::MAX - d) / 10 {
            proof {
                assert(dec_value(s@.subrange(0, i + 1)) > i64::MAX) by (nonlinear_arith)
                    requires
                        acc > (i64::MAX - d) / 10,
                        dec_value(s@.subrange(0, i + 1)) == acc * 10 + d,
                        0 <= d <= 9,
                ;
                if forall|k: int| 0 <= k < s@.len() ==> is_ascii_digit(#[trigger] s@[k]) {
                    lemma_dec_grows(s@, i + 1, n as int);
                    assert(s@.subrange(0, n as int) =~= s@);
                }
            }
            return None;
        }
        proof {
            assert(acc * 10 + d <= i64::MAX) by (nonlinear_arith)
                requires
                    acc <= (i64::MAX - d) / 10,
                    0 <= d <= 9,
                    acc >= 0,
            ;
        }
        acc = acc * 10 + d;
        i = i + 1;
    }
    proof {
        assert(s@.subrange(0, n as int) =~= s@);
    }
    Some(acc)
}

/* From the syntax tree to expressions */

pub open spec fn binop_of(op: BinaryOp) -> ExprBinOp {
    match op {
        BinaryOp::HasAttr => ExprBinOp::HasAttr,
        BinaryOp::ListConcat => ExprBinOp::ListConcat,
        BinaryOp::Mult => ExprBinOp::Mult,
        BinaryOp::Div => ExprBinOp::Div,
        BinaryOp::Sub => ExprBinOp::Sub,
        BinaryOp::Add => ExprBinOp::Add,
        BinaryOp::Update => ExprBinOp::Update,
        BinaryOp::Lt => ExprBinOp::Lt,
        BinaryOp::Le => ExprBinOp::Le,
        BinaryOp::Gt => ExprBinOp::Gt,
        BinaryOp::Ge => ExprBinOp::Ge,
        BinaryOp::Eq => ExprBinOp::Eq,
        BinaryOp::Neq => ExprBinOp::Neq,
        BinaryOp::LogAnd => ExprBinOp::LogAnd,
        BinaryOp::LogOr => ExprBinOp::LogOr,
        BinaryOp::LogImpl => ExprBinOp::LogImpl,
    }
}

fn binop_exec(op: BinaryOp) -> (r: ExprBinOp)
    ensures
        r == binop_of(op),
{
    match op {
        BinaryOp::HasAttr => ExprBinOp::HasAttr,
        BinaryOp::ListConcat => ExprBinOp::ListConcat,
        BinaryOp::Mult => ExprBinOp::Mult,
        BinaryOp::Div => ExprBinOp::Div,
        BinaryOp::Sub => ExprBinOp::Sub,
        BinaryOp::Add => ExprBinOp::Add,
        BinaryOp::Update => ExprBinOp::Update,
        BinaryOp::Lt => ExprBinOp::Lt,
        BinaryOp::Le => ExprBinOp::Le,
        BinaryOp::Gt => ExprBinOp::Gt,
        BinaryOp::Ge => ExprBinOp::Ge,
        BinaryOp::Eq => ExprBinOp::Eq,
        BinaryOp::Neq => ExprBinOp::Neq,
        BinaryOp::LogAnd => ExprBinOp::LogAnd,
        BinaryOp::LogOr => ExprBinOp::LogOr,
        BinaryOp::LogImpl => ExprBinOp::LogImpl,
    }
}

pub open spec fn box_opt(o: Option<ExprV>) -> Option<Box<ExprV>> {
    match o {
        Some(e) => Some(Box::new(e)),
        None => None,
    }
}

/// Nested one-parameter functions, the first parameter outermost, all at
/// `loc`.
pub open spec fn wrap_funcs(ms: Seq<MatcherV>, body: ExprV, loc: Option<LocView>) -> ExprV
    decreases ms.len(),
{
    if ms.len() == 0 {
        body
    } else {
        wrap_funcs(ms.drop_last(), mk(TokV::FuncDef(ms.last(), Box::new(body)), loc), loc)
    }
}

/// The raw text of string chunks, one after the other.
pub open spec fn chunks_text(s: Seq<String>) -> Seq<char>
    decreases s.len(),
{
    if s.len() == 0 {
        Seq::empty()
    } else {
        chunks_text(s.drop_last()) + s.last()@
    }
}

/// The variable name or decoded text of an assignment key.
pub open spec fn key_name(k: Key) -> Option<Seq<char>> {
    match k {
        Key::Ident(s, _) => Some(s@),
        Key::String(chunks, _) => decode(chunks_text(chunks@)),
    }
}

pub open spec fn key_loc(k: Key) -> LocView {
    match k {
        Key::Ident(_, l) => l@,
        Key::String(_, l) => l@,
    }
}

/// The expression a node of the syntax tree stands for, or None where it
/// stands for none (a malformed escape or integer, a fold with no initial
/// value).
pub open spec fn lower(n: PbNode) -> Option<ExprV>
    decreases n, 2int,
{
    let l = Some(n.loc@);
    match n.kind {
        PbNodeKind::Group(x) => lower(*x),
        PbNodeKind::Let(..) => lower_let(n),
        PbNodeKind::Bind(..) => lower_bind(n),
        PbNodeKind::FuncDef(..) => lower_funcdef(n),
        PbNodeKind::Binary(..) => lower_binary(n),
        PbNodeKind::Unary(..) => lower_unary(n),
        PbNodeKind::FuncCall(..) => lower_call(n),
        PbNodeKind::AttrSel(..) => lower_attr(n),
        PbNodeKind::Fold { .. } => lower_fold(n),
        PbNodeKind::Mapping { .. } => lower_map(n),
        PbNodeKind::Switch { .. } => lower_switch(n),
        PbNodeKind::Object(..) => lower_object(n),
        PbNodeKind::List(..) => lower_list(n),
        PbNodeKind::Tuple(..) => lower_list(n),
        PbNodeKind::Bool(b) => Some(mk(TokV::Value(ValueV::Bool(b)), l)),
        PbNodeKind::Int(s) => match int_lit(s@) {
            Some(v) => Some(mk(TokV::Value(ValueV::Int(v)), l)),
            None => None,
        },
        PbNodeKind::String(..) => lower_string(n),
        PbNodeKind::Var(s) => Some(mk(TokV::Var(s@), l)),
        PbNodeKind::Null => Some(mk(TokV::Null, l)),
    }
}

pub open spec fn lower_let(n: PbNode) -> Option<ExprV>
    decreases n, 1int,
{
    match n.kind {
        PbNodeKind::Let(bs, body) => match (lower_lets(bs@, 0, Seq::empty()), lower(*body)) {
            (Some(b), Some(e)) => Some(mk(TokV::Let(b, Box::new(e)), Some(n.loc@))),
            _ => None,
        },
        _ => None,
    }
}

pub open spec fn lower_bind(n: PbNode) -> Option<ExprV>
    decreases n, 1int,
{
    match n.kind {
        PbNodeKind::Bind(asg, body) => match (lower_assigns(asg@, 0, Seq::empty()), lower(*body)) {
            (Some(b), Some(e)) => Some(mk(TokV::Bind(b, Box::new(e)), Some(n.loc@))),
            _ => None,
        },
        _ => None,
    }
}

pub open spec fn lower_funcdef(n: PbNode) -> Option<ExprV>
    decreases n, 1int,
{
    match n.kind {
        PbNodeKind::FuncDef(ms, body) => match (lower_mitems(ms@, 0, Seq::empty()), lower(*body)) {
            (Some(m), Some(e)) => Some(wrap_funcs(m, e, Some(n.loc@))),
            _ => None,
        },
        _ => None,
    }
}

pub open spec fn lower_binary(n: PbNode) -> Option<ExprV>
    decreases n, 1int,
{
    match n.kind {
        PbNodeKind::Binary(op, a, b) => match (lower(*a), lower(*b)) {
            (Some(x), Some(y)) => Some(mk(TokV::BinOp(binop_of(op), Box::new(x), Box::new(y)), Some(n.loc@))),
            _ => None,
        },
        _ => None,
    }
}

pub open spec fn lower_unary(n: PbNode) -> Option<ExprV>
    decreases n, 1int,
{
    match n.kind {
        PbNodeKind::Unary(op, a) => match lower(*a) {
            Some(x) => Some(
                mk(
                    TokV::UnOp(if op == UnaryOp::Neg { ExprUnOp::Neg } else { ExprUnOp::Not }, Box::new(x)),
                    Some(n.loc@),
                ),
            ),
            None => None,
        },
        _ => None,
    }
}

/// A call: the argument first, then the function, as expressions hold them.
pub open spec fn lower_call(n: PbNode) -> Option<ExprV>
    decreases n, 1int,
{
    match n.kind {
        PbNodeKind::FuncCall(f, a) => match (lower(*f), lower(*a)) {
            (Some(x), Some(y)) => Some(mk(TokV::FuncCall(Box::new(y), Box::new(x)), Some(n.loc@))),
            _ => None,
        },
        _ => None,
    }
}

/// An attribute given by name selects by the string of that name.
pub open spec fn lower_attr(n: PbNode) -> Option<ExprV>
    decreases n, 1int,
{
    match n.kind {
        PbNodeKind::AttrSel(a, attr) => match attr {
            Attr::Ident(name, al) => match lower(*a) {
                Some(x) => Some(
                    mk(
                        TokV::AttrSel(Box::new(x), Box::new(mk(TokV::Value(ValueV::Str(name@)), Some(al@)))),
                        Some(n.loc@),
                    ),
                ),
                None => None,
            },
            Attr::Dynamic(b) => match (lower(*a), lower(*b)) {
                (Some(x), Some(y)) => Some(mk(TokV::AttrSel(Box::new(x), Box::new(y)), Some(n.loc@))),
                _ => None,
            },
        },
        _ => None,
    }
}

pub open spec fn lower_fold(n: PbNode) -> Option<ExprV>
    decreases n, 1int,
{
    match n.kind {
        PbNodeKind::Fold { func, init, input } => match init {
            Some(i) => match (lower(*func), lower(*i), lower(*input)) {
                (Some(f), Some(x), Some(y)) => Some(
                    mk(TokV::Fold(Box::new(f), Box::new(x), Box::new(y)), Some(n.loc@)),
                ),
                _ => None,
            },
            None => None,
        },
        _ => None,
    }
}

pub open spec fn map_type(kind: MapKind) -> ExprMapType {
    if kind == MapKind::List {
        ExprMapType::List
    } else {
        ExprMapType::Object
    }
}

pub open spec fn lower_map(n: PbNode) -> Option<ExprV>
    decreases n, 1int,
{
    match n.kind {
        PbNodeKind::Mapping { kind, func, input, filter } => match (lower(*func), lower(*input)) {
            (Some(f), Some(x)) => match filter {
                Some(g) => match lower(*g) {
                    Some(y) => Some(
                        mk(TokV::Mapping(map_type(kind), Box::new(f), Box::new(x), Some(Box::new(y))), Some(n.loc@)),
                    ),
                    None => None,
                },
                None => Some(mk(TokV::Mapping(map_type(kind), Box::new(f), Box::new(x), None), Some(n.loc@))),
            },
            _ => None,
        },
        _ => None,
    }
}

pub open spec fn lower_switch(n: PbNode) -> Option<ExprV>
    decreases n, 1int,
{
    match n.kind {
        PbNodeKind::Switch { input, cases, default } => match (lower(*input), lower_cases(cases@, 0, Seq::empty())) {
            (Some(x), Some(cs)) => match default {
                Some(d) => match lower(*d) {
                    Some(y) => Some(mk(TokV::Switch(Box::new(x), cs, Some(Box::new(y))), Some(n.loc@))),
                    None => None,
                },
                None => Some(mk(TokV::Switch(Box::new(x), cs, None), Some(n.loc@))),
            },
            _ => None,
        },
        _ => None,
    }
}

pub open spec fn lower_object(n: PbNode) -> Option<ExprV>
    decreases n, 1int,
{
    match n.kind {
        PbNodeKind::Object(asg) => match lower_assigns(asg@, 0, Seq::empty()) {
            Some(s) => Some(mk(TokV::Object(s), Some(n.loc@))),
            None => None,
        },
        _ => None,
    }
}

/// Lists and tuples.
pub open spec fn lower_list(n: PbNode) -> Option<ExprV>
    decreases n, 1int,
{
    match n.kind {
        PbNodeKind::List(items, _) => match lower_items(items@, 0, Seq::empty()) {
            Some(s) => Some(mk(TokV::List(s), Some(n.loc@))),
            None => None,
        },
        PbNodeKind::Tuple(items, _) => match lower_items(items@, 0, Seq::empty()) {
            Some(s) => Some(mk(TokV::Tuple(s), Some(n.loc@))),
            None => None,
        },
        _ => None,
    }
}

/// A string literal of one piece is that piece; of several, or none,
/// their concatenation.
pub open spec fn lower_string(n: PbNode) -> Option<ExprV>
    decreases n, 1int,
{
    match n.kind {
        PbNodeKind::String(parts) => match lower_parts(parts@, 0, Seq::empty(), Some(n.loc@)) {
            Some(ps) => if ps.len() == 1 {
                Some(ps[0])
            } else {
                Some(mk(TokV::Concat(ps), Some(n.loc@)))
            },
            None => None,
        },
        _ => None,
    }
}

/// The expressions of `s[i..]` after `acc`.
pub open spec fn lower_items(s: Seq<PbNode>, i: int, acc: Seq<ExprV>) -> Option<Seq<ExprV>>
    decreases s, s.len() - i,
{
    if i < 0 || i >= s.len() {
        Some(acc)
    } else {
        match lower(s[i]) {
            Some(e) => lower_items(s, i + 1, acc.push(e)),
            None => None,
        }
    }
}

/// The pieces of a string literal: its text chunks decoded, each a string
/// value at `l`, and its embedded expressions.
pub open spec fn lower_parts(s: Seq<StrPart>, i: int, acc: Seq<ExprV>, l: Option<LocView>) -> Option<Seq<ExprV>>
    decreases s, s.len() - i,
{
    if i < 0 || i >= s.len() {
        Some(acc)
    } else {
        match s[i] {
            StrPart::Chunk(c) => match decode(c@) {
                Some(t) => lower_parts(s, i + 1, acc.push(mk(TokV::Value(ValueV::Str(t)), l)), l),
                None => None,
            },
            StrPart::Embed(x) => match lower(x) {
                Some(e) => lower_parts(s, i + 1, acc.push(e), l),
                None => None,
            },
        }
    }
}

pub open spec fn lower_lets(s: Seq<LetBinding>, i: int, acc: Seq<(MatcherV, ExprV)>) -> Option<
    Seq<(MatcherV, ExprV)>,
>
    decreases s, s.len() - i,
{
    if i < 0 || i >= s.len() {
        Some(acc)
    } else {
        match (lower_matcher(s[i].matcher), lower(s[i].value)) {
            (Some(m), Some(e)) => lower_lets(s, i + 1, acc.push((m, e))),
            _ => None,
        }
    }
}

pub open spec fn lower_cases(s: Seq<SwitchCase>, i: int, acc: Seq<(ExprV, ExprV)>) -> Option<Seq<(ExprV, ExprV)>>
    decreases s, s.len() - i,
{
    if i < 0 || i >= s.len() {
        Some(acc)
    } else {
        match (lower(s[i].matcher), lower(s[i].value)) {
            (Some(m), Some(e)) => lower_cases(s, i + 1, acc.push((m, e))),
            _ => None,
        }
    }
}

/// The entries of assignments, a later one of a name replacing an earlier
/// one; `key;` alone takes the variable of that name.
pub open spec fn lower_assigns(s: Seq<Assignment>, i: int, acc: Seq<(Seq<char>, ExprV)>) -> Option<
    Seq<(Seq<char>, ExprV)>,
>
    decreases s, s.len() - i,
{
    if i < 0 || i >= s.len() {
        Some(acc)
    } else {
        match key_name(s[i].key) {
            Some(k) => match s[i].value {
                Some(v) => match lower(v) {
                    Some(e) => lower_assigns(s, i + 1, set_insert(acc, k, e)),
                    None => None,
                },
                None => lower_assigns(s, i + 1, set_insert(acc, k, mk(TokV::Var(k), Some(key_loc(s[i].key))))),
            },
            None => None,
        }
    }
}

pub open spec fn lower_matcher(m: Matcher) -> Option<MatcherV>
    decreases m, 2int,
{
    match m.kind {
        MatcherKind::Alias(inner, name, _) => match lower_matcher(*inner) {
            Some(x) => Some(MatcherV::Alias(Box::new(x), name@)),
            None => None,
        },
        MatcherKind::DontCare => Some(MatcherV::DontCare),
        MatcherKind::Ident(name) => Some(MatcherV::Ident(name@)),
        MatcherKind::Tuple(ms, _) => match lower_mitems(ms@, 0, Seq::empty()) {
            Some(x) => Some(MatcherV::Tuple(x)),
            None => None,
        },
        MatcherKind::Object { fields, exhaustive } => match lower_ofields(fields@, 0, Seq::empty()) {
            Some(x) => Some(MatcherV::Object(x, exhaustive)),
            None => None,
        },
    }
}

pub open spec fn lower_mitems(s: Seq<Matcher>, i: int, acc: Seq<MatcherV>) -> Option<Seq<MatcherV>>
    decreases s, s.len() - i,
{
    if i < 0 || i >= s.len() {
        Some(acc)
    } else {
        match lower_matcher(s[i]) {
            Some(m) => lower_mitems(s, i + 1, acc.push(m)),
            None => None,
        }
    }
}

/// The fields of an object matcher; a field with no matcher binds its key.
pub open spec fn lower_ofields(s: Seq<ObjectMatcher>, i: int, acc: Seq<(Seq<char>, MatcherV, Option<ExprV>)>) -> Option<
    Seq<(Seq<char>, MatcherV, Option<ExprV>)>,
>
    decreases s, s.len() - i,
{
    if i < 0 || i >= s.len() {
        Some(acc)
    } else {
        let f = s[i];
        let m = match f.matcher {
            Some(m) => lower_matcher(m),
            None => Some(MatcherV::Ident(f.key@)),
        };
        let d = match f.default {
            Some(d) => match lower(d) {
                Some(e) => Some(Some(e)),
                None => None,
            },
            None => Some(None),
        };
        match (m, d) {
            (Some(m), Some(d)) => lower_ofields(s, i + 1, acc.push((f.key@, m, d))),
            _ => None,
        }
    }
}


/* Executable lowering */

fn at(kind: ExprType, l: &Loc) -> (r: Expr)
    ensures
        r@ == mk(kind@, Some(l@)),
{
    kind.reref(Some(l.copy()))
}

fn lerr(msg: &str, l: &Loc) -> (e: Error)
    ensures
        e.typ == ErrorType::Parse,
{
    Error::new(ErrorType::Parse, copy_str(msg)).loc(l.start, l.end, &l.file)
}

/// `r` is what `want` says: the expression it names, or a parse error
/// where it names none.
pub open spec fn res_is(r: Result<Expr, Error>, want: Option<ExprV>) -> bool {
    match r {
        Ok(e) => want == Some(e@),
        Err(e) => want is None && e.typ == ErrorType::Parse,
    }
}

/// The expression that a node of the syntax tree stands for.
pub fn lower_node(n: &PbNode) -> (r: Result<Expr, Error>)
    ensures
        res_is(r, lower(*n)),
    decreases n, 2int,
{
    let l = &n.loc;
    match &n.kind {
        PbNodeKind::Group(x) => lower_node(x),
        PbNodeKind::Let(..) => lower_let_exec(n),
        PbNodeKind::Bind(..) => lower_bind_exec(n),
        PbNodeKind::FuncDef(..) => lower_funcdef_exec(n),
        PbNodeKind::Binary(..) => lower_binary_exec(n),
        PbNodeKind::Unary(..) => lower_unary_exec(n),
        PbNodeKind::FuncCall(..) => lower_call_exec(n),
        PbNodeKind::AttrSel(..) => lower_attr_exec(n),
        PbNodeKind::Fold { .. } => lower_fold_exec(n),
        PbNodeKind::Mapping { .. } => lower_map_exec(n),
        PbNodeKind::Switch { .. } => lower_switch_exec(n),
        PbNodeKind::Object(..) => lower_object_exec(n),
        PbNodeKind::List(..) => lower_list_exec(n),
        PbNodeKind::Tuple(..) => lower_list_exec(n),
        PbNodeKind::Bool(b) => Ok(at(ExprType::Value(Value::Bool(*b)), l)),
        PbNodeKind::Int(s) => match parse_int_lit(s.as_str()) {
            Some(v) => Ok(at(ExprType::Value(Value::Int(v)), l)),
            None => Err(lerr("invalid integer literal", l)),
        },
        PbNodeKind::String(..) => lower_string_exec(n),
        PbNodeKind::Var(s) => Ok(at(ExprType::Var(copy_str(s.as_str())), l)),
        PbNodeKind::Null => Ok(at(ExprType::Null, l)),
    }
}

fn lower_let_exec(n: &PbNode) -> (r: Result<Expr, Error>)
    requires
        n.kind is Let,
    ensures
        res_is(r, lower_let(*n)),
    decreases n, 1int,
{
    match &n.kind {
        PbNodeKind::Let(bs, body) => {
            let b = lower_lets_exec(bs)?;
            let e = lower_node(body)?;
            Ok(at(ExprType::Let(b, e), &n.loc))
        },
        _ => Err(lerr("", &n.loc)),
    }
}

fn lower_bind_exec(n: &PbNode) -> (r: Result<Expr, Error>)
    requires
        n.kind is Bind,
    ensures
        res_is(r, lower_bind(*n)),
    decreases n, 1int,
{
    match &n.kind {
        PbNodeKind::Bind(asg, body) => {
            let b = lower_assigns_exec(asg)?;
            let e = lower_node(body)?;
            Ok(at(ExprType::Bind(b, e), &n.loc))
        },
        _ => Err(lerr("", &n.loc)),
    }
}

fn lower_funcdef_exec(n: &PbNode) -> (r: Result<Expr, Error>)
    requires
        n.kind is FuncDef,
    ensures
        res_is(r, lower_funcdef(*n)),
    decreases n, 1int,
{
    let l = &n.loc;
    match &n.kind {
        PbNodeKind::FuncDef(ms, body) => {
            let mut m = lower_mitems_exec(ms)?;
            let e = lower_node(body)?;
            let ghost orig = matchers_v(m@);
            let mut cur = e;
            while m.len() > 0
                invariant
                    wrap_funcs(orig, e@, Some(l@)) == wrap_funcs(matchers_v(m@), cur@, Some(l@)),
                decreases m.len(),
            {
                let ghost old = m@;
                let last = m.pop().unwrap();
                proof {
                    assert(old.drop_last() =~= m@);
                    assert(matchers_v(old) == matchers_v(m@).push(last@));
                    assert(matchers_v(old).drop_last() =~= matchers_v(m@));
                }
                cur = at(ExprType::FuncDef(last, cur), l);
            }
            Ok(cur)
        },
        _ => Err(lerr("", l)),
    }
}

fn lower_binary_exec(n: &PbNode) -> (r: Result<Expr, Error>)
    requires
        n.kind is Binary,
    ensures
        res_is(r, lower_binary(*n)),
    decreases n, 1int,
{
    match &n.kind {
        PbNodeKind::Binary(op, a, b) => {
            let x = lower_node(a)?;
            let y = lower_node(b)?;
            Ok(at(ExprType::BinOp(binop_exec(*op), x, y), &n.loc))
        },
        _ => Err(lerr("", &n.loc)),
    }
}

fn lower_unary_exec(n: &PbNode) -> (r: Result<Expr, Error>)
    requires
        n.kind is Unary,
    ensures
        res_is(r, lower_unary(*n)),
    decreases n, 1int,
{
    match &n.kind {
        PbNodeKind::Unary(op, a) => {
            let x = lower_node(a)?;
            let o = match op {
                UnaryOp::Neg => ExprUnOp::Neg,
                UnaryOp::Not => ExprUnOp::Not,
            };
            Ok(at(ExprType::UnOp(o, x), &n.loc))
        },
        _ => Err(lerr("", &n.loc)),
    }
}

fn lower_call_exec(n: &PbNode) -> (r: Result<Expr, Error>)
    requires
        n.kind is FuncCall,
    ensures
        res_is(r, lower_call(*n)),
    decreases n, 1int,
{
    match &n.kind {
        PbNodeKind::FuncCall(f, a) => {
            let x = lower_node(f)?;
            let y = lower_node(a)?;
            Ok(at(ExprType::FuncCall(y, x), &n.loc))
        },
        _ => Err(lerr("", &n.loc)),
    }
}

fn lower_attr_exec(n: &PbNode) -> (r: Result<Expr, Error>)
    requires
        n.kind is AttrSel,
    ensures
        res_is(r, lower_attr(*n)),
    decreases n, 1int,
{
    match &n.kind {
        PbNodeKind::AttrSel(a, attr) => match attr {
            Attr::Ident(name, al) => {
                let x = lower_node(a)?;
                let y = at(ExprType::Value(Value::String(copy_str(name.as_str()))), al);
                Ok(at(ExprType::AttrSel(x, y), &n.loc))
            },
            Attr::Dynamic(b) => {
                let x = lower_node(a)?;
                let y = lower_node(b)?;
                Ok(at(ExprType::AttrSel(x, y), &n.loc))
            },
        },
        _ => Err(lerr("", &n.loc)),
    }
}

fn lower_fold_exec(n: &PbNode) -> (r: Result<Expr, Error>)
    requires
        n.kind is Fold,
    ensures
        res_is(r, lower_fold(*n)),
    decreases n, 1int,
{
    match &n.kind {
        PbNodeKind::Fold { func, init, input } => match init {
            Some(i) => {
                let f = lower_node(func)?;
                let x = lower_node(i)?;
                let y = lower_node(input)?;
                Ok(at(ExprType::Fold(f, x, y), &n.loc))
            },
            None => Err(lerr("a fold needs an initial value", &n.loc)),
        },
        _ => Err(lerr("", &n.loc)),
    }
}

fn lower_map_exec(n: &PbNode) -> (r: Result<Expr, Error>)
    requires
        n.kind is Mapping,
    ensures
        res_is(r, lower_map(*n)),
    decreases n, 1int,
{
    match &n.kind {
        PbNodeKind::Mapping { kind, func, input, filter } => {
            let f = lower_node(func)?;
            let x = lower_node(input)?;
            let g = match filter {
                Some(g) => Some(lower_node(g)?),
                None => None,
            };
            let k = match kind {
                MapKind::List => ExprMapType::List,
                MapKind::Object => ExprMapType::Object,
            };
            Ok(at(ExprType::Mapping(k, f, x, g), &n.loc))
        },
        _ => Err(lerr("", &n.loc)),
    }
}

fn lower_switch_exec(n: &PbNode) -> (r: Result<Expr, Error>)
    requires
        n.kind is Switch,
    ensures
        res_is(r, lower_switch(*n)),
    decreases n, 1int,
{
    match &n.kind {
        PbNodeKind::Switch { input, cases, default } => {
            let x = lower_node(input)?;
            let cs = lower_cases_exec(cases)?;
            let d = match default {
                Some(d) => Some(lower_node(d)?),
                None => None,
            };
            Ok(at(ExprType::Switch(x, cs, d), &n.loc))
        },
        _ => Err(lerr("", &n.loc)),
    }
}

fn lower_object_exec(n: &PbNode) -> (r: Result<Expr, Error>)
    requires
        n.kind is Object,
    ensures
        res_is(r, lower_object(*n)),
    decreases n, 1int,
{
    match &n.kind {
        PbNodeKind::Object(asg) => {
            let b = lower_assigns_exec(asg)?;
            Ok(at(ExprType::Object(b), &n.loc))
        },
        _ => Err(lerr("", &n.loc)),
    }
}

fn lower_list_exec(n: &PbNode) -> (r: Result<Expr, Error>)
    requires
        n.kind is List || n.kind is Tuple,
    ensures
        res_is(r, lower_list(*n)),
    decreases n, 1int,
{
    match &n.kind {
        PbNodeKind::List(items, _) => {
            let v = lower_items_exec(items)?;
            Ok(at(ExprType::List(v), &n.loc))
        },
        PbNodeKind::Tuple(items, _) => {
            let v = lower_items_exec(items)?;
            Ok(at(ExprType::Tuple(v), &n.loc))
        },
        _ => Err(lerr("", &n.loc)),
    }
}

fn lower_string_exec(n: &PbNode) -> (r: Result<Expr, Error>)
    requires
        n.kind is String,
    ensures
        res_is(r, lower_string(*n)),
    decreases n, 1int,
{
    let l = &n.loc;
    match &n.kind {
        PbNodeKind::String(parts) => {
            let mut ps = lower_parts_exec(parts, l)?;
            if ps.len() == 1 {
                let ghost old = ps@;
                let e = ps.pop().unwrap();
                proof {
                    assert(old.drop_last() =~= Seq::<Expr>::empty());
                    assert(exprs_v(old.drop_last()) == Seq::<ExprV>::empty());
                    assert(exprs_v(old) == exprs_v(old.drop_last()).push(old.last()@));
                    assert(exprs_v(old) =~= seq![e@]);
                }
                Ok(e)
            } else {
                proof {
                    crate::expr::lemma_exprs_v(ps@);
                }
                Ok(at(ExprType::Concat(ps), l))
            }
        },
        _ => Err(lerr("", l)),
    }
}

fn lower_items_exec(items: &Vec<PbNode>) -> (r: Result<Vec<Expr>, Error>)
    ensures
        match r {
            Ok(v) => lower_items(items@, 0, Seq::empty()) == Some(exprs_v(v@)),
            Err(e) => lower_items(items@, 0, Seq::empty()) is None && e.typ == ErrorType::Parse,
        },
    decreases items, 0int,
{
    let mut out: Vec<Expr> = Vec::new();
    let mut i: usize = 0;
    while i < items.len()
        invariant
            i <= items.len(),
            lower_items(items@, 0, Seq::empty()) == lower_items(items@, i as int, exprs_v(out@)),
        decreases items.len() - i,
    {
        let e = lower_node(&items[i])?;
        let ghost old = out@;
        out.push(e);
        proof {
            assert(out@.drop_last() =~= old);
        }
        i = i + 1;
    }
    Ok(out)
}

fn lower_parts_exec(parts: &Vec<StrPart>, l: &Loc) -> (r: Result<Vec<Expr>, Error>)
    ensures
        match r {
            Ok(v) => lower_parts(parts@, 0, Seq::empty(), Some(l@)) == Some(exprs_v(v@)),
            Err(e) => lower_parts(parts@, 0, Seq::empty(), Some(l@)) is None && e.typ == ErrorType::Parse,
        },
    decreases parts, 0int,
{
    let mut out: Vec<Expr> = Vec::new();
    let mut i: usize = 0;
    while i < parts.len()
        invariant
            i <= parts.len(),
            lower_parts(parts@, 0, Seq::empty(), Some(l@)) == lower_parts(parts@, i as int, exprs_v(out@), Some(l@)),
        decreases parts.len() - i,
    {
        let e = match &parts[i] {
            StrPart::Chunk(c) => match decode_str(c.as_str()) {
                Some(t) => at(ExprType::Value(Value::String(t)), l),
                None => {
                    return Err(lerr("invalid escape in string", l));
                },
            },
            StrPart::Embed(x) => lower_node(x)?,
        };
        let ghost old = out@;
        out.push(e);
        proof {
            assert(out@.drop_last() =~= old);
        }
        i = i + 1;
    }
    Ok(out)
}

fn lower_lets_exec(bs: &Vec<LetBinding>) -> (r: Result<Vec<(EMatcher, Expr)>, Error>)
    ensures
        match r {
            Ok(v) => lower_lets(bs@, 0, Seq::empty()) == Some(lets_v(v@)),
            Err(e) => lower_lets(bs@, 0, Seq::empty()) is None && e.typ == ErrorType::Parse,
        },
    decreases bs, 0int,
{
    let mut out: Vec<(EMatcher, Expr)> = Vec::new();
    let mut i: usize = 0;
    while i < bs.len()
        invariant
            i <= bs.len(),
            lower_lets(bs@, 0, Seq::empty()) == lower_lets(bs@, i as int, lets_v(out@)),
        decreases bs.len() - i,
    {
        let m = lower_matcher_exec(&bs[i].matcher)?;
        let e = lower_node(&bs[i].value)?;
        let ghost old = out@;
        out.push((m, e));
        proof {
            assert(out@.drop_last() =~= old);
        }
        i = i + 1;
    }
    Ok(out)
}

fn lower_cases_exec(cs: &Vec<SwitchCase>) -> (r: Result<Vec<(Expr, Expr)>, Error>)
    ensures
        match r {
            Ok(v) => lower_cases(cs@, 0, Seq::empty()) == Some(cases_v(v@)),
            Err(e) => lower_cases(cs@, 0, Seq::empty()) is None && e.typ == ErrorType::Parse,
        },
    decreases cs, 0int,
{
    let mut out: Vec<(Expr, Expr)> = Vec::new();
    let mut i: usize = 0;
    while i < cs.len()
        invariant
            i <= cs.len(),
            lower_cases(cs@, 0, Seq::empty()) == lower_cases(cs@, i as int, cases_v(out@)),
        decreases cs.len() - i,
    {
        let m = lower_node(&cs[i].matcher)?;
        let e = lower_node(&cs[i].value)?;
        let ghost old = out@;
        out.push((m, e));
        proof {
            assert(out@.drop_last() =~= old);
        }
        i = i + 1;
    }
    Ok(out)
}

/// The raw text of string chunks, joined.
fn join_chunks(chunks: &Vec<String>) -> (r: String)
    ensures
        r@ == chunks_text(chunks@),
{
    let mut out = String::new();
    let mut i: usize = 0;
    while i < chunks.len()
        invariant
            i <= chunks.len(),
            out@ == chunks_text(chunks@.subrange(0, i as int)),
        decreases chunks.len() - i,
    {
        proof {
            assert(chunks@.subrange(0, i + 1).drop_last() =~= chunks@.subrange(0, i as int));
        }
        push_str(&mut out, chunks[i].as_str());
        i = i + 1;
    }
    proof {
        assert(chunks@.subrange(0, chunks.len() as int) =~= chunks@);
    }
    out
}

fn lower_assigns_exec(asg: &Vec<Assignment>) -> (r: Result<Vec<(String, Expr)>, Error>)
    ensures
        match r {
            Ok(v) => lower_assigns(asg@, 0, Seq::empty()) == Some(set_v(v@)),
            Err(e) => lower_assigns(asg@, 0, Seq::empty()) is None && e.typ == ErrorType::Parse,
        },
    decreases asg, 0int,
{
    let mut out: Vec<(String, Expr)> = Vec::new();
    let mut i: usize = 0;
    while i < asg.len()
        invariant
            i <= asg.len(),
            lower_assigns(asg@, 0, Seq::empty()) == lower_assigns(asg@, i as int, set_v(out@)),
        decreases asg.len() - i,
    {
        let a = &asg[i];
        let (k, kl) = match &a.key {
            Key::Ident(s, kl) => (copy_str(s.as_str()), kl),
            Key::String(chunks, kl) => {
                let raw = join_chunks(chunks);
                match decode_str(raw.as_str()) {
                    Some(t) => (t, kl),
                    None => {
                        return Err(lerr("invalid escape in key", kl));
                    },
                }
            },
        };
        let e = match &a.value {
            Some(v) => lower_node(v)?,
            None => at(ExprType::Var(copy_str(k.as_str())), kl),
        };
        set_insert_exec(&mut out, k, e);
        i = i + 1;
    }
    Ok(out)
}

/// The pattern that a matcher of the syntax tree stands for.
pub fn lower_matcher_exec(m: &Matcher) -> (r: Result<EMatcher, Error>)
    ensures
        match r {
            Ok(x) => lower_matcher(*m) == Some(x@),
            Err(e) => lower_matcher(*m) is None && e.typ == ErrorType::Parse,
        },
    decreases m, 2int,
{
    match &m.kind {
        MatcherKind::Alias(inner, name, _) => {
            let x = lower_matcher_exec(inner)?;
            Ok(EMatcher::Alias(Box::new(x), copy_str(name.as_str())))
        },
        MatcherKind::DontCare => Ok(EMatcher::DontCare),
        MatcherKind::Ident(name) => Ok(EMatcher::Ident(copy_str(name.as_str()))),
        MatcherKind::Tuple(ms, _) => {
            let v = lower_mitems_exec(ms)?;
            Ok(EMatcher::Tuple(v))
        },
        MatcherKind::Object { fields, exhaustive } => {
            let v = lower_ofields_exec(fields)?;
            Ok(EMatcher::Object(v, *exhaustive))
        },
    }
}

fn lower_mitems_exec(ms: &Vec<Matcher>) -> (r: Result<Vec<EMatcher>, Error>)
    ensures
        match r {
            Ok(v) => lower_mitems(ms@, 0, Seq::empty()) == Some(matchers_v(v@)),
            Err(e) => lower_mitems(ms@, 0, Seq::empty()) is None && e.typ == ErrorType::Parse,
        },
    decreases ms, 0int,
{
    let mut out: Vec<EMatcher> = Vec::new();
    let mut i: usize = 0;
    while i < ms.len()
        invariant
            i <= ms.len(),
            lower_mitems(ms@, 0, Seq::empty()) == lower_mitems(ms@, i as int, matchers_v(out@)),
        decreases ms.len() - i,
    {
        let m = lower_matcher_exec(&ms[i])?;
        let ghost old = out@;
        out.push(m);
        proof {
            assert(out@.drop_last() =~= old);
        }
        i = i + 1;
    }
    Ok(out)
}

fn lower_ofields_exec(fs: &Vec<ObjectMatcher>) -> (r: Result<Vec<(String, EMatcher, Option<Expr>)>, Error>)
    ensures
        match r {
            Ok(v) => lower_ofields(fs@, 0, Seq::empty()) == Some(omatch_v(v@)),
            Err(e) => lower_ofields(fs@, 0, Seq::empty()) is None && e.typ == ErrorType::Parse,
        },
    decreases fs, 0int,
{
    let mut out: Vec<(String, EMatcher, Option<Expr>)> = Vec::new();
    let mut i: usize = 0;
    while i < fs.len()
        invariant
            i <= fs.len(),
            lower_ofields(fs@, 0, Seq::empty()) == lower_ofields(fs@, i as int, omatch_v(out@)),
        decreases fs.len() - i,
    {
        let f = &fs[i];
        let m = match &f.matcher {
            Some(m) => lower_matcher_exec(m)?,
            None => EMatcher::Ident(copy_str(f.key.as_str())),
        };
        let d = match &f.default {
            Some(d) => Some(lower_node(d)?),
            None => None,
        };
        let ghost old = out@;
        let k = copy_str(f.key.as_str());
        out.push((k, m, d));
        proof {
            assert(out@.drop_last() =~= old);
            assert(omatch_v(out@) == omatch_v(old).push((f.key@, m@, opt_v(d))));
            assert(lower_ofields(fs@, i as int, omatch_v(old)) == lower_ofields(fs@, i + 1, omatch_v(out@)));
        }
        i = i + 1;
    }
    Ok(out)
}

} // verus!
