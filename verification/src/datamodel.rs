//! The plain data model: objects of named fields, integers and strings,
//! read from a small literal syntax (`{ name = value; ... }`) and looked up
//! by field name or by a path of field names.

use vstd::prelude::*;
use crate::eval::lemma_first_not_before;
use crate::lexer::{lex, lexed, lex_spec, descs, Tok, Token, TokKind, LexErrV};
use crate::lower::{decode, decode_str, int_lit, parse_int_lit};
use crate::text::{copy_str, seq_lt, sorted_pos, str_eq, str_lt};

verus! {

/// Why a lookup failed.
#[derive(Debug, PartialEq)]
pub enum Error {
    ResolvError(String),
}

impl Error {
    /// The message the error carries.
    pub open spec fn message(&self) -> Seq<char> {
        match self {
            Error::ResolvError(m) => m@,
        }
    }
}

/// A value of the data model. The fields of an object are kept sorted by
/// name, no name twice.
#[derive(Debug, PartialEq)]
pub enum Expr {
    Object(Vec<(String, Expr)>),
    Int(i64),
    String(String),
    FuncDefIdent(String, Box<Expr>),
    FuncDefPattern(Vec<String>, Box<Expr>),
    FuncCall(String, Box<Expr>),
}

/// The mathematical value of an `Expr`.
pub enum DataV {
    Object(Seq<(Seq<char>, DataV)>),
    Int(i64),
    String(Seq<char>),
    FuncDefIdent(Seq<char>, Box<DataV>),
    FuncDefPattern(Seq<Seq<char>>, Box<DataV>),
    FuncCall(Seq<char>, Box<DataV>),
}

pub open spec fn fields_v(s: Seq<(String, Expr)>) -> Seq<(Seq<char>, DataV)>
    decreases s,
{
    if s.len() == 0 {
        Seq::empty()
    } else {
        fields_v(s.drop_last()).push((s.last().0@, s.last().1.view_rec()))
    }
}

impl Expr {
    pub open spec fn view_rec(&self) -> DataV
        decreases self,
    {
        match self {
            Expr::Object(fs) => DataV::Object(fields_v(fs@)),
            Expr::Int(i) => DataV::Int(*i),
            Expr::String(s) => DataV::String(s@),
            Expr::FuncDefIdent(n, b) => DataV::FuncDefIdent(n@, Box::new(b.view_rec())),
            Expr::FuncDefPattern(ns, b) => DataV::FuncDefPattern(ns.deep_view(), Box::new(b.view_rec())),
            Expr::FuncCall(n, b) => DataV::FuncCall(n@, Box::new(b.view_rec())),
        }
    }
}

impl View for Expr {
    type V = DataV;

    open spec fn view(&self) -> DataV {
        self.view_rec()
    }
}

proof fn lemma_fields_v(s: Seq<(String, Expr)>)
    ensures
        fields_v(s) == s.map_values(|p: (String, Expr)| (p.0@, p.1@)),
    decreases s.len(),
{
    if s.len() > 0 {
        lemma_fields_v(s.drop_last());
        assert(s.map_values(|p: (String, Expr)| (p.0@, p.1@)) =~= s.drop_last().map_values(
            |p: (String, Expr)| (p.0@, p.1@),
        ).push((s.last().0@, s.last().1@)));
    } else {
        assert(s.map_values(|p: (String, Expr)| (p.0@, p.1@)) =~= Seq::<(Seq<char>, DataV)>::empty());
    }
}

/* Fields of an object */

pub open spec fn field_names(s: Seq<(Seq<char>, DataV)>) -> Seq<Seq<char>> {
    s.map_values(|p: (Seq<char>, DataV)| p.0)
}

/// The index of the first field named `k`, or -1.
pub open spec fn field_find(s: Seq<(Seq<char>, DataV)>, k: Seq<char>) -> int
    decreases s.len(),
{
    if s.len() == 0 {
        -1
    } else if s[0].0 == k {
        0
    } else {
        let r = field_find(s.drop_first(), k);
        if r < 0 { -1 } else { r + 1 }
    }
}

/// `s` with the field `k` set to `v`: a field named `k` is replaced,
/// otherwise a new one goes in before the first name that does not sort
/// before `k`.
pub open spec fn field_insert(s: Seq<(Seq<char>, DataV)>, k: Seq<char>, v: DataV) -> Seq<(Seq<char>, DataV)> {
    let i = field_find(s, k);
    if i >= 0 {
        s.update(i, (k, v))
    } else {
        s.insert(sorted_pos(field_names(s), k), (k, v))
    }
}

proof fn lemma_field_find(s: Seq<(Seq<char>, DataV)>, k: Seq<char>)
    ensures
        -1 <= field_find(s, k) < s.len(),
        field_find(s, k) >= 0 ==> s[field_find(s, k)].0 == k,
        forall|j: int| 0 <= j < s.len() && (field_find(s, k) < 0 || j < field_find(s, k)) ==> s[j].0 != k,
    decreases s.len(),
{
    if s.len() > 0 && s[0].0 != k {
        lemma_field_find(s.drop_first(), k);
        assert forall|j: int| 0 <= j < s.len() && (field_find(s, k) < 0 || j < field_find(s, k)) implies s[j].0
            != k by {
            if j > 0 {
                assert(s[j] == s.drop_first()[j - 1]);
            }
        }
    }
}

/// The field `k` of the value `v`.
pub open spec fn item_of(v: DataV, k: Seq<char>) -> Result<DataV, Seq<char>> {
    match v {
        DataV::Object(fs) => {
            let i = field_find(fs, k);
            if i >= 0 {
                Ok(fs[i].1)
            } else {
                Err("field not found"@)
            }
        },
        _ => Err("get_item resolving"@),
    }
}

/// The value reached from `v` by following the field names of `path`.
pub open spec fn path_of(v: DataV, path: Seq<Seq<char>>) -> Result<DataV, Seq<char>>
    decreases path.len(),
{
    if path.len() == 0 {
        Ok(v)
    } else {
        match path_of(v, path.drop_last()) {
            Ok(c) => item_of(c, path.last()),
            Err(m) => Err(m),
        }
    }
}

impl Expr {
    /// The field named `item` of this object.
    pub fn get_item(&self, item: &str) -> (r: Result<&Expr, Error>)
        ensures
            match r {
                Ok(e) => item_of(self@, item@) == Ok::<DataV, Seq<char>>(e@),
                Err(x) => item_of(self@, item@) == Err::<DataV, Seq<char>>(x.message()),
            },
    {
        match self {
            Expr::Object(fields) => {
                proof {
                    lemma_fields_v(fields@);
                    lemma_field_find(fields_v(fields@), item@);
                }
                let ghost fv = fields_v(fields@);
                assert(self@ == DataV::Object(fv));
                let mut i: usize = 0;
                while i < fields.len()
                    invariant
                        i <= fields@.len(),
                        self@ == DataV::Object(fv),
                        fv == fields@.map_values(|p: (String, Expr)| (p.0@, p.1@)),
                        forall|j: int| 0 <= j < i ==> fv[j].0 != item@,
                        -1 <= field_find(fv, item@) < fv.len(),
                        field_find(fv, item@) >= 0 ==> fv[field_find(fv, item@)].0 == item@,
                        forall|j: int|
                            0 <= j < fv.len() && (field_find(fv, item@) < 0 || j < field_find(fv, item@)) ==> fv[j].0
                                != item@,
                    decreases fields.len() - i,
                {
                    if str_eq(fields[i].0.as_str(), item) {
                        assert(fv[i as int].0 == item@);
                        assert(field_find(fv, item@) == i);
                        assert(fv[i as int].1 == fields@[i as int].1@);
                        assert(self@ == DataV::Object(fv));
                        return Ok(&fields[i].1);
                    }
                    i = i + 1;
                }
                Err(Error::ResolvError(copy_str("field not found")))
            },
            _ => Err(Error::ResolvError(copy_str("get_item resolving"))),
        }
    }

    /// The value reached by following the field names of `path` in turn.
    pub fn get_path(&self, path: &[&str]) -> (r: Result<&Expr, Error>)
        ensures
            match r {
                Ok(e) => path_of(self@, path@.map_values(|s: &str| s@)) == Ok::<DataV, Seq<char>>(e@),
                Err(x) => path_of(self@, path@.map_values(|s: &str| s@)) == Err::<DataV, Seq<char>>(x.message()),
            },
    {
        let ghost pv = path@.map_values(|s: &str| s@);
        let mut cur: &Expr = self;
        let mut i: usize = 0;
        proof {
            assert(pv.take(0) =~= Seq::<Seq<char>>::empty());
        }
        while i < path.len()
            invariant
                i <= path@.len(),
                pv == path@.map_values(|s: &str| s@),
                path_of(self@, pv.take(i as int)) == Ok::<DataV, Seq<char>>(cur@),
            decreases path.len() - i,
        {
            proof {
                assert(pv.take(i + 1).drop_last() =~= pv.take(i as int));
                assert(pv.take(i + 1).last() == path@[i as int]@);
            }
            match cur.get_item(path[i]) {
                Ok(next) => {
                    cur = next;
                },
                Err(e) => {
                    proof {
                        lemma_path_err_stays(self@, pv, i as int + 1);
                    }
                    return Err(e);
                },
            }
            i = i + 1;
        }
        proof {
            assert(pv.take(path@.len() as int) =~= pv);
        }
        Ok(cur)
    }
}

/// Once a path fails, every longer path fails with the same message.
proof fn lemma_path_err_stays(v: DataV, path: Seq<Seq<char>>, i: int)
    requires
        0 <= i <= path.len(),
        path_of(v, path.take(i)) is Err,
    ensures
        path_of(v, path) == path_of(v, path.take(i)),
    decreases path.len() - i,
{
    if i < path.len() {
        assert(path.take(i + 1).drop_last() =~= path.take(i));
        lemma_path_err_stays(v, path, i + 1);
    } else {
        assert(path.take(i) =~= path);
    }
}

/* Reading the literal syntax */

/// The kinds of the tokens, in order.
pub open spec fn toks_of(t: Seq<Token>) -> Seq<Tok> {
    t.map_values(|x: Token| x.tok)
}

/// A value starting at token `p`, and the position after it: an object
/// `{ name = value; ... }`, an integer, or a string without embedded
/// expressions.
pub open spec fn dm_expr(t: Seq<Tok>, p: int) -> Option<(DataV, int)>
    decreases t.len() - p, 1int,
{
    if p < 0 || p >= t.len() {
        None
    } else {
        match t[p] {
            Tok::LBrace => match dm_fields(t, p + 1, Seq::empty()) {
                Some((fs, q)) => Some((DataV::Object(fs), q)),
                None => None,
            },
            Tok::Number(n) => match int_lit(n@) {
                Some(v) => Some((DataV::Int(v), p + 1)),
                None => None,
            },
            Tok::StringQuote => dm_string(t, p),
            _ => None,
        }
    }
}

/// A string literal starting at token `p`.
pub open spec fn dm_string(t: Seq<Tok>, p: int) -> Option<(DataV, int)> {
    if p + 1 < t.len() && t[p + 1] == Tok::StringQuote {
        Some((DataV::String(Seq::empty()), p + 2))
    } else if p + 2 < t.len() && t[p + 2] == Tok::StringQuote {
        match t[p + 1] {
            Tok::StringChunk(c) => match decode(c@) {
                Some(s) => Some((DataV::String(s), p + 3)),
                None => None,
            },
            _ => None,
        }
    } else {
        None
    }
}

/// The fields of an object from token `p` up to and including its closing
/// brace, set in turn into `acc`.
pub open spec fn dm_fields(t: Seq<Tok>, p: int, acc: Seq<(Seq<char>, DataV)>) -> Option<(Seq<(Seq<char>, DataV)>, int)>
    decreases t.len() - p, 0int,
{
    if p < 0 || p >= t.len() {
        None
    } else if t[p] == Tok::RBrace {
        Some((acc, p + 1))
    } else {
        match t[p] {
            Tok::Ident(n) => if p + 1 < t.len() && t[p + 1] == Tok::Assign {
                match dm_expr(t, p + 2) {
                    Some((v, q)) => if p < q < t.len() && t[q] == Tok::SemiColon {
                        dm_fields(t, q + 1, field_insert(acc, n@, v))
                    } else {
                        None
                    },
                    None => None,
                }
            } else {
                None
            },
            _ => None,
        }
    }
}

/// A whole source: one value and nothing after it.
pub open spec fn dm_entry(t: Seq<Tok>) -> Option<DataV> {
    match dm_expr(t, 0) {
        Some((v, q)) => if q == t.len() { Some(v) } else { None },
        None => None,
    }
}

fn field_insert_exec(s: &mut Vec<(String, Expr)>, k: String, v: Expr)
    ensures
        fields_v(final(s)@) == field_insert(fields_v(old(s)@), k@, v@),
{
    proof {
        lemma_fields_v(old(s)@);
    }
    let ghost sv = fields_v(s@);
    proof {
        lemma_field_find(sv, k@);
    }
    let mut i: usize = 0;
    while i < s.len()
        invariant
            i <= s@.len(),
            s@ == old(s)@,
            sv == fields_v(old(s)@),
            sv == s@.map_values(|p: (String, Expr)| (p.0@, p.1@)),
            forall|j: int| 0 <= j < i ==> sv[j].0 != k@,
            -1 <= field_find(sv, k@) < sv.len(),
            field_find(sv, k@) >= 0 ==> sv[field_find(sv, k@)].0 == k@,
            forall|j: int| 0 <= j < sv.len() && (field_find(sv, k@) < 0 || j < field_find(sv, k@)) ==> sv[j].0 != k@,
        decreases s.len() - i,
    {
        if str_eq(s[i].0.as_str(), k.as_str()) {
            assert(sv[i as int].0 == k@);
            assert(field_find(sv, k@) == i);
            let ghost kv = k@;
            let ghost vv = v@;
            s.set(i, (k, v));
            proof {
                lemma_fields_v(s@);
                assert(fields_v(s@) =~= sv.update(i as int, (kv, vv)));
                assert(sv == fields_v(old(s)@));
                assert(fields_v(s@) == field_insert(sv, kv, vv));
            }
            return;
        }
        i = i + 1;
    }
    assert(field_find(sv, k@) < 0);
    let ghost keys = field_names(sv);
    let mut p: usize = 0;
    while p < s.len() && str_lt(s[p].0.as_str(), k.as_str())
        invariant
            p <= s@.len(),
            s@ == old(s)@,
            sv == fields_v(old(s)@),
            sv == s@.map_values(|e: (String, Expr)| (e.0@, e.1@)),
            keys == field_names(sv),
            forall|j: int| 0 <= j < p ==> seq_lt(#[trigger] keys[j], k@),
        decreases s.len() - p,
    {
        assert(keys[p as int] == s@[p as int].0@);
        p = p + 1;
    }
    proof {
        if p < s@.len() {
            assert(keys[p as int] == s@[p as int].0@);
        }
        lemma_first_not_before(keys, k@, p as int);
    }
    let ghost kv = k@;
    let ghost vv = v@;
    s.insert(p, (k, v));
    proof {
        lemma_fields_v(s@);
        assert(fields_v(s@) =~= sv.insert(p as int, (kv, vv)));
    }
}

fn dm_string_exec(t: &Vec<Token>, p: usize) -> (r: Option<(Expr, usize)>)
    requires
        p < t@.len(),
    ensures
        match r {
            Some((e, q)) => dm_string(toks_of(t@), p as int) == Some((e@, q as int)) && p < q <= t@.len(),
            None => dm_string(toks_of(t@), p as int) is None,
        },
{
    let ghost tv = toks_of(t@);
    if t.len() - p > 1 && matches!(t[p + 1].tok, Tok::StringQuote) {
        assert(tv[p + 1] == t@[p + 1].tok);
        let e = Expr::String(String::new());
        proof {
            assert(e@ == DataV::String(Seq::empty()));
        }
        return Some((e, p + 2));
    }
    assert(tv.len() == t@.len());
    if t.len() - p > 2 && matches!(t[p + 2].tok, Tok::StringQuote) {
        assert(tv[p + 1] == t@[p + 1].tok);
        assert(tv[p + 2] == t@[p + 2].tok);
        match &t[p + 1].tok {
            Tok::StringChunk(c) => match decode_str(c.as_str()) {
                Some(s) => {
                    return Some((Expr::String(s), p + 3));
                },
                None => {
                    return None;
                },
            },
            _ => {
                return None;
            },
        }
    }
    if t.len() - p > 1 {
        assert(tv[p + 1] == t@[p + 1].tok);
    }
    None
}

fn dm_expr_exec(t: &Vec<Token>, p: usize) -> (r: Option<(Expr, usize)>)
    ensures
        match r {
            Some((e, q)) => dm_expr(toks_of(t@), p as int) == Some((e@, q as int)) && p < q <= t@.len(),
            None => dm_expr(toks_of(t@), p as int) is None,
        },
    decreases t@.len() - p, 1int,
{
    let ghost tv = toks_of(t@);
    if p >= t.len() {
        return None;
    }
    assert(tv[p as int] == t@[p as int].tok);
    match &t[p].tok {
        Tok::LBrace => {
            let acc: Vec<(String, Expr)> = Vec::new();
            proof {
                assert(fields_v(acc@) =~= Seq::<(Seq<char>, DataV)>::empty());
            }
            match dm_fields_exec(t, p + 1, acc) {
                Some((fs, q)) => {
                    let e = Expr::Object(fs);
                    Some((e, q))
                },
                None => None,
            }
        },
        Tok::Number(n) => match parse_int_lit(n.as_str()) {
            Some(v) => Some((Expr::Int(v), p + 1)),
            None => None,
        },
        Tok::StringQuote => dm_string_exec(t, p),
        _ => None,
    }
}

fn dm_fields_exec(t: &Vec<Token>, p: usize, acc: Vec<(String, Expr)>) -> (r: Option<(Vec<(String, Expr)>, usize)>)
    ensures
        match r {
            Some((fs, q)) => dm_fields(toks_of(t@), p as int, fields_v(acc@)) == Some((fields_v(fs@), q as int)) && p
                < q <= t@.len(),
            None => dm_fields(toks_of(t@), p as int, fields_v(acc@)) is None,
        },
    decreases t@.len() - p, 0int,
{
    let ghost tv = toks_of(t@);
    if p >= t.len() {
        return None;
    }
    assert(tv[p as int] == t@[p as int].tok);
    if matches!(t[p].tok, Tok::RBrace) {
        return Some((acc, p + 1));
    }
    match &t[p].tok {
        Tok::Ident(n) => {
            if t.len() - p > 1 && matches!(t[p + 1].tok, Tok::Assign) {
                assert(tv[p + 1] == t@[p + 1].tok);
                match dm_expr_exec(t, p + 2) {
                    Some((v, q)) => {
                        if q < t.len() && matches!(t[q].tok, Tok::SemiColon) {
                            assert(tv[q as int] == t@[q as int].tok);
                            let mut acc = acc;
                            let name = n.clone();
                            field_insert_exec(&mut acc, name, v);
                            dm_fields_exec(t, q + 1, acc)
                        } else {
                            if q < t.len() {
                                assert(tv[q as int] == t@[q as int].tok);
                            }
                            None
                        }
                    },
                    None => None,
                }
            } else {
                if t.len() - p > 1 {
                    assert(tv[p + 1] == t@[p + 1].tok);
                }
                None
            }
        },
        _ => None,
    }
}

/// Reads values of the data model from their literal syntax.
pub struct DnjParser;

impl DnjParser {
    /// Reads `code` as one value: an object `{ name = value; ... }` (a
    /// name given twice keeps its last value), an integer, or a string.
    pub fn parse_str(code: &str) -> (r: Result<Expr, String>)
        ensures
            match r {
                Ok(e) => exists|toks: Seq<Token>|
                    #[trigger] lexed(code@, toks) && lex_spec(code@) == Ok::<Seq<(TokKind, int, int)>, LexErrV>(descs(toks))
                        && dm_entry(toks_of(toks)) == Some(e@),
                Err(m) => (lex_spec(code@) matches Err(le) && m@ == le.0) || exists|toks: Seq<Token>|
                    #[trigger] lexed(code@, toks) && lex_spec(code@) == Ok::<Seq<(TokKind, int, int)>, LexErrV>(descs(toks))
                        && dm_entry(toks_of(toks)) is None,
            },
    {
        let toks = match lex(code) {
            Ok(t) => t,
            Err(le) => {
                return Err(le.message);
            },
        };
        assert(lexed(code@, toks@));
        match dm_expr_exec(&toks, 0) {
            Some((e, q)) => {
                if q == toks.len() {
                    assert(lexed(code@, toks@));
                    Ok(e)
                } else {
                    assert(dm_entry(toks_of(toks@)) is None);
                    Err(copy_str("unexpected token after the value"))
                }
            },
            None => {
                assert(dm_entry(toks_of(toks@)) is None);
                Err(copy_str("not a value"))
            },
        }
    }
}

} // verus!
