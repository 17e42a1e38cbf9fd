use vstd::prelude::*;
use crate::error::{Loc, LocView, opt_loc_view, copy_loc};
use crate::path::VirtPath;
use crate::pbbuild::{PbBuildRule, RuleV};
use crate::text::{copy_str, push_str, push_char, str_eq, is_valid_new_name};
use crate::value::{Value, ValueV};

verus! {

/// A binary operator of the language.
#[derive(Debug, PartialEq, Eq, Copy, Clone, Structural)]
pub enum ExprBinOp {
    HasAttr,
    ListConcat,
    Mult,
    Div,
    Sub,
    Add,
    Update,
    Lt,
    Le,
    Gt,
    Ge,
    Eq,
    Neq,
    LogAnd,
    LogOr,
    LogImpl,
}

/// A unary operator of the language.
#[derive(Debug, PartialEq, Eq, Copy, Clone, Structural)]
pub enum ExprUnOp {
    Neg,
    Not,
}

/// What a map expression builds: a list or an object.
#[derive(Debug, PartialEq, Eq, Copy, Clone, Structural)]
pub enum ExprMapType {
    List,
    Object,
}

/// A function provided by the build system itself.
#[derive(Debug)]
pub enum Builtin {
    PbLock,
    PbRule,
    PbBuild(PbBuildRule),
    PbTranslate,
    PbRebase,
    OpsTranspose,
    OpsTransposeObjs,
    DbgTrace,
    DbgBreak,
}

/// An expression node: what it is and where it was written.
#[derive(Debug)]
pub struct ExprStorage {
    pub tok: ExprType,
    pub loc: Option<Loc>,
}

/// An expression of the language.
#[derive(Debug)]
pub struct Expr(pub Box<ExprStorage>);

/// The kinds of expression. Objects and variable spaces are lists of
/// named entries kept sorted by name, without repeated names.
#[derive(Debug)]
pub enum ExprType {
    Object(Vec<(String, Expr)>),
    List(Vec<Expr>),
    Tuple(Vec<Expr>),
    Concat(Vec<Expr>),
    AttrSel(Expr, Expr),
    Value(Value),
    Var(String),
    UnOp(ExprUnOp, Expr),
    BinOp(ExprBinOp, Expr, Expr),
    FuncDef(Matcher, Expr),
    FuncDefBuiltin(Builtin),
    Let(Vec<(Matcher, Expr)>, Expr),
    Fold(Expr, Expr, Expr),
    Mapping(ExprMapType, Expr, Expr, Option<Expr>),
    FuncCall(Expr, Expr),
    Bind(Vec<(String, Expr)>, Expr),
    Switch(Expr, Vec<(Expr, Expr)>, Option<Expr>),
    Null,
}

/// A pattern that a function argument or a `let` binding is matched
/// against.
#[derive(Debug)]
pub enum Matcher {
    Alias(Box<Matcher>, String),
    DontCare,
    Ident(String),
    Tuple(Vec<Matcher>),
    Object(Vec<(String, Matcher, Option<Expr>)>, bool),
}

/* Models */

pub enum BuiltinV {
    PbLock,
    PbRule,
    PbBuild(RuleV),
    PbTranslate,
    PbRebase,
    OpsTranspose,
    OpsTransposeObjs,
    DbgTrace,
    DbgBreak,
}

pub struct ExprV {
    pub tok: TokV,
    pub loc: Option<LocView>,
}

pub enum TokV {
    Object(Seq<(Seq<char>, ExprV)>),
    List(Seq<ExprV>),
    Tuple(Seq<ExprV>),
    Concat(Seq<ExprV>),
    AttrSel(Box<ExprV>, Box<ExprV>),
    Value(ValueV),
    Var(Seq<char>),
    UnOp(ExprUnOp, Box<ExprV>),
    BinOp(ExprBinOp, Box<ExprV>, Box<ExprV>),
    FuncDef(MatcherV, Box<ExprV>),
    FuncDefBuiltin(BuiltinV),
    Let(Seq<(MatcherV, ExprV)>, Box<ExprV>),
    Fold(Box<ExprV>, Box<ExprV>, Box<ExprV>),
    Mapping(ExprMapType, Box<ExprV>, Box<ExprV>, Option<Box<ExprV>>),
    FuncCall(Box<ExprV>, Box<ExprV>),
    Bind(Seq<(Seq<char>, ExprV)>, Box<ExprV>),
    Switch(Box<ExprV>, Seq<(ExprV, ExprV)>, Option<Box<ExprV>>),
    Null,
}

pub enum MatcherV {
    Alias(Box<MatcherV>, Seq<char>),
    DontCare,
    Ident(Seq<char>),
    Tuple(Seq<MatcherV>),
    Object(Seq<(Seq<char>, MatcherV, Option<ExprV>)>, bool),
}

impl View for Builtin {
    type V = BuiltinV;

    open spec fn view(&self) -> BuiltinV {
        match self {
            Builtin::PbLock => BuiltinV::PbLock,
            Builtin::PbRule => BuiltinV::PbRule,
            Builtin::PbBuild(r) => BuiltinV::PbBuild(r@),
            Builtin::PbTranslate => BuiltinV::PbTranslate,
            Builtin::PbRebase => BuiltinV::PbRebase,
            Builtin::OpsTranspose => BuiltinV::OpsTranspose,
            Builtin::OpsTransposeObjs => BuiltinV::OpsTransposeObjs,
            Builtin::DbgTrace => BuiltinV::DbgTrace,
            Builtin::DbgBreak => BuiltinV::DbgBreak,
        }
    }
}

pub open spec fn exprs_v(s: Seq<Expr>) -> Seq<ExprV>
    decreases s,
{
    if s.len() == 0 { Seq::empty() } else { exprs_v(s.drop_last()).push(s.last().view_rec()) }
}

pub open spec fn set_v(s: Seq<(String, Expr)>) -> Seq<(Seq<char>, ExprV)>
    decreases s,
{
    if s.len() == 0 {
        Seq::empty()
    } else {
        set_v(s.drop_last()).push((s.last().0@, s.last().1.view_rec()))
    }
}

pub open spec fn lets_v(s: Seq<(Matcher, Expr)>) -> Seq<(MatcherV, ExprV)>
    decreases s,
{
    if s.len() == 0 {
        Seq::empty()
    } else {
        lets_v(s.drop_last()).push((s.last().0.view_rec(), s.last().1.view_rec()))
    }
}

pub open spec fn cases_v(s: Seq<(Expr, Expr)>) -> Seq<(ExprV, ExprV)>
    decreases s,
{
    if s.len() == 0 {
        Seq::empty()
    } else {
        cases_v(s.drop_last()).push((s.last().0.view_rec(), s.last().1.view_rec()))
    }
}

pub open spec fn opt_v(o: Option<Expr>) -> Option<ExprV>
    decreases o,
{
    match o {
        Some(e) => Some(e.view_rec()),
        None => None,
    }
}

pub open spec fn opt_box_v(o: Option<Expr>) -> Option<Box<ExprV>>
    decreases o,
{
    match o {
        Some(e) => Some(Box::new(e.view_rec())),
        None => None,
    }
}

pub open spec fn omatch_v(s: Seq<(String, Matcher, Option<Expr>)>) -> Seq<(Seq<char>, MatcherV, Option<ExprV>)>
    decreases s,
{
    if s.len() == 0 {
        Seq::empty()
    } else {
        omatch_v(s.drop_last()).push((s.last().0@, s.last().1.view_rec(), opt_v(s.last().2)))
    }
}

pub open spec fn matchers_v(s: Seq<Matcher>) -> Seq<MatcherV>
    decreases s,
{
    if s.len() == 0 { Seq::empty() } else { matchers_v(s.drop_last()).push(s.last().view_rec()) }
}

impl Expr {
    pub open spec fn view_rec(&self) -> ExprV
        decreases self,
    {
        ExprV { tok: self.0.tok.view_rec(), loc: opt_loc_view(self.0.loc) }
    }
}

impl ExprType {
    pub open spec fn view_rec(&self) -> TokV
        decreases self,
    {
        match self {
            ExprType::Object(s) => TokV::Object(set_v(s@)),
            ExprType::List(s) => TokV::List(exprs_v(s@)),
            ExprType::Tuple(s) => TokV::Tuple(exprs_v(s@)),
            ExprType::Concat(s) => TokV::Concat(exprs_v(s@)),
            ExprType::AttrSel(a, b) => TokV::AttrSel(Box::new(a.view_rec()), Box::new(b.view_rec())),
            ExprType::Value(v) => TokV::Value(v@),
            ExprType::Var(n) => TokV::Var(n@),
            ExprType::UnOp(op, a) => TokV::UnOp(*op, Box::new(a.view_rec())),
            ExprType::BinOp(op, a, b) => TokV::BinOp(*op, Box::new(a.view_rec()), Box::new(b.view_rec())),
            ExprType::FuncDef(m, b) => TokV::FuncDef(m.view_rec(), Box::new(b.view_rec())),
            ExprType::FuncDefBuiltin(b) => TokV::FuncDefBuiltin(b@),
            ExprType::Let(s, b) => TokV::Let(lets_v(s@), Box::new(b.view_rec())),
            ExprType::Fold(a, b, c) => TokV::Fold(Box::new(a.view_rec()), Box::new(b.view_rec()), Box::new(c.view_rec())),
            ExprType::Mapping(t, a, b, c) => TokV::Mapping(*t, Box::new(a.view_rec()), Box::new(b.view_rec()), opt_box_v(*c)),
            ExprType::FuncCall(a, b) => TokV::FuncCall(Box::new(a.view_rec()), Box::new(b.view_rec())),
            ExprType::Bind(s, b) => TokV::Bind(set_v(s@), Box::new(b.view_rec())),
            ExprType::Switch(a, s, d) => TokV::Switch(Box::new(a.view_rec()), cases_v(s@), opt_box_v(*d)),
            ExprType::Null => TokV::Null,
        }
    }
}

impl Matcher {
    pub open spec fn view_rec(&self) -> MatcherV
        decreases self,
    {
        match self {
            Matcher::Alias(m, n) => MatcherV::Alias(Box::new(m.view_rec()), n@),
            Matcher::DontCare => MatcherV::DontCare,
            Matcher::Ident(n) => MatcherV::Ident(n@),
            Matcher::Tuple(ms) => MatcherV::Tuple(matchers_v(ms@)),
            Matcher::Object(items, all) => MatcherV::Object(omatch_v(items@), *all),
        }
    }
}

impl View for Expr {
    type V = ExprV;

    open spec fn view(&self) -> ExprV {
        self.view_rec()
    }
}

impl View for ExprType {
    type V = TokV;

    open spec fn view(&self) -> TokV {
        self.view_rec()
    }
}

impl View for Matcher {
    type V = MatcherV;

    open spec fn view(&self) -> MatcherV {
        self.view_rec()
    }
}

/* The sequence views, element by element */

pub proof fn lemma_exprs_v(s: Seq<Expr>)
    ensures
        exprs_v(s) == s.map_values(|e: Expr| e@),
    decreases s.len(),
{
    if s.len() > 0 {
        lemma_exprs_v(s.drop_last());
        assert(s.map_values(|e: Expr| e@) =~= s.drop_last().map_values(|e: Expr| e@).push(s.last()@));
    } else {
        assert(s.map_values(|e: Expr| e@) =~= Seq::<ExprV>::empty());
    }
}

pub proof fn lemma_set_v(s: Seq<(String, Expr)>)
    ensures
        set_v(s) == s.map_values(|p: (String, Expr)| (p.0@, p.1@)),
    decreases s.len(),
{
    if s.len() > 0 {
        lemma_set_v(s.drop_last());
        assert(s.map_values(|p: (String, Expr)| (p.0@, p.1@))
            =~= s.drop_last().map_values(|p: (String, Expr)| (p.0@, p.1@)).push((s.last().0@, s.last().1@)));
    } else {
        assert(s.map_values(|p: (String, Expr)| (p.0@, p.1@)) =~= Seq::<(Seq<char>, ExprV)>::empty());
    }
}

pub proof fn lemma_lets_v(s: Seq<(Matcher, Expr)>)
    ensures
        lets_v(s) == s.map_values(|p: (Matcher, Expr)| (p.0@, p.1@)),
    decreases s.len(),
{
    if s.len() > 0 {
        lemma_lets_v(s.drop_last());
        assert(s.map_values(|p: (Matcher, Expr)| (p.0@, p.1@))
            =~= s.drop_last().map_values(|p: (Matcher, Expr)| (p.0@, p.1@)).push((s.last().0@, s.last().1@)));
    } else {
        assert(s.map_values(|p: (Matcher, Expr)| (p.0@, p.1@)) =~= Seq::<(MatcherV, ExprV)>::empty());
    }
}

pub proof fn lemma_cases_v(s: Seq<(Expr, Expr)>)
    ensures
        cases_v(s) == s.map_values(|p: (Expr, Expr)| (p.0@, p.1@)),
    decreases s.len(),
{
    if s.len() > 0 {
        lemma_cases_v(s.drop_last());
        assert(s.map_values(|p: (Expr, Expr)| (p.0@, p.1@))
            =~= s.drop_last().map_values(|p: (Expr, Expr)| (p.0@, p.1@)).push((s.last().0@, s.last().1@)));
    } else {
        assert(s.map_values(|p: (Expr, Expr)| (p.0@, p.1@)) =~= Seq::<(ExprV, ExprV)>::empty());
    }
}

pub proof fn lemma_omatch_v(s: Seq<(String, Matcher, Option<Expr>)>)
    ensures
        omatch_v(s) == s.map_values(|p: (String, Matcher, Option<Expr>)| (p.0@, p.1@, opt_v(p.2))),
    decreases s.len(),
{
    if s.len() > 0 {
        lemma_omatch_v(s.drop_last());
        assert(s.map_values(|p: (String, Matcher, Option<Expr>)| (p.0@, p.1@, opt_v(p.2)))
            =~= s.drop_last().map_values(|p: (String, Matcher, Option<Expr>)| (p.0@, p.1@, opt_v(p.2))).push(
                (s.last().0@, s.last().1@, opt_v(s.last().2))));
    } else {
        assert(s.map_values(|p: (String, Matcher, Option<Expr>)| (p.0@, p.1@, opt_v(p.2)))
            =~= Seq::<(Seq<char>, MatcherV, Option<ExprV>)>::empty());
    }
}

pub proof fn lemma_matchers_v(s: Seq<Matcher>)
    ensures
        matchers_v(s) == s.map_values(|m: Matcher| m@),
    decreases s.len(),
{
    if s.len() > 0 {
        lemma_matchers_v(s.drop_last());
        assert(s.map_values(|m: Matcher| m@) =~= s.drop_last().map_values(|m: Matcher| m@).push(s.last()@));
    } else {
        assert(s.map_values(|m: Matcher| m@) =~= Seq::<MatcherV>::empty());
    }
}


/* Copies */

impl Builtin {
    pub fn copy(&self) -> (r: Builtin)
        ensures
            r@ == self@,
    {
        match self {
            Builtin::PbLock => Builtin::PbLock,
            Builtin::PbRule => Builtin::PbRule,
            Builtin::PbBuild(r) => Builtin::PbBuild(r.copy()),
            Builtin::PbTranslate => Builtin::PbTranslate,
            Builtin::PbRebase => Builtin::PbRebase,
            Builtin::OpsTranspose => Builtin::OpsTranspose,
            Builtin::OpsTransposeObjs => Builtin::OpsTransposeObjs,
            Builtin::DbgTrace => Builtin::DbgTrace,
            Builtin::DbgBreak => Builtin::DbgBreak,
        }
    }
}

pub fn copy_exprs(v: &Vec<Expr>) -> (r: Vec<Expr>)
    ensures
        exprs_v(r@) == exprs_v(v@),
    decreases v,
{
    let mut out: Vec<Expr> = Vec::new();
    let mut i: usize = 0;
    while i < v.len()
        invariant
            i <= v@.len(),
            out@.len() == i,
            forall|j: int| 0 <= j < i ==> (#[trigger] out@[j])@ == v@[j]@,
        decreases v.len() - i,
    {
        proof {
            assert(decreases_to!(*v => v@));
            assert(decreases_to!(v@ => v@[i as int]));
        }
        out.push(v[i].copy());
        i = i + 1;
    }
    proof {
        lemma_exprs_v(out@);
        lemma_exprs_v(v@);
        assert(out@.map_values(|e: Expr| e@) =~= v@.map_values(|e: Expr| e@));
    }
    out
}

pub fn copy_set(v: &Vec<(String, Expr)>) -> (r: Vec<(String, Expr)>)
    ensures
        set_v(r@) == set_v(v@),
    decreases v,
{
    let mut out: Vec<(String, Expr)> = Vec::new();
    let mut i: usize = 0;
    while i < v.len()
        invariant
            i <= v@.len(),
            out@.len() == i,
            forall|j: int| 0 <= j < i ==> (#[trigger] out@[j]).0@ == v@[j].0@ && out@[j].1@ == v@[j].1@,
        decreases v.len() - i,
    {
        proof {
            assert(decreases_to!(*v => v@));
            assert(decreases_to!(v@ => v@[i as int]));
            assert(decreases_to!(v@[i as int] => v@[i as int].1));
        }
        out.push((copy_str(v[i].0.as_str()), v[i].1.copy()));
        i = i + 1;
    }
    proof {
        lemma_set_v(out@);
        lemma_set_v(v@);
        assert(out@.map_values(|p: (String, Expr)| (p.0@, p.1@)) =~= v@.map_values(|p: (String, Expr)| (p.0@, p.1@)));
    }
    out
}

pub fn copy_lets(v: &Vec<(Matcher, Expr)>) -> (r: Vec<(Matcher, Expr)>)
    ensures
        lets_v(r@) == lets_v(v@),
    decreases v,
{
    let mut out: Vec<(Matcher, Expr)> = Vec::new();
    let mut i: usize = 0;
    while i < v.len()
        invariant
            i <= v@.len(),
            out@.len() == i,
            forall|j: int| 0 <= j < i ==> (#[trigger] out@[j]).0@ == v@[j].0@ && out@[j].1@ == v@[j].1@,
        decreases v.len() - i,
    {
        proof {
            assert(decreases_to!(*v => v@));
            assert(decreases_to!(v@ => v@[i as int]));
            assert(decreases_to!(v@[i as int] => v@[i as int].0));
            assert(decreases_to!(v@[i as int] => v@[i as int].1));
        }
        out.push((v[i].0.copy(), v[i].1.copy()));
        i = i + 1;
    }
    proof {
        lemma_lets_v(out@);
        lemma_lets_v(v@);
        assert(out@.map_values(|p: (Matcher, Expr)| (p.0@, p.1@)) =~= v@.map_values(|p: (Matcher, Expr)| (p.0@, p.1@)));
    }
    out
}

pub fn copy_cases(v: &Vec<(Expr, Expr)>) -> (r: Vec<(Expr, Expr)>)
    ensures
        cases_v(r@) == cases_v(v@),
    decreases v,
{
    let mut out: Vec<(Expr, Expr)> = Vec::new();
    let mut i: usize = 0;
    while i < v.len()
        invariant
            i <= v@.len(),
            out@.len() == i,
            forall|j: int| 0 <= j < i ==> (#[trigger] out@[j]).0@ == v@[j].0@ && out@[j].1@ == v@[j].1@,
        decreases v.len() - i,
    {
        proof {
            assert(decreases_to!(*v => v@));
            assert(decreases_to!(v@ => v@[i as int]));
            assert(decreases_to!(v@[i as int] => v@[i as int].0));
            assert(decreases_to!(v@[i as int] => v@[i as int].1));
        }
        out.push((v[i].0.copy(), v[i].1.copy()));
        i = i + 1;
    }
    proof {
        lemma_cases_v(out@);
        lemma_cases_v(v@);
        assert(out@.map_values(|p: (Expr, Expr)| (p.0@, p.1@)) =~= v@.map_values(|p: (Expr, Expr)| (p.0@, p.1@)));
    }
    out
}

pub fn copy_opt(o: &Option<Expr>) -> (r: Option<Expr>)
    ensures
        opt_v(r) == opt_v(*o),
        opt_box_v(r) == opt_box_v(*o),
    decreases o,
{
    match o {
        Some(e) => Some(e.copy()),
        None => None,
    }
}

pub fn copy_omatch(v: &Vec<(String, Matcher, Option<Expr>)>) -> (r: Vec<(String, Matcher, Option<Expr>)>)
    ensures
        omatch_v(r@) == omatch_v(v@),
    decreases v,
{
    let mut out: Vec<(String, Matcher, Option<Expr>)> = Vec::new();
    let mut i: usize = 0;
    while i < v.len()
        invariant
            i <= v@.len(),
            out@.len() == i,
            forall|j: int| 0 <= j < i ==> (#[trigger] out@[j]).0@ == v@[j].0@ && out@[j].1@ == v@[j].1@
                && opt_v(out@[j].2) == opt_v(v@[j].2),
        decreases v.len() - i,
    {
        proof {
            assert(decreases_to!(*v => v@));
            assert(decreases_to!(v@ => v@[i as int]));
            assert(decreases_to!(v@[i as int] => v@[i as int].1));
            assert(decreases_to!(v@[i as int] => v@[i as int].2));
        }
        out.push((copy_str(v[i].0.as_str()), v[i].1.copy(), copy_opt(&v[i].2)));
        i = i + 1;
    }
    proof {
        lemma_omatch_v(out@);
        lemma_omatch_v(v@);
        assert(out@.map_values(|p: (String, Matcher, Option<Expr>)| (p.0@, p.1@, opt_v(p.2)))
            =~= v@.map_values(|p: (String, Matcher, Option<Expr>)| (p.0@, p.1@, opt_v(p.2))));
    }
    out
}

pub fn copy_matchers(v: &Vec<Matcher>) -> (r: Vec<Matcher>)
    ensures
        matchers_v(r@) == matchers_v(v@),
    decreases v,
{
    let mut out: Vec<Matcher> = Vec::new();
    let mut i: usize = 0;
    while i < v.len()
        invariant
            i <= v@.len(),
            out@.len() == i,
            forall|j: int| 0 <= j < i ==> (#[trigger] out@[j])@ == v@[j]@,
        decreases v.len() - i,
    {
        proof {
            assert(decreases_to!(*v => v@));
            assert(decreases_to!(v@ => v@[i as int]));
        }
        out.push(v[i].copy());
        i = i + 1;
    }
    proof {
        lemma_matchers_v(out@);
        lemma_matchers_v(v@);
        assert(out@.map_values(|m: Matcher| m@) =~= v@.map_values(|m: Matcher| m@));
    }
    out
}

impl Expr {
    /// A copy of this expression.
    pub fn copy(&self) -> (r: Expr)
        ensures
            r@ == self@,
        decreases self,
    {
        Expr(Box::new(ExprStorage { tok: self.0.tok.copy(), loc: copy_loc(&self.0.loc) }))
    }

    /// The node this expression holds: its kind and its location.
    pub fn inner_ref(&self) -> (r: &ExprStorage)
        ensures
            r.tok@ == self@.tok,
            opt_loc_view(r.loc) == self@.loc,
    {
        &self.0
    }
}

impl ExprType {
    /// A copy of this expression kind.
    pub fn copy(&self) -> (r: ExprType)
        ensures
            r@ == self@,
        decreases self,
    {
        match self {
            ExprType::Object(s) => ExprType::Object(copy_set(s)),
            ExprType::List(s) => ExprType::List(copy_exprs(s)),
            ExprType::Tuple(s) => ExprType::Tuple(copy_exprs(s)),
            ExprType::Concat(s) => ExprType::Concat(copy_exprs(s)),
            ExprType::AttrSel(a, b) => ExprType::AttrSel(a.copy(), b.copy()),
            ExprType::Value(v) => ExprType::Value(v.copy()),
            ExprType::Var(n) => ExprType::Var(copy_str(n.as_str())),
            ExprType::UnOp(op, a) => ExprType::UnOp(*op, a.copy()),
            ExprType::BinOp(op, a, b) => ExprType::BinOp(*op, a.copy(), b.copy()),
            ExprType::FuncDef(m, b) => ExprType::FuncDef(m.copy(), b.copy()),
            ExprType::FuncDefBuiltin(b) => ExprType::FuncDefBuiltin(b.copy()),
            ExprType::Let(s, b) => ExprType::Let(copy_lets(s), b.copy()),
            ExprType::Fold(a, b, c) => ExprType::Fold(a.copy(), b.copy(), c.copy()),
            ExprType::Mapping(t, a, b, c) => ExprType::Mapping(*t, a.copy(), b.copy(), copy_opt(c)),
            ExprType::FuncCall(a, b) => ExprType::FuncCall(a.copy(), b.copy()),
            ExprType::Bind(s, b) => ExprType::Bind(copy_set(s), b.copy()),
            ExprType::Switch(a, s, d) => ExprType::Switch(a.copy(), copy_cases(s), copy_opt(d)),
            ExprType::Null => ExprType::Null,
        }
    }
}

impl Matcher {
    /// A copy of this matcher.
    pub fn copy(&self) -> (r: Matcher)
        ensures
            r@ == self@,
        decreases self,
    {
        match self {
            Matcher::Alias(m, n) => Matcher::Alias(Box::new((**m).copy()), copy_str(n.as_str())),
            Matcher::DontCare => Matcher::DontCare,
            Matcher::Ident(n) => Matcher::Ident(copy_str(n.as_str())),
            Matcher::Tuple(ms) => Matcher::Tuple(copy_matchers(ms)),
            Matcher::Object(items, all) => Matcher::Object(copy_omatch(items), *all),
        }
    }
}


/* How expressions are shown */

pub open spec fn indent_v(n: nat) -> Seq<char>
    decreases n,
{
    if n == 0 { Seq::empty() } else { indent_v((n - 1) as nat) + "  "@ }
}

pub open spec fn newline_v(n: nat) -> Seq<char> {
    seq!['\n'] + indent_v(n)
}

pub open spec fn binop_text(op: ExprBinOp) -> Seq<char> {
    match op {
        ExprBinOp::HasAttr => "?"@,
        ExprBinOp::ListConcat => "++"@,
        ExprBinOp::Mult => "*"@,
        ExprBinOp::Div => "/"@,
        ExprBinOp::Sub => "-"@,
        ExprBinOp::Add => "+"@,
        ExprBinOp::Update => "//"@,
        ExprBinOp::Lt => "<"@,
        ExprBinOp::Le => "<="@,
        ExprBinOp::Gt => ">"@,
        ExprBinOp::Ge => ">="@,
        ExprBinOp::Eq => "=="@,
        ExprBinOp::Neq => "!="@,
        ExprBinOp::LogAnd => "&&"@,
        ExprBinOp::LogOr => "||"@,
        ExprBinOp::LogImpl => "->"@,
    }
}

/// The operator's name, as in error messages.
pub open spec fn binop_name(op: ExprBinOp) -> Seq<char> {
    match op {
        ExprBinOp::HasAttr => "HasAttr"@,
        ExprBinOp::ListConcat => "ListConcat"@,
        ExprBinOp::Mult => "Mult"@,
        ExprBinOp::Div => "Div"@,
        ExprBinOp::Sub => "Sub"@,
        ExprBinOp::Add => "Add"@,
        ExprBinOp::Update => "Update"@,
        ExprBinOp::Lt => "Lt"@,
        ExprBinOp::Le => "Le"@,
        ExprBinOp::Gt => "Gt"@,
        ExprBinOp::Ge => "Ge"@,
        ExprBinOp::Eq => "Eq"@,
        ExprBinOp::Neq => "Neq"@,
        ExprBinOp::LogAnd => "LogAnd"@,
        ExprBinOp::LogOr => "LogOr"@,
        ExprBinOp::LogImpl => "LogImpl"@,
    }
}

pub open spec fn unop_text(op: ExprUnOp) -> Seq<char> {
    match op {
        ExprUnOp::Neg => "-"@,
        ExprUnOp::Not => "!"@,
    }
}

/// The name a builtin function goes by.
pub open spec fn builtin_name(b: BuiltinV) -> Seq<char> {
    match b {
        BuiltinV::PbLock => "lock"@,
        BuiltinV::PbRule => "build"@,
        BuiltinV::PbBuild(_) => "build"@,
        BuiltinV::PbTranslate => "translate"@,
        BuiltinV::PbRebase => "rebase"@,
        BuiltinV::OpsTranspose => "zip"@,
        BuiltinV::OpsTransposeObjs => "transposeObjs"@,
        BuiltinV::DbgTrace => "trace"@,
        BuiltinV::DbgBreak => "break"@,
    }
}

/// How an expression is shown, at indentation level `ind`.
pub open spec fn expr_text(e: ExprV, ind: nat) -> Seq<char>
    decreases e, 0nat,
{
    tok_text(e.tok, ind)
}

pub open spec fn tok_text(t: TokV, ind: nat) -> Seq<char>
    decreases t, 0nat,
{
    match t {
        TokV::Object(fs) => "{"@ + fields_text(fs, ind + 1) + newline_v(ind) + "}"@,
        TokV::List(items) => "["@ + items_text(items, ind + 1) + newline_v(ind) + "]"@,
        TokV::Tuple(items) => "("@ + items_text(items, ind + 1) + newline_v(ind) + ")"@,
        TokV::Concat(items) => plus_text(items, ind),
        TokV::AttrSel(v, a) => expr_text(*v, ind) + (match a.tok {
            TokV::Value(ValueV::Str(name)) => if crate::text::spec_is_ident(name) {
                seq!['.'] + name
            } else {
                ".{"@ + expr_text(*a, ind + 1) + "}"@
            },
            _ => ".{"@ + expr_text(*a, ind + 1) + "}"@,
        }),
        TokV::Value(v) => crate::value::value_text(v),
        TokV::Var(n) => n,
        TokV::UnOp(op, x) => unop_text(op) + "("@ + expr_text(*x, ind) + ")"@,
        TokV::BinOp(op, l, r) => "("@ + expr_text(*l, ind) + ")"@ + binop_text(op) + "("@ + expr_text(*r, ind) + ")"@,
        TokV::FuncDef(m, b) => "|"@ + matcher_text(m, ind) + "| "@ + expr_text(*b, ind),
        TokV::FuncDefBuiltin(b) => "<builtin "@ + builtin_name(b) + ">"@,
        TokV::Let(items, b) => "let"@ + lets_text(items, ind + 1) + newline_v(ind) + "in"@ + newline_v(ind + 1)
            + expr_text(*b, ind + 1),
        TokV::Fold(f, i, inp) => "( "@ + newline_v(ind + 1) + expr_text(*f, ind + 1) + newline_v(ind) + " for "@
            + newline_v(ind + 1) + expr_text(*i, ind + 1) + " | "@ + expr_text(*inp, ind + 1) + newline_v(ind)
            + " )"@,
        TokV::Mapping(typ, f, inp, filt) => (match typ {
            ExprMapType::List => "[ "@,
            ExprMapType::Object => "{ "@,
        }) + newline_v(ind + 1) + expr_text(*f, ind + 1) + newline_v(ind) + " for "@ + newline_v(ind + 1)
            + expr_text(*inp, ind + 1) + newline_v(ind) + (match filt {
            Some(x) => " if "@ + newline_v(ind + 1) + expr_text(*x, ind + 1) + newline_v(ind),
            None => Seq::empty(),
        }) + (match typ {
            ExprMapType::List => " ]"@,
            ExprMapType::Object => " }"@,
        }),
        TokV::FuncCall(a, f) => "("@ + newline_v(ind + 1) + expr_text(*f, ind + 1) + newline_v(ind) + ") ("@
            + newline_v(ind + 1) + expr_text(*a, ind + 1) + newline_v(ind) + ")"@,
        TokV::Bind(scope, b) => "bind"@ + fields_text(scope, ind + 1) + newline_v(ind) + "in"@
            + newline_v(ind + 1) + expr_text(*b, ind + 1),
        TokV::Switch(x, cases, d) => "match "@ + expr_text(*x, ind + 1) + " {"@ + cases_text(cases, ind + 2)
            + (match d {
            Some(de) => newline_v(ind + 2) + "_ => "@ + expr_text(*de, ind + 2) + ";"@,
            None => Seq::empty(),
        }) + newline_v(ind + 1) + "}"@,
        TokV::Null => "null"@,
    }
}

/// `name = value;` entries, each on a line of its own at level `ind`.
pub open spec fn fields_text(fs: Seq<(Seq<char>, ExprV)>, ind: nat) -> Seq<char>
    decreases fs, 0nat,
{
    if fs.len() == 0 {
        Seq::empty()
    } else {
        fields_text(fs.drop_last(), ind) + newline_v(ind) + fs.last().0 + " = "@ + expr_text(fs.last().1, ind) + ";"@
    }
}

/// `item,` entries, each on a line of its own at level `ind`.
pub open spec fn items_text(items: Seq<ExprV>, ind: nat) -> Seq<char>
    decreases items, 0nat,
{
    if items.len() == 0 {
        Seq::empty()
    } else {
        items_text(items.drop_last(), ind) + newline_v(ind) + expr_text(items.last(), ind) + ","@
    }
}

/// The items joined with ` + `.
pub open spec fn plus_text(items: Seq<ExprV>, ind: nat) -> Seq<char>
    decreases items, 0nat,
{
    if items.len() == 0 {
        Seq::empty()
    } else if items.len() == 1 {
        expr_text(items[0], ind)
    } else {
        plus_text(items.drop_last(), ind) + " + "@ + expr_text(items.last(), ind)
    }
}

pub open spec fn lets_text(items: Seq<(MatcherV, ExprV)>, ind: nat) -> Seq<char>
    decreases items, 0nat,
{
    if items.len() == 0 {
        Seq::empty()
    } else {
        lets_text(items.drop_last(), ind) + newline_v(ind) + matcher_text(items.last().0, ind) + " = "@
            + expr_text(items.last().1, ind) + ";"@
    }
}

pub open spec fn cases_text(items: Seq<(ExprV, ExprV)>, ind: nat) -> Seq<char>
    decreases items, 0nat,
{
    if items.len() == 0 {
        Seq::empty()
    } else {
        cases_text(items.drop_last(), ind) + newline_v(ind) + expr_text(items.last().0, ind) + " => "@
            + expr_text(items.last().1, ind) + ";"@
    }
}

/// How a matcher is shown: in the syntax it is written in.
pub open spec fn matcher_text(m: MatcherV, ind: nat) -> Seq<char>
    decreases m, 0nat,
{
    match m {
        MatcherV::Alias(inner, name) => matcher_text(*inner, ind) + "@"@ + name,
        MatcherV::DontCare => "_"@,
        MatcherV::Ident(name) => name,
        MatcherV::Tuple(ms) => "("@ + matchers_text(ms, ind) + ")"@,
        MatcherV::Object(items, all) => "{"@ + omatch_text(items, ind) + (if all {
            Seq::empty()
        } else if items.len() == 0 {
            "..."@
        } else {
            ", ..."@
        }) + "}"@,
    }
}

pub open spec fn matchers_text(ms: Seq<MatcherV>, ind: nat) -> Seq<char>
    decreases ms, 0nat,
{
    if ms.len() == 0 {
        Seq::empty()
    } else if ms.len() == 1 {
        matcher_text(ms[0], ind)
    } else {
        matchers_text(ms.drop_last(), ind) + ", "@ + matcher_text(ms.last(), ind)
    }
}

pub open spec fn omatch_item_text(item: (Seq<char>, MatcherV, Option<ExprV>), ind: nat) -> Seq<char>
    decreases item, 0nat,
{
    item.0 + (match item.1 {
        MatcherV::Ident(n) => if n == item.0 { Seq::empty() } else { " = "@ + n },
        _ => " = "@ + matcher_text(item.1, ind),
    }) + (match item.2 {
        Some(d) => " ? "@ + expr_text(d, ind),
        None => Seq::empty(),
    })
}

pub open spec fn omatch_text(items: Seq<(Seq<char>, MatcherV, Option<ExprV>)>, ind: nat) -> Seq<char>
    decreases items, 0nat,
{
    if items.len() == 0 {
        Seq::empty()
    } else if items.len() == 1 {
        omatch_item_text(items[0], ind)
    } else {
        omatch_text(items.drop_last(), ind) + ", "@ + omatch_item_text(items.last(), ind)
    }
}


/* Writing expressions out */

fn write_newline(out: &mut String, pad: &str, Ghost(ind): Ghost<nat>)
    requires
        pad@ == indent_v(ind),
    ensures
        final(out)@ == old(out)@ + newline_v(ind),
{
    push_char(out, '\n');
    push_str(out, pad);
}

fn deeper(pad: &str, Ghost(ind): Ghost<nat>) -> (r: String)
    requires
        pad@ == indent_v(ind),
    ensures
        r@ == indent_v(ind + 1),
{
    let mut r = copy_str(pad);
    push_str(&mut r, "  ");
    r
}

fn binop_str(op: ExprBinOp) -> (r: &'static str)
    ensures
        r@ == binop_text(op),
{
    match op {
        ExprBinOp::HasAttr => "?",
        ExprBinOp::ListConcat => "++",
        ExprBinOp::Mult => "*",
        ExprBinOp::Div => "/",
        ExprBinOp::Sub => "-",
        ExprBinOp::Add => "+",
        ExprBinOp::Update => "//",
        ExprBinOp::Lt => "<",
        ExprBinOp::Le => "<=",
        ExprBinOp::Gt => ">",
        ExprBinOp::Ge => ">=",
        ExprBinOp::Eq => "==",
        ExprBinOp::Neq => "!=",
        ExprBinOp::LogAnd => "&&",
        ExprBinOp::LogOr => "||",
        ExprBinOp::LogImpl => "->",
    }
}

pub fn binop_name_str(op: ExprBinOp) -> (r: &'static str)
    ensures
        r@ == binop_name(op),
{
    match op {
        ExprBinOp::HasAttr => "HasAttr",
        ExprBinOp::ListConcat => "ListConcat",
        ExprBinOp::Mult => "Mult",
        ExprBinOp::Div => "Div",
        ExprBinOp::Sub => "Sub",
        ExprBinOp::Add => "Add",
        ExprBinOp::Update => "Update",
        ExprBinOp::Lt => "Lt",
        ExprBinOp::Le => "Le",
        ExprBinOp::Gt => "Gt",
        ExprBinOp::Ge => "Ge",
        ExprBinOp::Eq => "Eq",
        ExprBinOp::Neq => "Neq",
        ExprBinOp::LogAnd => "LogAnd",
        ExprBinOp::LogOr => "LogOr",
        ExprBinOp::LogImpl => "LogImpl",
    }
}

impl Builtin {
    /// The name this builtin goes by.
    pub fn get_name(&self) -> (r: &'static str)
        ensures
            r@ == builtin_name(self@),
    {
        match self {
            Builtin::PbLock => "lock",
            Builtin::PbRule => "build",
            Builtin::PbBuild(_) => "build",
            Builtin::PbTranslate => "translate",
            Builtin::PbRebase => "rebase",
            Builtin::OpsTranspose => "zip",
            Builtin::OpsTransposeObjs => "transposeObjs",
            Builtin::DbgTrace => "trace",
            Builtin::DbgBreak => "break",
        }
    }
}

fn write_expr(out: &mut String, e: &Expr, pad: &str, Ghost(ind): Ghost<nat>)
    requires
        pad@ == indent_v(ind),
    ensures
        final(out)@ == old(out)@ + expr_text(e@, ind),
    decreases e, 2nat,
{
    write_tok(out, &e.0.tok, pad, Ghost(ind));
}

fn write_fields(out: &mut String, fs: &Vec<(String, Expr)>, pad: &str, Ghost(ind): Ghost<nat>)
    requires
        pad@ == indent_v(ind),
    ensures
        final(out)@ == old(out)@ + fields_text(set_v(fs@), ind),
    decreases fs, 0nat,
{
    proof { lemma_set_v(fs@); }
    let ghost sv = set_v(fs@);
    let mut i: usize = 0;
    while i < fs.len()
        invariant
            i <= fs@.len(),
            pad@ == indent_v(ind),
            sv == set_v(fs@),
            sv == fs@.map_values(|p: (String, Expr)| (p.0@, p.1@)),
            out@ == old(out)@ + fields_text(sv.take(i as int), ind),
        decreases fs.len() - i,
    {
        proof {
            assert(decreases_to!(*fs => fs@));
            assert(decreases_to!(fs@ => fs@[i as int]));
            assert(decreases_to!(fs@[i as int] => fs@[i as int].1));
        }
        write_newline(out, pad, Ghost(ind));
        push_str(out, fs[i].0.as_str());
        push_str(out, " = ");
        write_expr(out, &fs[i].1, pad, Ghost(ind));
        push_str(out, ";");
        assert(sv.take(i + 1).drop_last() =~= sv.take(i as int));
        i = i + 1;
    }
    assert(sv.take(fs@.len() as int) =~= sv);
}

fn write_items(out: &mut String, items: &Vec<Expr>, pad: &str, Ghost(ind): Ghost<nat>)
    requires
        pad@ == indent_v(ind),
    ensures
        final(out)@ == old(out)@ + items_text(exprs_v(items@), ind),
    decreases items, 0nat,
{
    proof { lemma_exprs_v(items@); }
    let ghost sv = exprs_v(items@);
    let mut i: usize = 0;
    while i < items.len()
        invariant
            i <= items@.len(),
            pad@ == indent_v(ind),
            sv == exprs_v(items@),
            sv == items@.map_values(|e: Expr| e@),
            out@ == old(out)@ + items_text(sv.take(i as int), ind),
        decreases items.len() - i,
    {
        proof {
            assert(decreases_to!(*items => items@));
            assert(decreases_to!(items@ => items@[i as int]));
        }
        write_newline(out, pad, Ghost(ind));
        write_expr(out, &items[i], pad, Ghost(ind));
        push_str(out, ",");
        assert(sv.take(i + 1).drop_last() =~= sv.take(i as int));
        i = i + 1;
    }
    assert(sv.take(items@.len() as int) =~= sv);
}

fn write_plus(out: &mut String, items: &Vec<Expr>, pad: &str, Ghost(ind): Ghost<nat>)
    requires
        pad@ == indent_v(ind),
    ensures
        final(out)@ == old(out)@ + plus_text(exprs_v(items@), ind),
    decreases items, 0nat,
{
    proof { lemma_exprs_v(items@); }
    let ghost sv = exprs_v(items@);
    let mut i: usize = 0;
    while i < items.len()
        invariant
            i <= items@.len(),
            pad@ == indent_v(ind),
            sv == exprs_v(items@),
            sv == items@.map_values(|e: Expr| e@),
            out@ == old(out)@ + plus_text(sv.take(i as int), ind),
        decreases items.len() - i,
    {
        proof {
            assert(decreases_to!(*items => items@));
            assert(decreases_to!(items@ => items@[i as int]));
        }
        if i > 0 {
            push_str(out, " + ");
        }
        write_expr(out, &items[i], pad, Ghost(ind));
        assert(sv.take(i + 1).drop_last() =~= sv.take(i as int));
        i = i + 1;
    }
    assert(sv.take(items@.len() as int) =~= sv);
}

fn write_lets(out: &mut String, items: &Vec<(Matcher, Expr)>, pad: &str, Ghost(ind): Ghost<nat>)
    requires
        pad@ == indent_v(ind),
    ensures
        final(out)@ == old(out)@ + lets_text(lets_v(items@), ind),
    decreases items, 0nat,
{
    proof { lemma_lets_v(items@); }
    let ghost sv = lets_v(items@);
    let mut i: usize = 0;
    while i < items.len()
        invariant
            i <= items@.len(),
            pad@ == indent_v(ind),
            sv == lets_v(items@),
            sv == items@.map_values(|p: (Matcher, Expr)| (p.0@, p.1@)),
            out@ == old(out)@ + lets_text(sv.take(i as int), ind),
        decreases items.len() - i,
    {
        proof {
            assert(decreases_to!(*items => items@));
            assert(decreases_to!(items@ => items@[i as int]));
            assert(decreases_to!(items@[i as int] => items@[i as int].0));
            assert(decreases_to!(items@[i as int] => items@[i as int].1));
        }
        write_newline(out, pad, Ghost(ind));
        write_matcher(out, &items[i].0, pad, Ghost(ind));
        push_str(out, " = ");
        write_expr(out, &items[i].1, pad, Ghost(ind));
        push_str(out, ";");
        assert(sv.take(i + 1).drop_last() =~= sv.take(i as int));
        i = i + 1;
    }
    assert(sv.take(items@.len() as int) =~= sv);
}

fn write_cases(out: &mut String, items: &Vec<(Expr, Expr)>, pad: &str, Ghost(ind): Ghost<nat>)
    requires
        pad@ == indent_v(ind),
    ensures
        final(out)@ == old(out)@ + cases_text(cases_v(items@), ind),
    decreases items, 0nat,
{
    proof { lemma_cases_v(items@); }
    let ghost sv = cases_v(items@);
    let mut i: usize = 0;
    while i < items.len()
        invariant
            i <= items@.len(),
            pad@ == indent_v(ind),
            sv == cases_v(items@),
            sv == items@.map_values(|p: (Expr, Expr)| (p.0@, p.1@)),
            out@ == old(out)@ + cases_text(sv.take(i as int), ind),
        decreases items.len() - i,
    {
        proof {
            assert(decreases_to!(*items => items@));
            assert(decreases_to!(items@ => items@[i as int]));
            assert(decreases_to!(items@[i as int] => items@[i as int].0));
            assert(decreases_to!(items@[i as int] => items@[i as int].1));
        }
        write_newline(out, pad, Ghost(ind));
        write_expr(out, &items[i].0, pad, Ghost(ind));
        push_str(out, " => ");
        write_expr(out, &items[i].1, pad, Ghost(ind));
        push_str(out, ";");
        assert(sv.take(i + 1).drop_last() =~= sv.take(i as int));
        i = i + 1;
    }
    assert(sv.take(items@.len() as int) =~= sv);
}

fn write_matchers(out: &mut String, ms: &Vec<Matcher>, pad: &str, Ghost(ind): Ghost<nat>)
    requires
        pad@ == indent_v(ind),
    ensures
        final(out)@ == old(out)@ + matchers_text(matchers_v(ms@), ind),
    decreases ms, 0nat,
{
    proof { lemma_matchers_v(ms@); }
    let ghost sv = matchers_v(ms@);
    let mut i: usize = 0;
    while i < ms.len()
        invariant
            i <= ms@.len(),
            pad@ == indent_v(ind),
            sv == matchers_v(ms@),
            sv == ms@.map_values(|m: Matcher| m@),
            out@ == old(out)@ + matchers_text(sv.take(i as int), ind),
        decreases ms.len() - i,
    {
        proof {
            assert(decreases_to!(*ms => ms@));
            assert(decreases_to!(ms@ => ms@[i as int]));
        }
        if i > 0 {
            push_str(out, ", ");
        }
        write_matcher(out, &ms[i], pad, Ghost(ind));
        assert(sv.take(i + 1).drop_last() =~= sv.take(i as int));
        i = i + 1;
    }
    assert(sv.take(ms@.len() as int) =~= sv);
}

fn write_omatch(out: &mut String, items: &Vec<(String, Matcher, Option<Expr>)>, pad: &str, Ghost(ind): Ghost<nat>)
    requires
        pad@ == indent_v(ind),
    ensures
        final(out)@ == old(out)@ + omatch_text(omatch_v(items@), ind),
    decreases items, 0nat,
{
    proof { lemma_omatch_v(items@); }
    let ghost sv = omatch_v(items@);
    let mut i: usize = 0;
    while i < items.len()
        invariant
            i <= items@.len(),
            pad@ == indent_v(ind),
            sv == omatch_v(items@),
            sv == items@.map_values(|p: (String, Matcher, Option<Expr>)| (p.0@, p.1@, opt_v(p.2))),
            out@ == old(out)@ + omatch_text(sv.take(i as int), ind),
        decreases items.len() - i,
    {
        proof {
            assert(decreases_to!(*items => items@));
            assert(decreases_to!(items@ => items@[i as int]));
            assert(decreases_to!(items@[i as int] => items@[i as int].1));
            assert(decreases_to!(items@[i as int] => items@[i as int].2));
        }
        if i > 0 {
            push_str(out, ", ");
        }
        let ghost before = out@;
        let item = &items[i];
        push_str(out, item.0.as_str());
        match &item.1 {
            Matcher::Ident(n) => {
                if !str_eq(n.as_str(), item.0.as_str()) {
                    push_str(out, " = ");
                    push_str(out, n.as_str());
                }
            },
            _ => {
                push_str(out, " = ");
                write_matcher(out, &item.1, pad, Ghost(ind));
            },
        }
        match &item.2 {
            Some(d) => {
                proof { assert(decreases_to!(item.2 => item.2->0)); }
                push_str(out, " ? ");
                write_expr(out, d, pad, Ghost(ind));
            },
            None => {},
        }
        assert(out@ == before + omatch_item_text(sv[i as int], ind));
        assert(sv.take(i + 1).drop_last() =~= sv.take(i as int));
        i = i + 1;
    }
    assert(sv.take(items@.len() as int) =~= sv);
}

fn write_matcher(out: &mut String, m: &Matcher, pad: &str, Ghost(ind): Ghost<nat>)
    requires
        pad@ == indent_v(ind),
    ensures
        final(out)@ == old(out)@ + matcher_text(m@, ind),
    decreases m, 0nat,
{
    match m {
        Matcher::Alias(inner, name) => {
            write_matcher(out, &**inner, pad, Ghost(ind));
            push_str(out, "@");
            push_str(out, name.as_str());
        },
        Matcher::DontCare => push_str(out, "_"),
        Matcher::Ident(name) => push_str(out, name.as_str()),
        Matcher::Tuple(ms) => {
            push_str(out, "(");
            write_matchers(out, ms, pad, Ghost(ind));
            push_str(out, ")");
        },
        Matcher::Object(items, all) => {
            push_str(out, "{");
            write_omatch(out, items, pad, Ghost(ind));
            if !*all {
                if items.len() == 0 {
                    push_str(out, "...");
                } else {
                    push_str(out, ", ...");
                }
            }
            push_str(out, "}");
        },
    }
}

fn write_attrsel(out: &mut String, t: &ExprType, pad: &str, Ghost(ind): Ghost<nat>)
    requires
        pad@ == indent_v(ind),
        t is AttrSel,
    ensures
        final(out)@ == old(out)@ + tok_text(t@, ind),
    decreases t, 0nat,
{
    match t {
        ExprType::AttrSel(v, a) => {
            write_expr(out, v, pad, Ghost(ind));
            let ghost mid = out@;
            let ghost av = a@;
            let name_opt: Option<&String> = match &a.0.tok {
                ExprType::Value(Value::String(name)) => if is_valid_new_name(name.as_str()) { Some(name) } else { None },
                _ => None,
            };
            assert(name_opt is Some <==> (av.tok matches TokV::Value(ValueV::Str(n)) && crate::text::spec_is_ident(n)));
            match name_opt {
                Some(name) => {
                    assert(av.tok == TokV::Value(ValueV::Str(name@)));
                    push_char(out, '.');
                    push_str(out, name.as_str());
                    assert(out@ == mid + (seq!['.'] + name@));
                },
                None => {
                    let p1 = deeper(pad, Ghost(ind));
                    push_str(out, ".{");
                    write_expr(out, a, p1.as_str(), Ghost(ind + 1));
                    push_str(out, "}");
                },
            }
        },
        _ => {},
    }
}

#[verifier::rlimit(100)]
#[verifier::spinoff_prover]
fn write_tok_block(out: &mut String, t: &ExprType, pad: &str, Ghost(ind): Ghost<nat>)
    requires
        pad@ == indent_v(ind),
    ensures
        (t is Let || t is Fold || t is Mapping)
            ==> final(out)@ == old(out)@ + tok_text(t@, ind),
    decreases t, 0nat,
{
    match t {
        ExprType::Let(items, b) => {
            let p1 = deeper(pad, Ghost(ind));
            push_str(out, "let");
            write_lets(out, items, p1.as_str(), Ghost(ind + 1));
            write_newline(out, pad, Ghost(ind));
            push_str(out, "in");
            write_newline(out, p1.as_str(), Ghost(ind + 1));
            write_expr(out, b, p1.as_str(), Ghost(ind + 1));
            assert(out@ =~= old(out)@ + tok_text(t@, ind));
        },
        ExprType::Fold(f, i, inp) => {
            let p1 = deeper(pad, Ghost(ind));
            push_str(out, "( ");
            write_newline(out, p1.as_str(), Ghost(ind + 1));
            write_expr(out, f, p1.as_str(), Ghost(ind + 1));
            write_newline(out, pad, Ghost(ind));
            push_str(out, " for ");
            write_newline(out, p1.as_str(), Ghost(ind + 1));
            write_expr(out, i, p1.as_str(), Ghost(ind + 1));
            push_str(out, " | ");
            write_expr(out, inp, p1.as_str(), Ghost(ind + 1));
            write_newline(out, pad, Ghost(ind));
            push_str(out, " )");
            assert(out@ =~= old(out)@ + tok_text(t@, ind));
        },
        ExprType::Mapping(typ, f, inp, filt) => {
            let p1 = deeper(pad, Ghost(ind));
            match typ {
                ExprMapType::List => push_str(out, "[ "),
                ExprMapType::Object => push_str(out, "{ "),
            }
            write_newline(out, p1.as_str(), Ghost(ind + 1));
            write_expr(out, f, p1.as_str(), Ghost(ind + 1));
            write_newline(out, pad, Ghost(ind));
            push_str(out, " for ");
            write_newline(out, p1.as_str(), Ghost(ind + 1));
            write_expr(out, inp, p1.as_str(), Ghost(ind + 1));
            write_newline(out, pad, Ghost(ind));
            match filt {
                Some(x) => {
                    proof { assert(decreases_to!(*filt => filt->0)); }
                    push_str(out, " if ");
                    write_newline(out, p1.as_str(), Ghost(ind + 1));
                    write_expr(out, x, p1.as_str(), Ghost(ind + 1));
                    write_newline(out, pad, Ghost(ind));
                },
                None => {},
            }
            match typ {
                ExprMapType::List => push_str(out, " ]"),
                ExprMapType::Object => push_str(out, " }"),
            }
            assert(out@ =~= old(out)@ + tok_text(t@, ind));
        },
        _ => {},
    }
}

#[verifier::rlimit(80)]
fn write_tok_block2(out: &mut String, t: &ExprType, pad: &str, Ghost(ind): Ghost<nat>)
    requires
        pad@ == indent_v(ind),
    ensures
        (t is FuncCall || t is Bind || t is Switch) ==> final(out)@ == old(out)@ + tok_text(t@, ind),
    decreases t, 0nat,
{
    match t {
        ExprType::FuncCall(a, f) => {
            let p1 = deeper(pad, Ghost(ind));
            push_str(out, "(");
            write_newline(out, p1.as_str(), Ghost(ind + 1));
            write_expr(out, f, p1.as_str(), Ghost(ind + 1));
            write_newline(out, pad, Ghost(ind));
            push_str(out, ") (");
            write_newline(out, p1.as_str(), Ghost(ind + 1));
            write_expr(out, a, p1.as_str(), Ghost(ind + 1));
            write_newline(out, pad, Ghost(ind));
            push_str(out, ")");
            assert(out@ =~= old(out)@ + tok_text(t@, ind));
        },
        ExprType::Bind(scope, b) => {
            let p1 = deeper(pad, Ghost(ind));
            push_str(out, "bind");
            write_fields(out, scope, p1.as_str(), Ghost(ind + 1));
            write_newline(out, pad, Ghost(ind));
            push_str(out, "in");
            write_newline(out, p1.as_str(), Ghost(ind + 1));
            write_expr(out, b, p1.as_str(), Ghost(ind + 1));
            assert(out@ =~= old(out)@ + tok_text(t@, ind));
        },
        ExprType::Switch(x, cases, d) => {
            let p1 = deeper(pad, Ghost(ind));
            let p2 = deeper(p1.as_str(), Ghost(ind + 1));
            push_str(out, "match ");
            write_expr(out, x, p1.as_str(), Ghost(ind + 1));
            push_str(out, " {");
            write_cases(out, cases, p2.as_str(), Ghost(ind + 2));
            match d {
                Some(de) => {
                    proof { assert(decreases_to!(*d => d->0)); }
                    write_newline(out, p2.as_str(), Ghost(ind + 2));
                    push_str(out, "_ => ");
                    write_expr(out, de, p2.as_str(), Ghost(ind + 2));
                    push_str(out, ";");
                },
                None => {},
            }
            write_newline(out, p1.as_str(), Ghost(ind + 1));
            push_str(out, "}");
            assert(out@ =~= old(out)@ + tok_text(t@, ind));
        },
        _ => {},
    }
}

#[verifier::rlimit(80)]
fn write_tok(out: &mut String, t: &ExprType, pad: &str, Ghost(ind): Ghost<nat>)
    requires
        pad@ == indent_v(ind),
    ensures
        final(out)@ == old(out)@ + tok_text(t@, ind),
    decreases t, 1nat,
{
    match t {
        ExprType::Object(fs) => {
            let p1 = deeper(pad, Ghost(ind));
            push_str(out, "{");
            write_fields(out, fs, p1.as_str(), Ghost(ind + 1));
            write_newline(out, pad, Ghost(ind));
            push_str(out, "}");
            assert(out@ =~= old(out)@ + tok_text(t@, ind));
        },
        ExprType::List(items) => {
            let p1 = deeper(pad, Ghost(ind));
            push_str(out, "[");
            write_items(out, items, p1.as_str(), Ghost(ind + 1));
            write_newline(out, pad, Ghost(ind));
            push_str(out, "]");
            assert(out@ =~= old(out)@ + tok_text(t@, ind));
        },
        ExprType::Tuple(items) => {
            let p1 = deeper(pad, Ghost(ind));
            push_str(out, "(");
            write_items(out, items, p1.as_str(), Ghost(ind + 1));
            write_newline(out, pad, Ghost(ind));
            push_str(out, ")");
            assert(out@ =~= old(out)@ + tok_text(t@, ind));
        },
        ExprType::Concat(items) => {
            write_plus(out, items, pad, Ghost(ind));
            assert(out@ =~= old(out)@ + tok_text(t@, ind));
        },
        ExprType::AttrSel(..) => {
            write_attrsel(out, t, pad, Ghost(ind));
        },
        ExprType::Value(v) => {
            v.write_text(out);
            assert(out@ =~= old(out)@ + tok_text(t@, ind));
        },
        ExprType::Var(n) => {
            push_str(out, n.as_str());
            assert(out@ =~= old(out)@ + tok_text(t@, ind));
        },
        ExprType::UnOp(op, x) => {
            match op {
                ExprUnOp::Neg => push_str(out, "-"),
                ExprUnOp::Not => push_str(out, "!"),
            }
            push_str(out, "(");
            write_expr(out, x, pad, Ghost(ind));
            push_str(out, ")");
            assert(out@ =~= old(out)@ + tok_text(t@, ind));
        },
        ExprType::BinOp(op, l, r) => {
            push_str(out, "(");
            write_expr(out, l, pad, Ghost(ind));
            push_str(out, ")");
            push_str(out, binop_str(*op));
            push_str(out, "(");
            write_expr(out, r, pad, Ghost(ind));
            push_str(out, ")");
            assert(out@ =~= old(out)@ + tok_text(t@, ind));
        },
        ExprType::FuncDef(m, b) => {
            push_str(out, "|");
            write_matcher(out, m, pad, Ghost(ind));
            push_str(out, "| ");
            write_expr(out, b, pad, Ghost(ind));
            assert(out@ =~= old(out)@ + tok_text(t@, ind));
        },
        ExprType::FuncDefBuiltin(b) => {
            push_str(out, "<builtin ");
            push_str(out, b.get_name());
            push_str(out, ">");
            assert(out@ =~= old(out)@ + tok_text(t@, ind));
        },
        ExprType::Let(..) | ExprType::Fold(..) | ExprType::Mapping(..) => {
            write_tok_block(out, t, pad, Ghost(ind));
        },
        ExprType::FuncCall(..) | ExprType::Bind(..) | ExprType::Switch(..) => {
            write_tok_block2(out, t, pad, Ghost(ind));
        },
        ExprType::Null => {
            push_str(out, "null");
            assert(out@ =~= old(out)@ + tok_text(t@, ind));
        },
    }
}


impl Expr {
    /// How this expression is shown.
    pub fn to_text(&self) -> (r: String)
        ensures
            r@ == expr_text(self@, 0),
    {
        let mut out = String::new();
        let pad = String::new();
        assert(pad@ == indent_v(0));
        write_expr(&mut out, self, pad.as_str(), Ghost(0));
        assert(out@ =~= expr_text(self@, 0));
        out
    }
}

} // verus!
