use vstd::prelude::*;
use crate::error::{Error, ErrorType, ErrorV, LocView, err_v, reref_v, opt_loc_view, copy_loc};
use crate::expr::{Expr, ExprV, ExprType, TokV, Matcher, MatcherV, ExprStorage, Builtin, BuiltinV, ExprBinOp, ExprUnOp, ExprMapType, set_v, exprs_v, lets_v, cases_v, omatch_v, matchers_v, opt_v, opt_box_v, lemma_set_v, lemma_exprs_v, lemma_lets_v, lemma_cases_v, lemma_omatch_v, lemma_matchers_v, expr_text};
use crate::text::{copy_str, str_eq, str_lt, seq_lt, sorted_pos};
use crate::value::{Value, ValueV};

verus! {

/* Variable spaces: entries kept in name order, looked up by name */

pub open spec fn set_keys(s: Seq<(Seq<char>, ExprV)>) -> Seq<Seq<char>> {
    s.map_values(|p: (Seq<char>, ExprV)| p.0)
}

/// The index of the first entry named `k`, or -1.
pub open spec fn set_find(s: Seq<(Seq<char>, ExprV)>, k: Seq<char>) -> int
    decreases s.len(),
{
    if s.len() == 0 {
        -1
    } else if s[0].0 == k {
        0
    } else {
        let r = set_find(s.drop_first(), k);
        if r < 0 { -1 } else { r + 1 }
    }
}

/// The value of the entry named `k`.
pub open spec fn set_get(s: Seq<(Seq<char>, ExprV)>, k: Seq<char>) -> Option<ExprV> {
    let i = set_find(s, k);
    if i >= 0 { Some(s[i].1) } else { None }
}

/// `s` with `k` set to `v`: an entry named `k` is replaced, otherwise a
/// new one goes in before the first name that does not sort before `k`.
pub open spec fn set_insert(s: Seq<(Seq<char>, ExprV)>, k: Seq<char>, v: ExprV) -> Seq<(Seq<char>, ExprV)> {
    let i = set_find(s, k);
    if i >= 0 { s.update(i, (k, v)) } else { s.insert(sorted_pos(set_keys(s), k), (k, v)) }
}

/// Every entry of `b`, in order, set into `a`.
pub open spec fn set_append(a: Seq<(Seq<char>, ExprV)>, b: Seq<(Seq<char>, ExprV)>) -> Seq<(Seq<char>, ExprV)>
    decreases b.len(),
{
    if b.len() == 0 {
        a
    } else {
        let prev = set_append(a, b.drop_last());
        set_insert(prev, b.last().0, b.last().1)
    }
}

pub proof fn lemma_set_find(s: Seq<(Seq<char>, ExprV)>, k: Seq<char>)
    ensures
        -1 <= set_find(s, k) < s.len(),
        set_find(s, k) >= 0 ==> s[set_find(s, k)].0 == k,
        forall|j: int| 0 <= j < s.len() && (set_find(s, k) < 0 || j < set_find(s, k)) ==> s[j].0 != k,
    decreases s.len(),
{
    if s.len() > 0 && s[0].0 != k {
        lemma_set_find(s.drop_first(), k);
        assert forall|j: int| 0 <= j < s.len() && (set_find(s, k) < 0 || j < set_find(s, k)) implies s[j].0 != k by {
            if j > 0 {
                assert(s[j] == s.drop_first()[j - 1]);
            }
        }
    }
}

proof fn lemma_set_find_is(s: Seq<(Seq<char>, ExprV)>, k: Seq<char>, i: int)
    requires
        i == -1 ==> forall|j: int| 0 <= j < s.len() ==> s[j].0 != k,
        i != -1 ==> 0 <= i < s.len() && s[i].0 == k && forall|j: int| 0 <= j < i ==> s[j].0 != k,
    ensures
        set_find(s, k) == i,
{
    lemma_set_find(s, k);
    let f = set_find(s, k);
    if f >= 0 && i != -1 {
        if f < i {
            assert(s[f].0 != k);
        } else if i < f {
            assert(s[i].0 != k);
        }
    } else if f >= 0 {
        assert(s[f].0 != k);
    }
}

proof fn lemma_sorted_pos_range(keys: Seq<Seq<char>>, x: Seq<char>)
    ensures
        0 <= sorted_pos(keys, x) <= keys.len(),
    decreases keys.len(),
{
    if keys.len() > 0 && seq_lt(keys[0], x) {
        lemma_sorted_pos_range(keys.drop_first(), x);
    }
}

/// Reading a name right after setting it gives the value set; every other
/// name reads as it did before.
pub proof fn lemma_set_insert_get(s: Seq<(Seq<char>, ExprV)>, k: Seq<char>, v: ExprV, k2: Seq<char>)
    ensures
        set_get(set_insert(s, k, v), k2) == if k2 == k { Some(v) } else { set_get(s, k2) },
{
    lemma_set_find(s, k);
    lemma_set_find(s, k2);
    let i = set_find(s, k);
    let f2 = set_find(s, k2);
    if i >= 0 {
        let t = s.update(i, (k, v));
        if k2 == k {
            lemma_set_find_is(t, k, i);
        } else {
            assert(f2 != i);
            assert forall|j: int| 0 <= j < t.len() implies t[j].0 == s[j].0 by {}
            lemma_set_find_is(t, k2, f2);
        }
    } else {
        let p = sorted_pos(set_keys(s), k);
        lemma_sorted_pos_range(set_keys(s), k);
        let t = s.insert(p, (k, v));
        assert(t.len() == s.len() + 1);
        assert forall|j: int| 0 <= j < p implies t[j] == s[j] by {}
        assert forall|j: int| p < j < t.len() implies t[j] == s[j - 1] by {}
        assert(t[p] == (k, v));
        if k2 == k {
            lemma_set_find_is(t, k, p);
        } else if f2 >= 0 {
            let g = if f2 < p { f2 } else { f2 + 1 };
            assert(t[g] == s[f2]);
            assert forall|j: int| 0 <= j < g implies t[j].0 != k2 by {
                if j < p {
                } else if j > p {
                    assert(t[j] == s[j - 1]);
                }
            }
            lemma_set_find_is(t, k2, g);
        } else {
            assert forall|j: int| 0 <= j < t.len() implies t[j].0 != k2 by {
                if j > p {
                    assert(t[j] == s[j - 1]);
                }
            }
            lemma_set_find_is(t, k2, -1);
        }
    }
}

/// Updating an object with `//`: the names of the result are those of
/// both sides; a name the right side has reads as the right side's value,
/// any other name reads as it did on the left (the names of the right side
/// are distinct, as those of an object are).
pub proof fn lemma_update_right_wins(a: Seq<(Seq<char>, ExprV)>, b: Seq<(Seq<char>, ExprV)>, k: Seq<char>)
    requires
        forall|i: int, j: int| 0 <= i < j < b.len() ==> b[i].0 != b[j].0,
    ensures
        set_get(set_append(a, b), k) == if set_get(b, k) is Some { set_get(b, k) } else { set_get(a, k) },
        set_get(set_append(a, b), k) is Some <==> (set_get(a, k) is Some || set_get(b, k) is Some),
    decreases b.len(),
{
    if b.len() > 0 {
        let d = b.drop_last();
        lemma_update_right_wins(a, d, k);
        lemma_set_insert_get(set_append(a, d), b.last().0, b.last().1, k);
        lemma_set_find(d, k);
        if b.last().0 == k {
            lemma_set_find_is(b, k, b.len() - 1);
        } else {
            let f = set_find(d, k);
            if f >= 0 {
                assert(b[f] == d[f]);
                assert forall|j: int| 0 <= j < f implies b[j].0 != k by {
                    assert(b[j] == d[j]);
                }
            } else {
                assert forall|j: int| 0 <= j < b.len() implies b[j].0 != k by {
                    if j < d.len() {
                        assert(b[j] == d[j]);
                    }
                }
            }
            lemma_set_find_is(b, k, f);
        }
    }
}

/// A scan that stops at the first key not sorting before `x` finds
/// `sorted_pos`.
pub proof fn lemma_first_not_before(keys: Seq<Seq<char>>, x: Seq<char>, i: int)
    requires
        0 <= i <= keys.len(),
        forall|j: int| 0 <= j < i ==> seq_lt(#[trigger] keys[j], x),
        i == keys.len() || !seq_lt(keys[i], x),
    ensures
        i == sorted_pos(keys, x),
    decreases i,
{
    if i > 0 {
        let rest = keys.drop_first();
        assert forall|j: int| 0 <= j < i - 1 implies seq_lt(#[trigger] rest[j], x) by {
            assert(rest[j] == keys[j + 1]);
        }
        if i < keys.len() {
            assert(rest[i - 1] == keys[i]);
        }
        assert(seq_lt(keys[0], x));
        lemma_first_not_before(rest, x, i - 1);
    }
}

/// The index of the entry named `k`, if there is one.
pub fn find_key(s: &Vec<(String, Expr)>, k: &str) -> (r: Option<usize>)
    ensures
        match r {
            Some(i) => i as int == set_find(set_v(s@), k@),
            None => set_find(set_v(s@), k@) < 0,
        },
{
    proof {
        lemma_set_v(s@);
        lemma_set_find(set_v(s@), k@);
    }
    let ghost sv = set_v(s@);
    let mut i: usize = 0;
    while i < s.len()
        invariant
            i <= s@.len(),
            sv == set_v(s@),
            sv == s@.map_values(|p: (String, Expr)| (p.0@, p.1@)),
            forall|j: int| 0 <= j < i ==> sv[j].0 != k@,
            -1 <= set_find(sv, k@) < sv.len(),
            set_find(sv, k@) >= 0 ==> sv[set_find(sv, k@)].0 == k@,
            forall|j: int| 0 <= j < sv.len() && (set_find(sv, k@) < 0 || j < set_find(sv, k@)) ==> sv[j].0 != k@,
        decreases s.len() - i,
    {
        if str_eq(s[i].0.as_str(), k) {
            assert(sv[i as int].0 == k@);
            return Some(i);
        }
        i = i + 1;
    }
    None
}

/// Sets `k` to `v` in the variable space `s`.
pub fn set_insert_exec(s: &mut Vec<(String, Expr)>, k: String, v: Expr)
    ensures
        set_v(final(s)@) == set_insert(set_v(old(s)@), k@, v@),
{
    proof {
        lemma_set_v(old(s)@);
    }
    let ghost sv = set_v(s@);
    proof { lemma_set_find(sv, k@); }
    assert(sv.len() == s@.len());
    match find_key(s, k.as_str()) {
        Some(i) => {
            let ghost kv = k@;
            let ghost vv = v@;
            s.set(i, (k, v));
            proof {
                lemma_set_v(s@);
                assert(set_v(s@) =~= sv.update(i as int, (kv, vv)));
            }
        },
        None => {
            let ghost keys = set_keys(sv);
            let mut p: usize = 0;
            while p < s.len() && str_lt(s[p].0.as_str(), k.as_str())
                invariant
                    p <= s@.len(),
                    s@ == old(s)@,
                    sv == set_v(s@),
                    sv == s@.map_values(|e: (String, Expr)| (e.0@, e.1@)),
                    keys == set_keys(sv),
                    forall|j: int| 0 <= j < p ==> seq_lt(#[trigger] keys[j], k@),
                decreases s.len() - p,
            {
                assert(keys[p as int] == s@[p as int].0@);
                p = p + 1;
            }
            proof {
                if p < s@.len() {
                    assert(keys[p as int] == s@[p as int].0@);
                }
                lemma_first_not_before(keys, k@, p as int);
            }
            let ghost kv = k@;
            let ghost vv = v@;
            s.insert(p, (k, v));
            proof {
                lemma_set_v(s@);
                assert(set_v(s@) =~= sv.insert(p as int, (kv, vv)));
            }
        },
    }
}

/// Sets every entry of `b`, in order, into `a`.
pub fn set_append_exec(a: &mut Vec<(String, Expr)>, b: Vec<(String, Expr)>)
    ensures
        set_v(final(a)@) == set_append(set_v(old(a)@), set_v(b@)),
{
    proof { lemma_set_v(b@); }
    let ghost bv = set_v(b@);
    let mut rest = b;
    let ghost b0 = rest@;
    let mut i: usize = 0;
    let n = rest.len();
    while rest.len() > 0
        invariant
            n == bv.len(),
            rest@.len() + i == n,
            bv == b0.map_values(|p: (String, Expr)| (p.0@, p.1@)),
            b0.len() == n,
            rest@ == b0.subrange(i as int, n as int),
            set_v(a@) == set_append(set_v(old(a)@), bv.take(i as int)),
        decreases rest.len(),
    {
        let (k, v) = rest.remove(0);
        assert(bv.take(i + 1).drop_last() =~= bv.take(i as int));
        set_insert_exec(a, k, v);
        assert(rest@ =~= b0.subrange(i + 1, n as int));
        i = i + 1;
    }
    assert(bv.take(n as int) =~= bv);
}

/* Referenced variables */

/// The names an expression refers to, in the order they occur (with
/// repeats).
pub open spec fn refs_v(e: ExprV) -> Seq<Seq<char>>
    decreases e, 0nat,
{
    tok_refs(e.tok)
}

pub open spec fn opt_refs(o: Option<Box<ExprV>>) -> Seq<Seq<char>>
    decreases o, 0nat,
{
    match o {
        Some(x) => refs_v(*x),
        None => Seq::empty(),
    }
}

pub open spec fn tok_refs(t: TokV) -> Seq<Seq<char>>
    decreases t, 0nat,
{
    match t {
        TokV::Object(fs) => fields_refs(fs),
        TokV::List(items) => items_refs(items),
        TokV::Tuple(items) => items_refs(items),
        TokV::Concat(items) => items_refs(items),
        TokV::AttrSel(v, a) => refs_v(*v) + refs_v(*a),
        TokV::Value(_) => Seq::empty(),
        TokV::Var(n) => seq![n],
        TokV::UnOp(_, x) => refs_v(*x),
        TokV::BinOp(_, l, r) => refs_v(*l) + refs_v(*r),
        TokV::FuncDef(m, b) => mrefs(m) + refs_v(*b),
        TokV::FuncDefBuiltin(_) => Seq::empty(),
        TokV::Let(bs, b) => lets_refs(bs) + refs_v(*b),
        TokV::Fold(f, i, inp) => refs_v(*f) + refs_v(*i) + refs_v(*inp),
        TokV::Mapping(_, f, inp, filt) => refs_v(*f) + refs_v(*inp) + opt_refs(filt),
        TokV::FuncCall(a, f) => refs_v(*a) + refs_v(*f),
        TokV::Bind(vs, b) => fields_refs(vs) + refs_v(*b),
        TokV::Switch(x, cs, d) => refs_v(*x) + cases_refs(cs) + opt_refs(d),
        TokV::Null => Seq::empty(),
    }
}

pub open spec fn items_refs(items: Seq<ExprV>) -> Seq<Seq<char>>
    decreases items, 0nat,
{
    if items.len() == 0 { Seq::empty() } else { items_refs(items.drop_last()) + refs_v(items.last()) }
}

/// The names a list of expressions refers to are those its items refer
/// to: a name occurs exactly when it occurs in one of the items.
pub proof fn lemma_items_refs_union(items: Seq<ExprV>, n: Seq<char>)
    ensures
        items_refs(items).contains(n) <==> exists|i: int| 0 <= i < items.len() && #[trigger] refs_v(items[i]).contains(n),
    decreases items.len(),
{
    if items.len() > 0 {
        let d = items.drop_last();
        lemma_items_refs_union(d, n);
        let l = items_refs(d);
        let r = refs_v(items.last());
        if (l + r).contains(n) {
            let j = choose|j: int| 0 <= j < (l + r).len() && (l + r)[j] == n;
            if j < l.len() {
                assert(l[j] == n);
                let i = choose|i: int| 0 <= i < d.len() && #[trigger] refs_v(d[i]).contains(n);
                assert(items[i] == d[i]);
            } else {
                assert(r[j - l.len()] == n);
                assert(refs_v(items[items.len() - 1]).contains(n));
            }
        }
        if exists|i: int| 0 <= i < items.len() && #[trigger] refs_v(items[i]).contains(n) {
            let i = choose|i: int| 0 <= i < items.len() && #[trigger] refs_v(items[i]).contains(n);
            if i < d.len() {
                assert(items[i] == d[i]);
                assert(l.contains(n));
                let j = choose|j: int| 0 <= j < l.len() && l[j] == n;
                assert((l + r)[j] == n);
            } else {
                let j = choose|j: int| 0 <= j < r.len() && r[j] == n;
                assert((l + r)[l.len() + j] == n);
            }
        }
    }
}

/// The names a binary operation refers to are those of its two operands.
pub proof fn lemma_binop_refs_union(op: ExprBinOp, l: ExprV, r: ExprV, loc: Option<LocView>, n: Seq<char>)
    ensures
        refs_v(ExprV { tok: TokV::BinOp(op, Box::new(l), Box::new(r)), loc }).contains(n)
            <==> (refs_v(l).contains(n) || refs_v(r).contains(n)),
{
    let a = refs_v(l);
    let b = refs_v(r);
    if (a + b).contains(n) {
        let j = choose|j: int| 0 <= j < (a + b).len() && (a + b)[j] == n;
        if j < a.len() {
            assert(a[j] == n);
        } else {
            assert(b[j - a.len()] == n);
        }
    }
    if a.contains(n) {
        let j = choose|j: int| 0 <= j < a.len() && a[j] == n;
        assert((a + b)[j] == n);
    }
    if b.contains(n) {
        let j = choose|j: int| 0 <= j < b.len() && b[j] == n;
        assert((a + b)[a.len() + j] == n);
    }
}

pub open spec fn fields_refs(fs: Seq<(Seq<char>, ExprV)>) -> Seq<Seq<char>>
    decreases fs, 0nat,
{
    if fs.len() == 0 { Seq::empty() } else { fields_refs(fs.drop_last()) + refs_v(fs.last().1) }
}

pub open spec fn lets_refs(bs: Seq<(MatcherV, ExprV)>) -> Seq<Seq<char>>
    decreases bs, 0nat,
{
    if bs.len() == 0 {
        Seq::empty()
    } else {
        lets_refs(bs.drop_last()) + refs_v(bs.last().1) + mrefs(bs.last().0)
    }
}

pub open spec fn cases_refs(cs: Seq<(ExprV, ExprV)>) -> Seq<Seq<char>>
    decreases cs, 0nat,
{
    if cs.len() == 0 {
        Seq::empty()
    } else {
        cases_refs(cs.drop_last()) + refs_v(cs.last().0) + refs_v(cs.last().1)
    }
}

/// The names a matcher refers to: those in the defaults of its object
/// fields.
pub open spec fn mrefs(m: MatcherV) -> Seq<Seq<char>>
    decreases m, 0nat,
{
    match m {
        MatcherV::Alias(inner, _) => mrefs(*inner),
        MatcherV::DontCare => Seq::empty(),
        MatcherV::Ident(_) => Seq::empty(),
        MatcherV::Tuple(ms) => ms_refs(ms),
        MatcherV::Object(items, _) => omatch_refs(items),
    }
}

pub open spec fn ms_refs(ms: Seq<MatcherV>) -> Seq<Seq<char>>
    decreases ms, 0nat,
{
    if ms.len() == 0 { Seq::empty() } else { ms_refs(ms.drop_last()) + mrefs(ms.last()) }
}

pub open spec fn omatch_refs(items: Seq<(Seq<char>, MatcherV, Option<ExprV>)>) -> Seq<Seq<char>>
    decreases items, 0nat,
{
    if items.len() == 0 {
        Seq::empty()
    } else {
        omatch_refs(items.drop_last()) + mrefs(items.last().1) + (match items.last().2 {
            Some(d) => refs_v(d),
            None => Seq::empty(),
        })
    }
}

fn collect_expr(acc: &mut Vec<String>, e: &Expr)
    ensures
        final(acc).deep_view() == old(acc).deep_view() + refs_v(e@),
    decreases e, 2nat,
{
    collect_tok(acc, &e.0.tok);
}

fn push_name(acc: &mut Vec<String>, n: &String)
    ensures
        final(acc).deep_view() == old(acc).deep_view().push(n@),
{
    let ghost before = acc.deep_view();
    acc.push(copy_str(n.as_str()));
    assert(acc.deep_view() =~= before.push(n@));
}

fn collect_opt(acc: &mut Vec<String>, o: &Option<Expr>)
    ensures
        final(acc).deep_view() == old(acc).deep_view() + opt_refs(opt_box_v(*o)),
    decreases o, 0nat,
{
    match o {
        Some(x) => {
            proof { assert(decreases_to!(*o => o->0)); }
            collect_expr(acc, x);
        },
        None => {
            assert(acc.deep_view() =~= old(acc).deep_view() + Seq::<Seq<char>>::empty());
        },
    }
}

fn collect_items(acc: &mut Vec<String>, items: &Vec<Expr>)
    ensures
        final(acc).deep_view() == old(acc).deep_view() + items_refs(exprs_v(items@)),
    decreases items, 0nat,
{
    proof { lemma_exprs_v(items@); }
    let ghost sv = exprs_v(items@);
    let mut i: usize = 0;
    assert(old(acc).deep_view() + items_refs(sv.take(0)) =~= old(acc).deep_view());
    while i < items.len()
        invariant
            i <= items@.len(),
            sv == items@.map_values(|e: Expr| e@),
            acc.deep_view() == old(acc).deep_view() + items_refs(sv.take(i as int)),
        decreases items.len() - i,
    {
        proof {
            assert(decreases_to!(*items => items@));
            assert(decreases_to!(items@ => items@[i as int]));
        }
        collect_expr(acc, &items[i]);
        assert(sv.take(i + 1).drop_last() =~= sv.take(i as int));
        i = i + 1;
    }
    assert(sv.take(items@.len() as int) =~= sv);
}

fn collect_fields(acc: &mut Vec<String>, fs: &Vec<(String, Expr)>)
    ensures
        final(acc).deep_view() == old(acc).deep_view() + fields_refs(set_v(fs@)),
    decreases fs, 0nat,
{
    proof { lemma_set_v(fs@); }
    let ghost sv = set_v(fs@);
    let mut i: usize = 0;
    assert(old(acc).deep_view() + fields_refs(sv.take(0)) =~= old(acc).deep_view());
    while i < fs.len()
        invariant
            i <= fs@.len(),
            sv == fs@.map_values(|p: (String, Expr)| (p.0@, p.1@)),
            acc.deep_view() == old(acc).deep_view() + fields_refs(sv.take(i as int)),
        decreases fs.len() - i,
    {
        proof {
            assert(decreases_to!(*fs => fs@));
            assert(decreases_to!(fs@ => fs@[i as int]));
            assert(decreases_to!(fs@[i as int] => fs@[i as int].1));
        }
        collect_expr(acc, &fs[i].1);
        assert(sv.take(i + 1).drop_last() =~= sv.take(i as int));
        i = i + 1;
    }
    assert(sv.take(fs@.len() as int) =~= sv);
}

fn collect_lets(acc: &mut Vec<String>, bs: &Vec<(Matcher, Expr)>)
    ensures
        final(acc).deep_view() == old(acc).deep_view() + lets_refs(lets_v(bs@)),
    decreases bs, 0nat,
{
    proof { lemma_lets_v(bs@); }
    let ghost sv = lets_v(bs@);
    let mut i: usize = 0;
    assert(old(acc).deep_view() + lets_refs(sv.take(0)) =~= old(acc).deep_view());
    while i < bs.len()
        invariant
            i <= bs@.len(),
            sv == bs@.map_values(|p: (Matcher, Expr)| (p.0@, p.1@)),
            acc.deep_view() == old(acc).deep_view() + lets_refs(sv.take(i as int)),
        decreases bs.len() - i,
    {
        proof {
            assert(decreases_to!(*bs => bs@));
            assert(decreases_to!(bs@ => bs@[i as int]));
            assert(decreases_to!(bs@[i as int] => bs@[i as int].0));
            assert(decreases_to!(bs@[i as int] => bs@[i as int].1));
        }
        collect_expr(acc, &bs[i].1);
        collect_matcher(acc, &bs[i].0);
        assert(sv.take(i + 1).drop_last() =~= sv.take(i as int));
        i = i + 1;
    }
    assert(sv.take(bs@.len() as int) =~= sv);
}

fn collect_cases(acc: &mut Vec<String>, cs: &Vec<(Expr, Expr)>)
    ensures
        final(acc).deep_view() == old(acc).deep_view() + cases_refs(cases_v(cs@)),
    decreases cs, 0nat,
{
    proof { lemma_cases_v(cs@); }
    let ghost sv = cases_v(cs@);
    let mut i: usize = 0;
    assert(old(acc).deep_view() + cases_refs(sv.take(0)) =~= old(acc).deep_view());
    while i < cs.len()
        invariant
            i <= cs@.len(),
            sv == cs@.map_values(|p: (Expr, Expr)| (p.0@, p.1@)),
            acc.deep_view() == old(acc).deep_view() + cases_refs(sv.take(i as int)),
        decreases cs.len() - i,
    {
        proof {
            assert(decreases_to!(*cs => cs@));
            assert(decreases_to!(cs@ => cs@[i as int]));
            assert(decreases_to!(cs@[i as int] => cs@[i as int].0));
            assert(decreases_to!(cs@[i as int] => cs@[i as int].1));
        }
        collect_expr(acc, &cs[i].0);
        collect_expr(acc, &cs[i].1);
        assert(sv.take(i + 1).drop_last() =~= sv.take(i as int));
        i = i + 1;
    }
    assert(sv.take(cs@.len() as int) =~= sv);
}

fn collect_matchers(acc: &mut Vec<String>, ms: &Vec<Matcher>)
    ensures
        final(acc).deep_view() == old(acc).deep_view() + ms_refs(matchers_v(ms@)),
    decreases ms, 0nat,
{
    proof { lemma_matchers_v(ms@); }
    let ghost sv = matchers_v(ms@);
    let mut i: usize = 0;
    assert(old(acc).deep_view() + ms_refs(sv.take(0)) =~= old(acc).deep_view());
    while i < ms.len()
        invariant
            i <= ms@.len(),
            sv == ms@.map_values(|m: Matcher| m@),
            acc.deep_view() == old(acc).deep_view() + ms_refs(sv.take(i as int)),
        decreases ms.len() - i,
    {
        proof {
            assert(decreases_to!(*ms => ms@));
            assert(decreases_to!(ms@ => ms@[i as int]));
        }
        collect_matcher(acc, &ms[i]);
        assert(sv.take(i + 1).drop_last() =~= sv.take(i as int));
        i = i + 1;
    }
    assert(sv.take(ms@.len() as int) =~= sv);
}

fn collect_omatch(acc: &mut Vec<String>, items: &Vec<(String, Matcher, Option<Expr>)>)
    ensures
        final(acc).deep_view() == old(acc).deep_view() + omatch_refs(omatch_v(items@)),
    decreases items, 0nat,
{
    proof { lemma_omatch_v(items@); }
    let ghost sv = omatch_v(items@);
    let mut i: usize = 0;
    assert(old(acc).deep_view() + omatch_refs(sv.take(0)) =~= old(acc).deep_view());
    while i < items.len()
        invariant
            i <= items@.len(),
            sv == items@.map_values(|p: (String, Matcher, Option<Expr>)| (p.0@, p.1@, opt_v(p.2))),
            acc.deep_view() == old(acc).deep_view() + omatch_refs(sv.take(i as int)),
        decreases items.len() - i,
    {
        proof {
            assert(decreases_to!(*items => items@));
            assert(decreases_to!(items@ => items@[i as int]));
            assert(decreases_to!(items@[i as int] => items@[i as int].1));
            assert(decreases_to!(items@[i as int] => items@[i as int].2));
        }
        let ghost before = acc.deep_view();
        collect_matcher(acc, &items[i].1);
        match &items[i].2 {
            Some(d) => {
                proof { assert(decreases_to!(items@[i as int].2 => items@[i as int].2->0)); }
                collect_expr(acc, d);
            },
            None => {},
        }
        assert(acc.deep_view() =~= before + mrefs(sv[i as int].1) + (match sv[i as int].2 {
            Some(d) => refs_v(d),
            None => Seq::empty(),
        }));
        assert(sv.take(i + 1).drop_last() =~= sv.take(i as int));
        i = i + 1;
    }
    assert(sv.take(items@.len() as int) =~= sv);
}

fn collect_matcher(acc: &mut Vec<String>, m: &Matcher)
    ensures
        final(acc).deep_view() == old(acc).deep_view() + mrefs(m@),
    decreases m, 0nat,
{
    match m {
        Matcher::Alias(inner, _) => collect_matcher(acc, &**inner),
        Matcher::Tuple(ms) => collect_matchers(acc, ms),
        Matcher::Object(items, _) => collect_omatch(acc, items),
        _ => {
            assert(acc.deep_view() =~= old(acc).deep_view() + Seq::<Seq<char>>::empty());
        },
    }
}

#[verifier::rlimit(60)]
fn collect_tok(acc: &mut Vec<String>, t: &ExprType)
    ensures
        final(acc).deep_view() == old(acc).deep_view() + tok_refs(t@),
    decreases t, 1nat,
{
    let ghost a0 = acc.deep_view();
    match t {
        ExprType::Object(fs) => collect_fields(acc, fs),
        ExprType::List(items) => collect_items(acc, items),
        ExprType::Tuple(items) => collect_items(acc, items),
        ExprType::Concat(items) => collect_items(acc, items),
        ExprType::AttrSel(v, a) => {
            collect_expr(acc, v);
            collect_expr(acc, a);
            assert(acc.deep_view() =~= a0 + tok_refs(t@));
        },
        ExprType::Var(n) => {
            push_name(acc, n);
            assert(acc.deep_view() =~= a0 + tok_refs(t@));
        },
        ExprType::UnOp(_, x) => collect_expr(acc, x),
        ExprType::BinOp(_, l, r) => {
            collect_expr(acc, l);
            collect_expr(acc, r);
            assert(acc.deep_view() =~= a0 + tok_refs(t@));
        },
        ExprType::FuncDef(m, b) => {
            collect_matcher(acc, m);
            collect_expr(acc, b);
            assert(acc.deep_view() =~= a0 + tok_refs(t@));
        },
        ExprType::Let(bs, b) => {
            collect_lets(acc, bs);
            collect_expr(acc, b);
            assert(acc.deep_view() =~= a0 + tok_refs(t@));
        },
        ExprType::Fold(f, i, inp) => {
            collect_expr(acc, f);
            collect_expr(acc, i);
            collect_expr(acc, inp);
            assert(acc.deep_view() =~= a0 + tok_refs(t@));
        },
        ExprType::Mapping(_, f, inp, filt) => {
            collect_expr(acc, f);
            collect_expr(acc, inp);
            collect_opt(acc, filt);
            assert(acc.deep_view() =~= a0 + tok_refs(t@));
        },
        ExprType::FuncCall(a, f) => {
            collect_expr(acc, a);
            collect_expr(acc, f);
            assert(acc.deep_view() =~= a0 + tok_refs(t@));
        },
        ExprType::Bind(vs, b) => {
            collect_fields(acc, vs);
            collect_expr(acc, b);
            assert(acc.deep_view() =~= a0 + tok_refs(t@));
        },
        ExprType::Switch(x, cs, d) => {
            collect_expr(acc, x);
            collect_cases(acc, cs);
            collect_opt(acc, d);
            assert(acc.deep_view() =~= a0 + tok_refs(t@));
        },
        _ => {
            assert(acc.deep_view() =~= a0 + tok_refs(t@));
        },
    }
}

/* Binding */

/// The entries of `vars` whose names occur in `refs`.
pub open spec fn filter_vars(vars: Seq<(Seq<char>, ExprV)>, refs: Seq<Seq<char>>) -> Seq<(Seq<char>, ExprV)>
    decreases vars.len(),
{
    if vars.len() == 0 {
        Seq::empty()
    } else {
        filter_vars(vars.drop_last(), refs) + (if refs.contains(vars.last().0) {
            seq![vars.last()]
        } else {
            Seq::empty()
        })
    }
}

/// `e` bound in `vars`: the entries of `vars` that `e` refers to, kept
/// with it.
pub open spec fn bind_v(e: ExprV, vars: Seq<(Seq<char>, ExprV)>) -> ExprV {
    ExprV { tok: TokV::Bind(filter_vars(vars, refs_v(e)), Box::new(e)), loc: e.loc }
}

pub open spec fn bind_defaults_v(m: MatcherV, vars: Seq<(Seq<char>, ExprV)>) -> MatcherV
    decreases m, 0nat,
{
    match m {
        MatcherV::Alias(inner, n) => MatcherV::Alias(Box::new(bind_defaults_v(*inner, vars)), n),
        MatcherV::DontCare => MatcherV::DontCare,
        MatcherV::Ident(n) => MatcherV::Ident(n),
        MatcherV::Tuple(ms) => MatcherV::Tuple(ms_bind(ms, vars)),
        MatcherV::Object(items, all) => MatcherV::Object(om_bind(items, vars), all),
    }
}

pub open spec fn ms_bind(ms: Seq<MatcherV>, vars: Seq<(Seq<char>, ExprV)>) -> Seq<MatcherV>
    decreases ms, 0nat,
{
    if ms.len() == 0 { Seq::empty() } else { ms_bind(ms.drop_last(), vars).push(bind_defaults_v(ms.last(), vars)) }
}

pub open spec fn om_bind(items: Seq<(Seq<char>, MatcherV, Option<ExprV>)>, vars: Seq<(Seq<char>, ExprV)>)
    -> Seq<(Seq<char>, MatcherV, Option<ExprV>)>
    decreases items, 0nat,
{
    if items.len() == 0 {
        Seq::empty()
    } else {
        om_bind(items.drop_last(), vars).push((items.last().0, bind_defaults_v(items.last().1, vars), match items.last().2 {
            Some(d) => Some(bind_v(d, vars)),
            None => None,
        }))
    }
}

/// `e` wrapped in a `Bind` with the given (already filtered) entries.
fn wrap_bind(e: Expr, vars: Vec<(String, Expr)>) -> (r: Expr)
    ensures
        r@ == (ExprV { tok: TokV::Bind(set_v(vars@), Box::new(e@)), loc: e@.loc }),
{
    let loc = copy_loc(&e.0.loc);
    Expr(Box::new(ExprStorage { tok: ExprType::Bind(vars, e), loc }))
}

impl Expr {
    /// The names this expression refers to (with repeats, in the order they
    /// occur).
    pub fn referenced_vars(&self) -> (r: Vec<String>)
        ensures
            r.deep_view() == refs_v(self@),
    {
        let mut acc: Vec<String> = Vec::new();
        assert(acc.deep_view() =~= Seq::<Seq<char>>::empty());
        collect_expr(&mut acc, self);
        assert(acc.deep_view() =~= refs_v(self@));
        acc
    }

    /// This expression bound in `varspace`: kept with the entries of
    /// `varspace` that it refers to.
    pub fn bind(&self, varspace: &Vec<(String, Expr)>) -> (r: Expr)
        ensures
            r@ == bind_v(self@, set_v(varspace@)),
    {
        let refs = self.referenced_vars();
        proof { lemma_set_v(varspace@); }
        let ghost sv = set_v(varspace@);
        let mut kept: Vec<(String, Expr)> = Vec::new();
        let mut i: usize = 0;
        proof { lemma_set_v(kept@); }
        assert(sv.take(0) =~= Seq::<(Seq<char>, ExprV)>::empty());
        while i < varspace.len()
            invariant
                i <= varspace@.len(),
                sv == varspace@.map_values(|p: (String, Expr)| (p.0@, p.1@)),
                refs.deep_view() == refs_v(self@),
                set_v(kept@) == filter_vars(sv.take(i as int), refs_v(self@)),
            decreases varspace.len() - i,
        {
            assert(sv.take(i + 1).drop_last() =~= sv.take(i as int));
            if crate::text::contains_str(&refs, varspace[i].0.as_str()) {
                let ghost kept0 = kept@;
                let entry = (copy_str(varspace[i].0.as_str()), varspace[i].1.copy());
                let ghost ev = (entry.0@, entry.1@);
                assert(ev == sv[i as int]);
                kept.push(entry);
                assert(kept@.drop_last() =~= kept0);
                assert(set_v(kept@) == set_v(kept0).push(ev));
                assert(set_v(kept@) =~= set_v(kept0) + seq![sv[i as int]]);
            } else {
                assert(filter_vars(sv.take(i + 1), refs_v(self@)) =~= filter_vars(sv.take(i as int), refs_v(self@)));
            }
            i = i + 1;
        }
        assert(sv.take(varspace@.len() as int) =~= sv);
        wrap_bind(self.copy(), kept)
    }
}

/* The meaning of expressions */

/// How many steps an evaluation may take before it gives up.
pub const EVAL_FUEL: u64 = 1000000;

pub open spec fn out_of_fuel() -> ErrorV {
    err_v(ErrorType::Eval, "evaluation too deep"@)
}

pub open spec fn mk(tok: TokV, loc: Option<LocView>) -> ExprV {
    ExprV { tok, loc }
}

/// Expression kinds that are already resolved.
pub open spec fn whnf(t: TokV) -> bool {
    t is Object || t is List || t is Tuple || t is Value || t is FuncDef || t is FuncDefBuiltin || t is Null
}

pub open spec fn err_at<A>(typ: ErrorType, msg: Seq<char>, loc: Option<LocView>) -> Result<A, ErrorV> {
    Err(reref_v(err_v(typ, msg), loc))
}

/// Resolves `e` until its kind is resolved: one step at a time, each step
/// resolving what it needs of the parts.
pub open spec fn resolve_v(e: ExprV, fuel: nat) -> Result<ExprV, ErrorV>
    decreases fuel, 0nat,
{
    if whnf(e.tok) {
        Ok(e)
    } else if fuel == 0 {
        Err(out_of_fuel())
    } else {
        match step_v(e, (fuel - 1) as nat) {
            Ok(e2) => resolve_v(e2, (fuel - 1) as nat),
            Err(x) => Err(x),
        }
    }
}

/// The value `e` resolves to.
pub open spec fn value_v(e: ExprV, fuel: nat) -> Result<ValueV, ErrorV>
    decreases fuel, 1nat,
{
    match resolve_v(e, fuel) {
        Err(x) => Err(x),
        Ok(r) => match r.tok {
            TokV::Value(v) => Ok(v),
            _ => Err(err_v(ErrorType::NoValue, "Not a value: "@ + expr_text(r, 0))),
        },
    }
}

/// The field `name` of the object `e` resolves to.
pub open spec fn get_item_v(e: ExprV, name: Seq<char>, fuel: nat) -> Result<ExprV, ErrorV>
    decreases fuel, 1nat,
{
    match resolve_v(e, fuel) {
        Err(x) => Err(x),
        Ok(r) => match r.tok {
            TokV::Object(fs) => match set_get(fs, name) {
                Some(v) => Ok(v),
                None => Err(err_v(ErrorType::NoValue, "Invalid field '"@ + name + "'"@)),
            },
            _ => Err(err_v(ErrorType::NoValue, "Missing item '"@ + name + "'"@)),
        },
    }
}

/// The variables that matching `e` against `m` binds.
pub open spec fn run_v(m: MatcherV, e: ExprV, fuel: nat) -> Result<Seq<(Seq<char>, ExprV)>, ErrorV>
    decreases fuel, 2nat,
{
    if fuel == 0 {
        Err(out_of_fuel())
    } else {
        match m {
            MatcherV::Alias(inner, name) => match run_v(*inner, e, (fuel - 1) as nat) {
                Ok(out) => Ok(set_insert(out, name, e)),
                Err(x) => Err(x),
            },
            MatcherV::DontCare => Ok(Seq::empty()),
            MatcherV::Ident(name) => Ok(seq![(name, e)]),
            MatcherV::Tuple(ms) => run_tuple_case(ms, e, fuel),
            MatcherV::Object(items, all) => run_object_case(items, all, e, fuel),
        }
    }
}

pub open spec fn run_tuple_case(ms: Seq<MatcherV>, e: ExprV, fuel: nat) -> Result<Seq<(Seq<char>, ExprV)>, ErrorV>
    decreases fuel, 1nat,
{
    if fuel == 0 {
        Err(out_of_fuel())
    } else {
        match resolve_v(e, fuel) {
            Err(x) => Err(x),
            Ok(r) => match r.tok {
                TokV::Tuple(es) => if es.len() != ms.len() {
                    err_at(ErrorType::Type, "Expected tuple of length "@ + crate::text::decimal(ms.len()), r.loc)
                } else {
                    run_tuple_v(ms, es, (fuel - 1) as nat)
                },
                _ => err_at(ErrorType::Type, "Expected tuple"@, r.loc),
            },
        }
    }
}

pub open spec fn run_object_case(items: Seq<(Seq<char>, MatcherV, Option<ExprV>)>, all: bool, e: ExprV, fuel: nat)
    -> Result<Seq<(Seq<char>, ExprV)>, ErrorV>
    decreases fuel, 1nat,
{
    if fuel == 0 {
        Err(out_of_fuel())
    } else {
        match resolve_v(e, fuel) {
            Err(x) => Err(x),
            Ok(r) => match r.tok {
                TokV::Object(fs) => match obj_fold(items, fs, r.loc, (fuel - 1) as nat) {
                    Err(x) => Err(x),
                    Ok(st) => if all && st.0.len() > 0 {
                        err_at(ErrorType::NoValue, "Extra fields passed to function"@, r.loc)
                    } else {
                        Ok(st.1)
                    },
                },
                _ => err_at(ErrorType::Type, "Expected tuple"@, r.loc),
            },
        }
    }
}

pub open spec fn run_tuple_v(ms: Seq<MatcherV>, es: Seq<ExprV>, fuel: nat) -> Result<Seq<(Seq<char>, ExprV)>, ErrorV>
    decreases fuel, 3 + ms.len(),
{
    if ms.len() == 0 || es.len() == 0 {
        Ok(Seq::empty())
    } else {
        match run_tuple_v(ms.drop_last(), es.drop_last(), fuel) {
            Err(x) => Err(x),
            Ok(out) => match run_v(ms.last(), es.last(), fuel) {
                Err(x) => Err(x),
                Ok(sub) => Ok(set_append(out, sub)),
            },
        }
    }
}

/// Matching the object fields `fs` against the field matchers `items` in
/// turn: the fields not used yet, and the variables bound so far.
pub open spec fn obj_fold(
    items: Seq<(Seq<char>, MatcherV, Option<ExprV>)>,
    fs: Seq<(Seq<char>, ExprV)>,
    loc: Option<LocView>,
    fuel: nat,
) -> Result<(Seq<(Seq<char>, ExprV)>, Seq<(Seq<char>, ExprV)>), ErrorV>
    decreases fuel, 3 + items.len(),
{
    if items.len() == 0 {
        Ok((fs, Seq::empty()))
    } else {
        match obj_fold(items.drop_last(), fs, loc, fuel) {
            Err(x) => Err(x),
            Ok(st) => {
                let (name, m, default) = items.last();
                let found = set_find(st.0, name);
                let input = if found >= 0 { Some(st.0[found].1) } else { default };
                match input {
                    None => err_at(ErrorType::NoValue, "Expected field '"@ + name + "' not found"@, loc),
                    Some(x) => {
                        let rest = if found >= 0 { st.0.remove(found) } else { st.0 };
                        match run_v(m, x, fuel) {
                            Err(e) => Err(e),
                            Ok(sub) => Ok((rest, set_append(st.1, sub))),
                        }
                    },
                }
            },
        }
    }
}

/// One step of resolving `e`, whose kind is not resolved yet.
pub open spec fn step_v(e: ExprV, fuel: nat) -> Result<ExprV, ErrorV>
    decreases fuel, 4nat,
{
    let loc = e.loc;
    if fuel == 0 {
        Err(out_of_fuel())
    } else {
        match e.tok {
            TokV::Bind(vars, b) => bind_step_v(vars, *b, loc, fuel),
            TokV::Concat(parts) => step_concat(parts, loc, fuel),
            TokV::AttrSel(v, a) => step_attrsel(*v, *a, loc, fuel),
            TokV::FuncCall(fa, fe) => step_call(*fa, *fe, loc, fuel),
            TokV::Fold(func, init, input) => step_fold(*func, *init, *input, loc, fuel),
            TokV::Mapping(typ, func, input, filter) => step_map(typ, *func, *input, filter, loc, fuel),
            TokV::UnOp(op, x) => step_unop(op, *x, loc, fuel),
            TokV::BinOp(op, l, r) => match binop_v(*l, op, *r, fuel) {
                Ok(t) => Ok(mk(t, loc)),
                Err(x) => Err(x),
            },
            TokV::Switch(x, cases, default) => step_switch(*x, cases, default, loc, fuel),
            TokV::Var(name) => err_at(ErrorType::Scope, "Unknown variable "@ + name, loc),
            TokV::Let(..) => Ok(bind_v(e, Seq::empty())),
            _ => Ok(e),
        }
    }
}

pub open spec fn step_concat(parts: Seq<ExprV>, loc: Option<LocView>, fuel: nat) -> Result<ExprV, ErrorV>
    decreases fuel, 3nat,
{
    if fuel == 0 {
        Err(out_of_fuel())
    } else {
        match values_of(parts, loc, (fuel - 1) as nat) {
            Err(x) => Err(x),
            Ok(vs) => match crate::value::spec_string_concat(vs) {
                Ok(v) => Ok(mk(TokV::Value(v), loc)),
                Err(x) => Err(x),
            },
        }
    }
}

pub open spec fn step_attrsel(v: ExprV, a: ExprV, loc: Option<LocView>, fuel: nat) -> Result<ExprV, ErrorV>
    decreases fuel, 3nat,
{
    match value_v(a, fuel) {
        Err(x) => Err(x),
        Ok(av) => match crate::value::spec_as_string(av) {
            Err(x) => Err(x),
            Ok(name) => match get_item_v(v, name, fuel) {
                Err(x) => Err(x),
                Ok(item) => match resolve_v(item, fuel) {
                    Err(x) => Err(x),
                    Ok(ri) => Ok(mk(ri.tok, loc)),
                },
            },
        },
    }
}

/// The body of a function and the variables it was bound in.
pub open spec fn fn_parts(fimpl: ExprV) -> (Seq<(Seq<char>, ExprV)>, ExprV) {
    match fimpl.tok {
        TokV::Bind(fb, fx) => (fb, *fx),
        _ => (Seq::empty(), fimpl),
    }
}

pub open spec fn step_call(fa: ExprV, fe: ExprV, loc: Option<LocView>, fuel: nat) -> Result<ExprV, ErrorV>
    decreases fuel, 3nat,
{
    match resolve_v(fe, fuel) {
        Err(x) => Err(reref_v(x, loc)),
        Ok(rf) => match rf.tok {
            TokV::FuncDef(m, fimpl) => match run_v(m, fa, fuel) {
                Err(x) => Err(reref_v(x, loc)),
                Ok(vars) => Ok(bind_v(fn_parts(*fimpl).1, set_append(fn_parts(*fimpl).0, vars))),
            },
            TokV::FuncDefBuiltin(b) => match builtin_call_v(b, fa, fuel) {
                Err(x) => Err(reref_v(x, loc)),
                Ok(r) => Ok(bind_v(r, Seq::empty())),
            },
            _ => err_at(ErrorType::Scope, "called func, but it's a "@ + expr_text(rf, 0), rf.loc),
        },
    }
}

pub open spec fn step_fold(func: ExprV, init: ExprV, input: ExprV, loc: Option<LocView>, fuel: nat) -> Result<ExprV, ErrorV>
    decreases fuel, 3nat,
{
    match resolve_v(input, fuel) {
        Err(x) => Err(x),
        Ok(ri) => match ri.tok {
            TokV::List(items) => Ok(fold_build(func, init, items, ri.loc)),
            _ => err_at(ErrorType::Eval, "Fold over non-list: "@ + expr_text(ri, 0), loc),
        },
    }
}

/// The items a map iterates over: a list's items, or an object's entries
/// as `(name, value)` tuples.
pub open spec fn map_items(ri: ExprV, loc: Option<LocView>) -> Result<Seq<ExprV>, ErrorV> {
    match ri.tok {
        TokV::List(v) => Ok(v),
        TokV::Object(args) => Ok(pairs_of(args)),
        _ => err_at(ErrorType::Eval, "Foreach over non-iterable: "@ + expr_text(ri, 0), loc),
    }
}

pub open spec fn step_map(typ: ExprMapType, func: ExprV, input: ExprV, filter: Option<Box<ExprV>>, loc: Option<LocView>,
    fuel: nat) -> Result<ExprV, ErrorV>
    decreases fuel, 3nat,
{
    if fuel == 0 {
        Err(out_of_fuel())
    } else {
        let f1 = (fuel - 1) as nat;
        match resolve_v(input, fuel) {
            Err(x) => Err(reref_v(x, loc)),
            Ok(ri) => match map_items(ri, loc) {
                Err(x) => Err(x),
                Ok(items) => {
                    let filtered = match filter {
                        Some(fx) => filter_items(items, *fx, f1),
                        None => Ok(items),
                    };
                    match filtered {
                        Err(x) => Err(x),
                        Ok(kept) => match typ {
                            ExprMapType::List => Ok(mk(TokV::List(calls_of(kept, func)), loc)),
                            ExprMapType::Object => match collect_obj(calls_of(kept, func), loc, f1) {
                                Err(x) => Err(x),
                                Ok(fs) => Ok(mk(TokV::Object(fs), loc)),
                            },
                        },
                    }
                },
            },
        }
    }
}

pub open spec fn step_unop(op: ExprUnOp, x: ExprV, loc: Option<LocView>, fuel: nat) -> Result<ExprV, ErrorV>
    decreases fuel, 3nat,
{
    match resolve_v(x, fuel) {
        Err(er) => Err(reref_v(er, loc)),
        Ok(rx) => match rx.tok {
            TokV::Value(v) => match (if op == ExprUnOp::Neg {
                crate::value::spec_op_neg(v)
            } else {
                crate::value::spec_op_not(v)
            }) {
                Ok(v2) => Ok(mk(TokV::Value(v2), loc)),
                Err(er) => Err(er),
            },
            _ => err_at(ErrorType::Eval, "negating non-value: "@ + expr_text(rx, 0), loc),
        },
    }
}

pub open spec fn step_switch(x: ExprV, cases: Seq<(ExprV, ExprV)>, default: Option<Box<ExprV>>, loc: Option<LocView>,
    fuel: nat) -> Result<ExprV, ErrorV>
    decreases fuel, 3nat,
{
    if fuel == 0 {
        Err(out_of_fuel())
    } else {
        match switch_scan(cases, x, loc, (fuel - 1) as nat) {
            Err(er) => Err(er),
            Ok(Some(o)) => Ok(mk(o.tok, loc)),
            Ok(None) => match default {
                Some(d) => Ok(mk(d.tok, loc)),
                None => err_at(ErrorType::Eval, "No matching case for "@ + expr_text(x, 0), loc),
            },
        }
    }
}

/// One step of resolving `b` bound in `vars`.
pub open spec fn bind_step_v(vars: Seq<(Seq<char>, ExprV)>, b: ExprV, loc: Option<LocView>, fuel: nat)
    -> Result<ExprV, ErrorV>
    decreases fuel, 3nat,
{
    if fuel == 0 {
        Err(out_of_fuel())
    } else {
        match b.tok {
            TokV::Let(fields, target) => match let_fold(fields, vars, (fuel - 1) as nat) {
                Err(x) => Err(x),
                Ok(vars2) => Ok(bind_v(*target, vars2)),
            },
            TokV::Var(name) => match set_get(vars, name) {
                Some(v) => match resolve_v(v, fuel) {
                    Err(x) => Err(reref_v(x, loc)),
                    Ok(rv) => Ok(mk(rv.tok, loc)),
                },
                None => err_at(ErrorType::Scope, "Unknown variable "@ + name, b.loc),
            },
            _ => Ok(bind_struct(vars, b, loc)),
        }
    }
}

/// What binding does to an expression whose kind needs nothing resolved:
/// its parts are bound in turn.
pub open spec fn bind_struct(vars: Seq<(Seq<char>, ExprV)>, b: ExprV, loc: Option<LocView>) -> ExprV {
    match b.tok {
        TokV::Object(fs) => mk(TokV::Object(bind_fields(fs, vars)), loc),
        TokV::List(items) => mk(TokV::List(bind_items(items, vars)), loc),
        TokV::Tuple(items) => mk(TokV::Tuple(bind_items(items, vars)), loc),
        TokV::Concat(items) => mk(TokV::Concat(bind_items(items, vars)), loc),
        TokV::AttrSel(v, a) => mk(TokV::AttrSel(Box::new(bind_v(*v, vars)), Box::new(bind_v(*a, vars))), loc),
        TokV::FuncDef(m, body) => mk(TokV::FuncDef(bind_defaults_v(m, vars), Box::new(bind_v(*body, vars))), loc),
        TokV::FuncDefBuiltin(bi) => mk(TokV::FuncDefBuiltin(bi), b.loc),
        TokV::Fold(f, i, inp) => mk(TokV::Fold(Box::new(bind_v(*f, vars)), Box::new(bind_v(*i, vars)),
            Box::new(bind_v(*inp, vars))), loc),
        TokV::Mapping(t, f, inp, filt) => mk(TokV::Mapping(t, Box::new(bind_v(*f, vars)), Box::new(bind_v(*inp, vars)),
            bind_opt(filt, vars)), loc),
        TokV::UnOp(op, x) => mk(TokV::UnOp(op, Box::new(bind_v(*x, vars))), loc),
        TokV::BinOp(op, l, r) => mk(TokV::BinOp(op, Box::new(bind_v(*l, vars)), Box::new(bind_v(*r, vars))), loc),
        TokV::FuncCall(a, f) => mk(TokV::FuncCall(Box::new(bind_v(*a, vars)), Box::new(bind_v(*f, vars))), loc),
        TokV::Value(v) => mk(TokV::Value(v), loc),
        TokV::Bind(iv, ie) => bind_v(*ie, iv),
        TokV::Switch(x, cases, d) => mk(TokV::Switch(Box::new(bind_v(*x, vars)), bind_cases(cases, vars),
            bind_opt(d, vars)), loc),
        _ => mk(TokV::Null, loc),
    }
}

pub open spec fn bind_items(items: Seq<ExprV>, vars: Seq<(Seq<char>, ExprV)>) -> Seq<ExprV> {
    items.map_values(|x: ExprV| bind_v(x, vars))
}

pub open spec fn bind_fields(fs: Seq<(Seq<char>, ExprV)>, vars: Seq<(Seq<char>, ExprV)>) -> Seq<(Seq<char>, ExprV)> {
    fs.map_values(|p: (Seq<char>, ExprV)| (p.0, bind_v(p.1, vars)))
}

pub open spec fn bind_cases(cs: Seq<(ExprV, ExprV)>, vars: Seq<(Seq<char>, ExprV)>) -> Seq<(ExprV, ExprV)> {
    cs.map_values(|p: (ExprV, ExprV)| (bind_v(p.0, vars), bind_v(p.1, vars)))
}

pub open spec fn bind_opt(o: Option<Box<ExprV>>, vars: Seq<(Seq<char>, ExprV)>) -> Option<Box<ExprV>> {
    match o {
        Some(x) => Some(Box::new(bind_v(*x, vars))),
        None => None,
    }
}

/// The variable space after the bindings `fields` of a `let`, each bound
/// in the variables before it; a name bound twice is an error.
pub open spec fn let_fold(fields: Seq<(MatcherV, ExprV)>, vars: Seq<(Seq<char>, ExprV)>, fuel: nat)
    -> Result<Seq<(Seq<char>, ExprV)>, ErrorV>
    decreases fuel, 3 + fields.len(),
{
    if fields.len() == 0 {
        Ok(vars)
    } else {
        match let_fold(fields.drop_last(), vars, fuel) {
            Err(x) => Err(x),
            Ok(cur) => match run_v(fields.last().0, bind_v(fields.last().1, cur), fuel) {
                Err(x) => Err(x),
                Ok(out) => insert_new(cur, out),
            },
        }
    }
}

/// `out` set into `cur`, entry by entry; a name already there is an error.
pub open spec fn insert_new(cur: Seq<(Seq<char>, ExprV)>, out: Seq<(Seq<char>, ExprV)>)
    -> Result<Seq<(Seq<char>, ExprV)>, ErrorV>
    decreases out.len(),
{
    if out.len() == 0 {
        Ok(cur)
    } else {
        match insert_new(cur, out.drop_last()) {
            Err(x) => Err(x),
            Ok(c2) => if set_find(c2, out.last().0) >= 0 {
                Err(err_v(ErrorType::DupKey, out.last().0))
            } else {
                Ok(set_insert(c2, out.last().0, out.last().1))
            },
        }
    }
}

/// The values of the parts of a string, in order.
pub open spec fn values_of(parts: Seq<ExprV>, loc: Option<LocView>, fuel: nat) -> Result<Seq<ValueV>, ErrorV>
    decreases fuel, 3 + parts.len(),
{
    if parts.len() == 0 {
        Ok(Seq::empty())
    } else {
        match values_of(parts.drop_last(), loc, fuel) {
            Err(x) => Err(x),
            Ok(vs) => match value_v(parts.last(), fuel) {
                Err(x) => Err(reref_v(x, loc)),
                Ok(v) => Ok(vs.push(v)),
            },
        }
    }
}

/// `init` folded over `items` with `func`: calls `func output` and then
/// the result with the next item.
pub open spec fn fold_build(func: ExprV, init: ExprV, items: Seq<ExprV>, iloc: Option<LocView>) -> ExprV
    decreases items.len(),
{
    if items.len() == 0 {
        init
    } else {
        let prev = fold_build(func, init, items.drop_last(), iloc);
        let item = items.last();
        mk(TokV::FuncCall(Box::new(item), Box::new(mk(TokV::FuncCall(Box::new(prev), Box::new(func)), iloc))), item.loc)
    }
}

/// The entries of an object as `(name, value)` tuples.
pub open spec fn pairs_of(args: Seq<(Seq<char>, ExprV)>) -> Seq<ExprV> {
    args.map_values(|p: (Seq<char>, ExprV)| mk(TokV::Tuple(seq![mk(TokV::Value(ValueV::Str(p.0)), p.1.loc), p.1]), p.1.loc))
}

/// `func` applied to each item.
pub open spec fn calls_of(items: Seq<ExprV>, func: ExprV) -> Seq<ExprV> {
    items.map_values(|x: ExprV| mk(TokV::FuncCall(Box::new(x), Box::new(func)), x.loc))
}

/// The items for which `filter` gives `true`.
pub open spec fn filter_items(items: Seq<ExprV>, filter: ExprV, fuel: nat) -> Result<Seq<ExprV>, ErrorV>
    decreases fuel, 3 + items.len(),
{
    if items.len() == 0 {
        Ok(Seq::empty())
    } else {
        match filter_items(items.drop_last(), filter, fuel) {
            Err(x) => Err(x),
            Ok(kept) => {
                let item = items.last();
                match value_v(mk(TokV::FuncCall(Box::new(item), Box::new(filter)), item.loc), fuel) {
                    Err(x) => Err(x),
                    Ok(v) => match crate::value::spec_as_bool(v) {
                        Err(x) => Err(x),
                        Ok(b) => Ok(if b { kept.push(item) } else { kept }),
                    },
                }
            },
        }
    }
}

/// The filter `filter` accepts `x`: applied to it, it gives `true`.
pub open spec fn accepts_item(x: ExprV, filter: ExprV, fuel: nat) -> bool {
    value_v(mk(TokV::FuncCall(Box::new(x), Box::new(filter)), x.loc), fuel) == Ok::<ValueV, ErrorV>(ValueV::Bool(true))
}

/// A filter keeps exactly the items it accepts, in their order: when
/// filtering succeeds, the filter gave a boolean for every item, every kept
/// item is accepted, and every accepted item is kept.
pub proof fn lemma_filter_items_exact(items: Seq<ExprV>, filter: ExprV, fuel: nat)
    ensures
        filter_items(items, filter, fuel) matches Ok(kept) ==> {
            &&& kept == items.filter(|x: ExprV| accepts_item(x, filter, fuel))
            &&& forall|i: int| 0 <= i < kept.len() ==> accepts_item(#[trigger] kept[i], filter, fuel)
            &&& forall|i: int| 0 <= i < items.len() && accepts_item(items[i], filter, fuel) ==> #[trigger] kept.contains(items[i])
            &&& forall|i: int| 0 <= i < items.len() ==> (value_v(mk(TokV::FuncCall(Box::new(#[trigger] items[i]),
                Box::new(filter)), items[i].loc), fuel) matches Ok(ValueV::Bool(_)))
        },
    decreases items.len(),
{
    reveal(Seq::filter);
    let pred = |x: ExprV| accepts_item(x, filter, fuel);
    if items.len() > 0 {
        let d = items.drop_last();
        lemma_filter_items_exact(d, filter, fuel);
        if let Ok(kept) = filter_items(items, filter, fuel) {
            let item = items.last();
            assert(items.filter(pred) == (if pred(item) { d.filter(pred).push(item) } else { d.filter(pred) }));
            assert forall|i: int| 0 <= i < items.len() implies (value_v(mk(TokV::FuncCall(Box::new(#[trigger] items[i]),
                Box::new(filter)), items[i].loc), fuel) matches Ok(ValueV::Bool(_))) by {
                if i < d.len() {
                    assert(items[i] == d[i]);
                }
            }
        }
    }
    if let Ok(kept) = filter_items(items, filter, fuel) {
        items.filter_lemma(pred);
        assert forall|i: int| 0 <= i < items.len() && accepts_item(items[i], filter, fuel) implies #[trigger] kept.contains(items[i]) by {
            assert(pred(items[i]));
        }
    }
}

/// The object made of the `(name, value)` tuples `els`.
pub open spec fn collect_obj(els: Seq<ExprV>, loc: Option<LocView>, fuel: nat) -> Result<Seq<(Seq<char>, ExprV)>, ErrorV>
    decreases fuel, 3 + els.len(),
{
    if els.len() == 0 {
        Ok(Seq::empty())
    } else {
        match collect_obj(els.drop_last(), loc, fuel) {
            Err(x) => Err(x),
            Ok(acc) => match resolve_v(els.last(), fuel) {
                Err(x) => Err(reref_v(x, loc)),
                Ok(r) => match r.tok {
                    TokV::Tuple(parts) => if parts.len() == 2 {
                        match value_v(parts[0], fuel) {
                            Err(x) => Err(x),
                            Ok(kv) => match crate::value::spec_as_string(kv) {
                                Err(x) => Err(x),
                                Ok(k) => Ok(set_insert(acc, k, parts[1])),
                            },
                        }
                    } else {
                        err_at(ErrorType::Type, "Expecting tuple of 2 elements"@, r.loc)
                    },
                    _ => err_at(ErrorType::Type, "Expecting tuple of 2 elements"@, r.loc),
                },
            },
        }
    }
}

/// The outcome of the first case whose value equals `x`; every case is
/// compared.
pub open spec fn switch_scan(cases: Seq<(ExprV, ExprV)>, x: ExprV, loc: Option<LocView>, fuel: nat)
    -> Result<Option<ExprV>, ErrorV>
    decreases fuel, 3 + cases.len(),
{
    if cases.len() == 0 {
        Ok(None)
    } else {
        match switch_scan(cases.drop_last(), x, loc, fuel) {
            Err(er) => Err(er),
            Ok(found) => {
                let (m, o) = cases.last();
                match resolve_v(mk(TokV::BinOp(ExprBinOp::Eq, Box::new(m), Box::new(x)), m.loc), fuel) {
                    Err(er) => Err(reref_v(er, loc)),
                    Ok(rc) => match rc.tok {
                        TokV::Value(v) => match crate::value::spec_as_bool(v) {
                            Err(er) => Err(reref_v(er, loc)),
                            Ok(b) => Ok(if found is Some { found } else if b { Some(o) } else { None }),
                        },
                        _ => Ok(found),
                    },
                }
            },
        }
    }
}

/// Case `c` of a switch matches `x`: comparing them with `==` gives
/// `true`.
pub open spec fn case_hits(c: (ExprV, ExprV), x: ExprV, fuel: nat) -> bool {
    resolve_v(mk(TokV::BinOp(ExprBinOp::Eq, Box::new(c.0), Box::new(x)), c.0.loc), fuel) matches Ok(rc)
        && rc.tok == TokV::Value(ValueV::Bool(true))
}

/// A switch picks the outcome of the first case equal to its value: when
/// the scan succeeds with an outcome, that is the outcome of a case that
/// matches and no earlier case matches; when it finds none, no case
/// matches.
pub proof fn lemma_switch_first_match(cases: Seq<(ExprV, ExprV)>, x: ExprV, loc: Option<LocView>, fuel: nat)
    ensures
        switch_scan(cases, x, loc, fuel) matches Ok(Some(o)) ==> exists|i: int|
            0 <= i < cases.len() && #[trigger] cases[i].1 == o && case_hits(cases[i], x, fuel)
                && forall|j: int| 0 <= j < i ==> !case_hits(#[trigger] cases[j], x, fuel),
        switch_scan(cases, x, loc, fuel) matches Ok(None) ==> forall|i: int| 0 <= i < cases.len() ==> !case_hits(
            #[trigger] cases[i], x, fuel),
        forall|i: int| 0 <= i < cases.len() && case_hits(#[trigger] cases[i], x, fuel) ==> (switch_scan(cases, x, loc, fuel)
            matches Ok(r) ==> r is Some),
    decreases cases.len(),
{
    if cases.len() > 0 {
        let d = cases.drop_last();
        lemma_switch_first_match(d, x, loc, fuel);
        assert forall|i: int| 0 <= i < d.len() implies #[trigger] d[i] == cases[i] by {}
        let last = cases.len() - 1;
        assert(cases[last] == cases.last());
        if let Ok(r) = switch_scan(cases, x, loc, fuel) {
            let found = switch_scan(d, x, loc, fuel)->Ok_0;
            match found {
                Some(o) => {
                    let i = choose|i: int| 0 <= i < d.len() && #[trigger] d[i].1 == o && case_hits(d[i], x, fuel)
                        && forall|j: int| 0 <= j < i ==> !case_hits(#[trigger] d[j], x, fuel);
                    assert(cases[i] == d[i]);
                    assert forall|j: int| 0 <= j < i implies !case_hits(#[trigger] cases[j], x, fuel) by {
                        assert(cases[j] == d[j]);
                    }
                },
                None => {
                    assert forall|j: int| 0 <= j < last implies !case_hits(#[trigger] cases[j], x, fuel) by {
                        assert(cases[j] == d[j]);
                    }
                    if case_hits(cases[last], x, fuel) {
                        assert(cases[last].1 == r->Some_0);
                    }
                },
            }
            assert forall|i: int| 0 <= i < cases.len() && case_hits(#[trigger] cases[i], x, fuel) implies r is Some by {
                if i < last {
                    assert(cases[i] == d[i]);
                    assert(case_hits(d[i], x, fuel));
                }
            }
        }
    }
}

/// Comparing two values: `==` gives whether they are the same value and
/// `!=` the opposite; integers compare as numbers.
pub proof fn lemma_compare_values(a: ValueV, b: ValueV, loc: Option<LocView>, n: i64, m: i64)
    ensures
        binop_resolved(mk(TokV::Value(a), loc), ExprBinOp::Eq, mk(TokV::Value(b), loc), loc) == Ok::<TokV, ErrorV>(
            TokV::Value(ValueV::Bool(a == b))),
        binop_resolved(mk(TokV::Value(a), loc), ExprBinOp::Neq, mk(TokV::Value(b), loc), loc) == Ok::<TokV, ErrorV>(
            TokV::Value(ValueV::Bool(a != b))),
        binop_resolved(mk(TokV::Value(a), loc), ExprBinOp::Eq, mk(TokV::Value(a), loc), loc) == Ok::<TokV, ErrorV>(
            TokV::Value(ValueV::Bool(true))),
        binop_resolved(mk(TokV::Value(ValueV::Int(n)), loc), ExprBinOp::Le, mk(TokV::Value(ValueV::Int(m)), loc), loc)
            == Ok::<TokV, ErrorV>(TokV::Value(ValueV::Bool(n <= m))),
        binop_resolved(mk(TokV::Value(ValueV::Int(n)), loc), ExprBinOp::Lt, mk(TokV::Value(ValueV::Int(m)), loc), loc)
            == Ok::<TokV, ErrorV>(TokV::Value(ValueV::Bool(n < m))),
        binop_resolved(mk(TokV::Value(ValueV::Int(n)), loc), ExprBinOp::Ge, mk(TokV::Value(ValueV::Int(m)), loc), loc)
            == Ok::<TokV, ErrorV>(TokV::Value(ValueV::Bool(n >= m))),
        binop_resolved(mk(TokV::Value(ValueV::Int(n)), loc), ExprBinOp::Gt, mk(TokV::Value(ValueV::Int(m)), loc), loc)
            == Ok::<TokV, ErrorV>(TokV::Value(ValueV::Bool(n > m))),
{
    crate::value::lemma_compare_ints(n, m);
}

pub open spec fn unsupported(op: ExprBinOp, between: Seq<char>) -> ErrorV {
    err_v(ErrorType::Eval, "Unsupported binary operation: "@ + binop_name_v(op) + " between "@ + between)
}

pub open spec fn binop_name_v(op: ExprBinOp) -> Seq<char> {
    crate::expr::binop_name(op)
}

pub open spec fn lift(r: Result<ValueV, ErrorV>) -> Result<TokV, ErrorV> {
    match r {
        Ok(v) => Ok(TokV::Value(v)),
        Err(x) => Err(x),
    }
}

/// The comparison of two tuples of equal length, item by item.
pub open spec fn tuple_eq_tok(a: Seq<ExprV>, b: Seq<ExprV>) -> TokV
    decreases a.len(),
{
    if a.len() == 0 || b.len() == 0 {
        TokV::Value(ValueV::Bool(true))
    } else {
        TokV::BinOp(ExprBinOp::LogAnd,
            Box::new(mk(tuple_eq_tok(a.drop_last(), b.drop_last()), None)),
            Box::new(mk(TokV::BinOp(ExprBinOp::Eq, Box::new(a.last()), Box::new(b.last())), None)))
    }
}

/// A binary operation on the resolved operands `lr` and `rr`.
pub open spec fn binop_resolved(lr: ExprV, op: ExprBinOp, rr: ExprV, lloc: Option<LocView>) -> Result<TokV, ErrorV> {
    match (lr.tok, rr.tok) {
        (TokV::Value(a), TokV::Value(b)) => match op {
            ExprBinOp::Add => lift(crate::value::spec_op_add(a, b)),
            ExprBinOp::Sub => lift(crate::value::spec_op_sub(a, b)),
            ExprBinOp::Mult => lift(crate::value::spec_op_mult(a, b)),
            ExprBinOp::Div => lift(crate::value::spec_op_div(a, b)),
            ExprBinOp::Lt => lift(crate::value::spec_op_lt(a, b)),
            ExprBinOp::Le => lift(crate::value::spec_op_le(a, b)),
            ExprBinOp::Gt => lift(crate::value::spec_op_gt(a, b)),
            ExprBinOp::Ge => lift(crate::value::spec_op_ge(a, b)),
            ExprBinOp::Eq => Ok(TokV::Value(ValueV::Bool(a == b))),
            ExprBinOp::Neq => Ok(TokV::Value(ValueV::Bool(a != b))),
            _ => Err(unsupported(op, "values"@)),
        },
        (TokV::Object(lo), TokV::Object(ro)) => if op == ExprBinOp::Update {
            Ok(TokV::Object(set_append(lo, ro)))
        } else {
            Err(unsupported(op, "objects"@))
        },
        (TokV::List(la), TokV::List(lb)) => if op == ExprBinOp::ListConcat {
            Ok(TokV::List(la + lb))
        } else {
            Err(unsupported(op, "lists"@))
        },
        (TokV::Object(lo), TokV::Value(rv)) => if op == ExprBinOp::HasAttr {
            match crate::value::spec_as_string(rv) {
                Err(x) => Err(x),
                Ok(k) => Ok(TokV::Value(ValueV::Bool(set_find(lo, k) >= 0))),
            }
        } else {
            Err(unsupported(op, "objects and string"@))
        },
        (TokV::Tuple(ta), TokV::Tuple(tb)) => if op == ExprBinOp::Eq {
            if ta.len() != tb.len() {
                Ok(TokV::Value(ValueV::Bool(false)))
            } else {
                Ok(tuple_eq_tok(ta, tb))
            }
        } else {
            Err(unsupported(op, "tuples"@))
        },
        _ => Err(reref_v(unsupported(op, expr_text(lr, 0) + " and "@ + expr_text(rr, 0)), lloc)),
    }
}

/// The kind a binary operation resolves to. The logical operators look
/// at their right side only when they need it.
pub open spec fn binop_v(l: ExprV, op: ExprBinOp, r: ExprV, fuel: nat) -> Result<TokV, ErrorV>
    decreases fuel, 2nat,
{
    if op == ExprBinOp::LogAnd || op == ExprBinOp::LogOr || op == ExprBinOp::LogImpl {
        match value_v(l, fuel) {
            Err(x) => Err(reref_v(x, l.loc)),
            Ok(lv) => match crate::value::spec_as_bool(lv) {
                Err(x) => Err(x),
                Ok(b) => {
                    let rhs = match value_v(r, fuel) {
                        Err(x) => Err(reref_v(x, r.loc)),
                        Ok(rv) => Ok(TokV::Value(rv)),
                    };
                    if op == ExprBinOp::LogAnd {
                        if b { rhs } else { Ok(TokV::Value(lv)) }
                    } else if op == ExprBinOp::LogOr {
                        if b { Ok(TokV::Value(lv)) } else { rhs }
                    } else {
                        if b { rhs } else { Ok(TokV::Value(ValueV::Bool(true))) }
                    }
                },
            },
        }
    } else {
        match resolve_v(l, fuel) {
            Err(x) => Err(reref_v(x, l.loc)),
            Ok(lr) => match resolve_v(r, fuel) {
                Err(x) => Err(reref_v(x, r.loc)),
                Ok(rr) => binop_resolved(lr, op, rr, l.loc),
            },
        }
    }
}

/// What calling the builtin `b` with `arg` gives.
pub open spec fn builtin_call_v(b: BuiltinV, arg: ExprV, fuel: nat) -> Result<ExprV, ErrorV>
    decreases fuel, 2nat,
{
    match b {
        BuiltinV::DbgTrace => Ok(arg),
        BuiltinV::DbgBreak => err_at(ErrorType::Debug, "break"@, arg.loc),
        BuiltinV::PbLock => match resolve_v(arg, fuel) {
            Err(x) => Err(x),
            Ok(r) => match r.tok {
                TokV::Value(ValueV::Path(p, _)) => Ok(mk(TokV::Value(ValueV::Path(locked(p), Seq::empty())), r.loc)),
                TokV::Value(v) => err_at(ErrorType::Type, "expected path, got "@ + crate::value::value_text(v), r.loc),
                _ => Err(err_v(ErrorType::NoValue, "Not a value: "@ + expr_text(r, 0))),
            },
        },
        BuiltinV::PbTranslate => if fuel == 0 {
            Err(out_of_fuel())
        } else {
            crate::builtins::call_translate(arg, (fuel - 1) as nat)
        },
        BuiltinV::PbRebase => if fuel == 0 {
            Err(out_of_fuel())
        } else {
            crate::builtins::call_rebase(arg, (fuel - 1) as nat)
        },
        BuiltinV::OpsTransposeObjs => if fuel == 0 {
            Err(out_of_fuel())
        } else {
            crate::builtins::call_transpose_objs(arg, (fuel - 1) as nat)
        },
        BuiltinV::OpsTranspose => if fuel == 0 {
            Err(out_of_fuel())
        } else {
            crate::builtins::call_zip(arg, (fuel - 1) as nat)
        },
        BuiltinV::PbRule => if fuel == 0 {
            Err(out_of_fuel())
        } else {
            crate::builtins::call_rule(arg, (fuel - 1) as nat)
        },
        BuiltinV::PbBuild(rule) => if fuel == 0 {
            Err(out_of_fuel())
        } else {
            crate::builtins::call_build(rule, arg, (fuel - 1) as nat)
        },
    }
}

pub open spec fn locked(p: crate::path::VirtPathView) -> crate::path::VirtPathView {
    crate::path::VirtPathView { locked: p.locked + p.parts, parts: Seq::empty(), ..p }
}

/* Executable helpers that do not resolve anything */

pub open spec fn ev(r: Result<Expr, Error>) -> Result<ExprV, ErrorV> {
    match r {
        Ok(e) => Ok(e@),
        Err(x) => Err(x@),
    }
}

pub open spec fn set_res(r: Result<Vec<(String, Expr)>, Error>) -> Result<Seq<(Seq<char>, ExprV)>, ErrorV> {
    match r {
        Ok(s) => Ok(set_v(s@)),
        Err(x) => Err(x@),
    }
}

pub(crate) fn mk_expr(tok: ExprType, loc: Option<crate::error::Loc>) -> (r: Expr)
    ensures
        r@ == mk(tok@, opt_loc_view(loc)),
{
    Expr(Box::new(ExprStorage { tok, loc }))
}

fn is_whnf(e: &Expr) -> (r: bool)
    ensures
        r == whnf(e@.tok),
{
    match &e.0.tok {
        ExprType::Object(_) | ExprType::List(_) | ExprType::Tuple(_) | ExprType::Value(_) | ExprType::FuncDef(..)
        | ExprType::FuncDefBuiltin(_) | ExprType::Null => true,
        _ => false,
    }
}

pub(crate) fn fuel_error() -> (e: Error)
    ensures
        e@ == out_of_fuel(),
{
    Error::new(ErrorType::Eval, copy_str("evaluation too deep"))
}

pub(crate) fn error_at(typ: ErrorType, msg: String, loc: &Option<crate::error::Loc>) -> (e: Error)
    ensures
        e@ == reref_v(err_v(typ, msg@), opt_loc_view(*loc)),
{
    Error::new(typ, msg).reref(loc)
}

pub(crate) fn text2(a: &str, b: &str) -> (r: String)
    ensures
        r@ == a@ + b@,
{
    let mut r = copy_str(a);
    crate::text::push_str(&mut r, b);
    r
}

pub(crate) fn text3(a: &str, b: &str, c: &str) -> (r: String)
    ensures
        r@ == a@ + b@ + c@,
{
    let mut r = copy_str(a);
    crate::text::push_str(&mut r, b);
    crate::text::push_str(&mut r, c);
    r
}

fn bind_items_exec(items: &Vec<Expr>, vars: &Vec<(String, Expr)>) -> (r: Vec<Expr>)
    ensures
        exprs_v(r@) == bind_items(exprs_v(items@), set_v(vars@)),
{
    proof { lemma_exprs_v(items@); }
    let mut out: Vec<Expr> = Vec::new();
    let mut i: usize = 0;
    while i < items.len()
        invariant
            i <= items@.len(),
            out@.len() == i,
            forall|j: int| 0 <= j < i ==> (#[trigger] out@[j])@ == bind_v(items@[j]@, set_v(vars@)),
        decreases items.len() - i,
    {
        out.push(items[i].bind(vars));
        i = i + 1;
    }
    proof { lemma_exprs_v(out@); }
    assert(exprs_v(out@) =~= bind_items(exprs_v(items@), set_v(vars@)));
    out
}

fn bind_fields_exec(fs: &Vec<(String, Expr)>, vars: &Vec<(String, Expr)>) -> (r: Vec<(String, Expr)>)
    ensures
        set_v(r@) == bind_fields(set_v(fs@), set_v(vars@)),
{
    proof { lemma_set_v(fs@); }
    let mut out: Vec<(String, Expr)> = Vec::new();
    let mut i: usize = 0;
    while i < fs.len()
        invariant
            i <= fs@.len(),
            out@.len() == i,
            forall|j: int| 0 <= j < i ==> (#[trigger] out@[j]).0@ == fs@[j].0@
                && out@[j].1@ == bind_v(fs@[j].1@, set_v(vars@)),
        decreases fs.len() - i,
    {
        out.push((copy_str(fs[i].0.as_str()), fs[i].1.bind(vars)));
        i = i + 1;
    }
    proof { lemma_set_v(out@); }
    assert(set_v(out@) =~= bind_fields(set_v(fs@), set_v(vars@)));
    out
}

fn bind_cases_exec(cs: &Vec<(Expr, Expr)>, vars: &Vec<(String, Expr)>) -> (r: Vec<(Expr, Expr)>)
    ensures
        cases_v(r@) == bind_cases(cases_v(cs@), set_v(vars@)),
{
    proof { lemma_cases_v(cs@); }
    let mut out: Vec<(Expr, Expr)> = Vec::new();
    let mut i: usize = 0;
    while i < cs.len()
        invariant
            i <= cs@.len(),
            out@.len() == i,
            forall|j: int| 0 <= j < i ==> (#[trigger] out@[j]).0@ == bind_v(cs@[j].0@, set_v(vars@))
                && out@[j].1@ == bind_v(cs@[j].1@, set_v(vars@)),
        decreases cs.len() - i,
    {
        out.push((cs[i].0.bind(vars), cs[i].1.bind(vars)));
        i = i + 1;
    }
    proof { lemma_cases_v(out@); }
    assert(cases_v(out@) =~= bind_cases(cases_v(cs@), set_v(vars@)));
    out
}

fn bind_opt_exec(o: &Option<Expr>, vars: &Vec<(String, Expr)>) -> (r: Option<Expr>)
    ensures
        opt_box_v(r) == bind_opt(opt_box_v(*o), set_v(vars@)),
{
    match o {
        Some(x) => Some(x.bind(vars)),
        None => None,
    }
}

fn pairs_exec(args: &Vec<(String, Expr)>) -> (r: Vec<Expr>)
    ensures
        exprs_v(r@) == pairs_of(set_v(args@)),
{
    proof { lemma_set_v(args@); }
    let mut out: Vec<Expr> = Vec::new();
    let mut i: usize = 0;
    while i < args.len()
        invariant
            i <= args@.len(),
            out@.len() == i,
            forall|j: int| 0 <= j < i ==> (#[trigger] out@[j])@ == mk(TokV::Tuple(seq![mk(TokV::Value(ValueV::Str(args@[j].0@)),
                args@[j].1@.loc), args@[j].1@]), args@[j].1@.loc),
        decreases args.len() - i,
    {
        let key = mk_expr(ExprType::Value(Value::new_from_string(args[i].0.as_str())), copy_loc(&args[i].1.0.loc));
        let mut items: Vec<Expr> = Vec::new();
        items.push(key);
        items.push(args[i].1.copy());
        proof { lemma_exprs_v(items@); }
        let ghost iv = exprs_v(items@);
        assert(iv =~= seq![mk(TokV::Value(ValueV::Str(args@[i as int].0@)), args@[i as int].1@.loc), args@[i as int].1@]);
        out.push(mk_expr(ExprType::Tuple(items), copy_loc(&args[i].1.0.loc)));
        i = i + 1;
    }
    proof { lemma_exprs_v(out@); }
    assert(exprs_v(out@) =~= pairs_of(set_v(args@)));
    out
}

fn calls_exec(items: Vec<Expr>, func: &Expr) -> (r: Vec<Expr>)
    ensures
        exprs_v(r@) == calls_of(exprs_v(items@), func@),
{
    proof { lemma_exprs_v(items@); }
    let mut out: Vec<Expr> = Vec::new();
    let mut i: usize = 0;
    while i < items.len()
        invariant
            i <= items@.len(),
            out@.len() == i,
            forall|j: int| 0 <= j < i ==> (#[trigger] out@[j])@ == mk(TokV::FuncCall(Box::new(items@[j]@), Box::new(func@)),
                items@[j]@.loc),
        decreases items.len() - i,
    {
        out.push(mk_expr(ExprType::FuncCall(items[i].copy(), func.copy()), copy_loc(&items[i].0.loc)));
        i = i + 1;
    }
    proof { lemma_exprs_v(out@); }
    assert(exprs_v(out@) =~= calls_of(exprs_v(items@), func@));
    out
}

fn fold_build_exec(func: &Expr, init: &Expr, items: &Vec<Expr>, n: usize, iloc: &Option<crate::error::Loc>) -> (r: Expr)
    requires
        n <= items@.len(),
    ensures
        r@ == fold_build(func@, init@, exprs_v(items@).take(n as int), opt_loc_view(*iloc)),
    decreases n,
{
    proof { lemma_exprs_v(items@); }
    if n == 0 {
        init.copy()
    } else {
        let prev = fold_build_exec(func, init, items, n - 1, iloc);
        assert(exprs_v(items@).take(n as int).drop_last() =~= exprs_v(items@).take(n - 1));
        let inner = mk_expr(ExprType::FuncCall(prev, func.copy()), copy_loc(iloc));
        mk_expr(ExprType::FuncCall(items[n - 1].copy(), inner), copy_loc(&items[n - 1].0.loc))
    }
}

fn tuple_eq_exec(a: &Vec<Expr>, b: &Vec<Expr>, n: usize) -> (r: ExprType)
    requires
        n <= a@.len(),
        n <= b@.len(),
    ensures
        r@ == tuple_eq_tok(exprs_v(a@).take(n as int), exprs_v(b@).take(n as int)),
    decreases n,
{
    proof {
        lemma_exprs_v(a@);
        lemma_exprs_v(b@);
    }
    if n == 0 {
        ExprType::Value(Value::Bool(true))
    } else {
        let prev = tuple_eq_exec(a, b, n - 1);
        assert(exprs_v(a@).take(n as int).drop_last() =~= exprs_v(a@).take(n - 1));
        assert(exprs_v(b@).take(n as int).drop_last() =~= exprs_v(b@).take(n - 1));
        let item_eq = mk_expr(ExprType::BinOp(ExprBinOp::Eq, a[n - 1].copy(), b[n - 1].copy()), None);
        ExprType::BinOp(ExprBinOp::LogAnd, mk_expr(prev, None), item_eq)
    }
}

fn bind_ms_exec(ms: &Vec<Matcher>, vars: &Vec<(String, Expr)>) -> (r: Vec<Matcher>)
    ensures
        matchers_v(r@) == ms_bind(matchers_v(ms@), set_v(vars@)),
    decreases ms, 0nat,
{
    proof { lemma_matchers_v(ms@); }
    let ghost sv = matchers_v(ms@);
    let mut out: Vec<Matcher> = Vec::new();
    let mut i: usize = 0;
    proof { lemma_matchers_v(out@); }
    assert(sv.take(0) =~= Seq::<MatcherV>::empty());
    while i < ms.len()
        invariant
            i <= ms@.len(),
            sv == ms@.map_values(|m: Matcher| m@),
            matchers_v(out@) == ms_bind(sv.take(i as int), set_v(vars@)),
        decreases ms.len() - i,
    {
        proof {
            assert(decreases_to!(*ms => ms@));
            assert(decreases_to!(ms@ => ms@[i as int]));
        }
        let ghost o0 = out@;
        let c = bind_defaults_exec(&ms[i], vars);
        out.push(c);
        assert(out@.drop_last() =~= o0);
        assert(sv.take(i + 1).drop_last() =~= sv.take(i as int));
        i = i + 1;
    }
    assert(sv.take(ms@.len() as int) =~= sv);
    out
}

fn bind_om_exec(items: &Vec<(String, Matcher, Option<Expr>)>, vars: &Vec<(String, Expr)>)
    -> (r: Vec<(String, Matcher, Option<Expr>)>)
    ensures
        omatch_v(r@) == om_bind(omatch_v(items@), set_v(vars@)),
    decreases items, 0nat,
{
    proof { lemma_omatch_v(items@); }
    let ghost sv = omatch_v(items@);
    let mut out: Vec<(String, Matcher, Option<Expr>)> = Vec::new();
    let mut i: usize = 0;
    assert(sv.take(0) =~= Seq::<(Seq<char>, MatcherV, Option<ExprV>)>::empty());
    while i < items.len()
        invariant
            i <= items@.len(),
            sv == items@.map_values(|p: (String, Matcher, Option<Expr>)| (p.0@, p.1@, opt_v(p.2))),
            omatch_v(out@) == om_bind(sv.take(i as int), set_v(vars@)),
        decreases items.len() - i,
    {
        proof {
            assert(decreases_to!(*items => items@));
            assert(decreases_to!(items@ => items@[i as int]));
            assert(decreases_to!(items@[i as int] => items@[i as int].1));
        }
        let ghost o0 = out@;
        let d = match &items[i].2 {
            Some(x) => Some(x.bind(vars)),
            None => None,
        };
        assert(opt_v(d) == (match sv[i as int].2 {
            Some(x) => Some(bind_v(x, set_v(vars@))),
            None => None,
        }));
        let c = (copy_str(items[i].0.as_str()), bind_defaults_exec(&items[i].1, vars), d);
        let ghost cv = (c.0@, c.1@, opt_v(c.2));
        let ghost cg = c;
        out.push(c);
        assert(out@ == o0.push(cg));
        assert(out@.last() == cg);
        assert(out@.drop_last() == o0);
        assert(omatch_v(out@) == omatch_v(out@.drop_last()).push((out@.last().0@, out@.last().1.view_rec(), opt_v(out@.last().2))));
        assert(omatch_v(out@) == omatch_v(o0).push(cv));
        assert(out@.drop_last() =~= o0);
        assert(sv.take(i + 1).drop_last() =~= sv.take(i as int));
        i = i + 1;
    }
    assert(sv.take(items@.len() as int) =~= sv);
    out
}

fn bind_defaults_exec(m: &Matcher, vars: &Vec<(String, Expr)>) -> (r: Matcher)
    ensures
        r@ == bind_defaults_v(m@, set_v(vars@)),
    decreases m, 1nat,
{
    match m {
        Matcher::Alias(inner, n) => Matcher::Alias(Box::new(bind_defaults_exec(&**inner, vars)), copy_str(n.as_str())),
        Matcher::DontCare => Matcher::DontCare,
        Matcher::Ident(n) => Matcher::Ident(copy_str(n.as_str())),
        Matcher::Tuple(ms) => Matcher::Tuple(bind_ms_exec(ms, vars)),
        Matcher::Object(items, all) => Matcher::Object(bind_om_exec(items, vars), *all),
    }
}

impl Matcher {
    /// This matcher with its defaults bound in `varscope`.
    pub fn bind_defaults(&self, varscope: &Vec<(String, Expr)>) -> (r: Matcher)
        ensures
            r@ == bind_defaults_v(self@, set_v(varscope@)),
    {
        bind_defaults_exec(self, varscope)
    }

    /// The variables this matcher binds when a function is called with
    /// `expr`; see `run_v`.
    pub fn run(&self, expr: &Expr) -> (r: Result<Vec<(String, Expr)>, Error>)
        ensures
            set_res(r) == run_v(self@, expr@, EVAL_FUEL as nat),
    {
        run_fuel(self, expr, EVAL_FUEL)
    }
}


/* Resolving */

/// Resolves `e` (see `resolve_v`).
pub fn resolve_fuel(e: &Expr, fuel: u64) -> (r: Result<Expr, Error>)
    ensures
        ev(r) == resolve_v(e@, fuel as nat),
    decreases fuel, 0nat,
{
    let mut cur = e.copy();
    let mut f = fuel;
    loop
        invariant
            f <= fuel,
            resolve_v(cur@, f as nat) == resolve_v(e@, fuel as nat),
        decreases f,
    {
        if is_whnf(&cur) {
            return Ok(cur);
        }
        if f == 0 {
            return Err(fuel_error());
        }
        match step_fuel(&cur, f - 1) {
            Ok(c2) => {
                cur = c2;
                f = f - 1;
            },
            Err(x) => {
                return Err(x);
            },
        }
    }
}

pub(crate) fn value_fuel(e: &Expr, fuel: u64) -> (r: Result<Value, Error>)
    ensures
        crate::value::res_view(r) == value_v(e@, fuel as nat),
    decreases fuel, 1nat,
{
    let r = match resolve_fuel(e, fuel) {
        Ok(r) => r,
        Err(x) => return Err(x),
    };
    let text = r.to_text();
    let ExprStorage { tok, loc } = *r.0;
    match tok {
        ExprType::Value(v) => Ok(v),
        _ => Err(Error::new(ErrorType::NoValue, text2("Not a value: ", text.as_str()))),
    }
}

pub(crate) fn get_item_fuel(e: &Expr, name: &str, fuel: u64) -> (r: Result<Expr, Error>)
    ensures
        ev(r) == get_item_v(e@, name@, fuel as nat),
    decreases fuel, 1nat,
{
    let r = match resolve_fuel(e, fuel) {
        Ok(r) => r,
        Err(x) => return Err(x),
    };
    match &r.0.tok {
        ExprType::Object(fs) => {
            proof {
                lemma_set_v(fs@);
                lemma_set_find(set_v(fs@), name@);
            }
            match find_key(fs, name) {
                Some(i) => Ok(fs[i].1.copy()),
                None => Err(Error::new(ErrorType::NoValue, text3("Invalid field '", name, "'"))),
            }
        },
        _ => Err(Error::new(ErrorType::NoValue, text3("Missing item '", name, "'"))),
    }
}

fn run_fuel(m: &Matcher, e: &Expr, fuel: u64) -> (r: Result<Vec<(String, Expr)>, Error>)
    ensures
        set_res(r) == run_v(m@, e@, fuel as nat),
    decreases fuel, 2nat,
{
    if fuel == 0 {
        return Err(fuel_error());
    }
    match m {
        Matcher::Alias(inner, name) => {
            let mut out = match run_fuel(&**inner, e, fuel - 1) {
                Ok(o) => o,
                Err(x) => return Err(x),
            };
            set_insert_exec(&mut out, copy_str(name.as_str()), e.copy());
            Ok(out)
        },
        Matcher::DontCare => {
            let out: Vec<(String, Expr)> = Vec::new();
            proof { lemma_set_v(out@); }
            assert(set_v(out@) =~= Seq::<(Seq<char>, ExprV)>::empty());
            Ok(out)
        },
        Matcher::Ident(name) => {
            let mut out: Vec<(String, Expr)> = Vec::new();
            out.push((copy_str(name.as_str()), e.copy()));
            proof { lemma_set_v(out@); }
            assert(set_v(out@) =~= seq![(name@, e@)]);
            Ok(out)
        },
        Matcher::Tuple(ms) => run_tuple_case_fuel(ms, e, fuel),
        Matcher::Object(items, all) => run_object_case_fuel(items, *all, e, fuel),
    }
}

fn run_tuple_case_fuel(ms: &Vec<Matcher>, e: &Expr, fuel: u64) -> (r: Result<Vec<(String, Expr)>, Error>)
    ensures
        set_res(r) == run_tuple_case(matchers_v(ms@), e@, fuel as nat),
    decreases fuel, 1nat,
{
    if fuel == 0 {
        return Err(fuel_error());
    }
    let r = match resolve_fuel(e, fuel) {
        Ok(r) => r,
        Err(x) => return Err(x),
    };
    proof { lemma_matchers_v(ms@); }
    match &r.0.tok {
        ExprType::Tuple(es) => {
            proof { lemma_exprs_v(es@); }
            if es.len() != ms.len() {
                let mut msg = copy_str("Expected tuple of length ");
                crate::text::push_decimal(&mut msg, ms.len() as u128);
                Err(error_at(ErrorType::Type, msg, &r.0.loc))
            } else {
                let out = run_tuple_fuel(ms, es, ms.len(), fuel - 1);
                assert(matchers_v(ms@).take(ms@.len() as int) =~= matchers_v(ms@));
                assert(exprs_v(es@).take(es@.len() as int) =~= exprs_v(es@));
                out
            }
        },
        _ => Err(error_at(ErrorType::Type, copy_str("Expected tuple"), &r.0.loc)),
    }
}

fn run_object_case_fuel(items: &Vec<(String, Matcher, Option<Expr>)>, all: bool, e: &Expr, fuel: u64)
    -> (r: Result<Vec<(String, Expr)>, Error>)
    ensures
        set_res(r) == run_object_case(omatch_v(items@), all, e@, fuel as nat),
    decreases fuel, 1nat,
{
    if fuel == 0 {
        return Err(fuel_error());
    }
    let r = match resolve_fuel(e, fuel) {
        Ok(r) => r,
        Err(x) => return Err(x),
    };
    match &r.0.tok {
        ExprType::Object(fs) => {
            proof { lemma_omatch_v(items@); }
            let st = obj_fold_fuel(items, items.len(), fs, &r.0.loc, fuel - 1);
            assert(omatch_v(items@).take(items@.len() as int) =~= omatch_v(items@));
            match st {
                Err(x) => Err(x),
                Ok((rest, out)) => {
                    proof { lemma_set_v(rest@); }
                    if all && rest.len() > 0 {
                        Err(error_at(ErrorType::NoValue, copy_str("Extra fields passed to function"), &r.0.loc))
                    } else {
                        Ok(out)
                    }
                },
            }
        },
        _ => Err(error_at(ErrorType::Type, copy_str("Expected tuple"), &r.0.loc)),
    }
}

fn run_tuple_fuel(ms: &Vec<Matcher>, es: &Vec<Expr>, n: usize, fuel: u64) -> (r: Result<Vec<(String, Expr)>, Error>)
    requires
        n <= ms@.len(),
        n <= es@.len(),
    ensures
        set_res(r) == run_tuple_v(matchers_v(ms@).take(n as int), exprs_v(es@).take(n as int), fuel as nat),
    decreases fuel, n + 3,
{
    proof {
        lemma_matchers_v(ms@);
        lemma_exprs_v(es@);
    }
    if n == 0 {
        let out: Vec<(String, Expr)> = Vec::new();
        proof { lemma_set_v(out@); }
        return Ok(out);
    }
    assert(matchers_v(ms@).take(n as int).drop_last() =~= matchers_v(ms@).take(n - 1));
    assert(exprs_v(es@).take(n as int).drop_last() =~= exprs_v(es@).take(n - 1));
    let mut out = match run_tuple_fuel(ms, es, n - 1, fuel) {
        Ok(o) => o,
        Err(x) => return Err(x),
    };
    let sub = match run_fuel(&ms[n - 1], &es[n - 1], fuel) {
        Ok(s) => s,
        Err(x) => return Err(x),
    };
    set_append_exec(&mut out, sub);
    Ok(out)
}

pub open spec fn fold_res(r: Result<(Vec<(String, Expr)>, Vec<(String, Expr)>), Error>)
    -> Result<(Seq<(Seq<char>, ExprV)>, Seq<(Seq<char>, ExprV)>), ErrorV> {
    match r {
        Ok(p) => Ok((set_v(p.0@), set_v(p.1@))),
        Err(x) => Err(x@),
    }
}

fn obj_fold_fuel(
    items: &Vec<(String, Matcher, Option<Expr>)>,
    n: usize,
    fs: &Vec<(String, Expr)>,
    loc: &Option<crate::error::Loc>,
    fuel: u64,
) -> (r: Result<(Vec<(String, Expr)>, Vec<(String, Expr)>), Error>)
    requires
        n <= items@.len(),
    ensures
        fold_res(r) == obj_fold(omatch_v(items@).take(n as int), set_v(fs@), opt_loc_view(*loc), fuel as nat),
    decreases fuel, n + 3,
{
    proof { lemma_omatch_v(items@); }
    if n == 0 {
        let out: Vec<(String, Expr)> = Vec::new();
        proof { lemma_set_v(out@); }
        return Ok((crate::expr::copy_set(fs), out));
    }
    assert(omatch_v(items@).take(n as int).drop_last() =~= omatch_v(items@).take(n - 1));
    let (mut rest, mut out) = match obj_fold_fuel(items, n - 1, fs, loc, fuel) {
        Ok(p) => p,
        Err(x) => return Err(x),
    };
    let ghost rest0 = set_v(rest@);
    proof {
        lemma_set_v(rest@);
        lemma_set_find(rest0, items@[n - 1].0@);
    }
    let input = match find_key(&rest, items[n - 1].0.as_str()) {
        Some(i) => {
            let entry = rest.remove(i);
            proof { lemma_set_v(rest@); }
            assert(set_v(rest@) =~= rest0.remove(i as int));
            entry.1
        },
        None => match &items[n - 1].2 {
            Some(d) => d.copy(),
            None => {
                return Err(error_at(ErrorType::NoValue, text3("Expected field '", items[n - 1].0.as_str(), "' not found"), loc));
            },
        },
    };
    let sub = match run_fuel(&items[n - 1].1, &input, fuel) {
        Ok(s) => s,
        Err(x) => return Err(x),
    };
    set_append_exec(&mut out, sub);
    Ok((rest, out))
}

/// One step of resolving `e` (see `step_v`).
fn step_fuel(e: &Expr, fuel: u64) -> (r: Result<Expr, Error>)
    ensures
        ev(r) == step_v(e@, fuel as nat),
    decreases fuel, 4nat,
{
    let loc = &e.0.loc;
    if fuel == 0 {
        return Err(fuel_error());
    }
    match &e.0.tok {
        ExprType::Bind(vars, b) => bind_step_fuel(vars, b, loc, fuel),
        ExprType::Concat(parts) => step_concat_fuel(parts, loc, fuel),
        ExprType::AttrSel(v, a) => step_attrsel_fuel(v, a, loc, fuel),
        ExprType::FuncCall(fa, fe) => step_call_fuel(fa, fe, loc, fuel),
        ExprType::Fold(func, init, input) => step_fold_fuel(func, init, input, loc, fuel),
        ExprType::Mapping(typ, func, input, filter) => step_map_fuel(*typ, func, input, filter, loc, fuel),
        ExprType::UnOp(op, x) => step_unop_fuel(*op, x, loc, fuel),
        ExprType::BinOp(op, l, r) => match binop_fuel(l, *op, r, fuel) {
            Ok(t) => Ok(mk_expr(t, copy_loc(loc))),
            Err(x) => Err(x),
        },
        ExprType::Switch(x, cases, default) => step_switch_fuel(x, cases, default, loc, fuel),
        ExprType::Var(name) => Err(error_at(ErrorType::Scope, text2("Unknown variable ", name.as_str()), loc)),
        ExprType::Let(..) => {
            let empty: Vec<(String, Expr)> = Vec::new();
            proof { lemma_set_v(empty@); }
            Ok(e.bind(&empty))
        },
        _ => Ok(e.copy()),
    }
}

fn step_concat_fuel(parts: &Vec<Expr>, loc: &Option<crate::error::Loc>, fuel: u64) -> (r: Result<Expr, Error>)
    ensures
        ev(r) == step_concat(exprs_v(parts@), opt_loc_view(*loc), fuel as nat),
    decreases fuel, 3nat,
{
    if fuel == 0 {
        return Err(fuel_error());
    }
    proof { lemma_exprs_v(parts@); }
    let vs = match values_of_fuel(parts, parts.len(), loc, fuel - 1) {
        Ok(v) => v,
        Err(x) => {
            assert(exprs_v(parts@).take(parts@.len() as int) =~= exprs_v(parts@));
            return Err(x);
        },
    };
    assert(exprs_v(parts@).take(parts@.len() as int) =~= exprs_v(parts@));
    match Value::op_string_concat(vs) {
        Ok(v) => Ok(mk_expr(ExprType::Value(v), copy_loc(loc))),
        Err(x) => Err(x),
    }
}

fn step_attrsel_fuel(v: &Expr, a: &Expr, loc: &Option<crate::error::Loc>, fuel: u64) -> (r: Result<Expr, Error>)
    ensures
        ev(r) == step_attrsel(v@, a@, opt_loc_view(*loc), fuel as nat),
    decreases fuel, 3nat,
{
    let av = match value_fuel(a, fuel) {
        Ok(x) => x,
        Err(x) => return Err(x),
    };
    let name = match av.as_string() {
        Ok(n) => n,
        Err(x) => return Err(x),
    };
    let item = match get_item_fuel(v, name.as_str(), fuel) {
        Ok(i) => i,
        Err(x) => return Err(x),
    };
    let ri = match resolve_fuel(&item, fuel) {
        Ok(r) => r,
        Err(x) => return Err(x),
    };
    let ExprStorage { tok, loc: _ } = *ri.0;
    Ok(mk_expr(tok, copy_loc(loc)))
}

fn step_call_fuel(fa: &Expr, fe: &Expr, loc: &Option<crate::error::Loc>, fuel: u64) -> (r: Result<Expr, Error>)
    ensures
        ev(r) == step_call(fa@, fe@, opt_loc_view(*loc), fuel as nat),
    decreases fuel, 3nat,
{
    let rf = match resolve_fuel(fe, fuel) {
        Ok(r) => r,
        Err(x) => return Err(x.reref(loc)),
    };
    match &rf.0.tok {
        ExprType::FuncDef(m, fimpl) => {
            let vars = match run_fuel(m, fa, fuel) {
                Ok(v) => v,
                Err(x) => return Err(x.reref(loc)),
            };
            let (mut fbound, fbody) = match &fimpl.0.tok {
                ExprType::Bind(fb, fx) => (crate::expr::copy_set(fb), fx.copy()),
                _ => {
                    let empty: Vec<(String, Expr)> = Vec::new();
                    proof { lemma_set_v(empty@); }
                    (empty, fimpl.copy())
                },
            };
            assert(set_v(fbound@) == fn_parts(fimpl@).0);
            assert(fbody@ == fn_parts(fimpl@).1);
            set_append_exec(&mut fbound, vars);
            Ok(fbody.bind(&fbound))
        },
        ExprType::FuncDefBuiltin(b) => {
            let r = match builtin_call_fuel(b, fa, fuel) {
                Ok(r) => r,
                Err(x) => return Err(x.reref(loc)),
            };
            let empty: Vec<(String, Expr)> = Vec::new();
            proof { lemma_set_v(empty@); }
            Ok(r.bind(&empty))
        },
        _ => {
            let t = rf.to_text();
            Err(error_at(ErrorType::Scope, text2("called func, but it's a ", t.as_str()), &rf.0.loc))
        },
    }
}

fn step_fold_fuel(func: &Expr, init: &Expr, input: &Expr, loc: &Option<crate::error::Loc>, fuel: u64) -> (r: Result<Expr, Error>)
    ensures
        ev(r) == step_fold(func@, init@, input@, opt_loc_view(*loc), fuel as nat),
    decreases fuel, 3nat,
{
    let ri = match resolve_fuel(input, fuel) {
        Ok(r) => r,
        Err(x) => return Err(x),
    };
    match &ri.0.tok {
        ExprType::List(items) => {
            let out = fold_build_exec(func, init, items, items.len(), &ri.0.loc);
            proof { lemma_exprs_v(items@); }
            assert(exprs_v(items@).take(items@.len() as int) =~= exprs_v(items@));
            Ok(out)
        },
        _ => {
            let t = ri.to_text();
            Err(error_at(ErrorType::Eval, text2("Fold over non-list: ", t.as_str()), loc))
        },
    }
}

fn map_items_exec(ri: &Expr, loc: &Option<crate::error::Loc>) -> (r: Result<Vec<Expr>, Error>)
    ensures
        exprs_res(r) == map_items(ri@, opt_loc_view(*loc)),
{
    match &ri.0.tok {
        ExprType::List(v) => Ok(crate::expr::copy_exprs(v)),
        ExprType::Object(args) => Ok(pairs_exec(args)),
        _ => {
            let t = ri.to_text();
            Err(error_at(ErrorType::Eval, text2("Foreach over non-iterable: ", t.as_str()), loc))
        },
    }
}

fn step_map_fuel(typ: ExprMapType, func: &Expr, input: &Expr, filter: &Option<Expr>, loc: &Option<crate::error::Loc>,
    fuel: u64) -> (r: Result<Expr, Error>)
    ensures
        ev(r) == step_map(typ, func@, input@, opt_box_v(*filter), opt_loc_view(*loc), fuel as nat),
    decreases fuel, 3nat,
{
    if fuel == 0 {
        return Err(fuel_error());
    }
    let f1 = fuel - 1;
    let ri = match resolve_fuel(input, fuel) {
        Ok(r) => r,
        Err(x) => return Err(x.reref(loc)),
    };
    let items = match map_items_exec(&ri, loc) {
        Ok(i) => i,
        Err(x) => return Err(x),
    };
    proof { lemma_exprs_v(items@); }
    let kept = match filter {
        Some(fx) => {
            let k = filter_items_fuel(&items, items.len(), fx, f1);
            assert(exprs_v(items@).take(items@.len() as int) =~= exprs_v(items@));
            match k {
                Ok(k) => k,
                Err(x) => return Err(x),
            }
        },
        None => items,
    };
    let outs = calls_exec(kept, func);
    match typ {
        ExprMapType::List => Ok(mk_expr(ExprType::List(outs), copy_loc(loc))),
        ExprMapType::Object => {
            proof { lemma_exprs_v(outs@); }
            let fs = collect_obj_fuel(&outs, outs.len(), loc, f1);
            assert(exprs_v(outs@).take(outs@.len() as int) =~= exprs_v(outs@));
            match fs {
                Ok(fs) => Ok(mk_expr(ExprType::Object(fs), copy_loc(loc))),
                Err(x) => Err(x),
            }
        },
    }
}

fn step_unop_fuel(op: ExprUnOp, x: &Expr, loc: &Option<crate::error::Loc>, fuel: u64) -> (r: Result<Expr, Error>)
    ensures
        ev(r) == step_unop(op, x@, opt_loc_view(*loc), fuel as nat),
    decreases fuel, 3nat,
{
    let rx = match resolve_fuel(x, fuel) {
        Ok(r) => r,
        Err(er) => return Err(er.reref(loc)),
    };
    match &rx.0.tok {
        ExprType::Value(v) => {
            let r = match op {
                ExprUnOp::Neg => v.op_neg(),
                ExprUnOp::Not => v.op_not(),
            };
            match r {
                Ok(v2) => Ok(mk_expr(ExprType::Value(v2), copy_loc(loc))),
                Err(er) => Err(er),
            }
        },
        _ => {
            let t = rx.to_text();
            Err(error_at(ErrorType::Eval, text2("negating non-value: ", t.as_str()), loc))
        },
    }
}

fn step_switch_fuel(x: &Expr, cases: &Vec<(Expr, Expr)>, default: &Option<Expr>, loc: &Option<crate::error::Loc>,
    fuel: u64) -> (r: Result<Expr, Error>)
    ensures
        ev(r) == step_switch(x@, cases_v(cases@), opt_box_v(*default), opt_loc_view(*loc), fuel as nat),
    decreases fuel, 3nat,
{
    if fuel == 0 {
        return Err(fuel_error());
    }
    proof { lemma_cases_v(cases@); }
    let found = switch_scan_fuel(cases, cases.len(), x, loc, fuel - 1);
    assert(cases_v(cases@).take(cases@.len() as int) =~= cases_v(cases@));
    match found {
        Err(er) => Err(er),
        Ok(Some(o)) => {
            let ExprStorage { tok, loc: _ } = *o.0;
            Ok(mk_expr(tok, copy_loc(loc)))
        },
        Ok(None) => match default {
            Some(d) => Ok(mk_expr(d.0.tok.copy(), copy_loc(loc))),
            None => {
                let t = x.to_text();
                Err(error_at(ErrorType::Eval, text2("No matching case for ", t.as_str()), loc))
            },
        },
    }
}

fn bind_step_fuel(vars: &Vec<(String, Expr)>, b: &Expr, loc: &Option<crate::error::Loc>, fuel: u64) -> (r: Result<Expr, Error>)
    ensures
        ev(r) == bind_step_v(set_v(vars@), b@, opt_loc_view(*loc), fuel as nat),
    decreases fuel, 3nat,
{
    if fuel == 0 {
        return Err(fuel_error());
    }
    match &b.0.tok {
        ExprType::Let(fields, target) => {
            proof { lemma_lets_v(fields@); }
            let vars2 = let_fold_fuel(fields, fields.len(), vars, fuel - 1);
            assert(lets_v(fields@).take(fields@.len() as int) =~= lets_v(fields@));
            match vars2 {
                Ok(v2) => Ok(target.bind(&v2)),
                Err(x) => Err(x),
            }
        },
        ExprType::Var(name) => {
            proof {
                lemma_set_v(vars@);
                lemma_set_find(set_v(vars@), name@);
            }
            match find_key(vars, name.as_str()) {
                Some(i) => {
                    let rv = match resolve_fuel(&vars[i].1, fuel) {
                        Ok(r) => r,
                        Err(x) => return Err(x.reref(loc)),
                    };
                    let ExprStorage { tok, loc: _ } = *rv.0;
                    Ok(mk_expr(tok, copy_loc(loc)))
                },
                None => Err(error_at(ErrorType::Scope, text2("Unknown variable ", name.as_str()), &b.0.loc)),
            }
        },
        _ => Ok(bind_struct_exec(vars, b, loc)),
    }
}

#[verifier::rlimit(60)]
fn bind_struct_exec(vars: &Vec<(String, Expr)>, b: &Expr, loc: &Option<crate::error::Loc>) -> (r: Expr)
    ensures
        !(b@.tok is Let || b@.tok is Var) ==> r@ == bind_struct(set_v(vars@), b@, opt_loc_view(*loc)),
{
    let l = copy_loc(loc);
    match &b.0.tok {
        ExprType::Object(fs) => mk_expr(ExprType::Object(bind_fields_exec(fs, vars)), l),
        ExprType::List(items) => mk_expr(ExprType::List(bind_items_exec(items, vars)), l),
        ExprType::Tuple(items) => mk_expr(ExprType::Tuple(bind_items_exec(items, vars)), l),
        ExprType::Concat(items) => mk_expr(ExprType::Concat(bind_items_exec(items, vars)), l),
        ExprType::AttrSel(v, a) => mk_expr(ExprType::AttrSel(v.bind(vars), a.bind(vars)), l),
        ExprType::FuncDef(m, body) => mk_expr(ExprType::FuncDef(m.bind_defaults(vars), body.bind(vars)), l),
        ExprType::FuncDefBuiltin(bi) => mk_expr(ExprType::FuncDefBuiltin(bi.copy()), copy_loc(&b.0.loc)),
        ExprType::Fold(f, i, inp) => mk_expr(ExprType::Fold(f.bind(vars), i.bind(vars), inp.bind(vars)), l),
        ExprType::Mapping(t, f, inp, filt) => mk_expr(ExprType::Mapping(*t, f.bind(vars), inp.bind(vars),
            bind_opt_exec(filt, vars)), l),
        ExprType::UnOp(op, x) => mk_expr(ExprType::UnOp(*op, x.bind(vars)), l),
        ExprType::BinOp(op, x, y) => mk_expr(ExprType::BinOp(*op, x.bind(vars), y.bind(vars)), l),
        ExprType::FuncCall(a, f) => mk_expr(ExprType::FuncCall(a.bind(vars), f.bind(vars)), l),
        ExprType::Value(v) => mk_expr(ExprType::Value(v.copy()), l),
        ExprType::Bind(iv, ie) => ie.bind(iv),
        ExprType::Switch(x, cases, d) => mk_expr(ExprType::Switch(x.bind(vars), bind_cases_exec(cases, vars),
            bind_opt_exec(d, vars)), l),
        _ => mk_expr(ExprType::Null, l),
    }
}

fn let_fold_fuel(fields: &Vec<(Matcher, Expr)>, n: usize, vars: &Vec<(String, Expr)>, fuel: u64)
    -> (r: Result<Vec<(String, Expr)>, Error>)
    requires
        n <= fields@.len(),
    ensures
        set_res(r) == let_fold(lets_v(fields@).take(n as int), set_v(vars@), fuel as nat),
    decreases fuel, n + 3,
{
    proof { lemma_lets_v(fields@); }
    if n == 0 {
        return Ok(crate::expr::copy_set(vars));
    }
    assert(lets_v(fields@).take(n as int).drop_last() =~= lets_v(fields@).take(n - 1));
    let cur = match let_fold_fuel(fields, n - 1, vars, fuel) {
        Ok(c) => c,
        Err(x) => return Err(x),
    };
    let bound = fields[n - 1].1.bind(&cur);
    let out = match run_fuel(&fields[n - 1].0, &bound, fuel) {
        Ok(o) => o,
        Err(x) => return Err(x),
    };
    proof { lemma_set_v(out@); }
    let r = insert_new_exec(&cur, &out, out.len());
    assert(set_v(out@).take(out@.len() as int) =~= set_v(out@));
    r
}

fn insert_new_exec(cur: &Vec<(String, Expr)>, out: &Vec<(String, Expr)>, n: usize) -> (r: Result<Vec<(String, Expr)>, Error>)
    requires
        n <= out@.len(),
    ensures
        set_res(r) == insert_new(set_v(cur@), set_v(out@).take(n as int)),
    decreases n,
{
    proof { lemma_set_v(out@); }
    if n == 0 {
        return Ok(crate::expr::copy_set(cur));
    }
    assert(set_v(out@).take(n as int).drop_last() =~= set_v(out@).take(n - 1));
    let mut c2 = match insert_new_exec(cur, out, n - 1) {
        Ok(c) => c,
        Err(x) => return Err(x),
    };
    match find_key(&c2, out[n - 1].0.as_str()) {
        Some(_) => Err(Error::new(ErrorType::DupKey, copy_str(out[n - 1].0.as_str()))),
        None => {
            set_insert_exec(&mut c2, copy_str(out[n - 1].0.as_str()), out[n - 1].1.copy());
            Ok(c2)
        },
    }
}

pub open spec fn values_res(r: Result<Vec<Value>, Error>) -> Result<Seq<ValueV>, ErrorV> {
    match r {
        Ok(v) => Ok(crate::value::values_view(v@)),
        Err(x) => Err(x@),
    }
}

fn values_of_fuel(parts: &Vec<Expr>, n: usize, loc: &Option<crate::error::Loc>, fuel: u64) -> (r: Result<Vec<Value>, Error>)
    requires
        n <= parts@.len(),
    ensures
        values_res(r) == values_of(exprs_v(parts@).take(n as int), opt_loc_view(*loc), fuel as nat),
    decreases fuel, n + 3,
{
    proof { lemma_exprs_v(parts@); }
    if n == 0 {
        let out: Vec<Value> = Vec::new();
        assert(crate::value::values_view(out@) =~= Seq::<ValueV>::empty());
        return Ok(out);
    }
    assert(exprs_v(parts@).take(n as int).drop_last() =~= exprs_v(parts@).take(n - 1));
    let mut vs = match values_of_fuel(parts, n - 1, loc, fuel) {
        Ok(v) => v,
        Err(x) => return Err(x),
    };
    let v = match value_fuel(&parts[n - 1], fuel) {
        Ok(v) => v,
        Err(x) => return Err(x.reref(loc)),
    };
    let ghost vs0 = vs@;
    let ghost vg = v;
    vs.push(v);
    assert(vs@.drop_last() =~= vs0);
    assert(vs@.last() == vg);
    Ok(vs)
}

pub open spec fn exprs_res(r: Result<Vec<Expr>, Error>) -> Result<Seq<ExprV>, ErrorV> {
    match r {
        Ok(v) => Ok(exprs_v(v@)),
        Err(x) => Err(x@),
    }
}

fn filter_items_fuel(items: &Vec<Expr>, n: usize, filter: &Expr, fuel: u64) -> (r: Result<Vec<Expr>, Error>)
    requires
        n <= items@.len(),
    ensures
        exprs_res(r) == filter_items(exprs_v(items@).take(n as int), filter@, fuel as nat),
    decreases fuel, n + 3,
{
    proof { lemma_exprs_v(items@); }
    if n == 0 {
        let out: Vec<Expr> = Vec::new();
        proof { lemma_exprs_v(out@); }
        return Ok(out);
    }
    assert(exprs_v(items@).take(n as int).drop_last() =~= exprs_v(items@).take(n - 1));
    let mut kept = match filter_items_fuel(items, n - 1, filter, fuel) {
        Ok(k) => k,
        Err(x) => return Err(x),
    };
    let item = &items[n - 1];
    let call = mk_expr(ExprType::FuncCall(item.copy(), filter.copy()), copy_loc(&item.0.loc));
    let v = match value_fuel(&call, fuel) {
        Ok(v) => v,
        Err(x) => return Err(x),
    };
    let b = match v.as_bool() {
        Ok(b) => b,
        Err(x) => return Err(x),
    };
    if b {
        let ghost k0 = kept@;
        let c = item.copy();
        let ghost cg = c;
        kept.push(c);
        assert(kept@.drop_last() =~= k0);
        assert(kept@.last() == cg);
    }
    Ok(kept)
}

fn collect_obj_fuel(els: &Vec<Expr>, n: usize, loc: &Option<crate::error::Loc>, fuel: u64) -> (r: Result<Vec<(String, Expr)>, Error>)
    requires
        n <= els@.len(),
    ensures
        set_res(r) == collect_obj(exprs_v(els@).take(n as int), opt_loc_view(*loc), fuel as nat),
    decreases fuel, n + 3,
{
    proof { lemma_exprs_v(els@); }
    if n == 0 {
        let out: Vec<(String, Expr)> = Vec::new();
        proof { lemma_set_v(out@); }
        return Ok(out);
    }
    assert(exprs_v(els@).take(n as int).drop_last() =~= exprs_v(els@).take(n - 1));
    let mut acc = match collect_obj_fuel(els, n - 1, loc, fuel) {
        Ok(a) => a,
        Err(x) => return Err(x),
    };
    let r = match resolve_fuel(&els[n - 1], fuel) {
        Ok(r) => r,
        Err(x) => return Err(x.reref(loc)),
    };
    match &r.0.tok {
        ExprType::Tuple(parts) => {
            proof { lemma_exprs_v(parts@); }
            if parts.len() == 2 {
                let kv = match value_fuel(&parts[0], fuel) {
                    Ok(v) => v,
                    Err(x) => return Err(x),
                };
                let k = match kv.as_string() {
                    Ok(k) => k,
                    Err(x) => return Err(x),
                };
                set_insert_exec(&mut acc, k, parts[1].copy());
                Ok(acc)
            } else {
                Err(error_at(ErrorType::Type, copy_str("Expecting tuple of 2 elements"), &r.0.loc))
            }
        },
        _ => Err(error_at(ErrorType::Type, copy_str("Expecting tuple of 2 elements"), &r.0.loc)),
    }
}

pub open spec fn found_res(r: Result<Option<Expr>, Error>) -> Result<Option<ExprV>, ErrorV> {
    match r {
        Ok(Some(e)) => Ok(Some(e@)),
        Ok(None) => Ok(None),
        Err(x) => Err(x@),
    }
}

fn switch_scan_fuel(cases: &Vec<(Expr, Expr)>, n: usize, x: &Expr, loc: &Option<crate::error::Loc>, fuel: u64)
    -> (r: Result<Option<Expr>, Error>)
    requires
        n <= cases@.len(),
    ensures
        found_res(r) == switch_scan(cases_v(cases@).take(n as int), x@, opt_loc_view(*loc), fuel as nat),
    decreases fuel, n + 3,
{
    proof { lemma_cases_v(cases@); }
    if n == 0 {
        return Ok(None);
    }
    assert(cases_v(cases@).take(n as int).drop_last() =~= cases_v(cases@).take(n - 1));
    let found = match switch_scan_fuel(cases, n - 1, x, loc, fuel) {
        Ok(f) => f,
        Err(er) => return Err(er),
    };
    let m = &cases[n - 1].0;
    let test = mk_expr(ExprType::BinOp(ExprBinOp::Eq, m.copy(), x.copy()), copy_loc(&m.0.loc));
    let rc = match resolve_fuel(&test, fuel) {
        Ok(r) => r,
        Err(er) => return Err(er.reref(loc)),
    };
    match &rc.0.tok {
        ExprType::Value(v) => {
            let b = match v.as_bool() {
                Ok(b) => b,
                Err(er) => return Err(er.reref(loc)),
            };
            if found.is_some() {
                Ok(found)
            } else if b {
                Ok(Some(cases[n - 1].1.copy()))
            } else {
                Ok(None)
            }
        },
        _ => Ok(found),
    }
}

pub open spec fn tok_res(r: Result<ExprType, Error>) -> Result<TokV, ErrorV> {
    match r {
        Ok(t) => Ok(t@),
        Err(x) => Err(x@),
    }
}

fn lift_exec(r: Result<Value, Error>) -> (o: Result<ExprType, Error>)
    ensures
        tok_res(o) == lift(crate::value::res_view(r)),
{
    match r {
        Ok(v) => Ok(ExprType::Value(v)),
        Err(x) => Err(x),
    }
}

fn unsupported_exec(op: ExprBinOp, between: &str) -> (e: Error)
    ensures
        e@ == unsupported(op, between@),
{
    let mut msg = copy_str("Unsupported binary operation: ");
    crate::text::push_str(&mut msg, crate::expr::binop_name_str(op));
    crate::text::push_str(&mut msg, " between ");
    crate::text::push_str(&mut msg, between);
    Error::new(ErrorType::Eval, msg)
}

#[verifier::rlimit(100)]
#[verifier::spinoff_prover]
fn binop_resolved_exec(lr: &Expr, op: ExprBinOp, rr: &Expr, lloc: &Option<crate::error::Loc>) -> (r: Result<ExprType, Error>)
    ensures
        tok_res(r) == binop_resolved(lr@, op, rr@, opt_loc_view(*lloc)),
{
    match (&lr.0.tok, &rr.0.tok) {
        (ExprType::Value(a), ExprType::Value(b)) => match op {
            ExprBinOp::Add => lift_exec(Value::op_add(a, b)),
            ExprBinOp::Sub => lift_exec(Value::op_sub(a, b)),
            ExprBinOp::Mult => lift_exec(Value::op_mult(a, b)),
            ExprBinOp::Div => lift_exec(Value::op_div(a, b)),
            ExprBinOp::Lt => lift_exec(Value::op_lt(a, b)),
            ExprBinOp::Le => lift_exec(Value::op_le(a, b)),
            ExprBinOp::Gt => lift_exec(Value::op_gt(a, b)),
            ExprBinOp::Ge => lift_exec(Value::op_ge(a, b)),
            ExprBinOp::Eq => Ok(ExprType::Value(Value::Bool(a.same_as(b)))),
            ExprBinOp::Neq => Ok(ExprType::Value(Value::Bool(!a.same_as(b)))),
            _ => Err(unsupported_exec(op, "values")),
        },
        (ExprType::Object(lo), ExprType::Object(ro)) => {
            if op == ExprBinOp::Update {
                let mut merged = crate::expr::copy_set(lo);
                set_append_exec(&mut merged, crate::expr::copy_set(ro));
                Ok(ExprType::Object(merged))
            } else {
                Err(unsupported_exec(op, "objects"))
            }
        },
        (ExprType::List(la), ExprType::List(lb)) => {
            if op == ExprBinOp::ListConcat {
                let mut out = crate::expr::copy_exprs(la);
                let mut more = crate::expr::copy_exprs(lb);
                let ghost o0 = out@;
                let ghost m0 = more@;
                out.append(&mut more);
                proof {
                    lemma_exprs_v(out@);
                    lemma_exprs_v(o0);
                    lemma_exprs_v(m0);
                    lemma_exprs_v(la@);
                    lemma_exprs_v(lb@);
                }
                assert(exprs_v(out@) =~= exprs_v(la@) + exprs_v(lb@));
                Ok(ExprType::List(out))
            } else {
                Err(unsupported_exec(op, "lists"))
            }
        },
        (ExprType::Object(lo), ExprType::Value(rv)) => {
            if op == ExprBinOp::HasAttr {
                let k = match rv.as_string() {
                    Ok(k) => k,
                    Err(x) => return Err(x),
                };
                proof {
                    lemma_set_v(lo@);
                    lemma_set_find(set_v(lo@), k@);
                }
                Ok(ExprType::Value(Value::Bool(find_key(lo, k.as_str()).is_some())))
            } else {
                Err(unsupported_exec(op, "objects and string"))
            }
        },
        (ExprType::Tuple(ta), ExprType::Tuple(tb)) => {
            if op == ExprBinOp::Eq {
                proof {
                    lemma_exprs_v(ta@);
                    lemma_exprs_v(tb@);
                }
                if ta.len() != tb.len() {
                    Ok(ExprType::Value(Value::Bool(false)))
                } else {
                    let t = tuple_eq_exec(ta, tb, ta.len());
                    assert(exprs_v(ta@).take(ta@.len() as int) =~= exprs_v(ta@));
                    assert(exprs_v(tb@).take(tb@.len() as int) =~= exprs_v(tb@));
                    Ok(t)
                }
            } else {
                Err(unsupported_exec(op, "tuples"))
            }
        },
        _ => {
            let mut between = lr.to_text();
            crate::text::push_str(&mut between, " and ");
            let rt = rr.to_text();
            crate::text::push_str(&mut between, rt.as_str());
            Err(unsupported_exec(op, between.as_str()).reref(lloc))
        },
    }
}

fn binop_fuel(l: &Expr, op: ExprBinOp, r: &Expr, fuel: u64) -> (res: Result<ExprType, Error>)
    ensures
        tok_res(res) == binop_v(l@, op, r@, fuel as nat),
    decreases fuel, 2nat,
{
    if op == ExprBinOp::LogAnd || op == ExprBinOp::LogOr || op == ExprBinOp::LogImpl {
        let lv = match value_fuel(l, fuel) {
            Ok(v) => v,
            Err(x) => return Err(x.reref(&l.0.loc)),
        };
        let b = match lv.as_bool() {
            Ok(b) => b,
            Err(x) => return Err(x),
        };
        let need_rhs = if op == ExprBinOp::LogAnd { b } else if op == ExprBinOp::LogOr { !b } else { b };
        if need_rhs {
            match value_fuel(r, fuel) {
                Ok(rv) => Ok(ExprType::Value(rv)),
                Err(x) => Err(x.reref(&r.0.loc)),
            }
        } else if op == ExprBinOp::LogImpl {
            Ok(ExprType::Value(Value::Bool(true)))
        } else {
            Ok(ExprType::Value(lv))
        }
    } else {
        let lr = match resolve_fuel(l, fuel) {
            Ok(x) => x,
            Err(x) => return Err(x.reref(&l.0.loc)),
        };
        let rr = match resolve_fuel(r, fuel) {
            Ok(x) => x,
            Err(x) => return Err(x.reref(&r.0.loc)),
        };
        binop_resolved_exec(&lr, op, &rr, &l.0.loc)
    }
}

fn builtin_call_fuel(b: &Builtin, arg: &Expr, fuel: u64) -> (r: Result<Expr, Error>)
    ensures
        ev(r) == builtin_call_v(b@, arg@, fuel as nat),
    decreases fuel, 2nat,
{
    match b {
        Builtin::DbgTrace => Ok(arg.copy()),
        Builtin::DbgBreak => Err(error_at(ErrorType::Debug, copy_str("break"), &arg.0.loc)),
        Builtin::PbLock => {
            let r = match resolve_fuel(arg, fuel) {
                Ok(r) => r,
                Err(x) => return Err(x),
            };
            match &r.0.tok {
                ExprType::Value(Value::Path { path, .. }) => {
                    let p = path.copy().lock();
                    Ok(mk_expr(ExprType::Value(Value::path(p)), copy_loc(&r.0.loc)))
                },
                ExprType::Value(v) => {
                    let t = v.to_text();
                    Err(error_at(ErrorType::Type, text2("expected path, got ", t.as_str()), &r.0.loc))
                },
                _ => {
                    let t = r.to_text();
                    Err(Error::new(ErrorType::NoValue, text2("Not a value: ", t.as_str())))
                },
            }
        },
        Builtin::PbTranslate => {
            if fuel == 0 {
                return Err(fuel_error());
            }
            crate::builtins::call_translate_exec(arg, fuel - 1)
        },
        Builtin::PbRebase => {
            if fuel == 0 {
                return Err(fuel_error());
            }
            crate::builtins::call_rebase_exec(arg, fuel - 1)
        },
        Builtin::OpsTransposeObjs => {
            if fuel == 0 {
                return Err(fuel_error());
            }
            crate::builtins::call_transpose_objs_exec(arg, fuel - 1)
        },
        Builtin::OpsTranspose => {
            if fuel == 0 {
                return Err(fuel_error());
            }
            crate::builtins::call_zip_exec(arg, fuel - 1)
        },
        Builtin::PbRule => {
            if fuel == 0 {
                return Err(fuel_error());
            }
            crate::builtins::call_rule_exec(arg, fuel - 1)
        },
        Builtin::PbBuild(rule) => {
            if fuel == 0 {
                return Err(fuel_error());
            }
            crate::builtins::call_build_exec(rule, arg, fuel - 1)
        },
    }
}

/* Evaluating fully */

pub open spec fn first_err(a: Option<ErrorV>, b: Option<ErrorV>) -> Option<ErrorV> {
    if a is Some { a } else { b }
}

/// `e` with every part resolved, as far as it goes, and the first error
/// met on the way (the node's own before its parts').
pub open spec fn eval_full(e: ExprV, fuel: nat) -> (ExprV, Option<ErrorV>)
    decreases fuel, 1nat,
{
    if fuel == 0 {
        (e, Some(out_of_fuel()))
    } else {
        let f1 = (fuel - 1) as nat;
        let (node, err0) = match resolve_v(e, fuel) {
            Ok(n) => (n, None::<ErrorV>),
            Err(x) => (e, Some(x)),
        };
        match node.tok {
            TokV::Object(fs) => {
                let (fs2, err1) = eval_fields(fs, f1);
                (mk(TokV::Object(fs2), node.loc), first_err(err0, err1))
            },
            TokV::List(items) => {
                let (items2, err1) = eval_items(items, f1);
                (mk(TokV::List(items2), node.loc), first_err(err0, err1))
            },
            TokV::Tuple(items) => {
                let (items2, err1) = eval_items(items, f1);
                (mk(TokV::Tuple(items2), node.loc), first_err(err0, err1))
            },
            TokV::Concat(items) => {
                let (items2, err1) = eval_items(items, f1);
                (mk(TokV::Concat(items2), node.loc), first_err(err0, err1))
            },
            TokV::Bind(vars, b) => {
                let (vars2, err1) = eval_fields(vars, f1);
                let (b2, err2) = eval_full(*b, f1);
                (mk(TokV::Bind(vars2, Box::new(b2)), node.loc), first_err(err0, first_err(err1, err2)))
            },
            _ => (node, err0),
        }
    }
}

pub open spec fn eval_items(items: Seq<ExprV>, fuel: nat) -> (Seq<ExprV>, Option<ErrorV>)
    decreases fuel, 3 + items.len(),
{
    if items.len() == 0 {
        (Seq::empty(), None)
    } else {
        let (prev, perr) = eval_items(items.drop_last(), fuel);
        let (x, xerr) = eval_full(items.last(), fuel);
        (prev.push(x), first_err(perr, xerr))
    }
}

/// Evaluating the items of a list succeeds exactly when every item
/// evaluates without error; otherwise the error is that of the first item
/// that fails.
pub proof fn lemma_eval_items_first_error(items: Seq<ExprV>, fuel: nat)
    ensures
        eval_items(items, fuel).1 is None <==> forall|i: int| 0 <= i < items.len() ==> (#[trigger] eval_full(items[i], fuel)).1 is None,
        eval_items(items, fuel).1 is Some ==> exists|i: int| 0 <= i < items.len()
            && (#[trigger] eval_full(items[i], fuel)).1 == eval_items(items, fuel).1
            && forall|j: int| 0 <= j < i ==> (#[trigger] eval_full(items[j], fuel)).1 is None,
        eval_items(items, fuel).0.len() == items.len(),
    decreases items.len(),
{
    if items.len() > 0 {
        let d = items.drop_last();
        lemma_eval_items_first_error(d, fuel);
        assert forall|i: int| 0 <= i < d.len() implies d[i] == items[i] by {}
        let (prev, perr) = eval_items(d, fuel);
        let (x, xerr) = eval_full(items.last(), fuel);
        let last = items.len() - 1;
        assert(items[last] == items.last());
        assert(eval_items(items, fuel) == (prev.push(x), first_err(perr, xerr)));
        if perr is Some {
            let i = choose|i: int| 0 <= i < d.len() && (#[trigger] eval_full(d[i], fuel)).1 == perr
                && forall|j: int| 0 <= j < i ==> (#[trigger] eval_full(d[j], fuel)).1 is None;
            assert(eval_full(items[i], fuel).1 == perr);
            assert forall|j: int| 0 <= j < i implies (#[trigger] eval_full(items[j], fuel)).1 is None by {
                assert(eval_full(d[j], fuel).1 is None);
            }
            assert(!(eval_full(items[i], fuel).1 is None));
        } else {
            assert forall|j: int| 0 <= j < last implies (#[trigger] eval_full(items[j], fuel)).1 is None by {
                assert(eval_full(d[j], fuel).1 is None);
            }
            if xerr is Some {
                assert(eval_full(items[last], fuel).1 == xerr);
            } else {
                assert forall|j: int| 0 <= j < items.len() implies (#[trigger] eval_full(items[j], fuel)).1 is None by {
                    if j < last {
                        assert(eval_full(d[j], fuel).1 is None);
                    }
                }
            }
        }
    }
}

pub open spec fn eval_fields(fs: Seq<(Seq<char>, ExprV)>, fuel: nat) -> (Seq<(Seq<char>, ExprV)>, Option<ErrorV>)
    decreases fuel, 3 + fs.len(),
{
    if fs.len() == 0 {
        (Seq::empty(), None)
    } else {
        let (prev, perr) = eval_fields(fs.drop_last(), fuel);
        let (x, xerr) = eval_full(fs.last().1, fuel);
        (prev.push((fs.last().0, x)), first_err(perr, xerr))
    }
}

pub open spec fn opt_err(o: Option<Error>) -> Option<ErrorV> {
    match o {
        Some(x) => Some(x@),
        None => None,
    }
}

fn first_err_exec(a: Option<Error>, b: Option<Error>) -> (r: Option<Error>)
    ensures
        opt_err(r) == first_err(opt_err(a), opt_err(b)),
{
    if a.is_some() { a } else { b }
}

fn eval_fuel(e: &Expr, fuel: u64) -> (r: (Expr, Option<Error>))
    ensures
        (r.0@, opt_err(r.1)) == eval_full(e@, fuel as nat),
    decreases fuel, 1nat,
{
    if fuel == 0 {
        return (e.copy(), Some(fuel_error()));
    }
    let f1 = fuel - 1;
    let (node, err0) = match resolve_fuel(e, fuel) {
        Ok(n) => (n, None),
        Err(x) => (e.copy(), Some(x)),
    };
    let ExprStorage { tok, loc } = *node.0;
    match tok {
        ExprType::Object(fs) => {
            proof { lemma_set_v(fs@); }
            let (fs2, err1) = eval_fields_fuel(&fs, fs.len(), f1);
            assert(set_v(fs@).take(fs@.len() as int) =~= set_v(fs@));
            (mk_expr(ExprType::Object(fs2), loc), first_err_exec(err0, err1))
        },
        ExprType::List(items) => {
            proof { lemma_exprs_v(items@); }
            let (items2, err1) = eval_items_fuel(&items, items.len(), f1);
            assert(exprs_v(items@).take(items@.len() as int) =~= exprs_v(items@));
            (mk_expr(ExprType::List(items2), loc), first_err_exec(err0, err1))
        },
        ExprType::Tuple(items) => {
            proof { lemma_exprs_v(items@); }
            let (items2, err1) = eval_items_fuel(&items, items.len(), f1);
            assert(exprs_v(items@).take(items@.len() as int) =~= exprs_v(items@));
            (mk_expr(ExprType::Tuple(items2), loc), first_err_exec(err0, err1))
        },
        ExprType::Concat(items) => {
            proof { lemma_exprs_v(items@); }
            let (items2, err1) = eval_items_fuel(&items, items.len(), f1);
            assert(exprs_v(items@).take(items@.len() as int) =~= exprs_v(items@));
            (mk_expr(ExprType::Concat(items2), loc), first_err_exec(err0, err1))
        },
        ExprType::Bind(vars, b) => {
            proof { lemma_set_v(vars@); }
            let (vars2, err1) = eval_fields_fuel(&vars, vars.len(), f1);
            assert(set_v(vars@).take(vars@.len() as int) =~= set_v(vars@));
            let (b2, err2) = eval_fuel(&b, f1);
            (mk_expr(ExprType::Bind(vars2, b2), loc), first_err_exec(err0, first_err_exec(err1, err2)))
        },
        other => (mk_expr(other, loc), err0),
    }
}

fn eval_items_fuel(items: &Vec<Expr>, n: usize, fuel: u64) -> (r: (Vec<Expr>, Option<Error>))
    requires
        n <= items@.len(),
    ensures
        (exprs_v(r.0@), opt_err(r.1)) == eval_items(exprs_v(items@).take(n as int), fuel as nat),
    decreases fuel, n + 3,
{
    proof { lemma_exprs_v(items@); }
    if n == 0 {
        let out: Vec<Expr> = Vec::new();
        proof { lemma_exprs_v(out@); }
        return (out, None);
    }
    assert(exprs_v(items@).take(n as int).drop_last() =~= exprs_v(items@).take(n - 1));
    let (mut prev, perr) = eval_items_fuel(items, n - 1, fuel);
    let (x, xerr) = eval_fuel(&items[n - 1], fuel);
    let ghost p0 = prev@;
    let ghost xg = x;
    prev.push(x);
    assert(prev@.drop_last() =~= p0);
    assert(prev@.last() == xg);
    (prev, first_err_exec(perr, xerr))
}

fn eval_fields_fuel(fs: &Vec<(String, Expr)>, n: usize, fuel: u64) -> (r: (Vec<(String, Expr)>, Option<Error>))
    requires
        n <= fs@.len(),
    ensures
        (set_v(r.0@), opt_err(r.1)) == eval_fields(set_v(fs@).take(n as int), fuel as nat),
    decreases fuel, n + 3,
{
    proof { lemma_set_v(fs@); }
    if n == 0 {
        let out: Vec<(String, Expr)> = Vec::new();
        proof { lemma_set_v(out@); }
        return (out, None);
    }
    assert(set_v(fs@).take(n as int).drop_last() =~= set_v(fs@).take(n - 1));
    let (mut prev, perr) = eval_fields_fuel(fs, n - 1, fuel);
    let (x, xerr) = eval_fuel(&fs[n - 1].1, fuel);
    let ghost p0 = prev@;
    let entry = (copy_str(fs[n - 1].0.as_str()), x);
    let ghost eg = entry;
    prev.push(entry);
    assert(prev@.drop_last() =~= p0);
    assert(prev@.last() == eg);
    (prev, first_err_exec(perr, xerr))
}

/* The interface of expressions */

impl Expr {
    /// This expression resolved: its kind is an object, list, tuple, value,
    /// function or null.
    pub fn resolve(&self) -> (r: Result<Expr, Error>)
        ensures
            ev(r) == resolve_v(self@, EVAL_FUEL as nat),
    {
        resolve_fuel(self, EVAL_FUEL)
    }

    /// The value this expression resolves to.
    pub fn value(&self) -> (r: Result<Value, Error>)
        ensures
            crate::value::res_view(r) == value_v(self@, EVAL_FUEL as nat),
    {
        value_fuel(self, EVAL_FUEL)
    }

    /// The string this expression resolves to.
    pub fn eval_string(&self) -> (r: Result<String, Error>)
        ensures
            match resolve_v(self@, EVAL_FUEL as nat) {
                Err(x) => r matches Err(e) && e@ == x,
                Ok(n) => match n.tok {
                    TokV::Value(v) => match crate::value::spec_as_string(v) {
                        Ok(s) => r matches Ok(t) && t@ == s,
                        Err(x) => r matches Err(e) && e@ == x,
                    },
                    _ => r matches Err(e) && e@ == err_v(ErrorType::NoValue, "Not a string: "@ + expr_text(n, 0)),
                },
            },
    {
        let n = match resolve_fuel(self, EVAL_FUEL) {
            Ok(n) => n,
            Err(x) => return Err(x),
        };
        match &n.0.tok {
            ExprType::Value(v) => v.as_string(),
            _ => {
                let t = n.to_text();
                Err(Error::new(ErrorType::NoValue, text2("Not a string: ", t.as_str())))
            },
        }
    }

    /// The field `name` of the object this expression resolves to.
    pub fn get_item(&self, name: &str) -> (r: Result<Expr, Error>)
        ensures
            ev(r) == get_item_v(self@, name@, EVAL_FUEL as nat),
    {
        get_item_fuel(self, name, EVAL_FUEL)
    }

    /// This expression with every part resolved; the first error met, if
    /// any.
    pub fn eval(&self) -> (r: Result<Expr, Error>)
        ensures
            match eval_full(self@, EVAL_FUEL as nat) {
                (t, None) => r matches Ok(x) && x@ == t,
                (_, Some(er)) => r matches Err(x) && x@ == er,
            },
    {
        let (t, err) = eval_fuel(self, EVAL_FUEL);
        match err {
            Some(x) => Err(x),
            None => Ok(t),
        }
    }

    /// Where this expression was written.
    pub fn get_loc(&self) -> (r: Option<crate::error::Loc>)
        ensures
            opt_loc_view(r) == self@.loc,
    {
        copy_loc(&self.0.loc)
    }

    /// The builtin function `func`, at no location.
    pub fn new_builtin(func: Builtin) -> (r: Expr)
        ensures
            r@ == mk(TokV::FuncDefBuiltin(func@), None),
    {
        mk_expr(ExprType::FuncDefBuiltin(func), None)
    }

    /// An object holding each builtin of `value` under its name (a later
    /// one replaces an earlier one of the same name).
    pub fn from_builtins(value: Vec<Builtin>) -> (r: Expr)
        ensures
            r@ == mk(TokV::Object(builtin_set(value@.map_values(|b: Builtin| b@))), None),
    {
        let ghost bs = value@.map_values(|b: Builtin| b@);
        let mut set: Vec<(String, Expr)> = Vec::new();
        proof { lemma_set_v(set@); }
        let mut i: usize = 0;
        assert(bs.take(0) =~= Seq::<BuiltinV>::empty());
        while i < value.len()
            invariant
                i <= value@.len(),
                bs == value@.map_values(|b: Builtin| b@),
                set_v(set@) == builtin_set(bs.take(i as int)),
            decreases value.len() - i,
        {
            let b = value[i].copy();
            let name = copy_str(b.get_name());
            assert(bs.take(i + 1).drop_last() =~= bs.take(i as int));
            set_insert_exec(&mut set, name, Expr::new_builtin(b));
            i = i + 1;
        }
        assert(bs.take(value@.len() as int) =~= bs);
        mk_expr(ExprType::Object(set), None)
    }
}

/// The object of builtins `bs`, each under its name.
pub open spec fn builtin_set(bs: Seq<BuiltinV>) -> Seq<(Seq<char>, ExprV)>
    decreases bs.len(),
{
    if bs.len() == 0 {
        Seq::empty()
    } else {
        set_insert(builtin_set(bs.drop_last()), crate::expr::builtin_name(bs.last()),
            mk(TokV::FuncDefBuiltin(bs.last()), None))
    }
}

impl ExprType {
    /// An expression of this kind at `loc`.
    pub fn reref(self, loc: Option<crate::error::Loc>) -> (r: Expr)
        ensures
            r@ == mk(self@, opt_loc_view(loc)),
    {
        mk_expr(self, loc)
    }

    /// An expression of this kind at the span `[left, right)` of `f`.
    pub fn toexpr(self, left: usize, right: usize, f: &crate::path::VirtPath) -> (r: Expr)
        ensures
            r@ == mk(self@, Some(crate::error::span_view(f@, left, right))),
    {
        mk_expr(self, Some(crate::error::Loc::new(f.copy(), left, right)))
    }

    /// An expression of this kind at no location.
    pub fn builtin(self) -> (r: Expr)
        ensures
            r@ == mk(self@, None),
    {
        mk_expr(self, None)
    }

    /// The node of this kind at `loc`.
    pub fn loc(self, loc: Option<crate::error::Loc>) -> (r: ExprStorage)
        ensures
            r.tok@ == self@,
            opt_loc_view(r.loc) == opt_loc_view(loc),
    {
        ExprStorage { tok: self, loc }
    }
}

} // verus!
