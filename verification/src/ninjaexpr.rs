use vstd::prelude::*;
use crate::error::{Error, ErrorType};
use crate::eval::{ev, resolve_fuel, resolve_v, EVAL_FUEL, fuel_error, text3};
use crate::expr::{Expr, ExprType, ExprV, TokV, exprs_v, set_v, lemma_exprs_v, lemma_set_v};
use crate::ninja::{NinjaArg, NinjaBuild, NinjaFile, NinjaFileView, NinjaRule, BuildView, VarView, paths_view, copy_args,
    spec_add_rule, spec_add_build, spec_add_defaults, spec_add_alias, conflict_prefix};
use crate::error::{ErrorV, err_v, reref_v};
use crate::pbbuild::{BuildRecV, PbBuild, builds_view, lemma_builds_view_index, lemma_builds_view_map};
use crate::value::ValueV;
use crate::path::{VirtPath, VirtPathView};
use crate::text::{copy_str, sorted_pos};
use crate::value::Value;

verus! {

/// The ninja build line a build record makes, under the rule name `rule`.
pub open spec fn build_line(b: crate::pbbuild::BuildRecV, rule: Seq<char>) -> BuildView {
    BuildView {
        rule,
        outputs: b.outputs,
        inputs: b.inputs,
        deps: b.deps,
        vars: b.args.map_values(|a: (Seq<char>, Seq<crate::ninja::ArgView>)| crate::ninja::VarView { name: a.0, args: a.1 }),
    }
}

/// Nothing that `old` holds is missing from `new`: its rules, build lines
/// and outputs all remain.
pub open spec fn keeps(old: NinjaFileView, new: NinjaFileView) -> bool {
    &&& forall|i: int| 0 <= i < old.rules.len() ==> new.rules.contains(#[trigger] old.rules[i])
    &&& forall|i: int| 0 <= i < old.builds.len() ==> new.builds.contains(#[trigger] old.builds[i])
    &&& forall|i: int| 0 <= i < old.outputs.len() ==> new.outputs.contains(#[trigger] old.outputs[i])
}

/// Some build line of `v` is the one the build `b` makes, under some rule
/// name.
pub open spec fn has_build(v: NinjaFileView, b: BuildRecV) -> bool {
    exists|k: int, name: Seq<char>|
        #![trigger v.builds[k], build_line(b, name)]
        0 <= k < v.builds.len() && v.builds[k] == build_line(b, name)
}

/// Every build that the definition `e` asks for has a build line in `v`:
/// for a path, the builds it depends on; for a list or an object, those of
/// each item or field, looked at `depth` levels deep.
pub open spec fn builds_defined(e: ExprV, v: NinjaFileView, depth: nat) -> bool
    decreases depth,
{
    if depth == 0 {
        true
    } else {
        match resolve_v(e, EVAL_FUEL as nat) {
            Ok(r) => match r.tok {
                TokV::Value(ValueV::Path(_, ds)) => forall|i: int| 0 <= i < ds.len() ==> has_build(v, #[trigger] ds[i]),
                TokV::List(items) => forall|i: int|
                    0 <= i < items.len() ==> builds_defined(#[trigger] items[i], v, (depth - 1) as nat),
                TokV::Object(fs) => forall|i: int|
                    0 <= i < fs.len() ==> builds_defined(#[trigger] fs[i].1, v, (depth - 1) as nat),
                _ => true,
            },
            Err(_) => true,
        }
    }
}

/// The ninja variables of a rule made by `pb.rule`.
pub open spec fn rule_view(r: crate::pbbuild::RuleV) -> Seq<VarView> {
    r.vars.map_values(|a: (Seq<char>, Seq<crate::ninja::ArgView>)| VarView { name: a.0, args: a.1 })
}

/// The file after adding the builds `ds` in turn (each as
/// `populate_ninja_file` does), and whether all of them went in; it stops
/// at the first one refused.
pub open spec fn deps_v(ds: Seq<BuildRecV>, v: NinjaFileView, default: bool) -> (NinjaFileView, bool)
    decreases ds,
{
    if ds.len() == 0 {
        (v, true)
    } else {
        let (v1, ok) = deps_v(ds.drop_last(), v, default);
        if !ok {
            (v1, false)
        } else {
            populate_v(ds.last(), v1, default)
        }
    }
}

/// The file after adding the build `b`: first the builds it depends on,
/// then its rule (shared with an equal one), then its build line, made a
/// default target when `default`; and whether that went through, which it
/// does unless some build line is refused for producing an output that
/// another build already produces.
pub open spec fn populate_v(b: BuildRecV, v: NinjaFileView, default: bool) -> (NinjaFileView, bool)
    decreases b,
{
    let (v1, ok1) = deps_v(b.dep_builds, v, false);
    if !ok1 {
        (v1, false)
    } else {
        let (v2, name) = spec_add_rule(v1, rule_view(b.rule));
        let line = build_line(b, name);
        let (v3, ok3) = spec_add_build(v2, line);
        if !ok3 {
            (v3, false)
        } else if default {
            (NinjaFileView { defaults: spec_add_defaults(v3.defaults, line.outputs), ..v3 }, true)
        } else {
            (v3, true)
        }
    }
}

pub open spec fn opt_str_v(a: Option<&str>) -> Option<Seq<char>> {
    match a {
        Some(s) => Some(s@),
        None => None,
    }
}

/// An error made when `NinjaFile::add_build` refuses a build line: its
/// message starts as that refusal does.
pub open spec fn refusal(e: ErrorV) -> bool {
    &&& e.typ == ErrorType::Custom
    &&& e.msg.len() >= conflict_prefix().len()
    &&& e.msg.subrange(0, conflict_prefix().len() as int) == conflict_prefix()
    &&& e.frames.len() == 0
}

/// How adding a build definition ends.
pub enum Outcome {
    Done,
    /// A build line was refused by `NinjaFile::add_build`.
    Refused,
    Failed(ErrorV),
}

/// `r` ends as `o` says.
pub open spec fn ends_as(r: Result<(), Error>, o: Outcome) -> bool {
    match o {
        Outcome::Done => r is Ok,
        Outcome::Refused => r matches Err(e) && refusal(e@),
        Outcome::Failed(x) => r matches Err(e) && e@ == x,
    }
}

pub open spec fn no_deps_msg(alias: Option<Seq<char>>) -> Seq<char> {
    match alias {
        None => "Top-level value has no build dependencies"@,
        Some(a) => "Top-level field '"@ + a + "' has no build dependencies"@,
    }
}

pub open spec fn not_path_msg(alias: Option<Seq<char>>) -> Seq<char> {
    match alias {
        None => "Top-level value is not a path"@,
        Some(a) => "Top-level field '"@ + a + "' is not a path"@,
    }
}

/// The file after adding the build definition `e` (with `depth` levels of
/// lists and objects left), and how that ends. `e` is resolved first. A
/// path adds the builds it depends on as default targets (an error when it
/// has none), and an alias of `alias`, when given, for the path; any other
/// value is an error; a list adds each item in turn; an object adds each
/// field in turn, under its name as alias; anything else is an error.
pub open spec fn add_expr_v(e: ExprV, v: NinjaFileView, alias: Option<Seq<char>>, depth: nat) -> (NinjaFileView, Outcome)
    decreases depth, 0nat,
{
    if depth == 0 {
        (v, Outcome::Failed(crate::eval::out_of_fuel()))
    } else {
        match resolve_v(e, EVAL_FUEL as nat) {
            Err(x) => (v, Outcome::Failed(x)),
            Ok(r) => match r.tok {
                TokV::Value(ValueV::Path(p, ds)) => if ds.len() == 0 {
                    (v, Outcome::Failed(reref_v(err_v(ErrorType::Custom, no_deps_msg(alias)), r.loc)))
                } else {
                    let (v1, ok) = deps_v(ds, v, true);
                    if !ok {
                        (v1, Outcome::Refused)
                    } else {
                        match alias {
                            Some(a) => (NinjaFileView { aliases: spec_add_alias(v1.aliases, a, seq![p]), ..v1 }, Outcome::Done),
                            None => (v1, Outcome::Done),
                        }
                    }
                },
                TokV::Value(_) => (v, Outcome::Failed(reref_v(err_v(ErrorType::Custom, not_path_msg(alias)), r.loc))),
                TokV::List(items) => items_add_v(items, v, alias, (depth - 1) as nat),
                TokV::Object(fs) => fields_add_v(fs, v, (depth - 1) as nat),
                _ => (v, Outcome::Failed(reref_v(err_v(ErrorType::Custom, "Not a valid build definition"@), r.loc))),
            },
        }
    }
}

/// The items `items` added in turn, up to the first that does not go
/// through.
pub open spec fn items_add_v(items: Seq<ExprV>, v: NinjaFileView, alias: Option<Seq<char>>, depth: nat) -> (NinjaFileView, Outcome)
    decreases depth, items.len() + 1,
{
    if items.len() == 0 {
        (v, Outcome::Done)
    } else {
        let (v1, o) = items_add_v(items.drop_last(), v, alias, depth);
        if !(o is Done) {
            (v1, o)
        } else {
            add_expr_v(items.last(), v1, alias, depth)
        }
    }
}

/// The fields `fs` added in turn, each under its name as alias, up to the
/// first that does not go through.
pub open spec fn fields_add_v(fs: Seq<(Seq<char>, ExprV)>, v: NinjaFileView, depth: nat) -> (NinjaFileView, Outcome)
    decreases depth, fs.len() + 1,
{
    if fs.len() == 0 {
        (v, Outcome::Done)
    } else {
        let (v1, o) = fields_add_v(fs.drop_last(), v, depth);
        if !(o is Done) {
            (v1, o)
        } else {
            add_expr_v(fs.last().1, v1, Some(fs.last().0), depth)
        }
    }
}

proof fn lemma_deps_fail_stays(ds: Seq<BuildRecV>, v: NinjaFileView, default: bool, i: int)
    requires
        0 <= i <= ds.len(),
        !deps_v(ds.take(i), v, default).1,
    ensures
        deps_v(ds, v, default) == deps_v(ds.take(i), v, default),
    decreases ds.len() - i,
{
    if i < ds.len() {
        assert(ds.take(i + 1).drop_last() =~= ds.take(i));
        lemma_deps_fail_stays(ds, v, default, i + 1);
    } else {
        assert(ds.take(i) =~= ds);
    }
}

proof fn lemma_items_fail_stays(items: Seq<ExprV>, v: NinjaFileView, alias: Option<Seq<char>>, depth: nat, i: int)
    requires
        0 <= i <= items.len(),
        !(items_add_v(items.take(i), v, alias, depth).1 is Done),
    ensures
        items_add_v(items, v, alias, depth) == items_add_v(items.take(i), v, alias, depth),
    decreases items.len() - i,
{
    if i < items.len() {
        assert(items.take(i + 1).drop_last() =~= items.take(i));
        lemma_items_fail_stays(items, v, alias, depth, i + 1);
    } else {
        assert(items.take(i) =~= items);
    }
}

proof fn lemma_fields_fail_stays(fs: Seq<(Seq<char>, ExprV)>, v: NinjaFileView, depth: nat, i: int)
    requires
        0 <= i <= fs.len(),
        !(fields_add_v(fs.take(i), v, depth).1 is Done),
    ensures
        fields_add_v(fs, v, depth) == fields_add_v(fs.take(i), v, depth),
    decreases fs.len() - i,
{
    if i < fs.len() {
        assert(fs.take(i + 1).drop_last() =~= fs.take(i));
        lemma_fields_fail_stays(fs, v, depth, i + 1);
    } else {
        assert(fs.take(i) =~= fs);
    }
}

proof fn lemma_defaults_contain(d: Seq<VirtPathView>, o: Seq<VirtPathView>)
    ensures
        forall|k: int| 0 <= k < o.len() ==> spec_add_defaults(d, o).contains(#[trigger] o[k]),
        forall|k: int| 0 <= k < d.len() ==> spec_add_defaults(d, o).contains(#[trigger] d[k]),
    decreases o.len(),
{
    if o.len() > 0 {
        let before = spec_add_defaults(d, o.drop_last());
        lemma_defaults_contain(d, o.drop_last());
        if !before.contains(o.last()) {
            let p = sorted_pos(crate::ninja::default_keys(before), crate::path::spec_display(o.last()));
            lemma_pos_bound(crate::ninja::default_keys(before), crate::path::spec_display(o.last()));
            lemma_insert_keeps(before, p, o.last());
            assert(before.insert(p, o.last())[p] == o.last());
        }
        assert forall|k: int| 0 <= k < o.len() implies spec_add_defaults(d, o).contains(#[trigger] o[k]) by {
            if k < o.len() - 1 {
                assert(o[k] == o.drop_last()[k]);
            }
        }
        assert forall|k: int| 0 <= k < d.len() implies spec_add_defaults(d, o).contains(#[trigger] d[k]) by {
            assert(before.contains(d[k]));
        }
    }
}

proof fn lemma_defaults_present(d: Seq<VirtPathView>, o: Seq<VirtPathView>)
    requires
        forall|k: int| 0 <= k < o.len() ==> d.contains(#[trigger] o[k]),
    ensures
        spec_add_defaults(d, o) == d,
    decreases o.len(),
{
    if o.len() > 0 {
        assert forall|k: int| 0 <= k < o.drop_last().len() implies d.contains(#[trigger] o.drop_last()[k]) by {
            assert(o.drop_last()[k] == o[k]);
        }
        lemma_defaults_present(d, o.drop_last());
        assert(d.contains(o[o.len() - 1]));
    }
}

proof fn lemma_defaults_within(d: Seq<VirtPathView>, o: Seq<VirtPathView>)
    ensures
        forall|x: VirtPathView| spec_add_defaults(d, o).contains(x) ==> d.contains(x) || o.contains(x),
    decreases o.len(),
{
    if o.len() > 0 {
        let before = spec_add_defaults(d, o.drop_last());
        lemma_defaults_within(d, o.drop_last());
        assert forall|x: VirtPathView| spec_add_defaults(d, o).contains(x) implies d.contains(x) || o.contains(x) by {
            if before.contains(x) {
                if !d.contains(x) {
                    let j = choose|j: int| 0 <= j < o.drop_last().len() && o.drop_last()[j] == x;
                    assert(o[j] == x);
                }
            } else if !before.contains(o.last()) {
                let p = sorted_pos(crate::ninja::default_keys(before), crate::path::spec_display(o.last()));
                lemma_pos_bound(crate::ninja::default_keys(before), crate::path::spec_display(o.last()));
                let r = before.insert(p, o.last());
                let j = choose|j: int| 0 <= j < r.len() && r[j] == x;
                if j < p {
                    assert(r[j] == before[j]);
                } else if j > p {
                    assert(r[j] == before[j - 1]);
                } else {
                    assert(o[o.len() - 1] == x);
                }
            }
        }
    }
}

/// Making outputs default targets adds exactly them: afterwards the
/// default targets are those from before together with the new ones.
pub proof fn lemma_defaults_union(d: Seq<VirtPathView>, o: Seq<VirtPathView>)
    ensures
        spec_add_defaults(d, o).to_set() == d.to_set() + o.to_set(),
{
    lemma_defaults_contain(d, o);
    lemma_defaults_within(d, o);
    assert forall|x: VirtPathView| (d.to_set() + o.to_set()).contains(x) implies spec_add_defaults(d, o).to_set().contains(x) by {
        if d.contains(x) {
            let k = choose|k: int| 0 <= k < d.len() && d[k] == x;
            assert(spec_add_defaults(d, o).contains(d[k]));
        } else {
            let k = choose|k: int| 0 <= k < o.len() && o[k] == x;
            assert(spec_add_defaults(d, o).contains(o[k]));
        }
    }
    assert(spec_add_defaults(d, o).to_set() =~= d.to_set() + o.to_set());
}

/// Making the same outputs default targets twice changes nothing the
/// second time.
pub proof fn lemma_defaults_idempotent(d: Seq<VirtPathView>, o: Seq<VirtPathView>)
    ensures
        spec_add_defaults(spec_add_defaults(d, o), o) == spec_add_defaults(d, o),
{
    lemma_defaults_contain(d, o);
    lemma_defaults_present(spec_add_defaults(d, o), o);
}

proof fn lemma_insert_keeps<A>(s: Seq<A>, p: int, x: A)
    requires
        0 <= p <= s.len(),
    ensures
        forall|i: int| 0 <= i < s.len() ==> s.insert(p, x).contains(#[trigger] s[i]),
{
    assert forall|i: int| 0 <= i < s.len() implies s.insert(p, x).contains(#[trigger] s[i]) by {
        if i < p {
            assert(s.insert(p, x)[i] == s[i]);
        } else {
            assert(s.insert(p, x)[i + 1] == s[i]);
        }
    }
}

proof fn lemma_keeps_core(a: NinjaFileView, b: NinjaFileView, p: int, x: (Seq<crate::ninja::VarView>, Seq<char>))
    requires
        0 <= p <= a.rules.len(),
        b.rules == a.rules.insert(p, x),
        b.builds == a.builds,
        b.outputs == a.outputs,
    ensures
        keeps(a, b),
{
    lemma_insert_keeps(a.rules, p, x);
    lemma_keeps_refl(a);
}

proof fn lemma_keeps_build(a: NinjaFileView, b: NinjaFileView, p: int, x: BuildView, outs: Seq<crate::path::VirtPathView>)
    requires
        0 <= p <= a.builds.len(),
        b.rules == a.rules,
        b.builds == a.builds.insert(p, x),
        b.outputs == a.outputs + outs,
    ensures
        keeps(a, b),
{
    lemma_insert_keeps(a.builds, p, x);
    lemma_keeps_refl(a);
    assert forall|i: int| 0 <= i < a.outputs.len() implies b.outputs.contains(#[trigger] a.outputs[i]) by {
        assert(b.outputs[i] == a.outputs[i]);
    }
}

proof fn lemma_keeps_trans(a: NinjaFileView, b: NinjaFileView, c: NinjaFileView)
    requires
        keeps(a, b),
        keeps(b, c),
    ensures
        keeps(a, c),
{
    assert forall|i: int| 0 <= i < a.rules.len() implies c.rules.contains(#[trigger] a.rules[i]) by {
        let j = choose|j: int| 0 <= j < b.rules.len() && b.rules[j] == a.rules[i];
        assert(c.rules.contains(b.rules[j]));
    }
    assert forall|i: int| 0 <= i < a.builds.len() implies c.builds.contains(#[trigger] a.builds[i]) by {
        let j = choose|j: int| 0 <= j < b.builds.len() && b.builds[j] == a.builds[i];
        assert(c.builds.contains(b.builds[j]));
    }
    assert forall|i: int| 0 <= i < a.outputs.len() implies c.outputs.contains(#[trigger] a.outputs[i]) by {
        let j = choose|j: int| 0 <= j < b.outputs.len() && b.outputs[j] == a.outputs[i];
        assert(c.outputs.contains(b.outputs[j]));
    }
}

proof fn lemma_keeps_refl(a: NinjaFileView)
    ensures
        keeps(a, a),
{
    assert forall|i: int| 0 <= i < a.rules.len() implies a.rules.contains(#[trigger] a.rules[i]) by {}
    assert forall|i: int| 0 <= i < a.builds.len() implies a.builds.contains(#[trigger] a.builds[i]) by {}
    assert forall|i: int| 0 <= i < a.outputs.len() implies a.outputs.contains(#[trigger] a.outputs[i]) by {}
}

proof fn lemma_keeps_has_build(a: NinjaFileView, b: NinjaFileView, x: BuildRecV)
    requires
        keeps(a, b),
        has_build(a, x),
    ensures
        has_build(b, x),
{
    let (k, name) = choose|k: int, name: Seq<char>| 0 <= k < a.builds.len() && a.builds[k] == build_line(x, name);
    assert(b.builds.contains(a.builds[k]));
    let j = choose|j: int| 0 <= j < b.builds.len() && b.builds[j] == a.builds[k];
    assert(b.builds[j] == build_line(x, name));
}

proof fn lemma_keeps_defined(e: ExprV, a: NinjaFileView, b: NinjaFileView, depth: nat)
    requires
        keeps(a, b),
        builds_defined(e, a, depth),
    ensures
        builds_defined(e, b, depth),
    decreases depth,
{
    if depth > 0 {
        match resolve_v(e, EVAL_FUEL as nat) {
            Ok(r) => match r.tok {
                TokV::Value(ValueV::Path(_, ds)) => {
                    assert forall|i: int| 0 <= i < ds.len() implies has_build(b, #[trigger] ds[i]) by {
                        lemma_keeps_has_build(a, b, ds[i]);
                    }
                },
                TokV::List(items) => {
                    assert forall|i: int| 0 <= i < items.len() implies builds_defined(#[trigger] items[i], b, (depth - 1) as nat) by {
                        lemma_keeps_defined(items[i], a, b, (depth - 1) as nat);
                    }
                },
                TokV::Object(fs) => {
                    assert forall|i: int| 0 <= i < fs.len() implies builds_defined(#[trigger] fs[i].1, b, (depth - 1) as nat) by {
                        lemma_keeps_defined(fs[i].1, a, b, (depth - 1) as nat);
                    }
                },
                _ => {},
            },
            Err(_) => {},
        }
    }
}

proof fn lemma_pos_bound(keys: Seq<Seq<char>>, x: Seq<char>)
    ensures
        0 <= sorted_pos(keys, x) <= keys.len(),
    decreases keys.len(),
{
    if keys.len() > 0 {
        lemma_pos_bound(keys.drop_first(), x);
    }
}

impl PbBuild {
    /// Adds this build to `ninja`: first the builds it depends on, then its
    /// rule (shared with an equal rule already there) and its build line,
    /// made a default target when `default`. Fails, with the message of
    /// `NinjaFile::add_build`, when another build already produces one of
    /// its outputs.
    pub fn populate_ninja_file(&self, ninja: &mut NinjaFile, default: bool) -> (r: Result<(), Error>)
        requires
            old(ninja).wf(),
        ensures
            final(ninja).wf(),
            keeps(old(ninja)@, final(ninja)@),
            r is Ok ==> has_build(final(ninja)@, self@),
            r is Ok ==> forall|i: int|
                0 <= i < self@.dep_builds.len() ==> has_build(final(ninja)@, #[trigger] self@.dep_builds[i]),
            final(ninja)@ == populate_v(self@, old(ninja)@, default).0,
            r is Ok <==> populate_v(self@, old(ninja)@, default).1,
            r matches Err(e) ==> refusal(e@),
        decreases self,
    {
        let ghost v_start = ninja@;
        let ghost ds = self@.dep_builds;
        proof {
            lemma_keeps_refl(v_start);
            crate::pbbuild::lemma_builds_view_len(self.dep_builds@);
            assert(ds.take(0) =~= Seq::<BuildRecV>::empty());
        }
        let mut i: usize = 0;
        while i < self.dep_builds.len()
            invariant
                ninja.wf(),
                i <= self.dep_builds@.len(),
                ds == self@.dep_builds,
                self@.dep_builds.len() == self.dep_builds@.len(),
                keeps(old(ninja)@, ninja@),
                forall|j: int| 0 <= j < i ==> has_build(ninja@, #[trigger] self@.dep_builds[j]),
                deps_v(ds.take(i as int), old(ninja)@, false) == (ninja@, true),
            decreases self.dep_builds.len() - i,
        {
            let ghost v_prev = ninja@;
            proof {
                lemma_builds_view_index(self.dep_builds@, i as int);
                assert(ds.take(i + 1).drop_last() =~= ds.take(i as int));
                assert(ds.take(i + 1).last() == ds[i as int]);
            }
            let rr = self.dep_builds[i].populate_ninja_file(ninja, false);
            if rr.is_err() {
                proof {
                    lemma_deps_fail_stays(ds, old(ninja)@, false, i + 1);
                    lemma_keeps_trans(old(ninja)@, v_prev, ninja@);
                }
                return rr;
            }
            proof {
                lemma_keeps_trans(old(ninja)@, v_prev, ninja@);
                lemma_builds_view_index(self.dep_builds@, i as int);
                assert forall|j: int| 0 <= j < i + 1 implies has_build(ninja@, #[trigger] self@.dep_builds[j]) by {
                    if j < i {
                        lemma_keeps_has_build(v_prev, ninja@, self@.dep_builds[j]);
                    }
                }
            }
            i = i + 1;
        }
        proof {
            assert(ds.take(self.dep_builds@.len() as int) =~= ds);
        }
        let ghost v_deps = ninja@;
        assert(forall|j: int| 0 <= j < self@.dep_builds.len() ==> has_build(v_deps, #[trigger] self@.dep_builds[j]));
        let mut rule = NinjaRule::new();
        let ghost want_rule = rule_view(self@.rule);
        let mut j: usize = 0;
        while j < self.rule.vars.len()
            invariant
                j <= self.rule.vars@.len(),
                want_rule == rule_view(self@.rule),
                rule@ == want_rule.take(j as int),
            decreases self.rule.vars.len() - j,
        {
            rule.var(self.rule.vars[j].0.as_str(), copy_args(&self.rule.vars[j].1));
            proof {
                assert(want_rule.take(j + 1) =~= want_rule.take(j as int).push(want_rule[j as int]));
            }
            j = j + 1;
        }
        proof {
            assert(want_rule.take(self.rule.vars@.len() as int) =~= want_rule);
        }
        let ghost v_r0 = ninja@;
        let ghost rv = rule@;
        let rref = ninja.add_rule(rule);
        proof {
            if exists|i: int| 0 <= i < v_r0.rules.len() && v_r0.rules[i].0 == rv {
                lemma_keeps_refl(v_r0);
            } else {
                let p = sorted_pos(crate::ninja::rule_names(v_r0.rules), rref.0@);
                lemma_pos_bound(crate::ninja::rule_names(v_r0.rules), rref.0@);
                lemma_keeps_core(v_r0, ninja@, p, (rv, rref.0@));
            }
            lemma_keeps_trans(old(ninja)@, v_r0, ninja@);
        }
        let ghost v_rule = ninja@;
        let mut b = NinjaBuild::new(&rref);
        let ghost rname = b@.rule;
        let mut k: usize = 0;
        while k < self.outputs.len()
            invariant
                k <= self.outputs.len(),
                b@.rule == rname,
                b@.outputs == paths_view(self.outputs@).take(k as int),
                b@.inputs.len() == 0,
                b@.deps.len() == 0,
                b@.vars.len() == 0,
            decreases self.outputs.len() - k,
        {
            b.output(self.outputs[k].copy());
            proof {
                assert(paths_view(self.outputs@).take(k + 1) =~= paths_view(self.outputs@).take(k as int).push(self.outputs@[k as int]@));
            }
            k = k + 1;
        }
        let mut k: usize = 0;
        while k < self.inputs.len()
            invariant
                k <= self.inputs.len(),
                b@.rule == rname,
                b@.outputs == paths_view(self.outputs@),
                b@.inputs == paths_view(self.inputs@).take(k as int),
                b@.deps.len() == 0,
                b@.vars.len() == 0,
            decreases self.inputs.len() - k,
        {
            b.input(self.inputs[k].copy());
            proof {
                assert(paths_view(self.inputs@).take(k + 1) =~= paths_view(self.inputs@).take(k as int).push(self.inputs@[k as int]@));
            }
            k = k + 1;
        }
        let mut k: usize = 0;
        while k < self.deps.len()
            invariant
                k <= self.deps.len(),
                b@.rule == rname,
                b@.outputs == paths_view(self.outputs@),
                b@.inputs == paths_view(self.inputs@),
                b@.deps == paths_view(self.deps@).take(k as int),
                b@.vars.len() == 0,
            decreases self.deps.len() - k,
        {
            b.dep(self.deps[k].copy());
            proof {
                assert(paths_view(self.deps@).take(k + 1) =~= paths_view(self.deps@).take(k as int).push(self.deps@[k as int]@));
            }
            k = k + 1;
        }
        let ghost want = build_line(self@, rname).vars;
        let mut k: usize = 0;
        while k < self.args.len()
            invariant
                k <= self.args.len(),
                want == build_line(self@, rname).vars,
                b@.rule == rname,
                b@.outputs == paths_view(self.outputs@),
                b@.inputs == paths_view(self.inputs@),
                b@.deps == paths_view(self.deps@),
                b@.vars == want.take(k as int),
            decreases self.args.len() - k,
        {
            b.var(self.args[k].0.as_str(), copy_args(&self.args[k].1));
            proof {
                assert(want.take(k + 1) =~= want.take(k as int).push(want[k as int]));
            }
            k = k + 1;
        }
        proof {
            assert(paths_view(self.outputs@).take(self.outputs@.len() as int) =~= paths_view(self.outputs@));
            assert(want.take(self.args@.len() as int) =~= want);
            assert(b@ == build_line(self@, rname));
        }
        let ghost bv = b@;
        let ghost v_before = ninja@;
        match ninja.add_build(b) {
            Ok(bref) => {
                proof {
                    if !v_before.builds.contains(bv) {
                        let pos = sorted_pos(crate::ninja::build_keys(v_before.builds), crate::ninja::build_text(bv));
                        lemma_pos_bound(crate::ninja::build_keys(v_before.builds), crate::ninja::build_text(bv));
                        assert(ninja@.builds[pos] == bv);
                        lemma_keeps_build(v_before, ninja@, pos, bv, bv.outputs);
                    } else {
                        lemma_keeps_refl(v_before);
                    }
                    assert(ninja@.builds.contains(bv));
                    lemma_keeps_trans(v_rule, v_before, ninja@);
                }
                let ghost v_built = ninja@;
                if default {
                    ninja.set_build_default(&bref);
                }
                proof {
                    lemma_keeps_refl(v_built);
                    assert(keeps(v_built, ninja@));
                    lemma_keeps_trans(v_rule, v_built, ninja@);
                    lemma_keeps_trans(v_deps, v_rule, ninja@);
                    lemma_keeps_trans(old(ninja)@, v_deps, ninja@);
                    assert(ninja@.builds.contains(bv));
                    let k = choose|k: int| 0 <= k < ninja@.builds.len() && ninja@.builds[k] == bv;
                    assert(ninja@.builds[k] == build_line(self@, rname));
                    assert forall|j: int| 0 <= j < self@.dep_builds.len() implies has_build(ninja@, #[trigger] self@.dep_builds[j]) by {
                        lemma_keeps_has_build(v_deps, ninja@, self@.dep_builds[j]);
                    }
                }
                Ok(())
            },
            Err(msg) => {
                proof {
                    lemma_keeps_refl(v_before);
                    lemma_keeps_trans(v_rule, v_before, ninja@);
                    lemma_keeps_trans(v_deps, v_rule, ninja@);
                    lemma_keeps_trans(old(ninja)@, v_deps, ninja@);
                }
                Err(Error::new(ErrorType::Custom, msg))
            },
        }
    }
}

/// Adds to `ninja` what a build definition asks for: for a path, the
/// builds it depends on (as default targets); for a list, each item; for
/// an object, each field, whose paths also get an alias of the field's
/// name. Anything else, a path with no build behind it among them, is
/// refused.
pub fn add_expr_to_ninjafile(expr: &Expr, ninja: &mut NinjaFile) -> (r: Result<(), Error>)
    requires
        old(ninja).wf(),
    ensures
        final(ninja).wf(),
        keeps(old(ninja)@, final(ninja)@),
        r is Ok ==> builds_defined(expr@, final(ninja)@, EVAL_FUEL as nat),
        final(ninja)@ == add_expr_v(expr@, old(ninja)@, None, EVAL_FUEL as nat).0,
        ends_as(r, add_expr_v(expr@, old(ninja)@, None, EVAL_FUEL as nat).1),
{
    add_expr_inner(expr, ninja, None, EVAL_FUEL)
}

fn add_expr_inner(expr: &Expr, ninja: &mut NinjaFile, alias: Option<&str>, depth: u64) -> (r: Result<(), Error>)
    requires
        old(ninja).wf(),
    ensures
        final(ninja).wf(),
        keeps(old(ninja)@, final(ninja)@),
        r is Ok ==> builds_defined(expr@, final(ninja)@, depth as nat),
        final(ninja)@ == add_expr_v(expr@, old(ninja)@, opt_str_v(alias), depth as nat).0,
        ends_as(r, add_expr_v(expr@, old(ninja)@, opt_str_v(alias), depth as nat).1),
    decreases depth,
{
    proof {
        lemma_keeps_refl(ninja@);
    }
    if depth == 0 {
        return Err(fuel_error());
    }
    let r = resolve_fuel(expr, EVAL_FUEL)?;
    assert(resolve_v(expr@, EVAL_FUEL as nat) == Ok::<ExprV, crate::error::ErrorV>(r@));
    match &r.0.tok {
        ExprType::Value(Value::Path { path, depends }) => {
            if depends.len() == 0 {
                let msg = match alias {
                    None => copy_str("Top-level value has no build dependencies"),
                    Some(a) => text3("Top-level field '", a, "' has no build dependencies"),
                };
                return Err(Error::new(ErrorType::Custom, msg).reref(&r.0.loc));
            }
            let ghost ds = builds_view(depends@);
            proof {
                crate::pbbuild::lemma_builds_view_len(depends@);
                assert(ds.take(0) =~= Seq::<BuildRecV>::empty());
                assert(r@.tok == TokV::Value(ValueV::Path(path@, ds)));
            }
            let mut i: usize = 0;
            while i < depends.len()
                invariant
                    ninja.wf(),
                    i <= depends@.len(),
                    ds == builds_view(depends@),
                    ds.len() == depends@.len(),
                    keeps(old(ninja)@, ninja@),
                    forall|j: int| 0 <= j < i ==> has_build(ninja@, #[trigger] ds[j]),
                    deps_v(ds.take(i as int), old(ninja)@, true) == (ninja@, true),
                    depth > 0,
                    resolve_v(expr@, EVAL_FUEL as nat) == Ok::<ExprV, ErrorV>(r@),
                    r@.tok == TokV::Value(ValueV::Path(path@, ds)),
                decreases depends.len() - i,
            {
                let ghost v_prev = ninja@;
                proof {
                    lemma_builds_view_index(depends@, i as int);
                    assert(ds.take(i + 1).drop_last() =~= ds.take(i as int));
                    assert(ds.take(i + 1).last() == ds[i as int]);
                }
                let rr = depends[i].populate_ninja_file(ninja, true);
                if rr.is_err() {
                    proof {
                        lemma_deps_fail_stays(ds, old(ninja)@, true, i + 1);
                        lemma_keeps_trans(old(ninja)@, v_prev, ninja@);
                    }
                    return rr;
                }
                proof {
                    lemma_keeps_trans(old(ninja)@, v_prev, ninja@);
                    lemma_builds_view_index(depends@, i as int);
                    assert forall|j: int| 0 <= j < i + 1 implies has_build(ninja@, #[trigger] ds[j]) by {
                        if j < i {
                            lemma_keeps_has_build(v_prev, ninja@, ds[j]);
                        }
                    }
                }
                i = i + 1;
            }
            let ghost v_deps = ninja@;
            proof {
                assert(ds.take(depends@.len() as int) =~= ds);
            }
            assert(forall|j: int| 0 <= j < ds.len() ==> has_build(v_deps, #[trigger] ds[j]));
            match alias {
                Some(a) => {
                    let mut v: Vec<VirtPath> = Vec::new();
                    v.push(path.copy());
                    assert(paths_view(v@) =~= seq![path@]);
                    ninja.add_alias(a, v);
                },
                None => {},
            }
            proof {
                lemma_keeps_refl(v_deps);
                assert(keeps(v_deps, ninja@));
                lemma_keeps_trans(old(ninja)@, v_deps, ninja@);
                assert forall|j: int| 0 <= j < ds.len() implies has_build(ninja@, #[trigger] ds[j]) by {
                    lemma_keeps_has_build(v_deps, ninja@, ds[j]);
                }
                assert(r@.tok == TokV::Value(ValueV::Path(path@, ds)));
            }
            Ok(())
        },
        ExprType::Value(_) => {
            let msg = match alias {
                None => copy_str("Top-level value is not a path"),
                Some(a) => text3("Top-level field '", a, "' is not a path"),
            };
            Err(Error::new(ErrorType::Custom, msg).reref(&r.0.loc))
        },
        ExprType::List(items) => {
            let ghost iv = exprs_v(items@);
            proof {
                lemma_exprs_v(items@);
                assert(iv.take(0) =~= Seq::<ExprV>::empty());
            }
            assert(r@.tok == TokV::List(iv));
            let mut i: usize = 0;
            while i < items.len()
                invariant
                    ninja.wf(),
                    depth > 0,
                    i <= items@.len(),
                    iv == items@.map_values(|e: Expr| e@),
                    keeps(old(ninja)@, ninja@),
                    forall|j: int| 0 <= j < i ==> builds_defined(#[trigger] iv[j], ninja@, (depth - 1) as nat),
                    items_add_v(iv.take(i as int), old(ninja)@, opt_str_v(alias), (depth - 1) as nat) == (ninja@, Outcome::Done),
                    resolve_v(expr@, EVAL_FUEL as nat) == Ok::<ExprV, ErrorV>(r@),
                    r@.tok == TokV::List(iv),
                decreases items.len() - i,
            {
                let ghost v_prev = ninja@;
                proof {
                    assert(iv.take(i + 1).drop_last() =~= iv.take(i as int));
                    assert(iv.take(i + 1).last() == iv[i as int]);
                }
                let rr = add_expr_inner(&items[i], ninja, alias, depth - 1);
                if rr.is_err() {
                    proof {
                        lemma_items_fail_stays(iv, old(ninja)@, opt_str_v(alias), (depth - 1) as nat, i + 1);
                        lemma_keeps_trans(old(ninja)@, v_prev, ninja@);
                    }
                    return rr;
                }
                proof {
                    lemma_keeps_trans(old(ninja)@, v_prev, ninja@);
                    assert forall|j: int| 0 <= j < i + 1 implies builds_defined(#[trigger] iv[j], ninja@, (depth - 1) as nat) by {
                        if j < i {
                            lemma_keeps_defined(iv[j], v_prev, ninja@, (depth - 1) as nat);
                        }
                    }
                }
                i = i + 1;
            }
            assert(r@.tok == TokV::List(iv));
            proof {
                assert(iv.take(items@.len() as int) =~= iv);
            }
            Ok(())
        },
        ExprType::Object(fields) => {
            let ghost fv = set_v(fields@);
            proof {
                lemma_set_v(fields@);
                assert(fv.take(0) =~= Seq::<(Seq<char>, ExprV)>::empty());
            }
            assert(r@.tok == TokV::Object(fv));
            let mut i: usize = 0;
            while i < fields.len()
                invariant
                    ninja.wf(),
                    depth > 0,
                    i <= fields@.len(),
                    fv == fields@.map_values(|p: (String, Expr)| (p.0@, p.1@)),
                    keeps(old(ninja)@, ninja@),
                    forall|j: int| 0 <= j < i ==> builds_defined(#[trigger] fv[j].1, ninja@, (depth - 1) as nat),
                    fields_add_v(fv.take(i as int), old(ninja)@, (depth - 1) as nat) == (ninja@, Outcome::Done),
                    resolve_v(expr@, EVAL_FUEL as nat) == Ok::<ExprV, ErrorV>(r@),
                    r@.tok == TokV::Object(fv),
                decreases fields.len() - i,
            {
                let ghost v_prev = ninja@;
                proof {
                    assert(fv.take(i + 1).drop_last() =~= fv.take(i as int));
                    assert(fv.take(i + 1).last() == fv[i as int]);
                }
                let rr = add_expr_inner(&fields[i].1, ninja, Some(fields[i].0.as_str()), depth - 1);
                if rr.is_err() {
                    proof {
                        lemma_fields_fail_stays(fv, old(ninja)@, (depth - 1) as nat, i + 1);
                        lemma_keeps_trans(old(ninja)@, v_prev, ninja@);
                    }
                    return rr;
                }
                proof {
                    lemma_keeps_trans(old(ninja)@, v_prev, ninja@);
                    assert forall|j: int| 0 <= j < i + 1 implies builds_defined(#[trigger] fv[j].1, ninja@, (depth - 1) as nat) by {
                        if j < i {
                            lemma_keeps_defined(fv[j].1, v_prev, ninja@, (depth - 1) as nat);
                        }
                    }
                }
                i = i + 1;
            }
            assert(r@.tok == TokV::Object(fv));
            proof {
                assert(fv.take(fields@.len() as int) =~= fv);
            }
            Ok(())
        },
        _ => Err(Error::new(ErrorType::Custom, copy_str("Not a valid build definition")).reref(&r.0.loc)),
    }
}

} // verus!
