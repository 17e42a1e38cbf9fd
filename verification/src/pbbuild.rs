use vstd::prelude::*;
use crate::ninja::{NinjaArg, ArgView, args_view, paths_view, copy_args, copy_paths, args_eq, paths_eq};
use crate::path::{VirtPath, VirtPathView};
use crate::text::{copy_str, str_eq, strings_eq};

verus! {

/// A rule made by `pb.rule`: the names of the arguments its builds take,
/// sorted and without repeats, and its ninja variables.
#[derive(Debug, PartialEq)]
pub struct PbBuildRule {
    pub rule_args: Vec<String>,
    pub vars: Vec<(String, Vec<NinjaArg>)>,
}

/// A build made by calling a rule: its inputs, outputs, implicit
/// dependencies, rule arguments, and the builds that produce what it reads.
#[derive(Debug, PartialEq)]
pub struct PbBuild {
    pub rule: PbBuildRule,
    pub inputs: Vec<VirtPath>,
    pub outputs: Vec<VirtPath>,
    pub deps: Vec<VirtPath>,
    pub args: Vec<(String, Vec<NinjaArg>)>,
    pub dep_builds: Vec<PbBuild>,
}

/// The mathematical content of a `PbBuildRule`.
pub struct RuleV {
    pub args: Seq<Seq<char>>,
    pub vars: Seq<(Seq<char>, Seq<ArgView>)>,
}

/// The mathematical content of a `PbBuild`.
pub struct BuildRecV {
    pub rule: RuleV,
    pub inputs: Seq<VirtPathView>,
    pub outputs: Seq<VirtPathView>,
    pub deps: Seq<VirtPathView>,
    pub args: Seq<(Seq<char>, Seq<ArgView>)>,
    pub dep_builds: Seq<BuildRecV>,
}

/// The view of named argument lists.
pub open spec fn named_args_view(v: Seq<(String, Vec<NinjaArg>)>) -> Seq<(Seq<char>, Seq<ArgView>)> {
    v.map_values(|e: (String, Vec<NinjaArg>)| (e.0@, args_view(e.1@)))
}

impl View for PbBuildRule {
    type V = RuleV;

    open spec fn view(&self) -> RuleV {
        RuleV { args: self.rule_args.deep_view(), vars: named_args_view(self.vars@) }
    }
}

/// The views of a sequence of builds.
pub open spec fn builds_view(s: Seq<PbBuild>) -> Seq<BuildRecV>
    decreases s,
{
    if s.len() == 0 {
        Seq::empty()
    } else {
        builds_view(s.drop_last()).push(s.last().view_rec())
    }
}

impl PbBuild {
    /// The mathematical content of this build.
    pub open spec fn view_rec(&self) -> BuildRecV
        decreases self,
    {
        BuildRecV {
            rule: self.rule@,
            inputs: paths_view(self.inputs@),
            outputs: paths_view(self.outputs@),
            deps: paths_view(self.deps@),
            args: named_args_view(self.args@),
            dep_builds: builds_view(self.dep_builds@),
        }
    }
}

impl View for PbBuild {
    type V = BuildRecV;

    open spec fn view(&self) -> BuildRecV {
        self.view_rec()
    }
}

pub proof fn lemma_builds_view_len(s: Seq<PbBuild>)
    ensures
        builds_view(s).len() == s.len(),
    decreases s.len(),
{
    if s.len() > 0 {
        lemma_builds_view_len(s.drop_last());
    }
}

pub proof fn lemma_builds_view_index(s: Seq<PbBuild>, i: int)
    requires
        0 <= i < s.len(),
    ensures
        builds_view(s)[i] == s[i]@,
    decreases s.len(),
{
    lemma_builds_view_len(s.drop_last());
    if i < s.len() - 1 {
        lemma_builds_view_index(s.drop_last(), i);
    }
}

/// `builds_view` taken element by element.
pub proof fn lemma_builds_view_map(s: Seq<PbBuild>)
    ensures
        builds_view(s) == s.map_values(|b: PbBuild| b@),
{
    lemma_builds_view_len(s);
    assert forall|i: int| 0 <= i < s.len() implies #[trigger] builds_view(s)[i] == s.map_values(|b: PbBuild| b@)[i] by {
        lemma_builds_view_index(s, i);
    }
    assert(builds_view(s) =~= s.map_values(|b: PbBuild| b@));
}

/// A copy of named argument lists.
pub(crate) fn copy_named_args(v: &Vec<(String, Vec<NinjaArg>)>) -> (r: Vec<(String, Vec<NinjaArg>)>)
    ensures
        named_args_view(r@) == named_args_view(v@),
{
    let mut out: Vec<(String, Vec<NinjaArg>)> = Vec::new();
    let mut i: usize = 0;
    while i < v.len()
        invariant
            i <= v@.len(),
            named_args_view(out@) == named_args_view(v@).take(i as int),
        decreases v.len() - i,
    {
        let c = (copy_str(v[i].0.as_str()), copy_args(&v[i].1));
        let ghost before = out@;
        out.push(c);
        assert(named_args_view(out@) =~= named_args_view(before).push((c.0@, args_view(c.1@))));
        assert(named_args_view(out@) =~= named_args_view(v@).take(i + 1));
        i = i + 1;
    }
    assert(named_args_view(v@).take(v@.len() as int) =~= named_args_view(v@));
    out
}

/// Whether two named argument lists are the same.
pub(crate) fn named_args_eq(a: &Vec<(String, Vec<NinjaArg>)>, b: &Vec<(String, Vec<NinjaArg>)>) -> (r: bool)
    ensures
        r == (named_args_view(a@) == named_args_view(b@)),
{
    if a.len() != b.len() {
        assert(named_args_view(a@).len() != named_args_view(b@).len());
        return false;
    }
    let mut i: usize = 0;
    while i < a.len()
        invariant
            i <= a@.len() == b@.len(),
            forall|j: int| 0 <= j < i ==> named_args_view(a@)[j] == named_args_view(b@)[j],
        decreases a.len() - i,
    {
        if !str_eq(a[i].0.as_str(), b[i].0.as_str()) || !args_eq(&a[i].1, &b[i].1) {
            assert(named_args_view(a@)[i as int] != named_args_view(b@)[i as int]);
            return false;
        }
        i = i + 1;
    }
    assert(named_args_view(a@) =~= named_args_view(b@));
    true
}

/// A copy of a list of strings.
pub(crate) fn copy_strings(v: &Vec<String>) -> (r: Vec<String>)
    ensures
        r.deep_view() == v.deep_view(),
{
    let mut out: Vec<String> = Vec::new();
    let mut i: usize = 0;
    while i < v.len()
        invariant
            i <= v@.len(),
            out.deep_view() == v.deep_view().take(i as int),
        decreases v.len() - i,
    {
        let c = copy_str(v[i].as_str());
        let ghost before = out.deep_view();
        out.push(c);
        assert(out.deep_view() =~= before.push(c@));
        assert(out.deep_view() =~= v.deep_view().take(i + 1));
        i = i + 1;
    }
    assert(v.deep_view().take(v@.len() as int) =~= v.deep_view());
    out
}

impl PbBuildRule {
    pub fn new(rule_args: Vec<String>, vars: Vec<(String, Vec<NinjaArg>)>) -> (r: PbBuildRule)
        ensures
            r@ == (RuleV { args: rule_args.deep_view(), vars: named_args_view(vars@) }),
    {
        PbBuildRule { rule_args, vars }
    }

    /// The names of the arguments that builds of this rule take.
    pub fn rule_args(&self) -> (r: &Vec<String>)
        ensures
            r.deep_view() == self@.args,
    {
        &self.rule_args
    }

    /// A copy of this rule.
    pub fn copy(&self) -> (r: PbBuildRule)
        ensures
            r@ == self@,
    {
        PbBuildRule { rule_args: copy_strings(&self.rule_args), vars: copy_named_args(&self.vars) }
    }

    /// Whether two rules are the same.
    pub fn same_as(&self, other: &PbBuildRule) -> (r: bool)
        ensures
            r == (self@ == other@),
    {
        strings_eq(&self.rule_args, &other.rule_args) && named_args_eq(&self.vars, &other.vars)
    }
}

impl PbBuild {
    pub fn new(
        rule: PbBuildRule,
        inputs: Vec<VirtPath>,
        outputs: Vec<VirtPath>,
        deps: Vec<VirtPath>,
        args: Vec<(String, Vec<NinjaArg>)>,
        dep_builds: Vec<PbBuild>,
    ) -> (r: PbBuild)
        ensures
            r@ == (BuildRecV {
                rule: rule@,
                inputs: paths_view(inputs@),
                outputs: paths_view(outputs@),
                deps: paths_view(deps@),
                args: named_args_view(args@),
                dep_builds: builds_view(dep_builds@),
            }),
    {
        PbBuild { rule, inputs, outputs, deps, args, dep_builds }
    }

    /// The paths this build produces.
    pub fn ninja_outputs(&self) -> (r: &Vec<VirtPath>)
        ensures
            paths_view(r@) == self@.outputs,
    {
        &self.outputs
    }

    /// A copy of this build, with copies of the builds it depends on.
    pub fn copy(&self) -> (r: PbBuild)
        ensures
            r@ == self@,
        decreases self,
    {
        let mut deps: Vec<PbBuild> = Vec::new();
        let mut i: usize = 0;
        while i < self.dep_builds.len()
            invariant
                i <= self.dep_builds@.len(),
                deps@.len() == i,
                forall|j: int| 0 <= j < i ==> (#[trigger] deps@[j])@ == self.dep_builds@[j]@,
            decreases self.dep_builds.len() - i,
        {
            proof {
                assert(decreases_to!(*self => self.dep_builds));
                assert(decreases_to!(self.dep_builds => self.dep_builds@));
                assert(decreases_to!(self.dep_builds@ => self.dep_builds@[i as int]));
            }
            let c = self.dep_builds[i].copy();
            deps.push(c);
            i = i + 1;
        }
        proof {
            lemma_builds_view_map(deps@);
            lemma_builds_view_map(self.dep_builds@);
            assert(deps@.map_values(|b: PbBuild| b@) =~= self.dep_builds@.map_values(|b: PbBuild| b@));
        }
        PbBuild {
            rule: self.rule.copy(),
            inputs: copy_paths(&self.inputs),
            outputs: copy_paths(&self.outputs),
            deps: copy_paths(&self.deps),
            args: copy_named_args(&self.args),
            dep_builds: deps,
        }
    }

    /// Whether two builds are the same, down to the builds they depend on.
    pub fn same_as(&self, other: &PbBuild) -> (r: bool)
        ensures
            r == (self@ == other@),
        decreases self,
    {
        if !self.rule.same_as(&other.rule) || !paths_eq(&self.inputs, &other.inputs)
            || !paths_eq(&self.outputs, &other.outputs) || !paths_eq(&self.deps, &other.deps)
            || !named_args_eq(&self.args, &other.args) {
            return false;
        }
        proof {
            lemma_builds_view_map(self.dep_builds@);
            lemma_builds_view_map(other.dep_builds@);
        }
        if self.dep_builds.len() != other.dep_builds.len() {
            assert(self@.dep_builds.len() != other@.dep_builds.len());
            return false;
        }
        let mut i: usize = 0;
        while i < self.dep_builds.len()
            invariant
                i <= self.dep_builds@.len() == other.dep_builds@.len(),
                forall|j: int| 0 <= j < i ==> (#[trigger] self.dep_builds@[j])@ == other.dep_builds@[j]@,
            decreases self.dep_builds.len() - i,
        {
            proof {
                assert(decreases_to!(*self => self.dep_builds));
                assert(decreases_to!(self.dep_builds => self.dep_builds@));
                assert(decreases_to!(self.dep_builds@ => self.dep_builds@[i as int]));
            }
            if !self.dep_builds[i].same_as(&other.dep_builds[i]) {
                proof {
                    lemma_builds_view_len(self.dep_builds@);
                    lemma_builds_view_index(self.dep_builds@, i as int);
                    lemma_builds_view_index(other.dep_builds@, i as int);
                }
                assert(self@.dep_builds[i as int] != other@.dep_builds[i as int]);
                return false;
            }
            i = i + 1;
        }
        assert(self@.dep_builds =~= other@.dep_builds);
        true
    }
}

} // verus!
