use vstd::prelude::*;
use crate::path::{VirtPath, VirtPathView, path_join, all_parts, spec_display};
use crate::text::{push_char, push_str, chars_of, copy_str, str_eq, str_lt, seq_lt, seq_le, push_decimal,
    decimal, lemma_seq_lt_total, lemma_seq_lt_trans, lemma_seq_lt_irrefl, lemma_seq_le_trans,
    join_with, sorted_pos, sorted_strict, sorted_le, lemma_sorted_pos, lemma_insert_sorted_le,
    lemma_insert_sorted_strict, lemma_decimal_injective, all_distinct_seq, contains_str, lemma_scan_pos};

verus! {

/// One atom of a concatenated build argument.
#[derive(Debug, PartialEq, Clone, Hash, Eq)]
pub enum NinjaPart {
    Const(String),
    Var(String),
    Path(VirtPath),
}

/// A build argument: a constant (escaped when written), a `${name}`
/// variable reference, a path, or several atoms written back to back.
#[derive(Debug, PartialEq, Clone, Hash, Eq)]
pub enum NinjaArg {
    Const(String),
    Var(String),
    Path(VirtPath),
    Concat(Vec<NinjaPart>),
}

/// A `name = args...` line of a rule or a build.
#[derive(Debug, PartialEq, Hash, Eq)]
pub struct NinjaVar {
    name: String,
    args: Vec<NinjaArg>,
}

/// A ninja rule: its variable lines.
#[derive(Debug, Default, PartialEq, Hash, Eq)]
pub struct NinjaRule {
    vars: Vec<NinjaVar>,
}

/// The name under which a rule was added to a file.
#[derive(Debug, PartialEq, Clone)]
pub struct NinjaRuleRef(pub String);

/// The outputs of a build that was added to a file.
#[derive(Debug, PartialEq, Clone, Hash, Eq)]
pub struct NinjaBuildRef(pub Vec<VirtPath>);

/// A ninja build statement.
#[derive(Debug, Default, PartialEq, Hash, Eq)]
pub struct NinjaBuild {
    rule: String,
    outputs: Vec<VirtPath>,
    inputs: Vec<VirtPath>,
    deps: Vec<VirtPath>,
    vars: Vec<NinjaVar>,
}

/// A ninja file being put together: unique rule names, rules (each added
/// once), builds (each added once, no two producing the same output),
/// phony aliases and default targets.
#[derive(Debug, Default)]
pub struct NinjaFile {
    rule_names: Vec<String>,
    rules: Vec<(NinjaRule, String)>,
    builds: Vec<(NinjaBuild, String)>,
    build_outputs: Vec<VirtPath>,
    aliases: Vec<(String, Vec<VirtPath>)>,
    default_targets: Vec<(VirtPath, String)>,
}

/* Models */

pub enum PartView {
    Const(Seq<char>),
    Var(Seq<char>),
    Path(VirtPathView),
}

pub enum ArgView {
    Const(Seq<char>),
    Var(Seq<char>),
    Path(VirtPathView),
    Concat(Seq<PartView>),
}

pub struct VarView {
    pub name: Seq<char>,
    pub args: Seq<ArgView>,
}

pub struct BuildView {
    pub rule: Seq<char>,
    pub outputs: Seq<VirtPathView>,
    pub inputs: Seq<VirtPathView>,
    pub deps: Seq<VirtPathView>,
    pub vars: Seq<VarView>,
}

pub struct NinjaFileView {
    pub names: Seq<Seq<char>>,
    pub rules: Seq<(Seq<VarView>, Seq<char>)>,
    pub builds: Seq<BuildView>,
    pub outputs: Seq<VirtPathView>,
    pub aliases: Seq<(Seq<char>, Seq<VirtPathView>)>,
    pub defaults: Seq<VirtPathView>,
}

pub open spec fn paths_view(v: Seq<VirtPath>) -> Seq<VirtPathView> {
    v.map_values(|p: VirtPath| p@)
}

pub open spec fn parts_view(v: Seq<NinjaPart>) -> Seq<PartView> {
    v.map_values(|p: NinjaPart| p@)
}

pub open spec fn args_view(v: Seq<NinjaArg>) -> Seq<ArgView> {
    v.map_values(|a: NinjaArg| a@)
}

/// The first `n` elements of `s`, or all of them when there are fewer.
pub open spec fn take_up_to<A>(s: Seq<A>, n: int) -> Seq<A> {
    if s.len() <= n { s } else { s.take(n) }
}

impl View for NinjaPart {
    type V = PartView;

    open spec fn view(&self) -> PartView {
        match self {
            NinjaPart::Const(s) => PartView::Const(s@),
            NinjaPart::Var(s) => PartView::Var(s@),
            NinjaPart::Path(p) => PartView::Path(p@),
        }
    }
}

impl View for NinjaArg {
    type V = ArgView;

    open spec fn view(&self) -> ArgView {
        match self {
            NinjaArg::Const(s) => ArgView::Const(s@),
            NinjaArg::Var(s) => ArgView::Var(s@),
            NinjaArg::Path(p) => ArgView::Path(p@),
            NinjaArg::Concat(ps) => ArgView::Concat(parts_view(ps@)),
        }
    }
}

impl View for NinjaVar {
    type V = VarView;

    closed spec fn view(&self) -> VarView {
        VarView { name: self.name@, args: args_view(self.args@) }
    }
}

pub open spec fn var_names(vs: Seq<VarView>) -> Seq<Seq<char>> {
    vs.map_values(|v: VarView| v.name)
}

pub open spec fn vars_view(v: Seq<NinjaVar>) -> Seq<VarView> {
    v.map_values(|x: NinjaVar| x@)
}

impl View for NinjaRule {
    type V = Seq<VarView>;

    closed spec fn view(&self) -> Seq<VarView> {
        vars_view(self.vars@)
    }
}

impl View for NinjaBuild {
    type V = BuildView;

    closed spec fn view(&self) -> BuildView {
        BuildView {
            rule: self.rule@,
            outputs: paths_view(self.outputs@),
            inputs: paths_view(self.inputs@),
            deps: paths_view(self.deps@),
            vars: vars_view(self.vars@),
        }
    }
}

impl View for NinjaFile {
    type V = NinjaFileView;

    closed spec fn view(&self) -> NinjaFileView {
        NinjaFileView {
            names: self.rule_names.deep_view(),
            rules: self.rules@.map_values(|e: (NinjaRule, String)| (e.0@, e.1@)),
            builds: self.builds@.map_values(|e: (NinjaBuild, String)| e.0@),
            outputs: paths_view(self.build_outputs@),
            aliases: self.aliases@.map_values(|e: (String, Vec<VirtPath>)| (e.0@, paths_view(e.1@))),
            defaults: self.default_targets@.map_values(|e: (VirtPath, String)| e.0@),
        }
    }
}

/* Text of the ninja syntax */

pub open spec fn indent_text(n: nat) -> Seq<char>
    decreases n,
{
    if n == 0 {
        Seq::<char>::empty()
    } else {
        indent_text((n - 1) as nat) + "  "@
    }
}

pub open spec fn esc_char(c: char, indent: nat) -> Seq<char> {
    if c == '$' {
        "$$"@
    } else if c == '\n' {
        "$\n"@ + indent_text(indent)
    } else if c == ':' {
        "$:"@
    } else if c == ' ' {
        "$ "@
    } else {
        seq![c]
    }
}

/// `s` escaped for ninja: `$`, `:` and space get a `$` before them, a line
/// break becomes `$`, the break and `indent` levels of indentation.
pub open spec fn esc(s: Seq<char>, indent: nat) -> Seq<char>
    decreases s.len(),
{
    if s.len() == 0 {
        Seq::<char>::empty()
    } else {
        esc(s.drop_last(), indent) + esc_char(s.last(), indent)
    }
}

pub open spec fn path_text(p: VirtPathView) -> Seq<char> {
    path_join(p.root, all_parts(p))
}

pub open spec fn part_text(p: PartView, indent: nat) -> Seq<char> {
    match p {
        PartView::Const(c) => esc(c, indent + 1),
        PartView::Var(n) => "${"@ + n + "}"@,
        PartView::Path(p) => path_text(p),
    }
}

pub open spec fn parts_text(ps: Seq<PartView>, indent: nat) -> Seq<char>
    decreases ps.len(),
{
    if ps.len() == 0 {
        Seq::<char>::empty()
    } else {
        parts_text(ps.drop_last(), indent) + part_text(ps.last(), indent)
    }
}

pub open spec fn arg_text(a: ArgView, indent: nat) -> Seq<char> {
    match a {
        ArgView::Const(c) => esc(c, indent + 1),
        ArgView::Var(n) => "${"@ + n + "}"@,
        ArgView::Path(p) => path_text(p),
        ArgView::Concat(ps) => parts_text(ps, indent),
    }
}

pub open spec fn args_text(args: Seq<ArgView>, indent: nat) -> Seq<char>
    decreases args.len(),
{
    if args.len() == 0 {
        Seq::<char>::empty()
    } else {
        args_text(args.drop_last(), indent) + " "@ + arg_text(args.last(), indent)
    }
}

pub open spec fn var_text(v: VarView, indent: nat) -> Seq<char> {
    indent_text(indent) + esc(v.name, indent + 1) + " ="@ + args_text(v.args, indent) + "\n"@
}

pub open spec fn vars_text(vs: Seq<VarView>, indent: nat) -> Seq<char>
    decreases vs.len(),
{
    if vs.len() == 0 {
        Seq::<char>::empty()
    } else {
        vars_text(vs.drop_last(), indent) + var_text(vs.last(), indent)
    }
}

/// The text of the rule `rule` under the name `name`.
pub open spec fn rule_text(name: Seq<char>, rule: Seq<VarView>) -> Seq<char> {
    "rule "@ + esc(name, 1) + "\n"@ + vars_text(rule, 1) + "\n"@
}

/// Each path, with a space before it.
pub open spec fn paths_list_text(ps: Seq<VirtPathView>) -> Seq<char>
    decreases ps.len(),
{
    if ps.len() == 0 {
        Seq::<char>::empty()
    } else {
        paths_list_text(ps.drop_last()) + " "@ + path_text(ps.last())
    }
}

/// The text of a build statement.
pub open spec fn build_text(b: BuildView) -> Seq<char> {
    "build"@ + paths_list_text(b.outputs) + ": "@ + esc(b.rule, 1) + paths_list_text(b.inputs)
        + (if b.deps.len() > 0 { " |"@ + paths_list_text(b.deps) } else { Seq::<char>::empty() })
        + "\n"@ + vars_text(b.vars, 1) + "\n"@
}

pub open spec fn rules_text(rules: Seq<(Seq<VarView>, Seq<char>)>) -> Seq<char>
    decreases rules.len(),
{
    if rules.len() == 0 {
        Seq::<char>::empty()
    } else {
        rules_text(rules.drop_last()) + rule_text(rules.last().1, rules.last().0)
    }
}

pub open spec fn builds_text(builds: Seq<BuildView>) -> Seq<char>
    decreases builds.len(),
{
    if builds.len() == 0 {
        Seq::<char>::empty()
    } else {
        builds_text(builds.drop_last()) + build_text(builds.last())
    }
}

pub open spec fn alias_text(a: (Seq<char>, Seq<VirtPathView>)) -> Seq<char> {
    "build "@ + esc(a.0, 1) + ": phony"@ + paths_list_text(a.1) + "\n\n"@
}

pub open spec fn aliases_text(aliases: Seq<(Seq<char>, Seq<VirtPathView>)>) -> Seq<char>
    decreases aliases.len(),
{
    if aliases.len() == 0 {
        Seq::<char>::empty()
    } else {
        aliases_text(aliases.drop_last()) + alias_text(aliases.last())
    }
}

pub open spec fn defaults_text(defaults: Seq<VirtPathView>) -> Seq<char> {
    if defaults.len() == 0 {
        Seq::<char>::empty()
    } else {
        "default"@ + paths_list_text(defaults) + "\n\n"@
    }
}

/// The text of a whole ninja file: rules, builds, aliases, then defaults.
pub open spec fn file_text(f: NinjaFileView) -> Seq<char> {
    rules_text(f.rules) + builds_text(f.builds) + aliases_text(f.aliases) + defaults_text(f.defaults)
}

/* Writers */

fn write_indent(out: &mut String, indent: usize)
    ensures
        final(out)@ == old(out)@ + indent_text(indent as nat),
{
    let mut i: usize = 0;
    while i < indent
        invariant
            i <= indent,
            out@ == old(out)@ + indent_text(i as nat),
        decreases indent - i,
    {
        push_str(out, "  ");
        proof { reveal_strlit("  "); }
        i = i + 1;
        assert(out@ =~= old(out)@ + indent_text(i as nat));
    }
}

fn write_esc(out: &mut String, indent: usize, input: &str)
    ensures
        final(out)@ == old(out)@ + esc(input@, indent as nat),
{
    let cs = chars_of(input);
    let mut i: usize = 0;
    while i < cs.len()
        invariant
            i <= cs@.len(),
            cs@ == input@,
            out@ == old(out)@ + esc(input@.take(i as int), indent as nat),
        decreases cs.len() - i,
    {
        let c = cs[i];
        let ghost before = out@;
        if c == '$' {
            push_str(out, "$$");
            proof { reveal_strlit("$$"); }
        } else if c == '\n' {
            push_str(out, "$\n");
            proof { reveal_strlit("$\n"); }
            write_indent(out, indent);
        } else if c == ':' {
            push_str(out, "$:");
            proof { reveal_strlit("$:"); }
        } else if c == ' ' {
            push_str(out, "$ ");
            proof { reveal_strlit("$ "); }
        } else {
            push_char(out, c);
        }
        assert(out@ =~= before + esc_char(c, indent as nat));
        assert(input@.take(i + 1).drop_last() =~= input@.take(i as int));
        i = i + 1;
    }
    assert(input@.take(cs@.len() as int) =~= input@);
}

fn write_var_ref(out: &mut String, name: &String)
    ensures
        final(out)@ == old(out)@ + "${"@ + name@ + "}"@,
{
    push_str(out, "${");
    push_str(out, name.as_str());
    push_str(out, "}");
    assert(out@ =~= old(out)@ + "${"@ + name@ + "}"@);
}

fn write_path(out: &mut String, p: &VirtPath)
    ensures
        final(out)@ == old(out)@ + path_text(p@),
{
    let t = p.to_path_buf();
    push_str(out, t.as_str());
}

fn write_part(out: &mut String, indent: usize, part: &NinjaPart)
    requires
        indent < usize::MAX,
    ensures
        final(out)@ == old(out)@ + part_text(part@, indent as nat),
{
    match part {
        NinjaPart::Const(c) => write_esc(out, indent + 1, c.as_str()),
        NinjaPart::Var(n) => write_var_ref(out, n),
        NinjaPart::Path(p) => write_path(out, p),
    }
}

fn write_arg(out: &mut String, indent: usize, arg: &NinjaArg)
    requires
        indent < usize::MAX,
    ensures
        final(out)@ == old(out)@ + arg_text(arg@, indent as nat),
{
    match arg {
        NinjaArg::Const(c) => write_esc(out, indent + 1, c.as_str()),
        NinjaArg::Var(n) => write_var_ref(out, n),
        NinjaArg::Path(p) => write_path(out, p),
        NinjaArg::Concat(parts) => {
            let ghost ps = parts_view(parts@);
            let mut i: usize = 0;
            while i < parts.len()
                invariant
                    i <= parts@.len(),
                    indent < usize::MAX,
                    ps == parts_view(parts@),
                    out@ == old(out)@ + parts_text(ps.take(i as int), indent as nat),
                decreases parts.len() - i,
            {
                write_part(out, indent, &parts[i]);
                assert(ps.take(i + 1).drop_last() =~= ps.take(i as int));
                i = i + 1;
            }
            assert(ps.take(parts@.len() as int) =~= ps);
        },
    }
}

impl NinjaVar {
    fn write(&self, indent: usize, out: &mut String)
        requires
            indent < usize::MAX,
        ensures
            final(out)@ == old(out)@ + var_text(self@, indent as nat),
    {
        write_indent(out, indent);
        write_esc(out, indent + 1, self.name.as_str());
        push_str(out, " =");
        let ghost mid = out@;
        let ghost avs = args_view(self.args@);
        let mut i: usize = 0;
        while i < self.args.len()
            invariant
                i <= self.args@.len(),
                indent < usize::MAX,
                avs == args_view(self.args@),
                out@ == mid + args_text(avs.take(i as int), indent as nat),
            decreases self.args.len() - i,
        {
            let ghost before = out@;
            push_char(out, ' ');
            write_arg(out, indent, &self.args[i]);
            proof { reveal_strlit(" "); }
            assert(avs.take(i + 1).drop_last() =~= avs.take(i as int));
            assert(out@ =~= before + " "@ + arg_text(avs[i as int], indent as nat));
            i = i + 1;
        }
        assert(avs.take(self.args@.len() as int) =~= avs);
        push_char(out, '\n');
        proof { reveal_strlit(" ="); reveal_strlit("\n"); }
        assert(out@ =~= old(out)@ + var_text(self@, indent as nat));
    }
}

fn write_vars(out: &mut String, indent: usize, vars: &Vec<NinjaVar>)
    requires
        indent < usize::MAX,
    ensures
        final(out)@ == old(out)@ + vars_text(vars_view(vars@), indent as nat),
{
    let ghost vs = vars_view(vars@);
    let mut i: usize = 0;
    while i < vars.len()
        invariant
            i <= vars@.len(),
            indent < usize::MAX,
            vs == vars_view(vars@),
            out@ == old(out)@ + vars_text(vs.take(i as int), indent as nat),
        decreases vars.len() - i,
    {
        vars[i].write(indent, out);
        assert(vs.take(i + 1).drop_last() =~= vs.take(i as int));
        i = i + 1;
    }
    assert(vs.take(vars@.len() as int) =~= vs);
}

fn write_paths_list(out: &mut String, paths: &Vec<VirtPath>)
    ensures
        final(out)@ == old(out)@ + paths_list_text(paths_view(paths@)),
{
    let ghost ps = paths_view(paths@);
    let mut i: usize = 0;
    while i < paths.len()
        invariant
            i <= paths@.len(),
            ps == paths_view(paths@),
            out@ == old(out)@ + paths_list_text(ps.take(i as int)),
        decreases paths.len() - i,
    {
        let ghost before = out@;
        push_char(out, ' ');
        write_path(out, &paths[i]);
        proof { reveal_strlit(" "); }
        assert(ps.take(i + 1).drop_last() =~= ps.take(i as int));
        assert(out@ =~= before + " "@ + path_text(ps[i as int]));
        i = i + 1;
    }
    assert(ps.take(paths@.len() as int) =~= ps);
}

/// Appends the text of `rule` under the name `name`.
fn write_rule(out: &mut String, name: &str, rule: &NinjaRule)
    ensures
        final(out)@ == old(out)@ + rule_text(name@, rule@),
{
    push_str(out, "rule ");
    write_esc(out, 1, name);
    push_char(out, '\n');
    write_vars(out, 1, &rule.vars);
    push_char(out, '\n');
    proof { reveal_strlit("rule "); reveal_strlit("\n"); }
    assert(out@ =~= old(out)@ + rule_text(name@, rule@));
}

/// The text of `rule` under the name `name`.
pub fn named_rule_text(name: &str, rule: &NinjaRule) -> (r: String)
    ensures
        r@ == rule_text(name@, rule@),
{
    let mut out = String::new();
    write_rule(&mut out, name, rule);
    assert(out@ =~= rule_text(name@, rule@));
    out
}


/* Equality */

fn part_eq(a: &NinjaPart, b: &NinjaPart) -> (r: bool)
    ensures
        r == (a@ == b@),
{
    match (a, b) {
        (NinjaPart::Const(x), NinjaPart::Const(y)) => str_eq(x.as_str(), y.as_str()),
        (NinjaPart::Var(x), NinjaPart::Var(y)) => str_eq(x.as_str(), y.as_str()),
        (NinjaPart::Path(x), NinjaPart::Path(y)) => x.same_as(y),
        _ => false,
    }
}

pub(crate) fn arg_eq(a: &NinjaArg, b: &NinjaArg) -> (r: bool)
    ensures
        r == (a@ == b@),
{
    match (a, b) {
        (NinjaArg::Const(x), NinjaArg::Const(y)) => str_eq(x.as_str(), y.as_str()),
        (NinjaArg::Var(x), NinjaArg::Var(y)) => str_eq(x.as_str(), y.as_str()),
        (NinjaArg::Path(x), NinjaArg::Path(y)) => x.same_as(y),
        (NinjaArg::Concat(x), NinjaArg::Concat(y)) => {
            let ghost xv = parts_view(x@);
            let ghost yv = parts_view(y@);
            if x.len() != y.len() {
                assert(xv.len() != yv.len());
                return false;
            }
            let mut i: usize = 0;
            while i < x.len()
                invariant
                    i <= x@.len() == y@.len(),
                    xv == parts_view(x@),
                    yv == parts_view(y@),
                    a@ == ArgView::Concat(xv),
                    b@ == ArgView::Concat(yv),
                    forall|j: int| 0 <= j < i ==> xv[j] == yv[j],
                decreases x.len() - i,
            {
                if !part_eq(&x[i], &y[i]) {
                    assert(xv[i as int] != yv[i as int]);
                    return false;
                }
                i = i + 1;
            }
            assert(xv =~= yv);
            true
        },
        _ => false,
    }
}

fn var_eq(a: &NinjaVar, b: &NinjaVar) -> (r: bool)
    ensures
        r == (a@ == b@),
{
    if !str_eq(a.name.as_str(), b.name.as_str()) {
        return false;
    }
    let ghost xv = args_view(a.args@);
    let ghost yv = args_view(b.args@);
    if a.args.len() != b.args.len() {
        assert(xv.len() != yv.len());
        return false;
    }
    let mut i: usize = 0;
    while i < a.args.len()
        invariant
            i <= a.args@.len() == b.args@.len(),
            xv == args_view(a.args@),
            yv == args_view(b.args@),
            a@.name == b@.name,
            a@.args == xv,
            b@.args == yv,
            forall|j: int| 0 <= j < i ==> xv[j] == yv[j],
        decreases a.args.len() - i,
    {
        if !arg_eq(&a.args[i], &b.args[i]) {
            assert(xv[i as int] != yv[i as int]);
            return false;
        }
        i = i + 1;
    }
    assert(xv =~= yv);
    true
}

fn vars_eq(a: &Vec<NinjaVar>, b: &Vec<NinjaVar>) -> (r: bool)
    ensures
        r == (vars_view(a@) == vars_view(b@)),
{
    if a.len() != b.len() {
        assert(vars_view(a@).len() != vars_view(b@).len());
        return false;
    }
    let mut i: usize = 0;
    while i < a.len()
        invariant
            i <= a@.len() == b@.len(),
            forall|j: int| 0 <= j < i ==> vars_view(a@)[j] == vars_view(b@)[j],
        decreases a.len() - i,
    {
        if !var_eq(&a[i], &b[i]) {
            assert(vars_view(a@)[i as int] != vars_view(b@)[i as int]);
            return false;
        }
        i = i + 1;
    }
    assert(vars_view(a@) =~= vars_view(b@));
    true
}

pub(crate) fn paths_eq(a: &Vec<VirtPath>, b: &Vec<VirtPath>) -> (r: bool)
    ensures
        r == (paths_view(a@) == paths_view(b@)),
{
    if a.len() != b.len() {
        assert(paths_view(a@).len() != paths_view(b@).len());
        return false;
    }
    let mut i: usize = 0;
    while i < a.len()
        invariant
            i <= a@.len() == b@.len(),
            forall|j: int| 0 <= j < i ==> paths_view(a@)[j] == paths_view(b@)[j],
        decreases a.len() - i,
    {
        if !a[i].same_as(&b[i]) {
            assert(paths_view(a@)[i as int] != paths_view(b@)[i as int]);
            return false;
        }
        i = i + 1;
    }
    assert(paths_view(a@) =~= paths_view(b@));
    true
}

fn build_eq(a: &NinjaBuild, b: &NinjaBuild) -> (r: bool)
    ensures
        r == (a@ == b@),
{
    str_eq(a.rule.as_str(), b.rule.as_str()) && paths_eq(&a.outputs, &b.outputs)
        && paths_eq(&a.inputs, &b.inputs) && paths_eq(&a.deps, &b.deps) && vars_eq(&a.vars, &b.vars)
}

pub(crate) fn copy_paths(v: &Vec<VirtPath>) -> (r: Vec<VirtPath>)
    ensures
        paths_view(r@) == paths_view(v@),
{
    let mut r: Vec<VirtPath> = Vec::new();
    let mut i: usize = 0;
    while i < v.len()
        invariant
            i <= v@.len(),
            paths_view(r@) == paths_view(v@).take(i as int),
        decreases v.len() - i,
    {
        let c = v[i].copy();
        let ghost before = r@;
        r.push(c);
        assert(r@ == before.push(c));
        assert(paths_view(r@) =~= paths_view(before).push(c@));
        assert(paths_view(r@) =~= paths_view(v@).take(i + 1));
        i = i + 1;
    }
    assert(paths_view(v@).take(v@.len() as int) =~= paths_view(v@));
    r
}


/// A copy of `p`.
pub(crate) fn copy_part(p: &NinjaPart) -> (r: NinjaPart)
    ensures
        r@ == p@,
{
    match p {
        NinjaPart::Const(s) => NinjaPart::Const(copy_str(s.as_str())),
        NinjaPart::Var(s) => NinjaPart::Var(copy_str(s.as_str())),
        NinjaPart::Path(x) => NinjaPart::Path(x.copy()),
    }
}

/// A copy of `a`.
pub(crate) fn copy_arg(a: &NinjaArg) -> (r: NinjaArg)
    ensures
        r@ == a@,
{
    match a {
        NinjaArg::Const(s) => NinjaArg::Const(copy_str(s.as_str())),
        NinjaArg::Var(s) => NinjaArg::Var(copy_str(s.as_str())),
        NinjaArg::Path(x) => NinjaArg::Path(x.copy()),
        NinjaArg::Concat(ps) => {
            let mut out: Vec<NinjaPart> = Vec::new();
            let mut i: usize = 0;
            while i < ps.len()
                invariant
                    i <= ps@.len(),
                    parts_view(out@) == parts_view(ps@).take(i as int),
                decreases ps.len() - i,
            {
                let c = copy_part(&ps[i]);
                let ghost before = out@;
                out.push(c);
                assert(parts_view(out@) =~= parts_view(before).push(c@));
                assert(parts_view(out@) =~= parts_view(ps@).take(i + 1));
                i = i + 1;
            }
            assert(parts_view(ps@).take(ps@.len() as int) =~= parts_view(ps@));
            NinjaArg::Concat(out)
        },
    }
}

/// A copy of the arguments `v`.
pub(crate) fn copy_args(v: &Vec<NinjaArg>) -> (r: Vec<NinjaArg>)
    ensures
        args_view(r@) == args_view(v@),
{
    let mut out: Vec<NinjaArg> = Vec::new();
    let mut i: usize = 0;
    while i < v.len()
        invariant
            i <= v@.len(),
            args_view(out@) == args_view(v@).take(i as int),
        decreases v.len() - i,
    {
        let c = copy_arg(&v[i]);
        let ghost before = out@;
        out.push(c);
        assert(args_view(out@) =~= args_view(before).push(c@));
        assert(args_view(out@) =~= args_view(v@).take(i + 1));
        i = i + 1;
    }
    assert(args_view(v@).take(v@.len() as int) =~= args_view(v@));
    out
}

/// Whether two argument lists are the same.
pub(crate) fn args_eq(a: &Vec<NinjaArg>, b: &Vec<NinjaArg>) -> (r: bool)
    ensures
        r == (args_view(a@) == args_view(b@)),
{
    if a.len() != b.len() {
        assert(args_view(a@).len() != args_view(b@).len());
        return false;
    }
    let mut i: usize = 0;
    while i < a.len()
        invariant
            i <= a@.len() == b@.len(),
            forall|j: int| 0 <= j < i ==> args_view(a@)[j] == args_view(b@)[j],
        decreases a.len() - i,
    {
        if !arg_eq(&a[i], &b[i]) {
            assert(args_view(a@)[i as int] != args_view(b@)[i as int]);
            return false;
        }
        i = i + 1;
    }
    assert(args_view(a@) =~= args_view(b@));
    true
}

/* Rule names */

/// `alphabetic` is `char::is_alphabetic`.
pub uninterp spec fn spec_is_alphabetic(c: char) -> bool;

/// `char::is_alphabetic`: whether `c` has the Unicode `Alphabetic`
/// property. Claimed: the result is `spec_is_alphabetic(c)`; which
/// characters have the property is not stated.
#[verifier::external_body]
fn is_alphabetic(c: char) -> (r: bool)
    ensures
        r == spec_is_alphabetic(c),
{
    c.is_alphabetic()
}

/// The alphabetic characters of `t`, in order.
pub open spec fn alpha_only(t: Seq<char>) -> Seq<char>
    decreases t.len(),
{
    if t.len() == 0 {
        Seq::<char>::empty()
    } else if spec_is_alphabetic(t.last()) {
        alpha_only(t.drop_last()).push(t.last())
    } else {
        alpha_only(t.drop_last())
    }
}

/// The non-empty alphabetic parts of the constant arguments in `args`.
pub open spec fn const_hints(args: Seq<ArgView>) -> Seq<Seq<char>>
    decreases args.len(),
{
    if args.len() == 0 {
        Seq::<Seq<char>>::empty()
    } else {
        let rest = const_hints(args.drop_last());
        match args.last() {
            ArgView::Const(t) => if alpha_only(t).len() > 0 { rest.push(alpha_only(t)) } else { rest },
            _ => rest,
        }
    }
}

/// The index of the first variable named `command`.
pub open spec fn first_command(vars: Seq<VarView>) -> Option<int>
    decreases vars.len(),
{
    if vars.len() == 0 {
        None
    } else if vars[0].name == "command"@ {
        Some(0)
    } else {
        match first_command(vars.drop_first()) {
            Some(i) => Some(i + 1),
            None => None,
        }
    }
}

/// The name a rule asks for: the alphabetic parts of the first five
/// constant arguments of its `command` joined by `_`, or else the names of
/// its first three variables joined by `_`, or else `rule`.
pub open spec fn spec_name_template(rule: Seq<VarView>) -> Seq<char> {
    let cmd_hint = match first_command(rule) {
        Some(i) => join_with(const_hints(take_up_to(rule[i].args, 5)), "_"@),
        None => Seq::<char>::empty(),
    };
    let var_hint = join_with(var_names(take_up_to(rule, 3)), "_"@);
    if cmd_hint.len() > 0 {
        cmd_hint
    } else if var_hint.len() > 0 {
        var_hint
    } else {
        "rule"@
    }
}

/// `name` followed by the decimal form of `k`.
pub open spec fn numbered(name: Seq<char>, k: nat) -> Seq<char> {
    name + decimal(k)
}

/// The least `k >= 1` such that `name` numbered `k` is not in `names`.
pub open spec fn least_free(names: Seq<Seq<char>>, name: Seq<char>) -> nat {
    choose|k: nat| k >= 1 && !names.contains(numbered(name, k))
        && forall|j: nat| 1 <= j < k ==> names.contains(#[trigger] numbered(name, j))
}

/// The unique name `name` gives among the taken `names`: `name` itself
/// when it is free, otherwise `name` numbered with the least free number.
pub open spec fn fresh_name(names: Seq<Seq<char>>, name: Seq<char>) -> Seq<char> {
    if !names.contains(name) {
        name
    } else {
        numbered(name, least_free(names, name))
    }
}

proof fn lemma_numbered_injective(name: Seq<char>, a: nat, b: nat)
    requires
        numbered(name, a) == numbered(name, b),
    ensures
        a == b,
{
    assert(numbered(name, a).subrange(name.len() as int, numbered(name, a).len() as int) =~= decimal(a));
    assert(numbered(name, b).subrange(name.len() as int, numbered(name, b).len() as int) =~= decimal(b));
    lemma_decimal_injective(a, b);
}

/// Among the first `names.len() + 1` numbered names one is free.
proof fn lemma_some_numbered_free(names: Seq<Seq<char>>, name: Seq<char>)
    ensures
        exists|k: nat| 1 <= k <= names.len() + 1 && !names.contains(numbered(name, k)),
{
    if forall|k: nat| 1 <= k <= names.len() + 1 ==> names.contains(#[trigger] numbered(name, k)) {
        let n = names.len();
        let r = vstd::set_lib::set_int_range(1, n as int + 2);
        vstd::set_lib::lemma_int_range(1, n as int + 2);
        let f = |k: int| numbered(name, k as nat);
        let c = r.map(f);
        assert(vstd::relations::injective_on(f, r)) by {
            assert forall|x: int, y: int| r.contains(x) && r.contains(y) && #[trigger] f(x) == #[trigger] f(y) implies x == y by {
                lemma_numbered_injective(name, x as nat, y as nat);
            }
        }
        vstd::set_lib::lemma_map_size(r, c, f);
        let t = names.to_set();
        assert(c.subset_of(t)) by {
            assert forall|x: Seq<char>| c.contains(x) implies t.contains(x) by {
                let k = choose|k: int| r.contains(k) && f(k) == x;
                assert(names.contains(numbered(name, k as nat)));
            }
        }
        names.lemma_cardinality_of_set();
        vstd::set_lib::lemma_len_subset(c, t);
        assert(false);
    }
}

impl NinjaRule {
    pub fn new() -> (r: NinjaRule)
        ensures
            r@ == Seq::<VarView>::empty(),
    {
        let r = NinjaRule { vars: Vec::new() };
        assert(r@ =~= Seq::<VarView>::empty());
        r
    }

    /// Adds the line `name = args...`.
    pub fn var(&mut self, name: &str, args: Vec<NinjaArg>) -> (r: &mut Self)
        ensures
            r@ == old(self)@.push(VarView { name: name@, args: args_view(args@) }),
            final(self)@ == final(r)@,
    {
        let v = NinjaVar { name: copy_str(name), args };
        let ghost vv = v@;
        self.vars.push(v);
        assert(self@ =~= old(self)@.push(vv));
        self
    }

    /// The name this rule asks for; see `spec_name_template`.
    pub fn name_template(&self) -> (r: String)
        ensures
            r@ == spec_name_template(self@),
    {
        let ghost rv = self@;
        let mut cmd_hint = String::new();
        let mut idx: usize = 0;
        assert(rv.skip(0) =~= rv);
        while idx < self.vars.len() && !str_eq(self.vars[idx].name.as_str(), "command")
            invariant
                idx <= self.vars@.len(),
                rv == self@,
                forall|j: int| 0 <= j < idx ==> rv[j].name != "command"@,
                first_command(rv) == match first_command(rv.skip(idx as int)) {
                    Some(i) => Some(i + idx),
                    None => None,
                },
            decreases self.vars.len() - idx,
        {
            assert(rv.skip(idx as int).drop_first() =~= rv.skip(idx + 1));
            idx = idx + 1;
        }
        if idx < self.vars.len() {
            assert(rv.skip(idx as int)[0] == rv[idx as int]);
            let args = &self.vars[idx].args;
            let ghost av = args_view(args@);
            assert(av == rv[idx as int].args);
            let limit = if args.len() < 5 { args.len() } else { 5 };
                        let mut count: usize = 0;
            let mut i: usize = 0;
            while i < limit
                invariant
                    i <= limit <= av.len(),
                    limit == if av.len() < 5 { av.len() } else { 5 },
                    av == args_view(args@),
                    count == const_hints(av.take(i as int)).len(),
                    count <= i,
                    cmd_hint@ == join_with(const_hints(av.take(i as int)), "_"@),
                decreases limit - i,
            {
                assert(av.take(i + 1).drop_last() =~= av.take(i as int));
                match &args[i] {
                    NinjaArg::Const(text) => {
                        let cs = chars_of(text.as_str());
                        let mut cleaned = String::new();
                        let mut k: usize = 0;
                        while k < cs.len()
                            invariant
                                k <= cs@.len(),
                                cs@ == text@,
                                cleaned@ == alpha_only(text@.take(k as int)),
                            decreases cs.len() - k,
                        {
                            assert(text@.take(k + 1).drop_last() =~= text@.take(k as int));
                            if is_alphabetic(cs[k]) {
                                push_char(&mut cleaned, cs[k]);
                            }
                            k = k + 1;
                        }
                        assert(text@.take(cs@.len() as int) =~= text@);
                        if chars_of(cleaned.as_str()).len() > 0 {
                            let ghost prev = const_hints(av.take(i as int));
                            if count > 0 {
                                push_char(&mut cmd_hint, '_');
                            }
                            push_str(&mut cmd_hint, cleaned.as_str());
                            proof { reveal_strlit("_"); }
                            let ghost next = prev.push(cleaned@);
                            assert(const_hints(av.take(i + 1)) == next);
                            assert(next.drop_last() =~= prev);
                            assert(cmd_hint@ =~= join_with(next, "_"@));
                            count = count + 1;
                        }
                    },
                    _ => {},
                }
                i = i + 1;
            }
            assert(av.take(limit as int) =~= take_up_to(av, 5));
        }
        if chars_of(cmd_hint.as_str()).len() > 0 {
            return cmd_hint;
        }
        let mut var_hint = String::new();
        let vlimit = if self.vars.len() < 3 { self.vars.len() } else { 3 };
        let ghost names = var_names(take_up_to(rv, 3));
        let mut i: usize = 0;
        while i < vlimit
            invariant
                i <= vlimit <= rv.len(),
                vlimit == if rv.len() < 3 { rv.len() } else { 3 },
                rv == self@,
                names == var_names(take_up_to(rv, 3)),
                names.len() == vlimit,
                var_hint@ == join_with(names.take(i as int), "_"@),
            decreases vlimit - i,
        {
            if i > 0 {
                push_char(&mut var_hint, '_');
            }
            push_str(&mut var_hint, self.vars[i].name.as_str());
            proof { reveal_strlit("_"); }
            assert(names.take(i + 1).drop_last() =~= names.take(i as int));
            assert(names[i as int] == rv[i as int].name);
            i = i + 1;
        }
        assert(names.take(vlimit as int) =~= names);
        if chars_of(var_hint.as_str()).len() > 0 {
            var_hint
        } else {
            copy_str("rule")
        }
    }
}

impl NinjaBuild {
    /// An empty build of the rule `rule`.
    pub fn new(rule: &NinjaRuleRef) -> (r: NinjaBuild)
        ensures
            r@.rule == rule.0@,
            r@.outputs.len() == 0,
            r@.inputs.len() == 0,
            r@.deps.len() == 0,
            r@.vars.len() == 0,
    {
        NinjaBuild { rule: rule.0.clone(), outputs: Vec::new(), inputs: Vec::new(), deps: Vec::new(), vars: Vec::new() }
    }

    /// Adds an output.
    pub fn output(&mut self, name: VirtPath) -> (r: &mut Self)
        ensures
            r@ == (BuildView { outputs: old(self)@.outputs.push(name@), ..old(self)@ }),
            final(self)@ == final(r)@,
    {
        let ghost nv = name@;
        self.outputs.push(name);
        assert(paths_view(self.outputs@) =~= old(self)@.outputs.push(nv));
        self
    }

    /// Adds an input.
    pub fn input(&mut self, name: VirtPath) -> (r: &mut Self)
        ensures
            r@ == (BuildView { inputs: old(self)@.inputs.push(name@), ..old(self)@ }),
            final(self)@ == final(r)@,
    {
        let ghost nv = name@;
        self.inputs.push(name);
        assert(paths_view(self.inputs@) =~= old(self)@.inputs.push(nv));
        self
    }

    /// Adds an implicit dependency.
    pub fn dep(&mut self, name: VirtPath) -> (r: &mut Self)
        ensures
            r@ == (BuildView { deps: old(self)@.deps.push(name@), ..old(self)@ }),
            final(self)@ == final(r)@,
    {
        let ghost nv = name@;
        self.deps.push(name);
        assert(paths_view(self.deps@) =~= old(self)@.deps.push(nv));
        self
    }

    /// Adds the line `name = args...`.
    pub fn var(&mut self, name: &str, args: Vec<NinjaArg>) -> (r: &mut Self)
        ensures
            r@ == (BuildView {
                vars: old(self)@.vars.push(VarView { name: name@, args: args_view(args@) }),
                ..old(self)@
            }),
            final(self)@ == final(r)@,
    {
        let v = NinjaVar { name: copy_str(name), args };
        let ghost vv = v@;
        self.vars.push(v);
        assert(vars_view(self.vars@) =~= old(self)@.vars.push(vv));
        self
    }

    /// The reference that stands for this build: its outputs.
    pub fn build_ref(&self) -> (r: NinjaBuildRef)
        ensures
            paths_view(r.0@) == self@.outputs,
    {
        NinjaBuildRef(copy_paths(&self.outputs))
    }

    /// The text of this build statement.
    pub fn to_text(&self) -> (r: String)
        ensures
            r@ == build_text(self@),
    {
        let mut out = String::new();
        push_str(&mut out, "build");
        write_paths_list(&mut out, &self.outputs);
        push_str(&mut out, ": ");
        write_esc(&mut out, 1, self.rule.as_str());
        write_paths_list(&mut out, &self.inputs);
        let ghost mid = out@;
        if self.deps.len() > 0 {
            push_str(&mut out, " |");
            write_paths_list(&mut out, &self.deps);
        }
        push_char(&mut out, '\n');
        write_vars(&mut out, 1, &self.vars);
        push_char(&mut out, '\n');
        proof { reveal_strlit("build"); reveal_strlit(": "); reveal_strlit(" |"); reveal_strlit("\n"); }
        assert(out@ =~= build_text(self@));
        out
    }
}


/* The file */

pub open spec fn rule_names(rules: Seq<(Seq<VarView>, Seq<char>)>) -> Seq<Seq<char>> {
    rules.map_values(|e: (Seq<VarView>, Seq<char>)| e.1)
}

pub open spec fn build_keys(builds: Seq<BuildView>) -> Seq<Seq<char>> {
    builds.map_values(|b: BuildView| build_text(b))
}

pub open spec fn alias_names(aliases: Seq<(Seq<char>, Seq<VirtPathView>)>) -> Seq<Seq<char>> {
    aliases.map_values(|e: (Seq<char>, Seq<VirtPathView>)| e.0)
}

pub open spec fn default_keys(defaults: Seq<VirtPathView>) -> Seq<Seq<char>> {
    defaults.map_values(|p: VirtPathView| spec_display(p))
}

pub open spec fn rule_bodies(rules: Seq<(Seq<VarView>, Seq<char>)>) -> Seq<Seq<VarView>> {
    rules.map_values(|e: (Seq<VarView>, Seq<char>)| e.0)
}

pub open spec fn distinct<A>(s: Seq<A>) -> bool {
    forall|i: int, j: int| 0 <= i < s.len() && 0 <= j < s.len() && i != j ==> s[i] != s[j]
}

/// What adding the alias `name` for `inputs` does to the aliases: the
/// inputs are appended to an existing alias of that name, or a new alias is
/// put at its sorted place.
pub open spec fn spec_add_alias(aliases: Seq<(Seq<char>, Seq<VirtPathView>)>, name: Seq<char>,
    inputs: Seq<VirtPathView>) -> Seq<(Seq<char>, Seq<VirtPathView>)> {
    if exists|i: int| 0 <= i < aliases.len() && aliases[i].0 == name {
        let i = choose|i: int| 0 <= i < aliases.len() && aliases[i].0 == name;
        aliases.update(i, (name, aliases[i].1 + inputs))
    } else {
        aliases.insert(sorted_pos(alias_names(aliases), name), (name, inputs))
    }
}

/// What making `outs` default targets does to the defaults: each one not
/// yet among them is put at its sorted place.
pub open spec fn spec_add_defaults(defaults: Seq<VirtPathView>, outs: Seq<VirtPathView>) -> Seq<VirtPathView>
    decreases outs.len(),
{
    if outs.len() == 0 {
        defaults
    } else {
        let before = spec_add_defaults(defaults, outs.drop_last());
        let o = outs.last();
        if before.contains(o) {
            before
        } else {
            before.insert(sorted_pos(default_keys(before), spec_display(o)), o)
        }
    }
}

/// The file system paths of all outputs of `builds`, build by build.
pub open spec fn flat_outputs(builds: Seq<BuildView>) -> Seq<Seq<char>>
    decreases builds.len(),
{
    if builds.len() == 0 {
        Seq::<Seq<char>>::empty()
    } else {
        flat_outputs(builds.drop_last()) + builds.last().outputs.map_values(|p: VirtPathView| path_text(p))
    }
}

/// Whether `x` occurs at two different positions of `s`.
pub open spec fn occurs_twice(s: Seq<Seq<char>>, x: Seq<char>) -> bool {
    exists|i: int, j: int| 0 <= i < j < s.len() && s[i] == x && s[j] == x
}

/// The message `validate` gives for a file system path produced twice.
pub open spec fn multiple_message(fs: Seq<char>) -> Seq<char> {
    "Multiple builds generating: "@ + fs
}

/// The position of the first rule of `rules` whose body is `rv`, or -1.
pub open spec fn first_rule(rules: Seq<(Seq<VarView>, Seq<char>)>, rv: Seq<VarView>) -> int
    decreases rules.len(),
{
    if rules.len() == 0 {
        -1
    } else if rules[0].0 == rv {
        0
    } else {
        let r = first_rule(rules.drop_first(), rv);
        if r < 0 { -1 } else { r + 1 }
    }
}

/// The file after adding the rule `rv`, and the name the rule goes by: an
/// equal rule already there is shared, otherwise the rule comes in under a
/// fresh name derived from its template.
pub open spec fn spec_add_rule(v: NinjaFileView, rv: Seq<VarView>) -> (NinjaFileView, Seq<char>) {
    let i = first_rule(v.rules, rv);
    if i >= 0 {
        (v, v.rules[i].1)
    } else {
        let name = fresh_name(v.names, spec_name_template(rv));
        (NinjaFileView {
            names: v.names.push(name),
            rules: v.rules.insert(sorted_pos(rule_names(v.rules), name), (rv, name)),
            ..v
        }, name)
    }
}

/// The file after adding the build line `b`, and whether it was accepted:
/// an equal line changes nothing, a line with an output that another build
/// already produces is refused, anything else is put in.
pub open spec fn spec_add_build(v: NinjaFileView, b: BuildView) -> (NinjaFileView, bool) {
    if v.builds.contains(b) {
        (v, true)
    } else if exists|k: int| 0 <= k < b.outputs.len() && v.outputs.contains(b.outputs[k]) {
        (v, false)
    } else {
        (NinjaFileView {
            builds: v.builds.insert(sorted_pos(build_keys(v.builds), build_text(b)), b),
            outputs: v.outputs + b.outputs,
            ..v
        }, true)
    }
}

proof fn lemma_first_rule_is(rules: Seq<(Seq<VarView>, Seq<char>)>, rv: Seq<VarView>, i: int)
    requires
        i == -1 ==> forall|j: int| 0 <= j < rules.len() ==> rules[j].0 != rv,
        i != -1 ==> 0 <= i < rules.len() && rules[i].0 == rv && forall|j: int| 0 <= j < i ==> rules[j].0 != rv,
    ensures
        first_rule(rules, rv) == i,
    decreases rules.len(),
{
    if rules.len() > 0 && rules[0].0 != rv {
        let t = rules.drop_first();
        if i == -1 {
            assert forall|j: int| 0 <= j < t.len() implies t[j].0 != rv by {
                assert(t[j] == rules[j + 1]);
            }
            lemma_first_rule_is(t, rv, -1);
        } else {
            assert(i > 0);
            assert forall|j: int| 0 <= j < i - 1 implies t[j].0 != rv by {
                assert(t[j] == rules[j + 1]);
            }
            assert(t[i - 1] == rules[i]);
            lemma_first_rule_is(t, rv, i - 1);
        }
    }
}

proof fn lemma_first_rule_props(rules: Seq<(Seq<VarView>, Seq<char>)>, rv: Seq<VarView>)
    ensures
        -1 <= first_rule(rules, rv) < rules.len(),
        first_rule(rules, rv) >= 0 ==> rules[first_rule(rules, rv)].0 == rv,
        first_rule(rules, rv) < 0 ==> forall|j: int| 0 <= j < rules.len() ==> rules[j].0 != rv,
    decreases rules.len(),
{
    if rules.len() > 0 && rules[0].0 != rv {
        let t = rules.drop_first();
        lemma_first_rule_props(t, rv);
        assert forall|j: int| 0 <= j < rules.len() && first_rule(rules, rv) < 0 implies rules[j].0 != rv by {
            if j > 0 {
                assert(rules[j] == t[j - 1]);
            }
        }
    }
}

proof fn lemma_sorted_pos_bound(keys: Seq<Seq<char>>, x: Seq<char>)
    ensures
        0 <= sorted_pos(keys, x) <= keys.len(),
    decreases keys.len(),
{
    if keys.len() > 0 && seq_lt(keys[0], x) {
        lemma_sorted_pos_bound(keys.drop_first(), x);
    }
}

/// Once `add_rule` has given a rule its name, the rule is found under
/// that name: `get_rule_ref` gives the name `add_rule` returned, and adding
/// an equal rule again returns the same name and changes nothing.
pub proof fn lemma_rule_ref_after_add(v: NinjaFileView, rv: Seq<VarView>)
    ensures
        first_rule(spec_add_rule(v, rv).0.rules, rv) >= 0,
        spec_add_rule(v, rv).0.rules[first_rule(spec_add_rule(v, rv).0.rules, rv)].1 == spec_add_rule(v, rv).1,
        spec_add_rule(spec_add_rule(v, rv).0, rv) == spec_add_rule(v, rv),
{
    lemma_first_rule_props(v.rules, rv);
    let i = first_rule(v.rules, rv);
    if i < 0 {
        let name = fresh_name(v.names, spec_name_template(rv));
        let j = sorted_pos(rule_names(v.rules), name);
        lemma_sorted_pos_bound(rule_names(v.rules), name);
        let nr = v.rules.insert(j, (rv, name));
        assert forall|m: int| 0 <= m < j implies nr[m].0 != rv by {
            assert(nr[m] == v.rules[m]);
        }
        lemma_first_rule_is(nr, rv, j);
    }
}

pub open spec fn conflict_prefix() -> Seq<char> {
    "different builds generating same file:\n\noutputs:\n - "@
}

/// The paths of `outs` that `have` holds, in the order of `outs`.
pub open spec fn clashing(outs: Seq<VirtPathView>, have: Seq<VirtPathView>) -> Seq<VirtPathView>
    decreases outs.len(),
{
    if outs.len() == 0 {
        Seq::empty()
    } else if have.contains(outs.last()) {
        clashing(outs.drop_last(), have).push(outs.last())
    } else {
        clashing(outs.drop_last(), have)
    }
}

/// Whether the build `b` produces one of `outs`.
pub open spec fn touches(b: BuildView, outs: Seq<VirtPathView>) -> bool {
    exists|k: int| 0 <= k < b.outputs.len() && outs.contains(b.outputs[k])
}

/// The texts of the builds of `bs` that produce one of `outs`, in order.
pub open spec fn touching_texts(bs: Seq<BuildView>, outs: Seq<VirtPathView>) -> Seq<Seq<char>>
    decreases bs.len(),
{
    if bs.len() == 0 {
        Seq::empty()
    } else if touches(bs.last(), outs) {
        touching_texts(bs.drop_last(), outs).push(build_text(bs.last()))
    } else {
        touching_texts(bs.drop_last(), outs)
    }
}

/// Where the first rule of `rules` named `name` stands, or -1.
pub open spec fn rule_index(rules: Seq<(Seq<VarView>, Seq<char>)>, name: Seq<char>) -> int
    decreases rules.len(),
{
    if rules.len() == 0 {
        -1
    } else if rules[0].1 == name {
        0
    } else {
        let r = rule_index(rules.drop_first(), name);
        if r < 0 { -1 } else { r + 1 }
    }
}

/// Whether a rule of `rules` is named `name`.
pub open spec fn has_rule(rules: Seq<(Seq<VarView>, Seq<char>)>, name: Seq<char>) -> bool {
    rule_index(rules, name) >= 0
}

/// The text of the rule named `name`, or a note that none is.
pub open spec fn rule_def_text(rules: Seq<(Seq<VarView>, Seq<char>)>, name: Seq<char>) -> Seq<char> {
    let i = rule_index(rules, name);
    if i >= 0 {
        rule_text(name, rules[i].0)
    } else {
        "<missing rule: "@ + name + ">"@
    }
}

proof fn lemma_rule_index_is(rules: Seq<(Seq<VarView>, Seq<char>)>, name: Seq<char>, i: int)
    requires
        i == -1 ==> forall|j: int| 0 <= j < rules.len() ==> rules[j].1 != name,
        i != -1 ==> 0 <= i < rules.len() && rules[i].1 == name && forall|j: int| 0 <= j < i ==> rules[j].1 != name,
    ensures
        rule_index(rules, name) == i,
    decreases rules.len(),
{
    if rules.len() > 0 && rules[0].1 != name {
        let t = rules.drop_first();
        if i == -1 {
            assert forall|j: int| 0 <= j < t.len() implies t[j].1 != name by {
                assert(t[j] == rules[j + 1]);
            }
            lemma_rule_index_is(t, name, -1);
        } else {
            assert(i > 0);
            assert forall|j: int| 0 <= j < i - 1 implies t[j].1 != name by {
                assert(t[j] == rules[j + 1]);
            }
            assert(t[i - 1] == rules[i]);
            lemma_rule_index_is(t, name, i - 1);
        }
    }
}

/// The rule names of the first `n` builds of `bs` that produce one of `outs`.
pub open spec fn touching_rules(bs: Seq<BuildView>, n: int, outs: Seq<VirtPathView>) -> Set<Seq<char>> {
    Set::new(|s: Seq<char>| exists|j: int| 0 <= j < n && touches(#[trigger] bs[j], outs) && bs[j].rule == s)
}

/// The definitions of those rules, for the rules that the file has.
pub open spec fn touching_defs(v: NinjaFileView, n: int, outs: Seq<VirtPathView>) -> Set<Seq<char>> {
    Set::new(|t: Seq<char>| exists|j: int| 0 <= j < n && touches(#[trigger] v.builds[j], outs)
        && has_rule(v.rules, v.builds[j].rule) && t == rule_def_text(v.rules, v.builds[j].rule))
}

/// The message that refuses the build `b` in the file `v`, with `rules` the
/// names of the rules of the builds it clashes with and `defs` their texts,
/// each sorted: the clashing outputs, the rules on both sides, their
/// definitions, and the builds on both sides.
pub open spec fn conflict_text(v: NinjaFileView, b: BuildView, rules: Seq<Seq<char>>, defs: Seq<Seq<char>>) -> Seq<char> {
    let outs = clashing(b.outputs, v.outputs);
    conflict_prefix() + join_with(outs.map_values(|p: VirtPathView| spec_display(p)), " - "@)
        + "\n\nexisting rules:\n - "@ + join_with(rules, "\n - "@) + "\nnew rule:\n - "@ + b.rule
        + "\n\nexisting rule definitions:\n"@ + join_with(defs, ""@) + "new rule definition:\n"@
        + rule_def_text(v.rules, b.rule) + "\nexisting:\n - "@ + join_with(touching_texts(v.builds, outs), " - "@)
        + "\nnew:\n - "@ + build_text(b)
}

proof fn lemma_touching_rules_step(bs: Seq<BuildView>, j: int, outs: Seq<VirtPathView>)
    requires
        0 <= j < bs.len(),
    ensures
        touching_rules(bs, j + 1, outs) == (if touches(bs[j], outs) {
            touching_rules(bs, j, outs).insert(bs[j].rule)
        } else {
            touching_rules(bs, j, outs)
        }),
{
    let a = touching_rules(bs, j + 1, outs);
    let b = if touches(bs[j], outs) { touching_rules(bs, j, outs).insert(bs[j].rule) } else { touching_rules(bs, j, outs) };
    assert forall|s: Seq<char>| a.contains(s) implies b.contains(s) by {
        let jj = choose|jj: int| 0 <= jj < j + 1 && touches(#[trigger] bs[jj], outs) && bs[jj].rule == s;
        if jj < j {
            assert(touching_rules(bs, j, outs).contains(s));
        }
    }
    assert forall|s: Seq<char>| b.contains(s) implies a.contains(s) by {
        if touching_rules(bs, j, outs).contains(s) {
            let jj = choose|jj: int| 0 <= jj < j && touches(#[trigger] bs[jj], outs) && bs[jj].rule == s;
            assert(0 <= jj < j + 1);
        } else {
            assert(touches(bs[j], outs) && bs[j].rule == s);
        }
    }
    assert(a =~= b);
}

proof fn lemma_touching_defs_step(v: NinjaFileView, j: int, outs: Seq<VirtPathView>)
    requires
        0 <= j < v.builds.len(),
    ensures
        touching_defs(v, j + 1, outs) == (if touches(v.builds[j], outs) && has_rule(v.rules, v.builds[j].rule) {
            touching_defs(v, j, outs).insert(rule_def_text(v.rules, v.builds[j].rule))
        } else {
            touching_defs(v, j, outs)
        }),
{
    let a = touching_defs(v, j + 1, outs);
    let b = if touches(v.builds[j], outs) && has_rule(v.rules, v.builds[j].rule) {
        touching_defs(v, j, outs).insert(rule_def_text(v.rules, v.builds[j].rule))
    } else {
        touching_defs(v, j, outs)
    };
    assert forall|t: Seq<char>| a.contains(t) implies b.contains(t) by {
        let jj = choose|jj: int| 0 <= jj < j + 1 && touches(#[trigger] v.builds[jj], outs)
            && has_rule(v.rules, v.builds[jj].rule) && t == rule_def_text(v.rules, v.builds[jj].rule);
        if jj < j {
            assert(touching_defs(v, j, outs).contains(t));
        }
    }
    assert forall|t: Seq<char>| b.contains(t) implies a.contains(t) by {
        if touching_defs(v, j, outs).contains(t) {
            let jj = choose|jj: int| 0 <= jj < j && touches(#[trigger] v.builds[jj], outs)
                && has_rule(v.rules, v.builds[jj].rule) && t == rule_def_text(v.rules, v.builds[jj].rule);
            assert(0 <= jj < j + 1);
        } else {
            assert(touches(v.builds[j], outs));
        }
    }
    assert(a =~= b);
}

/// `msg` is the message that refuses `b` in `v`.
pub open spec fn refuses_with(v: NinjaFileView, b: BuildView, msg: Seq<char>) -> bool {
    let outs = clashing(b.outputs, v.outputs);
    exists|rules: Seq<Seq<char>>, defs: Seq<Seq<char>>|
        #![trigger conflict_text(v, b, rules, defs)]
        sorted_strict(rules) && rules.to_set() == touching_rules(v.builds, v.builds.len() as int, outs)
            && sorted_strict(defs) && defs.to_set() == touching_defs(v, v.builds.len() as int, outs)
            && msg == conflict_text(v, b, rules, defs)
}

/// Puts `s` in the sorted list `v` of distinct strings, unless it is there.
fn insert_sorted_unique(v: &mut Vec<String>, s: String)
    requires
        sorted_strict(old(v).deep_view()),
    ensures
        sorted_strict(final(v).deep_view()),
        final(v).deep_view().to_set() == old(v).deep_view().to_set().insert(s@),
{
    let ghost keys = v.deep_view();
    proof { lemma_sorted_pos(keys, s@); }
    let mut i: usize = 0;
    while i < v.len() && str_lt(v[i].as_str(), s.as_str())
        invariant
            i <= v@.len(),
            keys == v.deep_view(),
            sorted_strict(keys),
            forall|j: int| 0 <= j < i ==> seq_lt(#[trigger] keys[j], s@),
        decreases v.len() - i,
    {
        i = i + 1;
    }
    assert(i == sorted_pos(keys, s@)) by {
        lemma_sorted_pos(keys, s@);
        if i < sorted_pos(keys, s@) {
            assert(seq_lt(keys[i as int], s@));
        } else if i > sorted_pos(keys, s@) {
            assert(seq_lt(keys[sorted_pos(keys, s@)], s@));
        }
    }
    if i < v.len() && str_eq(v[i].as_str(), s.as_str()) {
        assert(keys.to_set().insert(s@) =~= keys.to_set()) by {
            assert(keys.to_set().contains(s@)) by { assert(keys[i as int] == s@); }
        }
        return;
    }
    assert(!keys.contains(s@)) by {
        if keys.contains(s@) {
            let k = choose|k: int| 0 <= k < keys.len() && keys[k] == s@;
            if k < i {
                lemma_seq_lt_irrefl(s@);
            } else if k > i {
                lemma_seq_lt_total(keys[i as int], s@);
                lemma_seq_lt_trans(s@, keys[i as int], keys[k]);
                lemma_seq_lt_irrefl(s@);
            }
        }
    }
    let ghost sv = s@;
    v.insert(i, s);
    assert(v.deep_view() =~= keys.insert(i as int, sv));
    proof { lemma_insert_sorted_strict(keys, sv); }
    assert(v.deep_view().to_set() =~= keys.to_set().insert(sv)) by {
        assert forall|x: Seq<char>| v.deep_view().to_set().contains(x) <==> keys.to_set().insert(sv).contains(x) by {
            if v.deep_view().to_set().contains(x) {
                let k = choose|k: int| 0 <= k < v.deep_view().len() && v.deep_view()[k] == x;
                if k < i {
                    assert(keys[k] == x);
                } else if k > i {
                    assert(keys[k - 1] == x);
                }
            }
            if keys.to_set().contains(x) {
                let k = choose|k: int| 0 <= k < keys.len() && keys[k] == x;
                if k < i {
                    assert(v.deep_view()[k] == x);
                } else {
                    assert(v.deep_view()[k + 1] == x);
                }
            }
            if x == sv {
                assert(v.deep_view()[i as int] == x);
            }
        }
    }
}

/// The unique rule name `name` gives among `names`, which then includes it.
fn unique_name(names: &mut Vec<String>, name: String) -> (r: String)
    ensures
        r@ == fresh_name(old(names).deep_view(), name@),
        final(names).deep_view() == old(names).deep_view().push(r@),
{
    let ghost taken = names.deep_view();
    if !contains_str(names, name.as_str()) {
        let r = name.clone();
        names.push(name);
        assert(names.deep_view() =~= taken.push(r@));
        return r;
    }
    proof { lemma_some_numbered_free(taken, name@); }
    let n = names.len();
    let mut k: u128 = 1;
    while k <= n as u128 + 1
        invariant
            1 <= k <= n + 2,
            n == taken.len(),
            taken == names.deep_view(),
            taken == old(names).deep_view(),
            taken.contains(name@),
            forall|j: nat| 1 <= j < k ==> taken.contains(#[trigger] numbered(name@, j)),
            exists|q: nat| 1 <= q <= taken.len() + 1 && !taken.contains(numbered(name@, q)),
        decreases n + 2 - k,
    {
        let mut cand = name.clone();
        push_decimal(&mut cand, k);
        assert(cand@ == numbered(name@, k as nat));
        if !contains_str(names, cand.as_str()) {
            assert(least_free(taken, name@) == k as nat) by {
                let m = k as nat;
                assert(m >= 1 && !taken.contains(numbered(name@, m))
                    && forall|jj: nat| 1 <= jj < m ==> taken.contains(#[trigger] numbered(name@, jj)));
                let lf = least_free(taken, name@);
                if lf < m {
                    assert(taken.contains(numbered(name@, lf)));
                } else if lf > m {
                    assert(taken.contains(numbered(name@, m)));
                }
            }
            let r = cand.clone();
            names.push(cand);
            assert(names.deep_view() =~= taken.push(r@));
            return r;
        }
        k = k + 1;
    }
    let ghost q = choose|q: nat| 1 <= q <= taken.len() + 1 && !taken.contains(numbered(name@, q));
    assert(taken.contains(numbered(name@, q)));
    assert(false);
    name
}

impl NinjaFile {
    pub closed spec fn wf(&self) -> bool {
        let v = self@;
        &&& all_distinct_seq(v.names)
        &&& sorted_strict(rule_names(v.rules))
        &&& forall|i: int| 0 <= i < v.rules.len() ==> v.names.contains(#[trigger] v.rules[i].1)
        &&& distinct(rule_bodies(v.rules))
        &&& forall|i: int| 0 <= i < self.builds@.len() ==> (#[trigger] self.builds@[i]).1@ == build_text(self.builds@[i].0@)
        &&& sorted_le(build_keys(v.builds))
        &&& distinct(v.builds)
        &&& sorted_strict(alias_names(v.aliases))
        &&& forall|i: int| 0 <= i < self.default_targets@.len() ==>
            (#[trigger] self.default_targets@[i]).1@ == spec_display(self.default_targets@[i].0@)
        &&& sorted_le(default_keys(v.defaults))
        &&& distinct(v.defaults)
    }

    pub fn new() -> (r: NinjaFile)
        ensures
            r.wf(),
            r@.names.len() == 0,
            r@.rules.len() == 0,
            r@.builds.len() == 0,
            r@.outputs.len() == 0,
            r@.aliases.len() == 0,
            r@.defaults.len() == 0,
    {
        let r = NinjaFile {
            rule_names: Vec::new(),
            rules: Vec::new(),
            builds: Vec::new(),
            build_outputs: Vec::new(),
            aliases: Vec::new(),
            default_targets: Vec::new(),
        };
        assert(r@.names =~= Seq::<Seq<char>>::empty());
        assert(r@.rules.len() == 0);
        r
    }

    /// Adds `rule` under a unique name derived from its template, unless an
    /// equal rule is already there: the name it goes by.
    pub fn add_rule(&mut self, rule: NinjaRule) -> (r: NinjaRuleRef)
        requires
            old(self).wf(),
        ensures
            final(self).wf(),
            (exists|i: int| 0 <= i < old(self)@.rules.len() && old(self)@.rules[i].0 == rule@) ==> {
                &&& final(self)@ == old(self)@
                &&& exists|i: int| 0 <= i < old(self)@.rules.len() && old(self)@.rules[i].0 == rule@
                    && r.0@ == old(self)@.rules[i].1
            },
            !(exists|i: int| 0 <= i < old(self)@.rules.len() && old(self)@.rules[i].0 == rule@) ==> {
                &&& r.0@ == fresh_name(old(self)@.names, spec_name_template(rule@))
                &&& final(self)@ == (NinjaFileView {
                    names: old(self)@.names.push(r.0@),
                    rules: old(self)@.rules.insert(sorted_pos(rule_names(old(self)@.rules), r.0@), (rule@, r.0@)),
                    ..old(self)@
                })
            },
            (final(self)@, r.0@) == spec_add_rule(old(self)@, rule@),
    {
        let ghost v0 = self@;
        let requested = rule.name_template();
        let mut i: usize = 0;
        while i < self.rules.len()
            invariant
                i <= self.rules@.len(),
                self@ == v0,
                self.wf(),
                forall|j: int| 0 <= j < i ==> v0.rules[j].0 != rule@,
            decreases self.rules.len() - i,
        {
            if vars_eq(&self.rules[i].0.vars, &rule.vars) {
                assert(v0.rules[i as int].0 == rule@);
                proof {
                    lemma_first_rule_is(v0.rules, rule@, i as int);
                }
                return NinjaRuleRef(self.rules[i].1.clone());
            }
            i = i + 1;
        }
        proof {
            lemma_first_rule_is(v0.rules, rule@, -1);
        }
        let name = unique_name(&mut self.rule_names, requested);
        let ghost keys = rule_names(v0.rules);
        let mut p: usize = 0;
        while p < self.rules.len() && str_lt(self.rules[p].1.as_str(), name.as_str())
            invariant
                p <= self.rules@.len(),
                self@.rules == v0.rules,
                keys == rule_names(v0.rules),
                forall|j: int| 0 <= j < p ==> seq_lt(#[trigger] keys[j], name@),
            decreases self.rules.len() - p,
        {
            assert(keys[p as int] == self.rules@[p as int].1@);
            p = p + 1;
        }
        proof {
            assert(sorted_le(keys));
            if p < self.rules@.len() {
                assert(keys[p as int] == self.rules@[p as int].1@);
            }
            lemma_scan_pos(keys, name@, p as int);
            assert(!keys.contains(name@)) by {
                if keys.contains(name@) {
                    let k = choose|k: int| 0 <= k < keys.len() && keys[k] == name@;
                    assert(v0.names.contains(v0.rules[k].1));
                    lemma_fresh_name_is_new(v0.names, spec_name_template(rule@));
                }
            }
            lemma_insert_sorted_strict(keys, name@);
        }
        let ghost entry = (rule@, name@);
        let n2 = name.clone();
        self.rules.insert(p, (rule, n2));
        proof {
            let nv = self@;
            assert(nv.rules =~= v0.rules.insert(p as int, entry));
            assert(rule_names(nv.rules) =~= keys.insert(p as int, name@));
            assert(nv.names == v0.names.push(name@));
            lemma_fresh_name_is_new(v0.names, spec_name_template(rule@));
            assert(all_distinct_seq(nv.names)) by {
                assert forall|a: int, b: int| 0 <= a < nv.names.len() && 0 <= b < nv.names.len() && a != b
                    implies nv.names[a] != nv.names[b] by {
                    if a == v0.names.len() as int {
                        assert(v0.names.contains(nv.names[b]));
                    } else if b == v0.names.len() as int {
                        assert(v0.names.contains(nv.names[a]));
                    }
                }
            }
            assert forall|k: int| 0 <= k < nv.rules.len() implies nv.names.contains(#[trigger] nv.rules[k].1) by {
                if k < p {
                    assert(nv.rules[k] == v0.rules[k]);
                    let w = choose|w: int| 0 <= w < v0.names.len() && v0.names[w] == v0.rules[k].1;
                    assert(nv.names[w] == v0.names[w]);
                } else if k == p {
                    assert(nv.names[v0.names.len() as int] == name@);
                } else {
                    assert(nv.rules[k] == v0.rules[k - 1]);
                    let w = choose|w: int| 0 <= w < v0.names.len() && v0.names[w] == v0.rules[k - 1].1;
                    assert(nv.names[w] == v0.names[w]);
                }
            }
            assert(rule_bodies(nv.rules) =~= rule_bodies(v0.rules).insert(p as int, rule@));
            assert(distinct(rule_bodies(nv.rules))) by {
                let b0 = rule_bodies(v0.rules);
                let b1 = rule_bodies(nv.rules);
                assert forall|a: int, b: int| 0 <= a < b1.len() && 0 <= b < b1.len() && a != b
                    implies b1[a] != b1[b] by {
                    if a == p {
                        if b < p { assert(b1[b] == b0[b]); } else { assert(b1[b] == b0[b - 1]); }
                    } else if b == p {
                        if a < p { assert(b1[a] == b0[a]); } else { assert(b1[a] == b0[a - 1]); }
                    } else {
                        let a0 = if a < p { a } else { a - 1 };
                        let bb0 = if b < p { b } else { b - 1 };
                        assert(b1[a] == b0[a0]);
                        assert(b1[b] == b0[bb0]);
                    }
                }
            }
        }
        NinjaRuleRef(name)
    }

    /// The name `rule` was added under, if it was.
    pub fn get_rule_ref(&self, rule: &NinjaRule) -> (r: Option<NinjaRuleRef>)
        ensures
            r is Some <==> exists|i: int| 0 <= i < self@.rules.len() && self@.rules[i].0 == rule@,
            r matches Some(rr) ==> exists|i: int| 0 <= i < self@.rules.len() && self@.rules[i].0 == rule@
                && rr.0@ == self@.rules[i].1,
            r is Some <==> first_rule(self@.rules, rule@) >= 0,
            r matches Some(rr) ==> rr.0@ == self@.rules[first_rule(self@.rules, rule@)].1
                && rr.0@ == spec_add_rule(self@, rule@).1,
    {
        let mut i: usize = 0;
        while i < self.rules.len()
            invariant
                i <= self.rules@.len(),
                forall|j: int| 0 <= j < i ==> self@.rules[j].0 != rule@,
            decreases self.rules.len() - i,
        {
            if vars_eq(&self.rules[i].0.vars, &rule.vars) {
                assert(self@.rules[i as int].0 == rule@);
                proof {
                    lemma_first_rule_is(self@.rules, rule@, i as int);
                }
                return Some(NinjaRuleRef(self.rules[i].1.clone()));
            }
            i = i + 1;
        }
        proof {
            lemma_first_rule_is(self@.rules, rule@, -1);
        }
        None
    }
}

proof fn lemma_paths_view_add(a: Seq<VirtPath>, b: Seq<VirtPath>)
    ensures
        paths_view(a + b) == paths_view(a) + paths_view(b),
{
    assert forall|k: int| 0 <= k < (a + b).len() implies #[trigger] paths_view(a + b)[k] == (paths_view(a) + paths_view(b))[k] by {
        if k < a.len() {
            assert((a + b)[k] == a[k]);
        } else {
            assert((a + b)[k] == b[k - a.len()]);
        }
    }
    assert(paths_view(a + b) =~= paths_view(a) + paths_view(b));
}

/// What one more output does to the validation messages: a path seen
/// before gets its message, nothing else changes.
proof fn lemma_validate_step(e0: Seq<Seq<char>>, e1: Seq<Seq<char>>, s0: Seq<Seq<char>>, fs: Seq<char>)
    requires
        forall|m: Seq<char>| e0.contains(m) <==> exists|x: Seq<char>| m == multiple_message(x) && occurs_twice(s0, x),
        forall|m: Seq<char>| e1.contains(m) <==> (e0.contains(m) || (s0.contains(fs) && m == multiple_message(fs))),
    ensures
        forall|m: Seq<char>| e1.contains(m) <==> exists|x: Seq<char>| m == multiple_message(x) && occurs_twice(s0.push(fs), x),
{
    let s1 = s0.push(fs);
    assert forall|x: Seq<char>| occurs_twice(s1, x) <==> (occurs_twice(s0, x) || (x == fs && s0.contains(fs))) by {
        if occurs_twice(s1, x) {
            let (a, c) = choose|a: int, c: int| 0 <= a < c < s1.len() && s1[a] == x && s1[c] == x;
            if c == s0.len() as int {
                assert(s0[a] == x);
            } else {
                assert(s0[a] == x && s0[c] == x);
            }
        }
        if occurs_twice(s0, x) {
            let (a, c) = choose|a: int, c: int| 0 <= a < c < s0.len() && s0[a] == x && s0[c] == x;
            assert(s1[a] == x && s1[c] == x);
        }
        if x == fs && s0.contains(fs) {
            let a = choose|a: int| 0 <= a < s0.len() && s0[a] == fs;
            assert(s1[a] == x && s1[s0.len() as int] == x);
        }
    }
    assert forall|m: Seq<char>| e1.contains(m) <==> exists|x: Seq<char>| m == multiple_message(x) && occurs_twice(s1, x) by {
        if e1.contains(m) {
            if s0.contains(fs) && m == multiple_message(fs) {
                assert(occurs_twice(s1, fs));
            } else {
                assert(e0.contains(m));
                let x = choose|x: Seq<char>| m == multiple_message(x) && occurs_twice(s0, x);
                assert(occurs_twice(s1, x));
            }
        }
        if exists|x: Seq<char>| m == multiple_message(x) && occurs_twice(s1, x) {
            let x = choose|x: Seq<char>| m == multiple_message(x) && occurs_twice(s1, x);
            if !occurs_twice(s0, x) {
                assert(x == fs && s0.contains(fs));
            } else {
                assert(e0.contains(m));
            }
        }
    }
}

proof fn lemma_insert_distinct<A>(s: Seq<A>, p: int, x: A)
    requires
        distinct(s),
        !s.contains(x),
        0 <= p <= s.len(),
    ensures
        distinct(s.insert(p, x)),
{
    let t = s.insert(p, x);
    assert forall|a: int, b: int| 0 <= a < t.len() && 0 <= b < t.len() && a != b implies t[a] != t[b] by {
        if a == p {
            if b < p { assert(t[b] == s[b]); } else { assert(t[b] == s[b - 1]); }
        } else if b == p {
            if a < p { assert(t[a] == s[a]); } else { assert(t[a] == s[a - 1]); }
        } else {
            let a0 = if a < p { a } else { a - 1 };
            let b0 = if b < p { b } else { b - 1 };
            assert(t[a] == s[a0]);
            assert(t[b] == s[b0]);
        }
    }
}

proof fn lemma_fresh_name_is_new(names: Seq<Seq<char>>, name: Seq<char>)
    ensures
        !names.contains(fresh_name(names, name)),
{
    if names.contains(name) {
        lemma_some_numbered_free(names, name);
        let q = choose|q: nat| 1 <= q <= names.len() + 1 && !names.contains(numbered(name, q));
        lemma_least_free_exists(names, name, q);
    }
}

proof fn lemma_least_free_exists(names: Seq<Seq<char>>, name: Seq<char>, q: nat)
    requires
        q >= 1,
        !names.contains(numbered(name, q)),
    ensures
        least_free(names, name) >= 1,
        !names.contains(numbered(name, least_free(names, name))),
        forall|j: nat| 1 <= j < least_free(names, name) ==> names.contains(#[trigger] numbered(name, j)),
    decreases q,
{
    if forall|j: nat| 1 <= j < q ==> names.contains(#[trigger] numbered(name, j)) {
    } else {
        let j = choose|j: nat| 1 <= j < q && !names.contains(#[trigger] numbered(name, j));
        lemma_least_free_exists(names, name, j);
    }
}


/// `parts` joined with `sep` between neighbours.
fn join_strings(parts: &Vec<String>, sep: &str) -> (r: String)
    ensures
        r@ == join_with(parts.deep_view(), sep@),
{
    let mut out = String::new();
    let mut i: usize = 0;
    while i < parts.len()
        invariant
            i <= parts@.len(),
            out@ == join_with(parts.deep_view().take(i as int), sep@),
        decreases parts.len() - i,
    {
        if i > 0 {
            push_str(&mut out, sep);
        }
        push_str(&mut out, parts[i].as_str());
        assert(parts.deep_view().take(i + 1).drop_last() =~= parts.deep_view().take(i as int));
        i = i + 1;
    }
    assert(parts.deep_view().take(parts@.len() as int) =~= parts.deep_view());
    out
}

fn contains_path(paths: &Vec<VirtPath>, p: &VirtPath) -> (r: bool)
    ensures
        r == paths_view(paths@).contains(p@),
{
    let mut i: usize = 0;
    while i < paths.len()
        invariant
            i <= paths@.len(),
            forall|j: int| 0 <= j < i ==> paths_view(paths@)[j] != p@,
        decreases paths.len() - i,
    {
        if paths[i].same_as(p) {
            assert(paths_view(paths@)[i as int] == p@);
            return true;
        }
        i = i + 1;
    }
    false
}

fn any_output_in(b: &NinjaBuild, paths: &Vec<VirtPath>) -> (r: bool)
    ensures
        r == exists|k: int| 0 <= k < b@.outputs.len() && paths_view(paths@).contains(b@.outputs[k]),
{
    let mut i: usize = 0;
    while i < b.outputs.len()
        invariant
            i <= b.outputs@.len(),
            forall|k: int| 0 <= k < i ==> !paths_view(paths@).contains(b@.outputs[k]),
        decreases b.outputs.len() - i,
    {
        if contains_path(paths, &b.outputs[i]) {
            assert(paths_view(paths@).contains(b@.outputs[i as int]));
            return true;
        }
        i = i + 1;
    }
    false
}

impl NinjaFile {
    fn find_rule_by_name(&self, name: &str) -> (r: Option<usize>)
        ensures
            r matches Some(i) ==> i < self@.rules.len() && self@.rules[i as int].1 == name@
                && rule_index(self@.rules, name@) == i,
            r is None ==> !has_rule(self@.rules, name@),
    {
        let mut i: usize = 0;
        while i < self.rules.len()
            invariant
                i <= self.rules@.len(),
                forall|k: int| 0 <= k < i ==> self@.rules[k].1 != name@,
            decreases self.rules.len() - i,
        {
            if str_eq(self.rules[i].1.as_str(), name) {
                proof {
                    lemma_rule_index_is(self@.rules, name@, i as int);
                }
                return Some(i);
            }
            i = i + 1;
        }
        proof {
            lemma_rule_index_is(self@.rules, name@, -1);
        }
        None
    }

    /// The text of the rule named `name`, or a note that it is missing.
    fn rule_definition(&self, name: &str) -> (r: String)
        requires
            self.wf(),
        ensures
            r@ == rule_def_text(self@.rules, name@),
    {
        match self.find_rule_by_name(name) {
            Some(i) => {
                named_rule_text(self.rules[i].1.as_str(), &self.rules[i].0)
            },
            None => {
                let mut m = copy_str("<missing rule: ");
                push_str(&mut m, name);
                push_str(&mut m, ">");
                m
            },
        }
    }

    /// The message for a build whose outputs `conflicting` are already
    /// produced by other builds.
    #[verifier::rlimit(60)]
    #[verifier::spinoff_prover]
    fn conflict_message(&self, build: &NinjaBuild, text: &String, conflicting: &Vec<VirtPath>) -> (r: String)
        requires
            self.wf(),
            text@ == build_text(build@),
            paths_view(conflicting@) == clashing(build@.outputs, self@.outputs),
        ensures
            refuses_with(self@, build@, r@),
            r@.len() >= conflict_prefix().len(),
            r@.subrange(0, conflict_prefix().len() as int) == conflict_prefix(),
    {
        let ghost v = self@;
        let ghost outs = paths_view(conflicting@);
        let mut outputs: Vec<String> = Vec::new();
        let mut i: usize = 0;
        while i < conflicting.len()
            invariant
                i <= conflicting@.len(),
                outputs.deep_view() == paths_view(conflicting@).take(i as int).map_values(|p: VirtPathView| spec_display(p)),
            decreases conflicting.len() - i,
        {
            let ghost before = outputs.deep_view();
            outputs.push(conflicting[i].to_string());
            proof {
                assert(outputs.deep_view() =~= before.push(spec_display(conflicting@[i as int]@)));
                assert(paths_view(conflicting@).take(i + 1).map_values(|p: VirtPathView| spec_display(p))
                    =~= before.push(spec_display(conflicting@[i as int]@)));
            }
            i = i + 1;
        }
        proof {
            assert(paths_view(conflicting@).take(conflicting@.len() as int) =~= paths_view(conflicting@));
        }
        let mut rules: Vec<String> = Vec::new();
        let mut defs: Vec<String> = Vec::new();
        let mut existing: Vec<String> = Vec::new();
        assert(rules.deep_view() =~= Seq::<Seq<char>>::empty());
        assert(defs.deep_view() =~= Seq::<Seq<char>>::empty());
        proof {
            assert(rules.deep_view().to_set() =~= touching_rules(v.builds, 0, outs));
            assert(defs.deep_view().to_set() =~= touching_defs(v, 0, outs));
            assert(existing.deep_view() =~= touching_texts(v.builds.take(0), outs));
        }
        let mut j: usize = 0;
        while j < self.builds.len()
            invariant
                j <= self.builds@.len(),
                self@ == v,
                self.wf(),
                outs == paths_view(conflicting@),
                v.builds.len() == self.builds@.len(),
                sorted_strict(rules.deep_view()),
                sorted_strict(defs.deep_view()),
                rules.deep_view().to_set() == touching_rules(v.builds, j as int, outs),
                defs.deep_view().to_set() == touching_defs(v, j as int, outs),
                existing.deep_view() == touching_texts(v.builds.take(j as int), outs),
            decreases self.builds.len() - j,
        {
            let ghost b = v.builds[j as int];
            let ghost rs0 = rules.deep_view().to_set();
            let ghost ds0 = defs.deep_view().to_set();
            let ghost ex0 = existing.deep_view();
            assert(self.builds@[j as int].0@ == b);
            assert(v.builds.take(j + 1).drop_last() =~= v.builds.take(j as int));
            proof {
                lemma_touching_rules_step(v.builds, j as int, outs);
                lemma_touching_defs_step(v, j as int, outs);
            }
            if any_output_in(&self.builds[j].0, conflicting) {
                insert_sorted_unique(&mut rules, self.builds[j].0.rule.clone());
                let found = self.find_rule_by_name(self.builds[j].0.rule.as_str());
                if let Some(k) = found {
                    insert_sorted_unique(&mut defs, named_rule_text(self.rules[k].1.as_str(), &self.rules[k].0));
                }
                existing.push(self.builds[j].1.clone());
                proof {
                    assert(existing.deep_view() =~= ex0.push(build_text(b)));
                }
            }
            j = j + 1;
        }
        proof {
            assert(v.builds.take(v.builds.len() as int) =~= v.builds);
        }
        let mut m = copy_str("different builds generating same file:\n\noutputs:\n - ");
        let ghost start = m@;
        push_str(&mut m, join_strings(&outputs, " - ").as_str());
        push_str(&mut m, "\n\nexisting rules:\n - ");
        push_str(&mut m, join_strings(&rules, "\n - ").as_str());
        push_str(&mut m, "\nnew rule:\n - ");
        push_str(&mut m, build.rule.as_str());
        push_str(&mut m, "\n\nexisting rule definitions:\n");
        push_str(&mut m, join_strings(&defs, "").as_str());
        push_str(&mut m, "new rule definition:\n");
        push_str(&mut m, self.rule_definition(build.rule.as_str()).as_str());
        push_str(&mut m, "\nexisting:\n - ");
        push_str(&mut m, join_strings(&existing, " - ").as_str());
        push_str(&mut m, "\nnew:\n - ");
        push_str(&mut m, text.as_str());
        proof {
            assert(m@ == conflict_text(v, build@, rules.deep_view(), defs.deep_view()));
            assert(m@.subrange(0, start.len() as int) =~= start);
        }
        m
    }

    /// Adds `build` unless an equal build is already there. Refused (with
    /// a message, the file left as it was) when another build already
    /// produces one of its outputs. The reference is the build's outputs.
    pub fn add_build(&mut self, build: NinjaBuild) -> (r: Result<NinjaBuildRef, String>)
        requires
            old(self).wf(),
        ensures
            final(self).wf(),
            old(self)@.builds.contains(build@) ==> (final(self)@ == old(self)@
                && (r matches Ok(br) && paths_view(br.0@) == build@.outputs)),
            !old(self)@.builds.contains(build@)
                && (exists|k: int| 0 <= k < build@.outputs.len() && old(self)@.outputs.contains(build@.outputs[k]))
                ==> (final(self)@ == old(self)@ && (r matches Err(msg)
                && refuses_with(old(self)@, build@, msg@)
                && msg@.len() >= conflict_prefix().len()
                && msg@.subrange(0, conflict_prefix().len() as int) == conflict_prefix())),
            !old(self)@.builds.contains(build@)
                && !(exists|k: int| 0 <= k < build@.outputs.len() && old(self)@.outputs.contains(build@.outputs[k]))
                ==> ((r matches Ok(br) && paths_view(br.0@) == build@.outputs)
                && final(self)@ == (NinjaFileView {
                    builds: old(self)@.builds.insert(sorted_pos(build_keys(old(self)@.builds), build_text(build@)), build@),
                    outputs: old(self)@.outputs + build@.outputs,
                    ..old(self)@
                })),
            (final(self)@, r is Ok) == spec_add_build(old(self)@, build@),
    {
        let ghost v0 = self@;
        let mut i: usize = 0;
        while i < self.builds.len()
            invariant
                i <= self.builds@.len(),
                self@ == v0,
                self.wf(),
                forall|j: int| 0 <= j < i ==> v0.builds[j] != build@,
            decreases self.builds.len() - i,
        {
            if build_eq(&self.builds[i].0, &build) {
                assert(v0.builds[i as int] == build@);
                return Ok(self.builds[i].0.build_ref());
            }
            i = i + 1;
        }
        assert(!v0.builds.contains(build@));
        let text = build.to_text();
        let mut conflicting: Vec<VirtPath> = Vec::new();
        let mut k: usize = 0;
        assert(paths_view(conflicting@) =~= clashing(build@.outputs.take(0), v0.outputs));
        while k < build.outputs.len()
            invariant
                k <= build.outputs@.len(),
                self@ == v0,
                conflicting@.len() == 0 ==> forall|q: int| 0 <= q < k ==> !v0.outputs.contains(#[trigger] build@.outputs[q]),
                conflicting@.len() > 0 ==> exists|q: int| 0 <= q < k && v0.outputs.contains(#[trigger] build@.outputs[q]),
                paths_view(conflicting@) == clashing(build@.outputs.take(k as int), v0.outputs),
            decreases build.outputs.len() - k,
        {
            let ghost c0 = paths_view(conflicting@);
            assert(build@.outputs.take(k + 1).drop_last() =~= build@.outputs.take(k as int));
            if contains_path(&self.build_outputs, &build.outputs[k]) {
                assert(v0.outputs.contains(build@.outputs[k as int]));
                conflicting.push(build.outputs[k].copy());
                assert(paths_view(conflicting@) =~= c0.push(build@.outputs[k as int]));
            }
            k = k + 1;
        }
        assert(build@.outputs.take(build@.outputs.len() as int) =~= build@.outputs);
        if conflicting.len() > 0 {
            assert(paths_view(conflicting@) == clashing(build@.outputs, self@.outputs));
            let msg = self.conflict_message(&build, &text, &conflicting);
            return Err(msg);
        }
        assert(!(exists|q: int| 0 <= q < build@.outputs.len() && v0.outputs.contains(build@.outputs[q])));
        let br = build.build_ref();
        self.push_outputs(&build);
        self.insert_build(build, text);
        Ok(br)
    }

    fn push_outputs(&mut self, build: &NinjaBuild)
        ensures
            final(self).builds@ == old(self).builds@,
            final(self).rules@ == old(self).rules@,
            final(self).rule_names@ == old(self).rule_names@,
            final(self).aliases@ == old(self).aliases@,
            final(self).default_targets@ == old(self).default_targets@,
            paths_view(final(self).build_outputs@) == paths_view(old(self).build_outputs@) + build@.outputs,
    {
        let mut o: usize = 0;
        while o < build.outputs.len()
            invariant
                o <= build.outputs@.len(),
                self.builds@ == old(self).builds@,
                self.rules@ == old(self).rules@,
                self.rule_names@ == old(self).rule_names@,
                self.aliases@ == old(self).aliases@,
                self.default_targets@ == old(self).default_targets@,
                paths_view(self.build_outputs@) == paths_view(old(self).build_outputs@) + build@.outputs.take(o as int),
            decreases build.outputs.len() - o,
        {
            let c = build.outputs[o].copy();
            let ghost before = self.build_outputs@;
            self.build_outputs.push(c);
            assert(paths_view(self.build_outputs@) =~= paths_view(before).push(c@));
            assert(build@.outputs.take(o + 1) =~= build@.outputs.take(o as int).push(build@.outputs[o as int]));
            o = o + 1;
        }
        assert(build@.outputs.take(build.outputs@.len() as int) =~= build@.outputs);
    }

    #[verifier::rlimit(40)]
    fn insert_build(&mut self, build: NinjaBuild, text: String)
        requires
            text@ == build_text(build@),
            all_distinct_seq(old(self)@.names),
            sorted_strict(rule_names(old(self)@.rules)),
            forall|i: int| 0 <= i < old(self)@.rules.len() ==> old(self)@.names.contains(#[trigger] old(self)@.rules[i].1),
            distinct(rule_bodies(old(self)@.rules)),
            forall|i: int| 0 <= i < old(self).builds@.len() ==> (#[trigger] old(self).builds@[i]).1@ == build_text(old(self).builds@[i].0@),
            sorted_le(build_keys(old(self)@.builds)),
            distinct(old(self)@.builds),
            sorted_strict(alias_names(old(self)@.aliases)),
            forall|i: int| 0 <= i < old(self).default_targets@.len() ==>
                (#[trigger] old(self).default_targets@[i]).1@ == spec_display(old(self).default_targets@[i].0@),
            sorted_le(default_keys(old(self)@.defaults)),
            distinct(old(self)@.defaults),
            !old(self)@.builds.contains(build@),
        ensures
            final(self).wf(),
            final(self)@ == (NinjaFileView {
                builds: old(self)@.builds.insert(sorted_pos(build_keys(old(self)@.builds), build_text(build@)), build@),
                ..old(self)@
            }),
    {
        let ghost v0 = self@;
        let ghost keys = build_keys(v0.builds);
        let mut p: usize = 0;
        while p < self.builds.len() && str_lt(self.builds[p].1.as_str(), text.as_str())
            invariant
                p <= self.builds@.len(),
                self.builds@ == old(self).builds@,
                forall|i: int| 0 <= i < old(self).builds@.len() ==> (#[trigger] old(self).builds@[i]).1@ == build_text(old(self).builds@[i].0@),
                keys == build_keys(v0.builds),
                v0 == old(self)@,
                forall|j: int| 0 <= j < p ==> seq_lt(#[trigger] keys[j], text@),
            decreases self.builds.len() - p,
        {
            assert(keys[p as int] == self.builds@[p as int].1@);
            p = p + 1;
        }
        proof {
            if p < self.builds@.len() {
                assert(keys[p as int] == self.builds@[p as int].1@);
            }
            lemma_scan_pos(keys, text@, p as int);
            lemma_insert_sorted_le(keys, text@);
        }
        let ghost bv = build@;
        self.builds.insert(p, (build, text));
        proof {
            let nv = self@;
            assert(nv.builds =~= v0.builds.insert(p as int, bv));
            assert(build_keys(nv.builds) =~= keys.insert(p as int, build_text(bv)));
            assert forall|q: int| 0 <= q < self.builds@.len() implies (#[trigger] self.builds@[q]).1@ == build_text(self.builds@[q].0@) by {
                if q < p {
                    assert(self.builds@[q] == old(self).builds@[q]);
                } else if q > p {
                    assert(self.builds@[q] == old(self).builds@[q - 1]);
                }
            }
            lemma_insert_distinct(v0.builds, p as int, bv);
        }
    }

    /// Makes `name` a phony alias for `inputs` as well (appending to an
    /// alias of that name when there is one).
    #[verifier::rlimit(40)]
    pub fn add_alias(&mut self, name: &str, inputs: Vec<VirtPath>) -> (r: &mut Self)
        requires
            old(self).wf(),
        ensures
            r.wf(),
            r@ == (NinjaFileView {
                aliases: spec_add_alias(old(self)@.aliases, name@, paths_view(inputs@)),
                ..old(self)@
            }),
            final(self)@ == final(r)@,
            final(r).wf() ==> final(self).wf(),
    {
        let ghost v0 = self@;
        let ghost iv = paths_view(inputs@);
        let ghost names = alias_names(v0.aliases);
        let mut i: usize = 0;
        while i < self.aliases.len()
            invariant
                i <= self.aliases@.len(),
                self@ == v0,
                self.wf(),
                names == alias_names(v0.aliases),
                iv == paths_view(inputs@),
                v0 == old(self)@,
                forall|j: int| 0 <= j < i ==> v0.aliases[j].0 != name@,
            decreases self.aliases.len() - i,
        {
            if str_eq(self.aliases[i].0.as_str(), name) {
                assert(v0.aliases[i as int].0 == name@);
                let ghost c = choose|c: int| 0 <= c < v0.aliases.len() && v0.aliases[c].0 == name@;
                assert(c == i) by {
                    if c != i {
                        assert(names[c] == names[i as int]);
                        if c < i { lemma_seq_lt_irrefl(names[c]); } else { lemma_seq_lt_irrefl(names[c]); }
                    }
                }
                let ghost raw0 = self.aliases@;
                assert(v0.aliases[i as int] == (raw0[i as int].0@, paths_view(raw0[i as int].1@)));
                let (ename, mut epaths) = self.aliases.remove(i);
                let ghost old_paths = epaths@;
                let mut more = inputs;
                epaths.append(&mut more);
                assert(epaths@ =~= old_paths + inputs@);
                proof { lemma_paths_view_add(old_paths, inputs@); }
                let ghost ename_v = ename@;
                let ghost epaths_v = paths_view(epaths@);
                assert(ename_v == name@);
                assert(old_paths == raw0[i as int].1@);
                assert(epaths_v == v0.aliases[i as int].1 + iv);
                self.aliases.insert(i, (ename, epaths));
                proof {
                    let target = v0.aliases.update(i as int, (name@, v0.aliases[i as int].1 + iv));
                    assert(self.aliases@ =~= raw0.update(i as int, (ename, epaths)));
                    assert forall|q: int| 0 <= q < target.len() implies #[trigger] self@.aliases[q] == target[q] by {
                        if q != i {
                            assert(self.aliases@[q] == raw0[q]);
                        } else {
                            assert(self@.aliases[q] == (ename_v, epaths_v));
                        }
                    }
                    assert(self@.aliases =~= target);
                    assert(spec_add_alias(v0.aliases, name@, iv) == target);
                    assert(alias_names(self@.aliases) =~= names);
                    assert(self@ == (NinjaFileView { aliases: target, ..v0 }));
                    assert(self.wf());
                }
                return self;
            }
            i = i + 1;
        }
        let mut p: usize = 0;
        while p < self.aliases.len() && str_lt(self.aliases[p].0.as_str(), name)
            invariant
                p <= self.aliases@.len(),
                self@ == v0,
                self.wf(),
                names == alias_names(v0.aliases),
                iv == paths_view(inputs@),
                forall|j: int| 0 <= j < p ==> seq_lt(#[trigger] names[j], name@),
            decreases self.aliases.len() - p,
        {
            assert(names[p as int] == self.aliases@[p as int].0@);
            p = p + 1;
        }
        proof {
            if p < self.aliases@.len() {
                assert(names[p as int] == self.aliases@[p as int].0@);
            }
            assert(sorted_le(names));
            lemma_scan_pos(names, name@, p as int);
            assert(!names.contains(name@));
            lemma_insert_sorted_strict(names, name@);
        }
        self.aliases.insert(p, (copy_str(name), inputs));
        assert(self@.aliases =~= v0.aliases.insert(p as int, (name@, iv)));
        assert(alias_names(self@.aliases) =~= names.insert(p as int, name@));
        self
    }

    /// Makes every output of `build_ref` a default target.
    pub fn set_build_default(&mut self, build_ref: &NinjaBuildRef) -> (r: &mut Self)
        requires
            old(self).wf(),
        ensures
            r.wf(),
            r@ == (NinjaFileView {
                defaults: spec_add_defaults(old(self)@.defaults, paths_view(build_ref.0@)),
                ..old(self)@
            }),
            final(self)@ == final(r)@,
            final(r).wf() ==> final(self).wf(),
    {
        let ghost v0 = self@;
        let ghost outs = paths_view(build_ref.0@);
        let mut i: usize = 0;
        while i < build_ref.0.len()
            invariant
                i <= build_ref.0@.len(),
                outs == paths_view(build_ref.0@),
                self.wf(),
                self@ == (NinjaFileView { defaults: spec_add_defaults(v0.defaults, outs.take(i as int)), ..v0 }),
            decreases build_ref.0.len() - i,
        {
            assert(outs.take(i + 1).drop_last() =~= outs.take(i as int));
            self.add_default(&build_ref.0[i]);
            i = i + 1;
        }
        assert(outs.take(build_ref.0@.len() as int) =~= outs);
        self
    }

    #[verifier::rlimit(40)]
    fn add_default(&mut self, out: &VirtPath)
        requires
            old(self).wf(),
        ensures
            final(self).wf(),
            final(self)@ == (NinjaFileView {
                defaults: if old(self)@.defaults.contains(out@) {
                    old(self)@.defaults
                } else {
                    old(self)@.defaults.insert(sorted_pos(default_keys(old(self)@.defaults), spec_display(out@)), out@)
                },
                ..old(self)@
            }),
    {
        let ghost v0 = self@;
        let mut i: usize = 0;
        while i < self.default_targets.len()
            invariant
                i <= self.default_targets@.len(),
                self@ == v0,
                self.wf(),
                forall|j: int| 0 <= j < i ==> v0.defaults[j] != out@,
            decreases self.default_targets.len() - i,
        {
            if self.default_targets[i].0.same_as(out) {
                assert(v0.defaults[i as int] == out@);
                return;
            }
            i = i + 1;
        }
        assert(!v0.defaults.contains(out@));
        let key = out.to_string();
        let ghost keys = default_keys(v0.defaults);
        let mut p: usize = 0;
        while p < self.default_targets.len() && str_lt(self.default_targets[p].1.as_str(), key.as_str())
            invariant
                p <= self.default_targets@.len(),
                self@ == v0,
                self.wf(),
                keys == default_keys(v0.defaults),
                forall|j: int| 0 <= j < p ==> seq_lt(#[trigger] keys[j], key@),
            decreases self.default_targets.len() - p,
        {
            assert(keys[p as int] == self.default_targets@[p as int].1@);
            p = p + 1;
        }
        proof {
            if p < self.default_targets@.len() {
                assert(keys[p as int] == self.default_targets@[p as int].1@);
            }
            lemma_scan_pos(keys, key@, p as int);
            lemma_insert_sorted_le(keys, key@);
            lemma_insert_distinct(v0.defaults, p as int, out@);
        }
        let ghost tail_before = self.default_targets@;
        self.default_targets.insert(p, (out.copy(), key));
        proof {
            assert(self@.defaults =~= v0.defaults.insert(p as int, out@));
            assert(default_keys(self@.defaults) =~= keys.insert(p as int, spec_display(out@)));
            assert forall|q: int| 0 <= q < self.default_targets@.len() implies
                (#[trigger] self.default_targets@[q]).1@ == spec_display(self.default_targets@[q].0@) by {
                if q < p {
                    assert(self.default_targets@[q] == tail_before[q]);
                } else if q > p {
                    assert(self.default_targets@[q] == tail_before[q - 1]);
                }
            }
        }
    }

    /// One message per file system path that two build outputs produce,
    /// sorted and without repeats.
    #[verifier::spinoff_prover]
    pub fn validate(&self) -> (r: Vec<String>)
        ensures
            sorted_strict(r.deep_view()),
            forall|m: Seq<char>| r.deep_view().contains(m) <==>
                exists|fs: Seq<char>| m == multiple_message(fs) && occurs_twice(flat_outputs(self@.builds), fs),
    {
        let ghost bs = self@.builds;
        let mut errors: Vec<String> = Vec::new();
        let mut seen: Vec<String> = Vec::new();
        assert(errors.deep_view() =~= Seq::<Seq<char>>::empty());
        assert(bs.take(0) =~= Seq::<BuildView>::empty());
        let mut i: usize = 0;
        while i < self.builds.len()
            invariant
                i <= self.builds@.len(),
                bs == self@.builds,
                seen.deep_view() == flat_outputs(bs.take(i as int)),
                sorted_strict(errors.deep_view()),
                forall|m: Seq<char>| errors.deep_view().contains(m) <==>
                    exists|fs: Seq<char>| m == multiple_message(fs) && occurs_twice(seen.deep_view(), fs),
            decreases self.builds.len() - i,
        {
            let b = &self.builds[i].0;
            let ghost outs = b@.outputs.map_values(|p: VirtPathView| path_text(p));
            let ghost seen0 = seen.deep_view();
            let mut k: usize = 0;
            while k < b.outputs.len()
                invariant
                    k <= b.outputs@.len(),
                    i < bs.len(),
                    b@ == bs[i as int],
                    outs == b@.outputs.map_values(|p: VirtPathView| path_text(p)),
                    seen.deep_view() == seen0 + outs.take(k as int),
                    sorted_strict(errors.deep_view()),
                    forall|m: Seq<char>| errors.deep_view().contains(m) <==>
                        exists|fs: Seq<char>| m == multiple_message(fs) && occurs_twice(seen.deep_view(), fs),
                decreases b.outputs.len() - k,
            {
                let fs = b.outputs[k].to_path_buf();
                let ghost s0 = seen.deep_view();
                let dup = contains_str(&seen, fs.as_str());
                let ghost e0 = errors.deep_view();
                if dup {
                    let mut msg = copy_str("Multiple builds generating: ");
                    push_str(&mut msg, fs.as_str());
                    proof { reveal_strlit("Multiple builds generating: "); }
                    assert(msg@ == multiple_message(fs@));
                    insert_sorted_unique(&mut errors, msg);
                    assert forall|m: Seq<char>| errors.deep_view().contains(m) <==> (e0.contains(m) || m == multiple_message(fs@)) by {
                        assert(errors.deep_view().to_set().contains(m) == errors.deep_view().contains(m));
                        assert(e0.to_set().contains(m) == e0.contains(m));
                    }
                }
                assert(dup == s0.contains(fs@));
                assert forall|m: Seq<char>| errors.deep_view().contains(m) <==> (e0.contains(m) || (s0.contains(fs@) && m == multiple_message(fs@))) by {
                    if !dup {
                        assert(errors.deep_view() == e0);
                    }
                }
                seen.push(fs);
                proof {
                    let s1 = seen.deep_view();
                    assert(s1 =~= s0.push(fs@));
                    assert(outs.take(k + 1) =~= outs.take(k as int).push(outs[k as int]));
                    assert(s1 =~= seen0 + outs.take(k + 1));
                    lemma_validate_step(e0, errors.deep_view(), s0, fs@);
                }
                k = k + 1;
            }
            proof {
                assert(outs.take(b.outputs@.len() as int) =~= outs);
                assert(bs.take(i + 1).drop_last() =~= bs.take(i as int));
                assert(bs.take(i + 1).last() == bs[i as int]);
            }
            i = i + 1;
        }
        assert(bs.take(self.builds@.len() as int) =~= bs);
        errors
    }

    /// The text of the whole file.
    pub fn to_text(&self) -> (r: String)
        ensures
            r@ == file_text(self@),
    {
        let mut out = String::new();
        let ghost v = self@;
        let mut i: usize = 0;
        while i < self.rules.len()
            invariant
                i <= self.rules@.len(),
                v == self@,
                out@ == rules_text(v.rules.take(i as int)),
            decreases self.rules.len() - i,
        {
            write_rule(&mut out, self.rules[i].1.as_str(), &self.rules[i].0);
            assert(v.rules.take(i + 1).drop_last() =~= v.rules.take(i as int));
            i = i + 1;
        }
        assert(v.rules.take(self.rules@.len() as int) =~= v.rules);
        let ghost a = out@;
        let mut j: usize = 0;
        while j < self.builds.len()
            invariant
                j <= self.builds@.len(),
                v == self@,
                out@ == a + builds_text(v.builds.take(j as int)),
            decreases self.builds.len() - j,
        {
            let t = self.builds[j].0.to_text();
            push_str(&mut out, t.as_str());
            assert(v.builds.take(j + 1).drop_last() =~= v.builds.take(j as int));
            j = j + 1;
        }
        assert(v.builds.take(self.builds@.len() as int) =~= v.builds);
        let ghost b = out@;
        let mut k: usize = 0;
        while k < self.aliases.len()
            invariant
                k <= self.aliases@.len(),
                v == self@,
                out@ == b + aliases_text(v.aliases.take(k as int)),
            decreases self.aliases.len() - k,
        {
            let ghost before = out@;
            push_str(&mut out, "build ");
            write_esc(&mut out, 1, self.aliases[k].0.as_str());
            push_str(&mut out, ": phony");
            write_paths_list(&mut out, &self.aliases[k].1);
            push_str(&mut out, "\n\n");
            proof { reveal_strlit("build "); reveal_strlit(": phony"); reveal_strlit("\n\n"); }
            assert(out@ =~= before + alias_text(v.aliases[k as int]));
            assert(v.aliases.take(k + 1).drop_last() =~= v.aliases.take(k as int));
            k = k + 1;
        }
        assert(v.aliases.take(self.aliases@.len() as int) =~= v.aliases);
        let ghost c = out@;
        if self.default_targets.len() > 0 {
            push_str(&mut out, "default");
            let mut outs: Vec<VirtPath> = Vec::new();
            let mut d: usize = 0;
            while d < self.default_targets.len()
                invariant
                    d <= self.default_targets@.len(),
                    v == self@,
                    paths_view(outs@) == v.defaults.take(d as int),
                decreases self.default_targets.len() - d,
            {
                let ghost before = outs@;
                let pc = self.default_targets[d].0.copy();
                outs.push(pc);
                assert(paths_view(outs@) =~= paths_view(before).push(pc@));
                assert(v.defaults.take(d + 1) =~= v.defaults.take(d as int).push(v.defaults[d as int]));
                d = d + 1;
            }
            assert(v.defaults.take(self.default_targets@.len() as int) =~= v.defaults);
            write_paths_list(&mut out, &outs);
            push_str(&mut out, "\n\n");
            proof { reveal_strlit("default"); reveal_strlit("\n\n"); }
        }
        assert(out@ =~= file_text(v));
        out
    }
}

} // verus!
