use vstd::prelude::*;
use crate::error::{Error, ErrorType, ErrorV, err_v};
use crate::path::{VirtPath, VirtPathView, spec_display, spec_apply_parts};
use crate::pbbuild::{PbBuild, BuildRecV, builds_view, lemma_builds_view_map, lemma_builds_view_len,
    lemma_builds_view_index};
use crate::text::{push_char, push_str, push_int, int_text, copy_str, str_eq, str_lt, seq_lt, split_on, ends_with,
    lemma_seq_lt_irrefl, lemma_seq_lt_total, lemma_seq_lt_asym};

verus! {

/// A value of the build language.
#[derive(Debug, PartialEq)]
pub enum Value {
    Int(i64),
    String(String),
    Path { path: VirtPath, depends: Vec<PbBuild> },
    Bool(bool),
    BuildVar(String),
    BuildConcat(Vec<Value>),
}

/// The mathematical content of a `Value`.
pub enum ValueV {
    Int(i64),
    Str(Seq<char>),
    Path(VirtPathView, Seq<BuildRecV>),
    Bool(bool),
    BuildVar(Seq<char>),
    BuildConcat(Seq<ValueV>),
}

/// The views of a sequence of values.
pub open spec fn values_view(s: Seq<Value>) -> Seq<ValueV>
    decreases s,
{
    if s.len() == 0 {
        Seq::empty()
    } else {
        values_view(s.drop_last()).push(s.last().view_rec())
    }
}

impl Value {
    pub open spec fn view_rec(&self) -> ValueV
        decreases self,
    {
        match self {
            Value::Int(n) => ValueV::Int(*n),
            Value::String(s) => ValueV::Str(s@),
            Value::Path { path, depends } => ValueV::Path(path@, builds_view(depends@)),
            Value::Bool(b) => ValueV::Bool(*b),
            Value::BuildVar(s) => ValueV::BuildVar(s@),
            Value::BuildConcat(vs) => ValueV::BuildConcat(values_view(vs@)),
        }
    }
}

impl View for Value {
    type V = ValueV;

    open spec fn view(&self) -> ValueV {
        self.view_rec()
    }
}

pub proof fn lemma_values_view_len(s: Seq<Value>)
    ensures
        values_view(s).len() == s.len(),
    decreases s.len(),
{
    if s.len() > 0 {
        lemma_values_view_len(s.drop_last());
    }
}

pub proof fn lemma_values_view_index(s: Seq<Value>, i: int)
    requires
        0 <= i < s.len(),
    ensures
        values_view(s)[i] == s[i]@,
    decreases s.len(),
{
    lemma_values_view_len(s.drop_last());
    if i < s.len() - 1 {
        lemma_values_view_index(s.drop_last(), i);
    }
}

/// `values_view` taken element by element.
pub proof fn lemma_values_view_map(s: Seq<Value>)
    ensures
        values_view(s) == s.map_values(|v: Value| v@),
{
    lemma_values_view_len(s);
    assert forall|i: int| 0 <= i < s.len() implies #[trigger] values_view(s)[i] == s.map_values(|v: Value| v@)[i] by {
        lemma_values_view_index(s, i);
    }
    assert(values_view(s) =~= s.map_values(|v: Value| v@));
}

/* Display */

/// How a value is shown.
pub open spec fn value_text(v: ValueV) -> Seq<char>
    decreases v,
{
    match v {
        ValueV::Int(n) => int_text(n as int),
        ValueV::Str(s) => seq!['"'] + s + seq!['"'],
        ValueV::Path(p, _) => spec_display(p),
        ValueV::Bool(b) => if b { "true"@ } else { "false"@ },
        ValueV::BuildVar(s) => seq!['$'] + s,
        ValueV::BuildConcat(vs) => concat_text(vs),
    }
}

/// The values `vs` shown one after the other with ` + ` between them.
pub open spec fn concat_text(vs: Seq<ValueV>) -> Seq<char>
    decreases vs,
{
    if vs.len() == 0 {
        Seq::empty()
    } else if vs.len() == 1 {
        value_text(vs[0])
    } else {
        concat_text(vs.drop_last()) + " + "@ + value_text(vs.last())
    }
}

/* Results of the operations */

pub open spec fn i64_fits(n: int) -> bool {
    i64::MIN <= n <= i64::MAX
}

pub open spec fn overflow_error() -> ErrorV {
    err_v(ErrorType::Eval, "integer overflow"@)
}

/// A checked integer result.
pub open spec fn int_result(n: int) -> Result<ValueV, ErrorV> {
    if i64_fits(n) { Ok(ValueV::Int(n as i64)) } else { Err(overflow_error()) }
}

/// `VirtPath::add_suffix` on views.
pub open spec fn path_add_suffix(p: VirtPathView, s: Seq<char>) -> Result<VirtPathView, ErrorV> {
    if p.parts.len() > 0 {
        Ok(VirtPathView { parts: p.parts.update(p.parts.len() - 1, p.parts.last() + s), ..p })
    } else {
        Err(err_v(ErrorType::Custom, "can't add suffix to path without unlocked elements: "@ + spec_display(p)))
    }
}

/// `VirtPath::remove_suffix` on views.
pub open spec fn path_remove_suffix(p: VirtPathView, s: Seq<char>) -> Result<VirtPathView, ErrorV> {
    if p.parts.len() == 0 {
        Err(err_v(ErrorType::Custom, "can't remove suffix from path without unlocked elements: "@ + spec_display(p)))
    } else if !ends_with(p.parts.last(), s) {
        Err(err_v(ErrorType::Custom, "Invalid suffix "@ + s + " for path "@ + spec_display(p)))
    } else {
        Ok(VirtPathView {
            parts: p.parts.update(p.parts.len() - 1, p.parts.last().subrange(0, p.parts.last().len() - s.len())),
            ..p
        })
    }
}

/// `VirtPath::step` on views.
pub open spec fn path_step(p: VirtPathView, elem: Seq<char>) -> Result<VirtPathView, ErrorV> {
    if elem == ".."@ {
        if p.parts.len() > 0 {
            Ok(VirtPathView { parts: p.parts.drop_last(), ..p })
        } else {
            Err(err_v(ErrorType::Custom, "Parent of "@ + spec_display(p) + " locked"@))
        }
    } else if elem == "."@ {
        Ok(p)
    } else {
        Ok(VirtPathView { parts: p.parts.push(elem), ..p })
    }
}

/// `VirtPath::apply` on views.
pub open spec fn path_apply(p: VirtPathView, ext: Seq<char>) -> Result<VirtPathView, ErrorV> {
    if split_on(ext, '/')[0].len() > 0 && p.parts.len() == 0 {
        Err(err_v(ErrorType::Custom, "can't add suffix to path without unlocked elements: "@ + spec_display(p)))
    } else {
        Ok(VirtPathView { parts: spec_apply_parts(p.parts, ext), ..p })
    }
}

/// The path `r` gives, kept with the builds `deps`.
pub open spec fn with_deps(r: Result<VirtPathView, ErrorV>, deps: Seq<BuildRecV>) -> Result<ValueV, ErrorV> {
    match r {
        Ok(p) => Ok(ValueV::Path(p, deps)),
        Err(e) => Err(e),
    }
}

pub open spec fn spec_op_add(l: ValueV, r: ValueV) -> Result<ValueV, ErrorV> {
    match (l, r) {
        (ValueV::Int(a), ValueV::Int(b)) => int_result(a + b),
        (ValueV::Str(a), ValueV::Str(b)) => Ok(ValueV::Str(a + b)),
        (ValueV::Path(p, d), ValueV::Str(s)) => with_deps(path_add_suffix(p, s), d),
        (ValueV::BuildConcat(vs), _) => Ok(ValueV::BuildConcat(vs.push(r))),
        _ => Ok(ValueV::BuildConcat(seq![l, r])),
    }
}

pub open spec fn spec_op_sub(l: ValueV, r: ValueV) -> Result<ValueV, ErrorV> {
    match (l, r) {
        (ValueV::Int(a), ValueV::Int(b)) => int_result(a - b),
        (ValueV::Path(p, d), ValueV::Str(s)) => with_deps(path_remove_suffix(p, s), d),
        _ => Err(err_v(ErrorType::Type, "can't subtract "@ + value_text(l) + " and "@ + value_text(r))),
    }
}

pub open spec fn spec_op_mult(l: ValueV, r: ValueV) -> Result<ValueV, ErrorV> {
    match (l, r) {
        (ValueV::Int(a), ValueV::Int(b)) => int_result(a * b),
        _ => Err(err_v(ErrorType::Type, "can't multiply "@ + value_text(l) + " and "@ + value_text(r))),
    }
}

/// Integer division rounding toward zero, as Rust's `/` does: the
/// quotient of the magnitudes, negative when the signs differ.
pub open spec fn trunc_div(a: int, b: int) -> int {
    let q = abs_int(a) / abs_int(b);
    if (a < 0) != (b < 0) { -q } else { q }
}

pub open spec fn abs_int(a: int) -> int {
    if a < 0 { -a } else { a }
}

pub open spec fn spec_op_div(l: ValueV, r: ValueV) -> Result<ValueV, ErrorV> {
    match (l, r) {
        (ValueV::Int(a), ValueV::Int(b)) => if b == 0 {
            Err(err_v(ErrorType::Eval, "division by zero"@))
        } else {
            int_result(trunc_div(a as int, b as int))
        },
        (ValueV::Path(p, d), ValueV::Str(s)) => with_deps(path_step(p, s), d),
        _ => Err(err_v(ErrorType::Type, "can't divide "@ + value_text(l) + " and "@ + value_text(r))),
    }
}

pub open spec fn compare_error(l: ValueV, r: ValueV) -> ErrorV {
    err_v(ErrorType::Type, "can't compare "@ + value_text(l) + " and "@ + value_text(r))
}

pub open spec fn spec_op_lt(l: ValueV, r: ValueV) -> Result<ValueV, ErrorV> {
    match (l, r) {
        (ValueV::Int(a), ValueV::Int(b)) => Ok(ValueV::Bool(a < b)),
        (ValueV::Str(a), ValueV::Str(b)) => Ok(ValueV::Bool(seq_lt(a, b))),
        _ => Err(compare_error(l, r)),
    }
}

pub open spec fn spec_op_le(l: ValueV, r: ValueV) -> Result<ValueV, ErrorV> {
    match (l, r) {
        (ValueV::Int(a), ValueV::Int(b)) => Ok(ValueV::Bool(a <= b)),
        (ValueV::Str(a), ValueV::Str(b)) => Ok(ValueV::Bool(!seq_lt(b, a))),
        _ => Err(compare_error(l, r)),
    }
}

pub open spec fn spec_op_gt(l: ValueV, r: ValueV) -> Result<ValueV, ErrorV> {
    match (l, r) {
        (ValueV::Int(a), ValueV::Int(b)) => Ok(ValueV::Bool(a > b)),
        (ValueV::Str(a), ValueV::Str(b)) => Ok(ValueV::Bool(seq_lt(b, a))),
        _ => Err(compare_error(l, r)),
    }
}

pub open spec fn spec_op_ge(l: ValueV, r: ValueV) -> Result<ValueV, ErrorV> {
    match (l, r) {
        (ValueV::Int(a), ValueV::Int(b)) => Ok(ValueV::Bool(a >= b)),
        (ValueV::Str(a), ValueV::Str(b)) => Ok(ValueV::Bool(!seq_lt(a, b))),
        _ => Err(compare_error(l, r)),
    }
}

pub open spec fn spec_op_neg(v: ValueV) -> Result<ValueV, ErrorV> {
    match v {
        ValueV::Int(a) => int_result(-a),
        _ => Err(err_v(ErrorType::Type, "not an integer: "@ + value_text(v))),
    }
}

pub open spec fn not_bool_error(v: ValueV) -> ErrorV {
    err_v(ErrorType::Type, "not a boolean: "@ + value_text(v))
}

pub open spec fn spec_op_not(v: ValueV) -> Result<ValueV, ErrorV> {
    match v {
        ValueV::Bool(b) => Ok(ValueV::Bool(!b)),
        _ => Err(not_bool_error(v)),
    }
}

pub open spec fn spec_as_bool(v: ValueV) -> Result<bool, ErrorV> {
    match v {
        ValueV::Bool(b) => Ok(b),
        _ => Err(not_bool_error(v)),
    }
}

pub open spec fn spec_as_string(v: ValueV) -> Result<Seq<char>, ErrorV> {
    match v {
        ValueV::Str(s) => Ok(s),
        _ => Err(err_v(ErrorType::Type, "not a string: "@ + value_text(v))),
    }
}

/// One step of joining the parts of a string: neighbouring strings merge,
/// the parts of a build concatenation are spliced in, anything else is
/// appended.
pub open spec fn concat_step(out: Seq<ValueV>, part: ValueV) -> Seq<ValueV> {
    if out.len() > 0 && out.last() is Str && part is Str {
        out.drop_last().push(ValueV::Str(out.last()->Str_0 + part->Str_0))
    } else if part is BuildConcat {
        out + part->BuildConcat_0
    } else {
        out.push(part)
    }
}

pub open spec fn concat_fold(parts: Seq<ValueV>) -> Seq<ValueV>
    decreases parts.len(),
{
    if parts.len() == 0 {
        Seq::empty()
    } else {
        concat_step(concat_fold(parts.drop_last()), parts.last())
    }
}

/// The value of a string built from `parts`. A leading path takes the
/// rest as an extension when the rest joins into one part; otherwise the
/// joined parts are the result (one part alone, or a build concatenation).
pub open spec fn spec_string_concat(parts: Seq<ValueV>) -> Result<ValueV, ErrorV> {
    let lead = parts.len() > 0 && parts[0] is Path;
    let out = concat_fold(if lead { parts.drop_first() } else { parts });
    if lead && out.len() == 1 {
        match spec_as_string(out[0]) {
            Err(e) => Err(e),
            Ok(s) => with_deps(path_apply(parts[0]->Path_0, s), parts[0]->Path_1),
        }
    } else if out.len() == 1 {
        Ok(out[0])
    } else {
        Ok(ValueV::BuildConcat(out))
    }
}

/// The view of an operation's result.
pub open spec fn res_view(r: Result<Value, Error>) -> Result<ValueV, ErrorV> {
    match r {
        Ok(v) => Ok(v@),
        Err(e) => Err(e@),
    }
}

/* Executable operations */

fn overflow() -> (e: Error)
    ensures
        e@ == overflow_error(),
{
    Error::new(ErrorType::Eval, copy_str("integer overflow"))
}

fn checked_int(n: Option<i64>, Ghost(exact): Ghost<int>) -> (r: Result<Value, Error>)
    requires
        match n {
            Some(v) => v == exact,
            None => !i64_fits(exact),
        },
    ensures
        res_view(r) == int_result(exact),
{
    match n {
        Some(v) => Ok(Value::Int(v)),
        None => Err(overflow()),
    }
}

fn two_text(prefix: &str, l: &Value, r: &Value) -> (s: String)
    ensures
        s@ == prefix@ + value_text(l@) + " and "@ + value_text(r@),
{
    let mut s = copy_str(prefix);
    l.write_text(&mut s);
    push_str(&mut s, " and ");
    r.write_text(&mut s);
    s
}

fn one_text(prefix: &str, v: &Value) -> (s: String)
    ensures
        s@ == prefix@ + value_text(v@),
{
    let mut s = copy_str(prefix);
    v.write_text(&mut s);
    s
}

/// A copy of the values `v`.
pub fn copy_values(v: &Vec<Value>) -> (r: Vec<Value>)
    ensures
        values_view(r@) == values_view(v@),
{
    let mut out: Vec<Value> = Vec::new();
    let mut i: usize = 0;
    while i < v.len()
        invariant
            i <= v@.len(),
            out@.len() == i,
            forall|j: int| 0 <= j < i ==> (#[trigger] out@[j])@ == v@[j]@,
        decreases v.len() - i,
    {
        out.push(v[i].copy());
        i = i + 1;
    }
    proof {
        lemma_values_view_map(out@);
        lemma_values_view_map(v@);
        assert(out@.map_values(|x: Value| x@) =~= v@.map_values(|x: Value| x@));
    }
    out
}

/// A copy of the builds `v`.
pub fn copy_builds(v: &Vec<PbBuild>) -> (r: Vec<PbBuild>)
    ensures
        builds_view(r@) == builds_view(v@),
{
    let mut out: Vec<PbBuild> = Vec::new();
    let mut i: usize = 0;
    while i < v.len()
        invariant
            i <= v@.len(),
            out@.len() == i,
            forall|j: int| 0 <= j < i ==> (#[trigger] out@[j])@ == v@[j]@,
        decreases v.len() - i,
    {
        out.push(v[i].copy());
        i = i + 1;
    }
    proof {
        lemma_builds_view_map(out@);
        lemma_builds_view_map(v@);
        assert(out@.map_values(|x: PbBuild| x@) =~= v@.map_values(|x: PbBuild| x@));
    }
    out
}

fn builds_eq(a: &Vec<PbBuild>, b: &Vec<PbBuild>) -> (r: bool)
    ensures
        r == (builds_view(a@) == builds_view(b@)),
{
    proof {
        lemma_builds_view_map(a@);
        lemma_builds_view_map(b@);
    }
    if a.len() != b.len() {
        assert(builds_view(a@).len() != builds_view(b@).len());
        return false;
    }
    let mut i: usize = 0;
    while i < a.len()
        invariant
            i <= a@.len() == b@.len(),
            builds_view(a@) == a@.map_values(|x: PbBuild| x@),
            builds_view(b@) == b@.map_values(|x: PbBuild| x@),
            forall|j: int| 0 <= j < i ==> (#[trigger] a@[j])@ == b@[j]@,
        decreases a.len() - i,
    {
        if !a[i].same_as(&b[i]) {
            assert(builds_view(a@)[i as int] != builds_view(b@)[i as int]);
            return false;
        }
        i = i + 1;
    }
    assert(builds_view(a@) =~= builds_view(b@));
    true
}

impl Value {
    pub fn path(path: VirtPath) -> (r: Value)
        ensures
            r@ == ValueV::Path(path@, Seq::empty()),
    {
        let r = Value::Path { path, depends: Vec::new() };
        assert(builds_view(Seq::<PbBuild>::empty()) =~= Seq::<BuildRecV>::empty());
        r
    }

    pub fn path_with_deps(path: VirtPath, deps: Vec<PbBuild>) -> (r: Value)
        ensures
            r@ == ValueV::Path(path@, builds_view(deps@)),
    {
        Value::Path { path, depends: deps }
    }

    pub fn try_as_path(self) -> (r: Option<VirtPath>)
        ensures
            match self@ {
                ValueV::Path(p, _) => r matches Some(q) && q@ == p,
                _ => r is None,
            },
    {
        match self {
            Value::Path { path, .. } => Some(path),
            _ => None,
        }
    }

    /// A copy of this value.
    pub fn copy(&self) -> (r: Value)
        ensures
            r@ == self@,
        decreases self,
    {
        match self {
            Value::Int(n) => Value::Int(*n),
            Value::String(s) => Value::String(copy_str(s.as_str())),
            Value::Path { path, depends } => Value::Path { path: path.copy(), depends: copy_builds(depends) },
            Value::Bool(b) => Value::Bool(*b),
            Value::BuildVar(s) => Value::BuildVar(copy_str(s.as_str())),
            Value::BuildConcat(vs) => {
                let mut out: Vec<Value> = Vec::new();
                let mut i: usize = 0;
                while i < vs.len()
                    invariant
                        i <= vs@.len(),
                        *self == Value::BuildConcat(*vs),
                        out@.len() == i,
                        forall|j: int| 0 <= j < i ==> (#[trigger] out@[j])@ == vs@[j]@,
                    decreases vs.len() - i,
                {
                    proof {
                        assert(decreases_to!(*self => self->BuildConcat_0));
                        assert(decreases_to!(*vs => vs@));
                        assert(decreases_to!(vs@ => vs@[i as int]));
                    }
                    out.push(vs[i].copy());
                    i = i + 1;
                }
                proof {
                    lemma_values_view_map(out@);
                    lemma_values_view_map(vs@);
                    assert(out@.map_values(|x: Value| x@) =~= vs@.map_values(|x: Value| x@));
                }
                Value::BuildConcat(out)
            },
        }
    }

    /// Whether two values are the same.
    pub fn same_as(&self, other: &Value) -> (r: bool)
        ensures
            r == (self@ == other@),
        decreases self,
    {
        match (self, other) {
            (Value::Int(a), Value::Int(b)) => *a == *b,
            (Value::String(a), Value::String(b)) => str_eq(a.as_str(), b.as_str()),
            (Value::Path { path: p, depends: d }, Value::Path { path: q, depends: e }) =>
                p.same_as(q) && builds_eq(d, e),
            (Value::Bool(a), Value::Bool(b)) => *a == *b,
            (Value::BuildVar(a), Value::BuildVar(b)) => str_eq(a.as_str(), b.as_str()),
            (Value::BuildConcat(a), Value::BuildConcat(b)) => {
                proof {
                    lemma_values_view_map(a@);
                    lemma_values_view_map(b@);
                }
                if a.len() != b.len() {
                    assert(values_view(a@).len() != values_view(b@).len());
                    return false;
                }
                let mut i: usize = 0;
                while i < a.len()
                    invariant
                        i <= a@.len() == b@.len(),
                        *self == Value::BuildConcat(*a),
                        *other == Value::BuildConcat(*b),
                        values_view(a@) == a@.map_values(|x: Value| x@),
                        values_view(b@) == b@.map_values(|x: Value| x@),
                        forall|j: int| 0 <= j < i ==> (#[trigger] a@[j])@ == b@[j]@,
                    decreases a.len() - i,
                {
                    proof {
                        assert(decreases_to!(*self => self->BuildConcat_0));
                        assert(decreases_to!(*a => a@));
                        assert(decreases_to!(a@ => a@[i as int]));
                    }
                    if !a[i].same_as(&b[i]) {
                        assert(values_view(a@)[i as int] != values_view(b@)[i as int]);
                        return false;
                    }
                    i = i + 1;
                }
                assert(values_view(a@) =~= values_view(b@));
                true
            },
            _ => false,
        }
    }

    /// Appends how this value is shown.
    pub fn write_text(&self, out: &mut String)
        ensures
            final(out)@ == old(out)@ + value_text(self@),
        decreases self,
    {
        match self {
            Value::Int(n) => push_int(out, *n),
            Value::String(s) => {
                push_char(out, '"');
                push_str(out, s.as_str());
                push_char(out, '"');
            },
            Value::Path { path, .. } => {
                let t = path.to_string();
                push_str(out, t.as_str());
            },
            Value::Bool(b) => {
                if *b {
                    push_str(out, "true");
                } else {
                    push_str(out, "false");
                }
            },
            Value::BuildVar(s) => {
                push_char(out, '$');
                push_str(out, s.as_str());
            },
            Value::BuildConcat(vs) => {
                proof { lemma_values_view_map(vs@); }
                let ghost vv = values_view(vs@);
                let mut i: usize = 0;
                while i < vs.len()
                    invariant
                        i <= vs@.len(),
                        *self == Value::BuildConcat(*vs),
                        vv == values_view(vs@),
                        vv == vs@.map_values(|x: Value| x@),
                        out@ == old(out)@ + concat_text(vv.take(i as int)),
                    decreases vs.len() - i,
                {
                    proof {
                        assert(decreases_to!(*self => self->BuildConcat_0));
                        assert(decreases_to!(*vs => vs@));
                        assert(decreases_to!(vs@ => vs@[i as int]));
                    }
                    if i > 0 {
                        push_str(out, " + ");
                    }
                    vs[i].write_text(out);
                    proof {
                        assert(vv.take(i + 1).drop_last() =~= vv.take(i as int));
                        if i == 0 {
                            assert(vv.take(1) =~= seq![vv[0]]);
                        }
                    }
                    i = i + 1;
                }
                assert(vv.take(vs@.len() as int) =~= vv);
            },
        }
    }

    /// How this value is shown.
    pub fn to_text(&self) -> (r: String)
        ensures
            r@ == value_text(self@),
    {
        let mut out = String::new();
        self.write_text(&mut out);
        out
    }

    pub fn op_add(lhs: &Value, rhs: &Value) -> (r: Result<Value, Error>)
        ensures
            res_view(r) == spec_op_add(lhs@, rhs@),
    {
        match (lhs, rhs) {
            (Value::Int(a), Value::Int(b)) => checked_int(a.checked_add(*b), Ghost(*a as int + *b as int)),
            (Value::String(a), Value::String(b)) => {
                let mut s = copy_str(a.as_str());
                push_str(&mut s, b.as_str());
                Ok(Value::String(s))
            },
            (Value::Path { path, depends }, Value::String(s)) => match path.add_suffix(s.as_str()) {
                Ok(p) => Ok(Value::Path { path: p, depends: copy_builds(depends) }),
                Err(e) => Err(e),
            },
            (Value::BuildConcat(vs), _) => {
                let mut out = copy_values(vs);
                let c = rhs.copy();
                proof {
                    lemma_values_view_map(out@);
                    lemma_values_view_map(out@.push(c));
                    lemma_values_view_map(vs@);
                }
                out.push(c);
                assert(values_view(out@) =~= values_view(vs@).push(rhs@));
                Ok(Value::BuildConcat(out))
            },
            _ => {
                let mut out: Vec<Value> = Vec::new();
                out.push(lhs.copy());
                out.push(rhs.copy());
                proof { lemma_values_view_map(out@); }
                assert(values_view(out@) =~= seq![lhs@, rhs@]);
                Ok(Value::BuildConcat(out))
            },
        }
    }

    /// The value of a string literal made of `parts` (see
    /// `spec_string_concat`).
    pub fn op_string_concat(parts: Vec<Value>) -> (r: Result<Value, Error>)
        ensures
            res_view(r) == spec_string_concat(values_view(parts@)),
    {
        let ghost pv = values_view(parts@);
        proof { lemma_values_view_map(parts@); }
        let lead = parts.len() > 0 && match &parts[0] {
            Value::Path { .. } => true,
            _ => false,
        };
        let start: usize = if lead { 1 } else { 0 };
        let ghost rest = if lead { pv.drop_first() } else { pv };
        assert(rest =~= pv.subrange(start as int, pv.len() as int));
        let mut out: Vec<Value> = Vec::new();
        assert(rest.take(0) =~= Seq::<ValueV>::empty());
        assert(out@.map_values(|x: Value| x@) =~= Seq::<ValueV>::empty());
        let mut i: usize = start;
        while i < parts.len()
            invariant
                start <= i <= parts@.len(),
                start <= 1,
                pv == parts@.map_values(|x: Value| x@),
                rest == pv.subrange(start as int, pv.len() as int),
                out@.map_values(|x: Value| x@) == concat_fold(rest.take(i - start)),
            decreases parts.len() - i,
        {
            let ghost before = out@.map_values(|x: Value| x@);
            let ghost part_v = pv[i as int];
            assert(rest.take(i - start + 1).drop_last() =~= rest.take(i - start));
            assert(rest.take(i - start + 1).last() == part_v);
            let n = out.len();
            let merged = n > 0 && match (&out[n - 1], &parts[i]) {
                (Value::String(_), Value::String(_)) => true,
                _ => false,
            };
            if merged {
                let last = out.pop().unwrap();
                match (last, &parts[i]) {
                    (Value::String(mut acc), Value::String(v)) => {
                        push_str(&mut acc, v.as_str());
                        out.push(Value::String(acc));
                    },
                    _ => {},
                }
                assert(out@.map_values(|x: Value| x@) =~= concat_step(before, part_v));
            } else {
                match &parts[i] {
                    Value::BuildConcat(ps) => {
                        proof { lemma_values_view_map(ps@); }
                        let mut k: usize = 0;
                        while k < ps.len()
                            invariant
                                k <= ps@.len(),
                                values_view(ps@) == ps@.map_values(|x: Value| x@),
                                out@.map_values(|x: Value| x@) == before + values_view(ps@).take(k as int),
                            decreases ps.len() - k,
                        {
                            let ghost b2 = out@.map_values(|x: Value| x@);
                            let c = ps[k].copy();
                            out.push(c);
                            assert(out@.map_values(|x: Value| x@) =~= b2.push(c@));
                            assert(values_view(ps@).take(k + 1) =~= values_view(ps@).take(k as int).push(ps@[k as int]@));
                            k = k + 1;
                        }
                        assert(values_view(ps@).take(ps@.len() as int) =~= values_view(ps@));
                        assert(out@.map_values(|x: Value| x@) =~= concat_step(before, part_v));
                    },
                    _ => {
                        let c = parts[i].copy();
                        out.push(c);
                        assert(out@.map_values(|x: Value| x@) =~= concat_step(before, part_v));
                    },
                }
            }
            i = i + 1;
        }
        assert(rest.take(parts@.len() - start) =~= rest);
        let ghost outv = concat_fold(rest);
        proof { lemma_values_view_map(out@); }
        if lead && out.len() == 1 {
            let s = match out[0].as_string() {
                Ok(s) => s,
                Err(e) => return Err(e),
            };
            match &parts[0] {
                Value::Path { path, depends } => match path.apply(s.as_str()) {
                    Ok(p) => Ok(Value::Path { path: p, depends: copy_builds(depends) }),
                    Err(e) => Err(e),
                },
                _ => {
                    assert(false);
                    Err(overflow())
                },
            }
        } else if out.len() == 1 {
            Ok(out.pop().unwrap())
        } else {
            Ok(Value::BuildConcat(out))
        }
    }

    pub fn op_sub(lhs: &Value, rhs: &Value) -> (r: Result<Value, Error>)
        ensures
            res_view(r) == spec_op_sub(lhs@, rhs@),
    {
        match (lhs, rhs) {
            (Value::Int(a), Value::Int(b)) => checked_int(a.checked_sub(*b), Ghost(*a as int - *b as int)),
            (Value::Path { path, depends }, Value::String(s)) => match path.remove_suffix(s.as_str()) {
                Ok(p) => Ok(Value::Path { path: p, depends: copy_builds(depends) }),
                Err(e) => Err(e),
            },
            _ => Err(Error::new(ErrorType::Type, two_text("can't subtract ", lhs, rhs))),
        }
    }

    pub fn op_mult(lhs: &Value, rhs: &Value) -> (r: Result<Value, Error>)
        ensures
            res_view(r) == spec_op_mult(lhs@, rhs@),
    {
        match (lhs, rhs) {
            (Value::Int(a), Value::Int(b)) => checked_int(a.checked_mul(*b), Ghost(*a as int * *b as int)),
            _ => Err(Error::new(ErrorType::Type, two_text("can't multiply ", lhs, rhs))),
        }
    }

    pub fn op_div(lhs: &Value, rhs: &Value) -> (r: Result<Value, Error>)
        ensures
            res_view(r) == spec_op_div(lhs@, rhs@),
    {
        match (lhs, rhs) {
            (Value::Int(a), Value::Int(b)) => {
                if *b == 0 {
                    Err(Error::new(ErrorType::Eval, copy_str("division by zero")))
                } else {
                    let ua: u64 = if *a == i64::MIN { 9223372036854775808u64 } else if *a < 0 { (-*a) as u64 } else { *a as u64 };
                    let ub: u64 = if *b == i64::MIN { 9223372036854775808u64 } else if *b < 0 { (-*b) as u64 } else { *b as u64 };
                    assert(ua as int == abs_int(*a as int) && ub as int == abs_int(*b as int));
                    let uq: u64 = ua / ub;
                    assert(uq <= ua) by (nonlinear_arith)
                        requires uq == ua / ub, ub > 0;
                    if (*a < 0) != (*b < 0) {
                        if uq == 9223372036854775808u64 {
                            Ok(Value::Int(i64::MIN))
                        } else {
                            Ok(Value::Int(-(uq as i64)))
                        }
                    } else if uq == 9223372036854775808u64 {
                        Err(overflow())
                    } else {
                        Ok(Value::Int(uq as i64))
                    }
                }
            },
            (Value::Path { path, depends }, Value::String(s)) => {
                let p0 = path.copy();
                match p0.step(s.as_str()) {
                    Ok(p) => Ok(Value::Path { path: p, depends: copy_builds(depends) }),
                    Err(e) => Err(e),
                }
            },
            _ => Err(Error::new(ErrorType::Type, two_text("can't divide ", lhs, rhs))),
        }
    }

    pub fn op_lt(lhs: &Value, rhs: &Value) -> (r: Result<Value, Error>)
        ensures
            res_view(r) == spec_op_lt(lhs@, rhs@),
    {
        match (lhs, rhs) {
            (Value::Int(a), Value::Int(b)) => Ok(Value::Bool(*a < *b)),
            (Value::String(a), Value::String(b)) => Ok(Value::Bool(str_lt(a.as_str(), b.as_str()))),
            _ => Err(Error::new(ErrorType::Type, two_text("can't compare ", lhs, rhs))),
        }
    }

    pub fn op_le(lhs: &Value, rhs: &Value) -> (r: Result<Value, Error>)
        ensures
            res_view(r) == spec_op_le(lhs@, rhs@),
    {
        match (lhs, rhs) {
            (Value::Int(a), Value::Int(b)) => Ok(Value::Bool(*a <= *b)),
            (Value::String(a), Value::String(b)) => Ok(Value::Bool(!str_lt(b.as_str(), a.as_str()))),
            _ => Err(Error::new(ErrorType::Type, two_text("can't compare ", lhs, rhs))),
        }
    }

    pub fn op_gt(lhs: &Value, rhs: &Value) -> (r: Result<Value, Error>)
        ensures
            res_view(r) == spec_op_gt(lhs@, rhs@),
    {
        match (lhs, rhs) {
            (Value::Int(a), Value::Int(b)) => Ok(Value::Bool(*a > *b)),
            (Value::String(a), Value::String(b)) => Ok(Value::Bool(str_lt(b.as_str(), a.as_str()))),
            _ => Err(Error::new(ErrorType::Type, two_text("can't compare ", lhs, rhs))),
        }
    }

    pub fn op_ge(lhs: &Value, rhs: &Value) -> (r: Result<Value, Error>)
        ensures
            res_view(r) == spec_op_ge(lhs@, rhs@),
    {
        match (lhs, rhs) {
            (Value::Int(a), Value::Int(b)) => Ok(Value::Bool(*a >= *b)),
            (Value::String(a), Value::String(b)) => Ok(Value::Bool(!str_lt(a.as_str(), b.as_str()))),
            _ => Err(Error::new(ErrorType::Type, two_text("can't compare ", lhs, rhs))),
        }
    }

    pub fn op_eq(lhs: &Value, rhs: &Value) -> (r: Result<Value, Error>)
        ensures
            res_view(r) == Ok::<ValueV, ErrorV>(ValueV::Bool(lhs@ == rhs@)),
    {
        Ok(Value::Bool(lhs.same_as(rhs)))
    }

    pub fn op_neq(lhs: &Value, rhs: &Value) -> (r: Result<Value, Error>)
        ensures
            res_view(r) == Ok::<ValueV, ErrorV>(ValueV::Bool(lhs@ != rhs@)),
    {
        Ok(Value::Bool(!lhs.same_as(rhs)))
    }

    pub fn op_neg(&self) -> (r: Result<Value, Error>)
        ensures
            res_view(r) == spec_op_neg(self@),
    {
        match self {
            Value::Int(a) => {
                if *a == i64::MIN {
                    Err(overflow())
                } else {
                    Ok(Value::Int(-*a))
                }
            },
            _ => Err(Error::new(ErrorType::Type, one_text("not an integer: ", self))),
        }
    }

    pub fn op_not(&self) -> (r: Result<Value, Error>)
        ensures
            res_view(r) == spec_op_not(self@),
    {
        match self {
            Value::Bool(b) => Ok(Value::Bool(!*b)),
            _ => Err(Error::new(ErrorType::Type, one_text("not a boolean: ", self))),
        }
    }

    pub fn as_bool(&self) -> (r: Result<bool, Error>)
        ensures
            match (r, spec_as_bool(self@)) {
                (Ok(a), Ok(b)) => a == b,
                (Err(e), Err(f)) => e@ == f,
                _ => false,
            },
    {
        match self {
            Value::Bool(b) => Ok(*b),
            _ => Err(Error::new(ErrorType::Type, one_text("not a boolean: ", self))),
        }
    }

    pub fn as_string(&self) -> (r: Result<String, Error>)
        ensures
            match (r, spec_as_string(self@)) {
                (Ok(a), Ok(b)) => a@ == b,
                (Err(e), Err(f)) => e@ == f,
                _ => false,
            },
    {
        match self {
            Value::String(s) => Ok(copy_str(s.as_str())),
            _ => Err(Error::new(ErrorType::Type, one_text("not a string: ", self))),
        }
    }

    pub fn new_from_bool(value: bool) -> (r: Value)
        ensures
            r@ == ValueV::Bool(value),
    {
        Value::Bool(value)
    }

    pub fn new_from_string(value: &str) -> (r: Value)
        ensures
            r@ == ValueV::Str(value@),
    {
        Value::String(copy_str(value))
    }
}

/* Laws of the operators */

/// Integers compare as numbers: `<`, `<=`, `>`, `>=` give the truth of the
/// comparison; so `n <= n` and `n >= n` hold and `n < n` does not.
pub proof fn lemma_compare_ints(a: i64, b: i64)
    ensures
        spec_op_lt(ValueV::Int(a), ValueV::Int(b)) == Ok::<ValueV, ErrorV>(ValueV::Bool(a < b)),
        spec_op_le(ValueV::Int(a), ValueV::Int(b)) == Ok::<ValueV, ErrorV>(ValueV::Bool(a <= b)),
        spec_op_gt(ValueV::Int(a), ValueV::Int(b)) == Ok::<ValueV, ErrorV>(ValueV::Bool(a > b)),
        spec_op_ge(ValueV::Int(a), ValueV::Int(b)) == Ok::<ValueV, ErrorV>(ValueV::Bool(a >= b)),
        spec_op_le(ValueV::Int(a), ValueV::Int(a)) == Ok::<ValueV, ErrorV>(ValueV::Bool(true)),
        spec_op_lt(ValueV::Int(a), ValueV::Int(a)) == Ok::<ValueV, ErrorV>(ValueV::Bool(false)),
{
}

/// The four comparisons agree on every pair of values that can be
/// compared (integers, or strings in dictionary order): `a <= b` is
/// `!(b < a)`, `a > b` is `b < a`, `a >= b` is `!(a < b)`; nothing is less
/// than itself, and of two different comparable values exactly one is the
/// smaller.
pub proof fn lemma_compare_agree(l: ValueV, r: ValueV)
    ensures
        spec_op_lt(r, l) matches Ok(ValueV::Bool(x)) ==> spec_op_le(l, r) == Ok::<ValueV, ErrorV>(ValueV::Bool(!x))
            && spec_op_gt(l, r) == Ok::<ValueV, ErrorV>(ValueV::Bool(x)),
        spec_op_lt(l, r) matches Ok(ValueV::Bool(x)) ==> spec_op_ge(l, r) == Ok::<ValueV, ErrorV>(ValueV::Bool(!x)),
        spec_op_lt(l, l) matches Ok(ValueV::Bool(x)) ==> !x,
        spec_op_lt(l, r) is Ok <==> spec_op_lt(r, l) is Ok,
        spec_op_lt(l, r) == Ok::<ValueV, ErrorV>(ValueV::Bool(true)) ==> spec_op_lt(r, l) == Ok::<ValueV, ErrorV>(ValueV::Bool(false)),
        spec_op_lt(l, r) is Ok && l != r ==> spec_op_lt(l, r) == Ok::<ValueV, ErrorV>(ValueV::Bool(true)) || spec_op_lt(r, l)
            == Ok::<ValueV, ErrorV>(ValueV::Bool(true)),
{
    if let ValueV::Str(a) = l {
        lemma_seq_lt_irrefl(a);
    }
    match (l, r) {
        (ValueV::Str(a), ValueV::Str(b)) => {
            lemma_seq_lt_irrefl(a);
            lemma_seq_lt_total(a, b);
            if seq_lt(a, b) {
                lemma_seq_lt_asym(a, b);
            }
        },
        _ => {},
    }
}

/// Integer `+`, `-` and `*` give the exact result when it fits in 64 bits
/// and an overflow error otherwise; strings are joined by `+`.
pub proof fn lemma_int_arith(a: i64, b: i64, x: Seq<char>, y: Seq<char>)
    ensures
        (spec_op_add(ValueV::Int(a), ValueV::Int(b)) is Ok) == (i64::MIN <= a + b <= i64::MAX),
        spec_op_add(ValueV::Int(a), ValueV::Int(b)) matches Ok(v) ==> v == ValueV::Int((a + b) as i64) && v->Int_0 == a + b,
        (spec_op_sub(ValueV::Int(a), ValueV::Int(b)) is Ok) == (i64::MIN <= a - b <= i64::MAX),
        spec_op_sub(ValueV::Int(a), ValueV::Int(b)) matches Ok(v) ==> v == ValueV::Int((a - b) as i64) && v->Int_0 == a - b,
        (spec_op_mult(ValueV::Int(a), ValueV::Int(b)) is Ok) == (i64::MIN <= a * b <= i64::MAX),
        spec_op_mult(ValueV::Int(a), ValueV::Int(b)) matches Ok(v) ==> v == ValueV::Int((a * b) as i64) && v->Int_0 == a * b,
        spec_op_div(ValueV::Int(a), ValueV::Int(0)) is Err,
        spec_op_add(ValueV::Str(x), ValueV::Str(y)) == Ok::<ValueV, ErrorV>(ValueV::Str(x + y)),
        spec_op_add(ValueV::Str(x), ValueV::Str(y)) matches Ok(ValueV::Str(z)) && z.len() == x.len() + y.len()
            && z.subrange(0, x.len() as int) == x && z.subrange(x.len() as int, z.len() as int) == y,
{
    assert((x + y).subrange(0, x.len() as int) =~= x);
    assert((x + y).subrange(x.len() as int, (x + y).len() as int) =~= y);
}

} // verus!
