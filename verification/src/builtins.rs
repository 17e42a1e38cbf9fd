use vstd::prelude::*;
use crate::error::{Error, ErrorType, ErrorV, LocView, Loc, err_v, reref_v, opt_loc_view, copy_loc};
use crate::eval::{
    mk, resolve_v, value_v, get_item_v, err_at, out_of_fuel, set_insert, set_get, set_find, ev, resolve_fuel,
    value_fuel, get_item_fuel, error_at, fuel_error, mk_expr, text2, text3, set_insert_exec, find_key, lemma_set_find,
    EVAL_FUEL,
};
use crate::expr::{Expr, ExprType, ExprV, TokV, Builtin, BuiltinV, Matcher, MatcherV, exprs_v, set_v, expr_text, lemma_exprs_v,
    lemma_set_v, copy_exprs, omatch_v, opt_v, lemma_omatch_v};
use crate::eval::set_keys;
use crate::ninja::{NinjaArg, NinjaPart, ArgView, PartView, args_view, parts_view};
use crate::pbbuild::{PbBuild, PbBuildRule, RuleV, BuildRecV, named_args_view, builds_view, lemma_builds_view_map};
use crate::ninja::{paths_view, copy_paths};
use crate::text::{push_int, int_text};
use crate::value::{values_view, lemma_values_view_map, value_text};
use crate::path::{VirtPath, VirtPathView, spec_translate, spec_rebase, rebase_msg};
use crate::text::copy_str;
use crate::value::{Value, ValueV, res_view};

verus! {

/// The path a value is, if it is one.
pub open spec fn path_of(v: ValueV) -> Option<VirtPathView> {
    match v {
        ValueV::Path(p, _) => Some(p),
        _ => None,
    }
}

/* pb.translate */

/// The first of `froms` that `p` can be moved out of, moved to `to`.
pub open spec fn first_translation(p: VirtPathView, froms: Seq<VirtPathView>, to: VirtPathView) -> Option<VirtPathView>
    decreases froms.len(),
{
    if froms.len() == 0 {
        None
    } else {
        match spec_translate(p, froms[0], to) {
            Some(o) => Some(o),
            None => first_translation(p, froms.drop_first(), to),
        }
    }
}

/// The paths of the values `vals` stand for; `floc` is where an item that
/// is no path is reported.
pub open spec fn list_paths(vals: Seq<ExprV>, floc: Option<LocView>, fuel: nat) -> Result<Seq<VirtPathView>, ErrorV>
    decreases fuel, 2 + vals.len(),
{
    if vals.len() == 0 {
        Ok(Seq::empty())
    } else {
        match list_paths(vals.drop_last(), floc, fuel) {
            Err(x) => Err(x),
            Ok(ps) => match value_v(vals.last(), fuel) {
                Err(x) => Err(reref_v(x, vals.last().loc)),
                Ok(v) => match path_of(v) {
                    Some(p) => Ok(ps.push(p)),
                    None => err_at(ErrorType::Type, "expected path"@, floc),
                },
            },
        }
    }
}

/// A path, or a list of paths.
pub open spec fn from_paths(from: ExprV, fuel: nat) -> Result<Seq<VirtPathView>, ErrorV>
    decreases fuel, 6nat,
{
    match resolve_v(from, fuel) {
        Err(x) => Err(x),
        Ok(rf) => match rf.tok {
            TokV::Value(v) => match path_of(v) {
                Some(p) => Ok(seq![p]),
                None => err_at(ErrorType::Type, "expected path"@, rf.loc),
            },
            TokV::List(vals) => if fuel == 0 {
                Err(out_of_fuel())
            } else {
                list_paths(vals, rf.loc, (fuel - 1) as nat)
            },
            _ => err_at(ErrorType::Type, "expected path or list of paths"@, rf.loc),
        },
    }
}

/// The path an expression's value is.
pub open spec fn path_arg(e: ExprV, fuel: nat, reref: bool) -> Result<VirtPathView, ErrorV>
    decreases fuel, 6nat,
{
    match value_v(e, fuel) {
        Err(x) => Err(if reref { reref_v(x, e.loc) } else { x }),
        Ok(v) => match path_of(v) {
            Some(p) => Ok(p),
            None => err_at(ErrorType::Type, "expected path"@, e.loc),
        },
    }
}

/// `pb.translate { input, from, to }`: `input` moved from under the first
/// of the `from` paths it lies under to under `to`.
pub open spec fn call_translate(arg: ExprV, fuel: nat) -> Result<ExprV, ErrorV>
    decreases fuel, 8nat,
{
    match resolve_v(arg, fuel) {
        Err(x) => Err(x),
        Ok(r) => match get_item_v(r, "input"@, fuel) {
            Err(x) => Err(x),
            Ok(input) => match get_item_v(r, "from"@, fuel) {
                Err(x) => Err(x),
                Ok(from) => match get_item_v(r, "to"@, fuel) {
                    Err(x) => Err(x),
                    Ok(to) => translate_rest(input, from, to, r.loc, fuel),
                },
            },
        },
    }
}

/// What `pb.translate` gives for its fields `input`, `from` and `to`,
/// at `loc`.
pub open spec fn translate_rest(input: ExprV, from: ExprV, to: ExprV, loc: Option<LocView>, fuel: nat) -> Result<
    ExprV,
    ErrorV,
>
    decreases fuel, 7nat,
{
    match path_arg(input, fuel, true) {
        Err(x) => Err(x),
        Ok(ip) => match path_arg(to, fuel, true) {
            Err(x) => Err(x),
            Ok(tp) => match from_paths(from, fuel) {
                Err(x) => Err(x),
                Ok(fps) => match first_translation(ip, fps, tp) {
                    Some(out) => Ok(mk(TokV::Value(ValueV::Path(out, Seq::empty())), loc)),
                    None => err_at(ErrorType::Type, "Can't translate "@ + crate::path::spec_display(ip), loc),
                },
            },
        },
    }
}

/* pb.rebase */

/// `pb.rebase { path, base }`: the relative path from `base` to `path`.
pub open spec fn call_rebase(arg: ExprV, fuel: nat) -> Result<ExprV, ErrorV>
    decreases fuel, 7nat,
{
    match resolve_v(arg, fuel) {
        Err(x) => Err(x),
        Ok(r) => match get_item_v(r, "path"@, fuel) {
            Err(x) => Err(x),
            Ok(path) => match get_item_v(r, "base"@, fuel) {
                Err(x) => Err(x),
                Ok(base) => match path_arg(path, fuel, false) {
                    Err(x) => Err(x),
                    Ok(pp) => match path_arg(base, fuel, false) {
                        Err(x) => Err(x),
                        Ok(bp) => match spec_rebase(pp, bp) {
                            Some(rel) => Ok(mk(TokV::Value(ValueV::Str(rel)), r.loc)),
                            None => Err(err_v(ErrorType::Custom, rebase_msg(pp, bp))),
                        },
                    },
                },
            },
        },
    }
}

/* ops.transposeObjs */

/// The list a gathered entry holds so far.
pub open spec fn list_of(o: Option<ExprV>) -> Seq<ExprV> {
    match o {
        Some(e) => match e.tok {
            TokV::List(s) => s,
            _ => Seq::empty(),
        },
        None => Seq::empty(),
    }
}

/// `acc` with each value of the fields `fs` appended to the list under its
/// name.
pub open spec fn add_fields(acc: Seq<(Seq<char>, ExprV)>, fs: Seq<(Seq<char>, ExprV)>, loc: Option<LocView>) -> Seq<
    (Seq<char>, ExprV),
>
    decreases fs.len(),
{
    if fs.len() == 0 {
        acc
    } else {
        let prev = add_fields(acc, fs.drop_last(), loc);
        let k = fs.last().0;
        set_insert(prev, k, mk(TokV::List(list_of(set_get(prev, k)).push(fs.last().1)), loc))
    }
}

/// The fields of the objects `items` resolve to, gathered by name.
pub open spec fn gather_objs(items: Seq<ExprV>, loc: Option<LocView>, fuel: nat) -> Result<Seq<(Seq<char>, ExprV)>, ErrorV>
    decreases fuel, 2 + items.len(),
{
    if items.len() == 0 {
        Ok(Seq::empty())
    } else {
        match gather_objs(items.drop_last(), loc, fuel) {
            Err(x) => Err(x),
            Ok(acc) => match resolve_v(items.last(), fuel) {
                Err(x) => Err(x),
                Ok(ri) => match ri.tok {
                    TokV::Object(fs) => Ok(add_fields(acc, fs, loc)),
                    _ => err_at(ErrorType::Type, "expected objects, got "@ + expr_text(ri, 0), ri.loc),
                },
            },
        }
    }
}

/// `ops.transposeObjs [objects]`: one object whose fields are the lists of
/// the values each name has in the objects, in their order.
pub open spec fn call_transpose_objs(arg: ExprV, fuel: nat) -> Result<ExprV, ErrorV>
    decreases fuel, 7nat,
{
    match resolve_v(arg, fuel) {
        Err(x) => Err(x),
        Ok(r) => match r.tok {
            TokV::List(items) => if fuel == 0 {
                Err(out_of_fuel())
            } else {
                match gather_objs(items, arg.loc, (fuel - 1) as nat) {
                    Err(x) => Err(x),
                    Ok(acc) => Ok(mk(TokV::Object(acc), arg.loc)),
                }
            },
            _ => err_at(ErrorType::Type, "expected list "@ + expr_text(r, 0), r.loc),
        },
    }
}

/* Executable builtins */

fn path_arg_exec(e: &Expr, fuel: u64, reref: bool) -> (r: Result<VirtPath, Error>)
    ensures
        match r {
            Ok(p) => path_arg(e@, fuel as nat, reref) == Ok::<VirtPathView, ErrorV>(p@),
            Err(x) => path_arg(e@, fuel as nat, reref) == Err::<VirtPathView, ErrorV>(x@),
        },
    decreases fuel, 6nat,
{
    let v = match value_fuel(e, fuel) {
        Ok(v) => v,
        Err(x) => {
            return Err(if reref { x.reref(&e.0.loc) } else { x });
        },
    };
    match v {
        Value::Path { path, .. } => Ok(path),
        _ => Err(error_at(ErrorType::Type, copy_str("expected path"), &e.0.loc)),
    }
}

fn list_paths_exec(vals: &Vec<Expr>, n: usize, floc: &Option<Loc>, fuel: u64) -> (r: Result<Vec<VirtPath>, Error>)
    requires
        n <= vals.len(),
    ensures
        match r {
            Ok(ps) => list_paths(exprs_v(vals@).take(n as int), opt_loc_view(*floc), fuel as nat) == Ok::<
                Seq<VirtPathView>,
                ErrorV,
            >(ps@.map_values(|p: VirtPath| p@)),
            Err(x) => list_paths(exprs_v(vals@).take(n as int), opt_loc_view(*floc), fuel as nat) == Err::<
                Seq<VirtPathView>,
                ErrorV,
            >(x@),
        },
    decreases fuel, 2 + n,
{
    proof {
        lemma_exprs_v(vals@);
    }
    let ghost s = exprs_v(vals@).take(n as int);
    if n == 0 {
        proof {
            assert(s.len() == 0);
        }
        let out: Vec<VirtPath> = Vec::new();
        proof {
            assert(out@.map_values(|p: VirtPath| p@) =~= Seq::<VirtPathView>::empty());
        }
        return Ok(out);
    }
    proof {
        assert(s.drop_last() =~= exprs_v(vals@).take(n - 1));
        assert(s.last() == vals@[n - 1]@);
    }
    let mut ps = list_paths_exec(vals, n - 1, floc, fuel)?;
    let e = &vals[n - 1];
    let v = match value_fuel(e, fuel) {
        Ok(v) => v,
        Err(x) => {
            return Err(x.reref(&e.0.loc));
        },
    };
    match v {
        Value::Path { path, .. } => {
            let ghost old = ps@;
            let ghost pv = path@;
            ps.push(path);
            proof {
                assert(ps@.map_values(|p: VirtPath| p@) =~= old.map_values(|p: VirtPath| p@).push(pv));
            }
            Ok(ps)
        },
        _ => Err(error_at(ErrorType::Type, copy_str("expected path"), floc)),
    }
}

fn from_paths_exec(from: &Expr, fuel: u64) -> (r: Result<Vec<VirtPath>, Error>)
    ensures
        match r {
            Ok(ps) => from_paths(from@, fuel as nat) == Ok::<Seq<VirtPathView>, ErrorV>(
                ps@.map_values(|p: VirtPath| p@),
            ),
            Err(x) => from_paths(from@, fuel as nat) == Err::<Seq<VirtPathView>, ErrorV>(x@),
        },
    decreases fuel, 6nat,
{
    let rf = resolve_fuel(from, fuel)?;
    match &rf.0.tok {
        ExprType::Value(Value::Path { path, .. }) => {
            let mut out: Vec<VirtPath> = Vec::new();
            out.push(path.copy());
            proof {
                assert(out@.map_values(|p: VirtPath| p@) =~= seq![path@]);
            }
            Ok(out)
        },
        ExprType::Value(_) => Err(error_at(ErrorType::Type, copy_str("expected path"), &rf.0.loc)),
        ExprType::List(vals) => {
            if fuel == 0 {
                return Err(fuel_error());
            }
            proof {
                lemma_exprs_v(vals@);
                assert(exprs_v(vals@).take(vals@.len() as int) =~= exprs_v(vals@));
            }
            list_paths_exec(vals, vals.len(), &rf.0.loc, fuel - 1)
        },
        _ => Err(error_at(ErrorType::Type, copy_str("expected path or list of paths"), &rf.0.loc)),
    }
}

pub fn call_translate_exec(arg: &Expr, fuel: u64) -> (r: Result<Expr, Error>)
    ensures
        ev(r) == call_translate(arg@, fuel as nat),
    decreases fuel, 8nat,
{
    let r = resolve_fuel(arg, fuel)?;
    let input = get_item_fuel(&r, "input", fuel)?;
    let from = get_item_fuel(&r, "from", fuel)?;
    let to = get_item_fuel(&r, "to", fuel)?;
    translate_rest_exec(&input, &from, &to, &r.0.loc, fuel)
}

fn translate_rest_exec(input: &Expr, from: &Expr, to: &Expr, loc: &Option<Loc>, fuel: u64) -> (r: Result<Expr, Error>)
    ensures
        ev(r) == translate_rest(input@, from@, to@, opt_loc_view(*loc), fuel as nat),
    decreases fuel, 7nat,
{
    let ip = path_arg_exec(input, fuel, true)?;
    let tp = path_arg_exec(to, fuel, true)?;
    let fps = from_paths_exec(from, fuel)?;
    match find_translation(&ip, &fps, &tp) {
        Some(out) => Ok(mk_expr(ExprType::Value(Value::path(out)), copy_loc(loc))),
        None => {
            let t = ip.to_string();
            Err(error_at(ErrorType::Type, text2("Can't translate ", t.as_str()), loc))
        },
    }
}

fn find_translation(ip: &VirtPath, fps: &Vec<VirtPath>, tp: &VirtPath) -> (r: Option<VirtPath>)
    ensures
        match r {
            Some(p) => first_translation(ip@, fps@.map_values(|p: VirtPath| p@), tp@) == Some(p@),
            None => first_translation(ip@, fps@.map_values(|p: VirtPath| p@), tp@) is None,
        },
{
    let ghost fv = fps@.map_values(|p: VirtPath| p@);
    let mut i: usize = 0;
    proof {
        assert(fv.skip(0) =~= fv);
    }
    while i < fps.len()
        invariant
            i <= fps.len(),
            fv == fps@.map_values(|p: VirtPath| p@),
            first_translation(ip@, fv, tp@) == first_translation(ip@, fv.skip(i as int), tp@),
        decreases fps.len() - i,
    {
        proof {
            assert(fv.skip(i as int).drop_first() =~= fv.skip(i + 1));
            assert(fv.skip(i as int)[0] == fps@[i as int]@);
        }
        match ip.copy().translate(&fps[i], &tp) {
            Some(out) => {
                proof {
                    assert(spec_translate(ip@, fps@[i as int]@, tp@) == Some(out@));
                }
                return Some(out);
            },
            None => {},
        }
        i = i + 1;
    }
    proof {
        assert(fv.skip(i as int).len() == 0);
    }
    None
}

pub fn call_rebase_exec(arg: &Expr, fuel: u64) -> (r: Result<Expr, Error>)
    ensures
        ev(r) == call_rebase(arg@, fuel as nat),
    decreases fuel, 7nat,
{
    let r = resolve_fuel(arg, fuel)?;
    let path = get_item_fuel(&r, "path", fuel)?;
    let base = get_item_fuel(&r, "base", fuel)?;
    let pp = path_arg_exec(&path, fuel, false)?;
    let bp = path_arg_exec(&base, fuel, false)?;
    match pp.to_path_buf_rebase(&bp) {
        Ok(rel) => Ok(mk_expr(ExprType::Value(Value::String(rel)), copy_loc(&r.0.loc))),
        Err(x) => Err(x),
    }
}

fn add_fields_exec(acc: &mut Vec<(String, Expr)>, fs: &Vec<(String, Expr)>, loc: &Option<Loc>)
    ensures
        set_v(final(acc)@) == add_fields(set_v(old(acc)@), set_v(fs@), opt_loc_view(*loc)),
{
    let ghost a0 = set_v(acc@);
    let ghost fsv = set_v(fs@);
    proof {
        lemma_set_v(fs@);
        assert(fsv.take(0) =~= Seq::<(Seq<char>, ExprV)>::empty());
    }
    let mut j: usize = 0;
    while j < fs.len()
        invariant
            j <= fs.len(),
            fsv == set_v(fs@),
            fsv.len() == fs@.len(),
            set_v(acc@) == add_fields(a0, fsv.take(j as int), opt_loc_view(*loc)),
        decreases fs.len() - j,
    {
        proof {
            lemma_set_v(fs@);
            assert(fsv.take(j + 1).drop_last() =~= fsv.take(j as int));
            assert(fsv.take(j + 1).last() == (fs@[j as int].0@, fs@[j as int].1@));
        }
        let k = fs[j].0.as_str();
        let ghost prev = set_v(acc@);
        let mut items: Vec<Expr> = match find_key(acc, k) {
            Some(i) => {
                proof {
                    lemma_set_v(acc@);
                    lemma_set_find(prev, k@);
                }
                match &acc[i].1.0.tok {
                    ExprType::List(vs) => copy_exprs(vs),
                    _ => Vec::new(),
                }
            },
            None => Vec::new(),
        };
        proof {
            assert(exprs_v(items@) == list_of(set_get(prev, k@)));
        }
        let ghost before = items@;
        items.push(fs[j].1.copy());
        proof {
            assert(items@.drop_last() =~= before);
        }
        set_insert_exec(acc, copy_str(k), mk_expr(ExprType::List(items), copy_loc(loc)));
        j = j + 1;
    }
    proof {
        assert(fsv.take(fs@.len() as int) =~= fsv);
    }
}

fn gather_objs_exec(items: &Vec<Expr>, n: usize, loc: &Option<Loc>, fuel: u64) -> (r: Result<Vec<(String, Expr)>, Error>)
    requires
        n <= items.len(),
    ensures
        match r {
            Ok(acc) => gather_objs(exprs_v(items@).take(n as int), opt_loc_view(*loc), fuel as nat) == Ok::<
                Seq<(Seq<char>, ExprV)>,
                ErrorV,
            >(set_v(acc@)),
            Err(x) => gather_objs(exprs_v(items@).take(n as int), opt_loc_view(*loc), fuel as nat) == Err::<
                Seq<(Seq<char>, ExprV)>,
                ErrorV,
            >(x@),
        },
    decreases fuel, 2 + n,
{
    proof {
        lemma_exprs_v(items@);
    }
    let ghost s = exprs_v(items@).take(n as int);
    if n == 0 {
        let out: Vec<(String, Expr)> = Vec::new();
        proof {
            assert(s.len() == 0);
            assert(set_v(out@) == Seq::<(Seq<char>, ExprV)>::empty());
        }
        return Ok(out);
    }
    proof {
        assert(s.drop_last() =~= exprs_v(items@).take(n - 1));
        assert(s.last() == items@[n - 1]@);
    }
    let mut acc = gather_objs_exec(items, n - 1, loc, fuel)?;
    let ri = resolve_fuel(&items[n - 1], fuel)?;
    match &ri.0.tok {
        ExprType::Object(fs) => {
            add_fields_exec(&mut acc, fs, loc);
            Ok(acc)
        },
        _ => {
            let t = ri.to_text();
            Err(error_at(ErrorType::Type, text2("expected objects, got ", t.as_str()), &ri.0.loc))
        },
    }
}

pub fn call_transpose_objs_exec(arg: &Expr, fuel: u64) -> (r: Result<Expr, Error>)
    ensures
        ev(r) == call_transpose_objs(arg@, fuel as nat),
    decreases fuel, 7nat,
{
    let r = resolve_fuel(arg, fuel)?;
    match &r.0.tok {
        ExprType::List(items) => {
            if fuel == 0 {
                return Err(fuel_error());
            }
            proof {
                lemma_exprs_v(items@);
                assert(exprs_v(items@).take(items@.len() as int) =~= exprs_v(items@));
            }
            let acc = gather_objs_exec(items, items.len(), &arg.0.loc, fuel - 1)?;
            Ok(mk_expr(ExprType::Object(acc), copy_loc(&arg.0.loc)))
        },
        _ => {
            let t = r.to_text();
            Err(error_at(ErrorType::Type, text2("expected list ", t.as_str()), &r.0.loc))
        },
    }
}

/* pb.rule */

/// The part of a ninja argument a value makes.
pub open spec fn part_of(v: ValueV) -> Option<PartView> {
    match v {
        ValueV::Int(n) => Some(PartView::Const(int_text(n as int))),
        ValueV::Str(t) => Some(PartView::Const(t)),
        ValueV::BuildVar(t) => Some(PartView::Var(t)),
        ValueV::Path(p, _) => Some(PartView::Path(p)),
        _ => None,
    }
}

/// The ninja argument a value makes: a constant, a variable, a path, or
/// a concatenation of such parts; booleans and nested concatenations make
/// none.
pub open spec fn arg_of(v: ValueV) -> Option<ArgView> {
    match v {
        ValueV::Int(n) => Some(ArgView::Const(int_text(n as int))),
        ValueV::Str(t) => Some(ArgView::Const(t)),
        ValueV::BuildVar(t) => Some(ArgView::Var(t)),
        ValueV::Path(p, _) => Some(ArgView::Path(p)),
        ValueV::BuildConcat(vs) => if forall|i: int| 0 <= i < vs.len() ==> (#[trigger] part_of(vs[i])) is Some {
            Some(ArgView::Concat(Seq::new(vs.len(), |i: int| part_of(vs[i])->0)))
        } else {
            None
        },
        ValueV::Bool(_) => None,
    }
}

/// The variable a rule parameter stands for in the rule's commands:
/// `input` and `output` are ninja's `in` and `out`.
pub open spec fn placeholder_name(name: Seq<char>) -> Seq<char> {
    if name == "input"@ {
        "in"@
    } else if name == "output"@ {
        "out"@
    } else {
        name
    }
}

/// The placeholder object a rule function is called with: each field of
/// its pattern bound to the ninja variable of that name. Fields with
/// defaults are refused.
pub open spec fn rule_params(items: Seq<(Seq<char>, MatcherV, Option<ExprV>)>, loc: Option<LocView>) -> Result<
    Seq<(Seq<char>, ExprV)>,
    ErrorV,
>
    decreases items.len(),
{
    if items.len() == 0 {
        Ok(Seq::empty())
    } else {
        match rule_params(items.drop_last(), loc) {
            Err(x) => Err(x),
            Ok(ph) => {
                let name = items.last().0;
                if items.last().2 is Some {
                    Err(err_v(ErrorType::Type, "pb.rule does not support default values for "@ + name))
                } else {
                    Ok(set_insert(ph, name, mk(TokV::Value(ValueV::BuildVar(placeholder_name(name))), loc)))
                }
            },
        }
    }
}

/// The ninja arguments of the values that `attrs` resolve to.
pub open spec fn attr_args(attrs: Seq<ExprV>, fuel: nat) -> Result<Seq<ArgView>, ErrorV>
    decreases fuel, 2 + attrs.len(),
{
    if attrs.len() == 0 {
        Ok(Seq::empty())
    } else {
        match attr_args(attrs.drop_last(), fuel) {
            Err(x) => Err(x),
            Ok(args) => match resolve_v(attrs.last(), fuel) {
                Err(x) => Err(x),
                Ok(ra) => match ra.tok {
                    TokV::Value(a) => match arg_of(a) {
                        Some(g) => Ok(args.push(g)),
                        None => Err(err_v(ErrorType::Type, "Rule attr is of invalid type: "@ + value_text(a))),
                    },
                    _ => Err(err_v(ErrorType::Type, "Rule attr is not a value"@)),
                },
            },
        }
    }
}

/// The items a rule variable's expression stands for: the items of a
/// list, or a single value.
pub open spec fn var_items(re: ExprV, loc: Option<LocView>) -> Option<Seq<ExprV>> {
    match re.tok {
        TokV::List(exprs) => Some(exprs),
        TokV::Value(v) => Some(seq![mk(TokV::Value(v), loc)]),
        _ => None,
    }
}

/// The ninja variables of the object a rule function returned.
pub open spec fn rule_vars(objargs: Seq<(Seq<char>, ExprV)>, loc: Option<LocView>, fuel: nat) -> Result<
    Seq<(Seq<char>, Seq<ArgView>)>,
    ErrorV,
>
    decreases fuel, 2 + objargs.len(),
{
    if objargs.len() == 0 {
        Ok(Seq::empty())
    } else {
        match rule_vars(objargs.drop_last(), loc, fuel) {
            Err(x) => Err(x),
            Ok(vars) => match resolve_v(objargs.last().1, fuel) {
                Err(x) => Err(x),
                Ok(re) => match var_items(re, loc) {
                    None => Err(err_v(ErrorType::Type, "pb.rule variables need to be values or lists"@)),
                    Some(attrs) => if fuel == 0 {
                        Err(out_of_fuel())
                    } else {
                        match attr_args(attrs, (fuel - 1) as nat) {
                            Err(x) => Err(x),
                            Ok(args) => Ok(vars.push((objargs.last().0, args))),
                        }
                    },
                },
            },
        }
    }
}

/// `pb.rule` after its argument resolved to a function of an object
/// pattern with the fields `items`.
pub open spec fn rule_rest(r: ExprV, items: Seq<(Seq<char>, MatcherV, Option<ExprV>)>, fuel: nat) -> Result<
    ExprV,
    ErrorV,
>
    decreases fuel, 7nat,
{
    match rule_params(items, r.loc) {
        Err(x) => Err(x),
        Ok(ph) => match resolve_v(
            mk(TokV::FuncCall(Box::new(mk(TokV::Object(ph), r.loc)), Box::new(r)), r.loc),
            fuel,
        ) {
            Err(x) => Err(x),
            Ok(rr) => match rr.tok {
                TokV::Object(objargs) => if fuel == 0 {
                    Err(out_of_fuel())
                } else {
                    match rule_vars(objargs, r.loc, (fuel - 1) as nat) {
                        Err(x) => Err(x),
                        Ok(vars) => Ok(
                            mk(TokV::FuncDefBuiltin(BuiltinV::PbBuild(RuleV { args: set_keys(ph), vars })), r.loc),
                        ),
                    }
                },
                _ => Err(err_v(ErrorType::Type, "pb.rule function needs to return an object, got "@ + expr_text(rr, 0))),
            },
        },
    }
}

/// The fields of the pattern of a function of an object pattern.
pub open spec fn rule_items(t: TokV) -> Option<Seq<(Seq<char>, MatcherV, Option<ExprV>)>> {
    match t {
        TokV::FuncDef(MatcherV::Object(items, _), _) => Some(items),
        _ => None,
    }
}

fn rule_items_exec(t: &ExprType) -> (r: Option<Vec<(String, Matcher, Option<Expr>)>>)
    ensures
        match r {
            Some(v) => rule_items(t@) == Some(omatch_v(v@)),
            None => rule_items(t@) is None,
        },
{
    match t {
        ExprType::FuncDef(m, _) => match m {
            Matcher::Object(items, _) => Some(crate::expr::copy_omatch(items)),
            _ => None,
        },
        _ => None,
    }
}

/// `pb.rule f`: calls `f`, a function of an object pattern, with each
/// field bound to the ninja variable of its name, and makes the object it
/// returns the variables of a rule; gives the build function of that rule.
pub open spec fn call_rule(arg: ExprV, fuel: nat) -> Result<ExprV, ErrorV>
    decreases fuel, 8nat,
{
    match resolve_v(arg, fuel) {
        Err(x) => Err(x),
        Ok(r) => match rule_items(r.tok) {
            Some(items) => rule_rest(r, items, fuel),
            None => Err(err_v(ErrorType::Type, "pb.rule needs to take a pattern function as argument"@)),
        },
    }
}

fn part_exec(v: &Value) -> (r: Option<NinjaPart>)
    ensures
        match r {
            Some(p) => part_of(v@) == Some(p@),
            None => part_of(v@) is None,
        },
{
    match v {
        Value::Int(n) => {
            let mut t = String::new();
            push_int(&mut t, *n);
            Some(NinjaPart::Const(t))
        },
        Value::String(t) => Some(NinjaPart::Const(copy_str(t.as_str()))),
        Value::BuildVar(t) => Some(NinjaPart::Var(copy_str(t.as_str()))),
        Value::Path { path, .. } => Some(NinjaPart::Path(path.copy())),
        _ => None,
    }
}

/// The ninja argument a value makes.
pub fn arg_exec(v: &Value) -> (r: Option<NinjaArg>)
    ensures
        match r {
            Some(a) => arg_of(v@) == Some(a@),
            None => arg_of(v@) is None,
        },
{
    match v {
        Value::Int(n) => {
            let mut t = String::new();
            push_int(&mut t, *n);
            Some(NinjaArg::Const(t))
        },
        Value::String(t) => Some(NinjaArg::Const(copy_str(t.as_str()))),
        Value::BuildVar(t) => Some(NinjaArg::Var(copy_str(t.as_str()))),
        Value::Path { path, .. } => Some(NinjaArg::Path(path.copy())),
        Value::Bool(_) => None,
        Value::BuildConcat(vs) => {
            let ghost vv = values_view(vs@);
            proof {
                lemma_values_view_map(vs@);
            }
            let mut parts: Vec<NinjaPart> = Vec::new();
            let mut i: usize = 0;
            proof {
                assert(v@ == ValueV::BuildConcat(vv));
            }
            while i < vs.len()
                invariant
                    v@ == ValueV::BuildConcat(vv),
                    i <= vs.len(),
                    vv == values_view(vs@),
                    vv == vs@.map_values(|x: Value| x@),
                    parts@.len() == i,
                    forall|j: int| 0 <= j < i ==> (#[trigger] part_of(vv[j])) == Some(parts@[j]@),
                decreases vs.len() - i,
            {
                match part_exec(&vs[i]) {
                    Some(p) => {
                        parts.push(p);
                    },
                    None => {
                        proof {
                            assert(v@ == ValueV::BuildConcat(vv));
                            assert(part_of(vv[i as int]) is None);
                        }
                        return None;
                    },
                }
                i = i + 1;
            }
            proof {
                assert(v@ == ValueV::BuildConcat(vv));
                assert(parts_view(parts@) =~= Seq::new(vv.len(), |j: int| part_of(vv[j])->0));
            }
            Some(NinjaArg::Concat(parts))
        },
    }
}

fn attr_args_exec(attrs: &Vec<Expr>, n: usize, fuel: u64) -> (r: Result<Vec<NinjaArg>, Error>)
    requires
        n <= attrs.len(),
    ensures
        match r {
            Ok(a) => attr_args(exprs_v(attrs@).take(n as int), fuel as nat) == Ok::<Seq<ArgView>, ErrorV>(args_view(a@)),
            Err(x) => attr_args(exprs_v(attrs@).take(n as int), fuel as nat) == Err::<Seq<ArgView>, ErrorV>(x@),
        },
    decreases fuel, 2 + n,
{
    proof {
        lemma_exprs_v(attrs@);
    }
    let ghost s = exprs_v(attrs@).take(n as int);
    if n == 0 {
        let out: Vec<NinjaArg> = Vec::new();
        proof {
            assert(s.len() == 0);
            assert(args_view(out@) =~= Seq::<ArgView>::empty());
        }
        return Ok(out);
    }
    proof {
        assert(s.drop_last() =~= exprs_v(attrs@).take(n - 1));
        assert(s.last() == attrs@[n - 1]@);
    }
    let mut out = attr_args_exec(attrs, n - 1, fuel)?;
    let ra = resolve_fuel(&attrs[n - 1], fuel)?;
    match &ra.0.tok {
        ExprType::Value(a) => match arg_exec(a) {
            Some(g) => {
                let ghost old = out@;
                out.push(g);
                proof {
                    assert(args_view(out@) =~= args_view(old).push(g@));
                }
                Ok(out)
            },
            None => {
                let t = a.to_text();
                Err(Error::new(ErrorType::Type, text2("Rule attr is of invalid type: ", t.as_str())))
            },
        },
        _ => Err(Error::new(ErrorType::Type, copy_str("Rule attr is not a value"))),
    }
}

fn rule_vars_exec(objargs: &Vec<(String, Expr)>, n: usize, loc: &Option<Loc>, fuel: u64) -> (r: Result<
    Vec<(String, Vec<NinjaArg>)>,
    Error,
>)
    requires
        n <= objargs.len(),
    ensures
        match r {
            Ok(v) => rule_vars(set_v(objargs@).take(n as int), opt_loc_view(*loc), fuel as nat) == Ok::<
                Seq<(Seq<char>, Seq<ArgView>)>,
                ErrorV,
            >(named_args_view(v@)),
            Err(x) => rule_vars(set_v(objargs@).take(n as int), opt_loc_view(*loc), fuel as nat) == Err::<
                Seq<(Seq<char>, Seq<ArgView>)>,
                ErrorV,
            >(x@),
        },
    decreases fuel, 2 + n,
{
    proof {
        lemma_set_v(objargs@);
    }
    let ghost s = set_v(objargs@).take(n as int);
    if n == 0 {
        let out: Vec<(String, Vec<NinjaArg>)> = Vec::new();
        proof {
            assert(s.len() == 0);
            assert(named_args_view(out@) =~= Seq::<(Seq<char>, Seq<ArgView>)>::empty());
        }
        return Ok(out);
    }
    proof {
        assert(s.drop_last() =~= set_v(objargs@).take(n - 1));
        assert(s.last() == (objargs@[n - 1].0@, objargs@[n - 1].1@));
    }
    let mut out = rule_vars_exec(objargs, n - 1, loc, fuel)?;
    let re = resolve_fuel(&objargs[n - 1].1, fuel)?;
    let attrs: Vec<Expr> = match &re.0.tok {
        ExprType::List(exprs) => copy_exprs(exprs),
        ExprType::Value(v) => {
            let mut a: Vec<Expr> = Vec::new();
            a.push(mk_expr(ExprType::Value(v.copy()), copy_loc(loc)));
            proof {
                assert(a@.drop_last() =~= Seq::<Expr>::empty());
                assert(exprs_v(a@.drop_last()) == Seq::<ExprV>::empty());
                assert(exprs_v(a@) =~= seq![a@[0]@]);
            }
            a
        },
        _ => {
            return Err(Error::new(ErrorType::Type, copy_str("pb.rule variables need to be values or lists")));
        },
    };
    if fuel == 0 {
        return Err(fuel_error());
    }
    proof {
        lemma_exprs_v(attrs@);
        assert(exprs_v(attrs@).take(attrs@.len() as int) =~= exprs_v(attrs@));
    }
    let args = attr_args_exec(&attrs, attrs.len(), fuel - 1)?;
    let ghost old = out@;
    out.push((copy_str(objargs[n - 1].0.as_str()), args));
    proof {
        assert(named_args_view(out@) =~= named_args_view(old).push((objargs@[n - 1].0@, args_view(args@))));
    }
    Ok(out)
}

fn rule_params_exec(items: &Vec<(String, Matcher, Option<Expr>)>, n: usize, loc: &Option<Loc>) -> (r: Result<
    Vec<(String, Expr)>,
    Error,
>)
    requires
        n <= items.len(),
    ensures
        match r {
            Ok(v) => rule_params(omatch_v(items@).take(n as int), opt_loc_view(*loc)) == Ok::<
                Seq<(Seq<char>, ExprV)>,
                ErrorV,
            >(set_v(v@)),
            Err(x) => rule_params(omatch_v(items@).take(n as int), opt_loc_view(*loc)) == Err::<
                Seq<(Seq<char>, ExprV)>,
                ErrorV,
            >(x@),
        },
    decreases n,
{
    proof {
        lemma_omatch_v(items@);
    }
    let ghost s = omatch_v(items@).take(n as int);
    if n == 0 {
        let out: Vec<(String, Expr)> = Vec::new();
        proof {
            assert(s.len() == 0);
            assert(set_v(out@) == Seq::<(Seq<char>, ExprV)>::empty());
        }
        return Ok(out);
    }
    proof {
        assert(s.drop_last() =~= omatch_v(items@).take(n - 1));
        assert(s.last() == (items@[n - 1].0@, items@[n - 1].1@, opt_v(items@[n - 1].2)));
    }
    let mut out = rule_params_exec(items, n - 1, loc)?;
    let name = items[n - 1].0.as_str();
    if items[n - 1].2.is_some() {
        return Err(Error::new(ErrorType::Type, text2("pb.rule does not support default values for ", name)));
    }
    let pname = if crate::text::str_eq(name, "input") {
        copy_str("in")
    } else if crate::text::str_eq(name, "output") {
        copy_str("out")
    } else {
        copy_str(name)
    };
    set_insert_exec(&mut out, copy_str(name), mk_expr(ExprType::Value(Value::BuildVar(pname)), copy_loc(loc)));
    Ok(out)
}

fn keys_of(s: &Vec<(String, Expr)>) -> (r: Vec<String>)
    ensures
        r.deep_view() == set_keys(set_v(s@)),
{
    proof {
        lemma_set_v(s@);
    }
    let mut out: Vec<String> = Vec::new();
    let mut i: usize = 0;
    while i < s.len()
        invariant
            i <= s.len(),
            set_v(s@) == s@.map_values(|p: (String, Expr)| (p.0@, p.1@)),
            out.deep_view() == set_keys(set_v(s@)).take(i as int),
        decreases s.len() - i,
    {
        let ghost old = out.deep_view();
        out.push(copy_str(s[i].0.as_str()));
        proof {
            assert(out.deep_view() =~= old.push(s@[i as int].0@));
            assert(set_keys(set_v(s@)).take(i + 1) =~= set_keys(set_v(s@)).take(i as int).push(s@[i as int].0@));
        }
        i = i + 1;
    }
    proof {
        assert(set_keys(set_v(s@)).take(s@.len() as int) =~= set_keys(set_v(s@)));
    }
    out
}

fn rule_rest_exec(r: Expr, items: &Vec<(String, Matcher, Option<Expr>)>, fuel: u64) -> (res: Result<Expr, Error>)
    ensures
        ev(res) == rule_rest(r@, omatch_v(items@), fuel as nat),
    decreases fuel, 7nat,
{
    proof {
        lemma_omatch_v(items@);
        assert(omatch_v(items@).take(items@.len() as int) =~= omatch_v(items@));
    }
    let loc = copy_loc(&r.0.loc);
    let ph = rule_params_exec(items, items.len(), &loc)?;
    let names = keys_of(&ph);
    let call = mk_expr(
        ExprType::FuncCall(mk_expr(ExprType::Object(ph), copy_loc(&loc)), r),
        copy_loc(&loc),
    );
    let rr = resolve_fuel(&call, fuel)?;
    match &rr.0.tok {
        ExprType::Object(objargs) => {
            if fuel == 0 {
                return Err(fuel_error());
            }
            proof {
                lemma_set_v(objargs@);
                assert(set_v(objargs@).take(objargs@.len() as int) =~= set_v(objargs@));
            }
            let vars = rule_vars_exec(objargs, objargs.len(), &loc, fuel - 1)?;
            let rule = PbBuildRule::new(names, vars);
            Ok(mk_expr(ExprType::FuncDefBuiltin(Builtin::PbBuild(rule)), loc))
        },
        _ => {
            let t = rr.to_text();
            Err(Error::new(ErrorType::Type, text2("pb.rule function needs to return an object, got ", t.as_str())))
        },
    }
}

#[verifier::spinoff_prover]
pub fn call_rule_exec(arg: &Expr, fuel: u64) -> (res: Result<Expr, Error>)
    ensures
        ev(res) == call_rule(arg@, fuel as nat),
    decreases fuel, 8nat,
{
    let r = resolve_fuel(arg, fuel)?;
    let items = match rule_items_exec(&r.0.tok) {
        Some(items) => items,
        None => {
            return Err(Error::new(ErrorType::Type, copy_str("pb.rule needs to take a pattern function as argument")));
        },
    };
    rule_rest_exec(r, &items, fuel)
}

/* The build function of a rule */

/// The builds that a value needs done first: those a path depends on.
pub open spec fn deps_of(v: ValueV) -> Seq<BuildRecV> {
    match v {
        ValueV::Path(_, d) => d,
        _ => Seq::empty(),
    }
}

pub open spec fn set_values(fs: Seq<(Seq<char>, ExprV)>) -> Seq<ExprV> {
    fs.map_values(|p: (Seq<char>, ExprV)| p.1)
}

/// The items of a build argument: a value itself, the items of a list, or
/// the values of the fields of an object.
pub open spec fn arg_items(re: ExprV) -> Option<Seq<ExprV>> {
    match re.tok {
        TokV::Value(v) => Some(seq![mk(TokV::Value(v), re.loc)]),
        TokV::List(exprs) => Some(exprs),
        TokV::Object(fs) => Some(set_values(fs)),
        _ => None,
    }
}

/// The paths `items` resolve to, with the builds they depend on.
pub open spec fn item_paths(items: Seq<ExprV>, field: Seq<char>, fuel: nat) -> Result<
    (Seq<VirtPathView>, Seq<BuildRecV>),
    ErrorV,
>
    decreases fuel, 2 + items.len(),
{
    if items.len() == 0 {
        Ok((Seq::empty(), Seq::empty()))
    } else {
        match item_paths(items.drop_last(), field, fuel) {
            Err(x) => Err(x),
            Ok((ps, ds)) => match resolve_v(items.last(), fuel) {
                Err(x) => Err(x),
                Ok(ri) => match ri.tok {
                    TokV::Value(ValueV::Path(p, d)) => Ok((ps.push(p), ds + d)),
                    _ => Err(err_v(ErrorType::Type, "incompatible type in build arg "@ + field)),
                },
            },
        }
    }
}

/// A build argument that names paths: a path, or a list or object of
/// paths.
pub open spec fn build_arg_paths(e: ExprV, field: Seq<char>, fuel: nat) -> Result<
    (Seq<VirtPathView>, Seq<BuildRecV>),
    ErrorV,
>
    decreases fuel, 6nat,
{
    match resolve_v(e, fuel) {
        Err(x) => Err(x),
        Ok(re) => match arg_items(re) {
            None => Err(err_v(ErrorType::Type, "field "@ + field + " is not a value, list, or object"@)),
            Some(items) => if fuel == 0 {
                Err(out_of_fuel())
            } else {
                item_paths(items, field, (fuel - 1) as nat)
            },
        },
    }
}

/// The ninja arguments `items` resolve to, with the builds they depend on.
pub open spec fn item_ninja(items: Seq<ExprV>, field: Seq<char>, fuel: nat) -> Result<
    (Seq<ArgView>, Seq<BuildRecV>),
    ErrorV,
>
    decreases fuel, 2 + items.len(),
{
    if items.len() == 0 {
        Ok((Seq::empty(), Seq::empty()))
    } else {
        match item_ninja(items.drop_last(), field, fuel) {
            Err(x) => Err(x),
            Ok((gs, ds)) => match resolve_v(items.last(), fuel) {
                Err(x) => Err(x),
                Ok(ri) => match ri.tok {
                    TokV::Value(a) => match arg_of(a) {
                        Some(g) => Ok((gs.push(g), ds + deps_of(a))),
                        None => Err(err_v(ErrorType::Type, "Rule attr is of invalid type: "@ + value_text(a))),
                    },
                    _ => Err(err_v(ErrorType::Type, "incompatible type in build arg "@ + field)),
                },
            },
        }
    }
}

/// Any other build argument: a value or a list of values, as ninja
/// arguments.
pub open spec fn build_arg_ninja(e: ExprV, field: Seq<char>, fuel: nat) -> Result<
    (Seq<ArgView>, Seq<BuildRecV>),
    ErrorV,
>
    decreases fuel, 6nat,
{
    match resolve_v(e, fuel) {
        Err(x) => Err(x),
        Ok(re) => match re.tok {
            TokV::List(exprs) => if fuel == 0 {
                Err(out_of_fuel())
            } else {
                item_ninja(exprs, field, (fuel - 1) as nat)
            },
            TokV::Value(v) => if fuel == 0 {
                Err(out_of_fuel())
            } else {
                item_ninja(seq![mk(TokV::Value(v), re.loc)], field, (fuel - 1) as nat)
            },
            _ => Err(err_v(ErrorType::Type, "field "@ + field + " is not a list or value"@)),
        },
    }
}

/// How the outputs of a build are given back: as the one path, as a list,
/// or as an object with these field names.
pub enum OutShape {
    Single,
    List,
    Fields(Seq<Seq<char>>),
}

/// The output paths `items` resolve to.
pub open spec fn out_items(items: Seq<ExprV>, fuel: nat) -> Result<Seq<VirtPathView>, ErrorV>
    decreases fuel, 2 + items.len(),
{
    if items.len() == 0 {
        Ok(Seq::empty())
    } else {
        match out_items(items.drop_last(), fuel) {
            Err(x) => Err(x),
            Ok(ps) => match resolve_v(items.last(), fuel) {
                Err(x) => Err(x),
                Ok(ri) => match ri.tok {
                    TokV::Value(ValueV::Path(p, _)) => Ok(ps.push(p)),
                    _ => Err(err_v(ErrorType::Type, "incompatible type in build arg 'output' - "@ + expr_text(ri, 0))),
                },
            },
        }
    }
}

pub open spec fn out_shape(re: ExprV) -> Option<OutShape> {
    match re.tok {
        TokV::Value(_) => Some(OutShape::Single),
        TokV::List(_) => Some(OutShape::List),
        TokV::Object(fs) => Some(OutShape::Fields(set_keys(fs))),
        _ => None,
    }
}

/// The `output` argument: its paths, and the shape they are given back in.
pub open spec fn output_paths(e: ExprV, fuel: nat) -> Result<(Seq<VirtPathView>, OutShape), ErrorV>
    decreases fuel, 6nat,
{
    match resolve_v(e, fuel) {
        Err(x) => Err(x),
        Ok(re) => match (arg_items(re), out_shape(re)) {
            (Some(items), Some(shape)) => if fuel == 0 {
                Err(out_of_fuel())
            } else {
                match out_items(items, (fuel - 1) as nat) {
                    Err(x) => Err(x),
                    Ok(ps) => Ok((ps, shape)),
                }
            },
            _ => err_at(ErrorType::Type, "output must be a value, list, or object"@, re.loc),
        },
    }
}

/// What the arguments of a build have gathered.
pub struct BuildAcc {
    pub inputs: Seq<VirtPathView>,
    pub outputs: Option<(Seq<VirtPathView>, OutShape)>,
    pub args: Seq<(Seq<char>, Seq<ArgView>)>,
    pub dep_builds: Seq<BuildRecV>,
}

/// The rule arguments `names` read from the argument object `obj`:
/// `input` as paths, `output` as paths and a shape, any other as ninja
/// arguments; each missing one refused.
pub open spec fn build_args(names: Seq<Seq<char>>, obj: Seq<(Seq<char>, ExprV)>, acc0: BuildAcc, fuel: nat) -> Result<
    BuildAcc,
    ErrorV,
>
    decreases fuel, 2 + names.len(),
{
    if names.len() == 0 {
        Ok(acc0)
    } else {
        match build_args(names.drop_last(), obj, acc0, fuel) {
            Err(x) => Err(x),
            Ok(acc) => {
                let name = names.last();
                match set_get(obj, name) {
                    None => Err(err_v(ErrorType::Type, "Can't unpack arg_name"@)),
                    Some(e) => if fuel == 0 {
                        Err(out_of_fuel())
                    } else if name == "input"@ {
                        match build_arg_paths(e, "input"@, (fuel - 1) as nat) {
                            Err(x) => Err(x),
                            Ok((ps, ds)) => Ok(BuildAcc { inputs: ps, dep_builds: acc.dep_builds + ds, ..acc }),
                        }
                    } else if name == "output"@ {
                        match output_paths(e, (fuel - 1) as nat) {
                            Err(x) => Err(x),
                            Ok(o) => Ok(BuildAcc { outputs: Some(o), ..acc }),
                        }
                    } else {
                        match build_arg_ninja(e, name, (fuel - 1) as nat) {
                            Err(x) => Err(x),
                            Ok((gs, ds)) => Ok(
                                BuildAcc { args: acc.args.push((name, gs)), dep_builds: acc.dep_builds + ds, ..acc },
                            ),
                        }
                    },
                }
            },
        }
    }
}

proof fn lemma_concat_contains<A>(a: Seq<A>, b: Seq<A>)
    ensures
        forall|x: A| a.contains(x) ==> #[trigger] (a + b).contains(x),
        forall|x: A| b.contains(x) ==> #[trigger] (a + b).contains(x),
{
    assert forall|x: A| a.contains(x) implies #[trigger] (a + b).contains(x) by {
        let i = choose|i: int| 0 <= i < a.len() && a[i] == x;
        assert((a + b)[i] == x);
    }
    assert forall|x: A| b.contains(x) implies #[trigger] (a + b).contains(x) by {
        let i = choose|i: int| 0 <= i < b.len() && b[i] == x;
        assert((a + b)[a.len() + i] == x);
    }
}

/// The paths of a build argument come one per item, each the path the
/// item resolves to, and the builds gathered include every build that any
/// of those paths depends on.
pub proof fn lemma_item_paths_deps(items: Seq<ExprV>, field: Seq<char>, fuel: nat)
    ensures
        item_paths(items, field, fuel) matches Ok((ps, ds)) ==> ps.len() == items.len() && forall|i: int|
            0 <= i < items.len() ==> (resolve_v(#[trigger] items[i], fuel) matches Ok(ri) && ri.tok matches TokV::Value(
                ValueV::Path(p, d),
            ) && p == ps[i] && forall|b: BuildRecV| d.contains(b) ==> ds.contains(b)),
    decreases items.len(),
{
    if items.len() > 0 {
        let dl = items.drop_last();
        lemma_item_paths_deps(dl, field, fuel);
        if let Ok((ps, ds)) = item_paths(items, field, fuel) {
            let (ps0, ds0) = item_paths(dl, field, fuel)->Ok_0;
            let ri = resolve_v(items.last(), fuel)->Ok_0;
            let d = ri.tok->Value_0->Path_1;
            lemma_concat_contains(ds0, d);
            assert forall|i: int| 0 <= i < items.len() implies (resolve_v(#[trigger] items[i], fuel) matches Ok(ri)
                && ri.tok matches TokV::Value(ValueV::Path(p, d)) && p == ps[i] && forall|b: BuildRecV| d.contains(b)
                ==> ds.contains(b)) by {
                if i < dl.len() {
                    assert(items[i] == dl[i]);
                } else {
                    assert(items[i] == items.last());
                }
            }
        }
    }
}

/// Every build of `a` is among `b`.
#[verifier::opaque]
pub open spec fn keeps_builds(a: Seq<BuildRecV>, b: Seq<BuildRecV>) -> bool {
    forall|x: BuildRecV| a.contains(x) ==> b.contains(x)
}

/// The builds that the paths of the object's `input` argument depend on
/// are among `deps`.
pub open spec fn input_deps_in(obj: Seq<(Seq<char>, ExprV)>, fuel: nat, deps: Seq<BuildRecV>) -> bool {
    fuel > 0 && (set_get(obj, "input"@) matches Some(e) && build_arg_paths(e, "input"@, (fuel - 1) as nat) matches Ok(
        (ps, ds),
    ) && keeps_builds(ds, deps))
}

proof fn lemma_keeps_builds(a: Seq<BuildRecV>, b: Seq<BuildRecV>, c: Seq<BuildRecV>)
    ensures
        keeps_builds(a, a),
        keeps_builds(a, a + b),
        keeps_builds(b, a + b),
        keeps_builds(a, b) && keeps_builds(b, c) ==> keeps_builds(a, c),
{
    reveal(keeps_builds);
    lemma_concat_contains(a, b);
}

/// One step of reading the arguments: the builds gathered so far stay,
/// and an `input` argument adds the builds its paths depend on.
#[verifier::spinoff_prover]
proof fn lemma_build_args_step(names: Seq<Seq<char>>, obj: Seq<(Seq<char>, ExprV)>, acc0: BuildAcc, fuel: nat)
    requires
        names.len() > 0,
    ensures
        build_args(names, obj, acc0, fuel) matches Ok(acc) ==> (build_args(names.drop_last(), obj, acc0, fuel) matches Ok(
            prev,
        ) && keeps_builds(prev.dep_builds, acc.dep_builds) && (names.last() == "input"@ ==> input_deps_in(
            obj,
            fuel,
            acc.dep_builds,
        ))),
{
    if let Ok(acc) = build_args(names, obj, acc0, fuel) {
        let prev = build_args(names.drop_last(), obj, acc0, fuel)->Ok_0;
        let name = names.last();
        let e = set_get(obj, name)->Some_0;
        if name == "input"@ {
            let ds = build_arg_paths(e, "input"@, (fuel - 1) as nat)->Ok_0.1;
            assert(acc.dep_builds == prev.dep_builds + ds);
            lemma_keeps_builds(prev.dep_builds, ds, acc.dep_builds);
            lemma_keeps_builds(ds, prev.dep_builds, acc.dep_builds);
        } else if name == "output"@ {
            assert(acc.dep_builds == prev.dep_builds);
            lemma_keeps_builds(prev.dep_builds, prev.dep_builds, prev.dep_builds);
        } else {
            let ds = build_arg_ninja(e, name, (fuel - 1) as nat)->Ok_0.1;
            assert(acc.dep_builds == prev.dep_builds + ds);
            lemma_keeps_builds(prev.dep_builds, ds, acc.dep_builds);
        }
    }
}

/// Reading the arguments of a build keeps every build gathered before and
/// adds every build that an input path depends on, so the build record
/// carries the builds that produce its inputs.
pub proof fn lemma_build_args_keeps_deps(names: Seq<Seq<char>>, obj: Seq<(Seq<char>, ExprV)>, acc0: BuildAcc, fuel: nat)
    ensures
        build_args(names, obj, acc0, fuel) matches Ok(acc) ==> keeps_builds(acc0.dep_builds, acc.dep_builds) && (
        names.contains("input"@) ==> input_deps_in(obj, fuel, acc.dep_builds)),
    decreases names.len(),
{
    if names.len() == 0 {
        lemma_keeps_builds(acc0.dep_builds, acc0.dep_builds, acc0.dep_builds);
    } else {
        let dn = names.drop_last();
        lemma_build_args_keeps_deps(dn, obj, acc0, fuel);
        lemma_build_args_step(names, obj, acc0, fuel);
        if let Ok(acc) = build_args(names, obj, acc0, fuel) {
            let prev = build_args(dn, obj, acc0, fuel)->Ok_0;
            lemma_keeps_builds(acc0.dep_builds, prev.dep_builds, acc.dep_builds);
            if names.contains("input"@) && names.last() != "input"@ {
                let k = choose|k: int| 0 <= k < names.len() && names[k] == "input"@;
                assert(k < dn.len());
                assert(dn[k] == "input"@);
                assert(dn.contains("input"@));
                let ds = build_arg_paths(set_get(obj, "input"@)->Some_0, "input"@, (fuel - 1) as nat)->Ok_0.1;
                lemma_keeps_builds(ds, prev.dep_builds, acc.dep_builds);
            }
        }
    }
}

/// An output path of `build`, at `loc`.
pub open spec fn out_expr(p: VirtPathView, build: BuildRecV, loc: Option<LocView>) -> ExprV {
    mk(TokV::Value(ValueV::Path(p, seq![build])), loc)
}

/// The implicit dependencies a build takes from `deps` when its rule has
/// no argument of that name.
pub open spec fn build_deps(rule: RuleV, obj: Seq<(Seq<char>, ExprV)>, fuel: nat) -> Result<
    (Seq<VirtPathView>, Seq<BuildRecV>),
    ErrorV,
>
    decreases fuel, 7nat,
{
    if !rule.args.contains("deps"@) && set_get(obj, "deps"@) is Some {
        build_arg_paths(set_get(obj, "deps"@)->0, "deps"@, fuel)
    } else {
        Ok((Seq::empty(), Seq::empty()))
    }
}

/// The build of `rule` described by the argument object `obj` (of the
/// resolved argument `r`), and its outputs in the shape `output` was given.
pub open spec fn build_rest(rule: RuleV, obj: Seq<(Seq<char>, ExprV)>, loc: Option<LocView>, fuel: nat) -> Result<
    ExprV,
    ErrorV,
>
    decreases fuel, 8nat,
{
    match build_deps(rule, obj, fuel) {
        Err(x) => Err(x),
        Ok((deps, ds0)) => if fuel == 0 {
            Err(out_of_fuel())
        } else {
            match build_args(
            rule.args,
            obj,
            BuildAcc { inputs: Seq::empty(), outputs: None, args: Seq::empty(), dep_builds: ds0 },
            (fuel - 1) as nat,
        ) {
            Err(x) => Err(x),
            Ok(acc) => match acc.outputs {
                None => err_at(ErrorType::Type, "missing required output field"@, loc),
                Some((ps, shape)) => {
                    let build = BuildRecV {
                        rule,
                        inputs: acc.inputs,
                        outputs: ps,
                        deps,
                        args: acc.args,
                        dep_builds: acc.dep_builds,
                    };
                    match shape {
                        OutShape::Single => Ok(out_expr(ps[0], build, loc)),
                        OutShape::List => Ok(
                            mk(TokV::List(Seq::new(ps.len(), |i: int| out_expr(ps[i], build, loc))), loc),
                        ),
                        OutShape::Fields(names) => Ok(
                            mk(
                                TokV::Object(Seq::new(names.len(), |i: int| (names[i], out_expr(ps[i], build, loc)))),
                                loc,
                            ),
                        ),
                    }
                },
            },
        }
        },
    }
}

/// Calling the build function of `rule` with an object of arguments: a
/// build record, given back through its output paths.
pub open spec fn call_build(rule: RuleV, arg: ExprV, fuel: nat) -> Result<ExprV, ErrorV>
    decreases fuel, 9nat,
{
    match resolve_v(arg, fuel) {
        Err(x) => Err(x),
        Ok(r) => match r.tok {
            TokV::Object(obj) => build_rest(rule, obj, r.loc, fuel),
            _ => Err(err_v(ErrorType::Type, "unknown arg for pb.build, got "@ + expr_text(r, 0))),
        },
    }
}

proof fn lemma_out_items_len(items: Seq<ExprV>, fuel: nat)
    ensures
        out_items(items, fuel) matches Ok(ps) ==> ps.len() == items.len(),
    decreases items.len(),
{
    if items.len() > 0 {
        lemma_out_items_len(items.drop_last(), fuel);
    }
}

/// The output paths and their shape agree: one path for a single value,
/// one per field name for an object.
proof fn lemma_output_len(e: ExprV, fuel: nat)
    ensures
        output_paths(e, fuel) matches Ok((ps, shape)) ==> match shape {
            OutShape::Single => ps.len() == 1,
            OutShape::List => true,
            OutShape::Fields(names) => names.len() == ps.len(),
        },
{
    if fuel > 0 {
        match resolve_v(e, fuel) {
            Ok(re) => match (arg_items(re), out_shape(re)) {
                (Some(items), Some(shape)) => {
                    lemma_out_items_len(items, (fuel - 1) as nat);
                },
                _ => {},
            },
            Err(_) => {},
        }
    }
}

/// Outputs whose shape agrees with their number.
pub open spec fn shape_ok(o: Option<(Seq<VirtPathView>, OutShape)>) -> bool {
    match o {
        Some((ps, OutShape::Single)) => ps.len() == 1,
        Some((ps, OutShape::Fields(names))) => names.len() == ps.len(),
        _ => true,
    }
}

proof fn lemma_build_args_shape(names: Seq<Seq<char>>, obj: Seq<(Seq<char>, ExprV)>, acc0: BuildAcc, fuel: nat)
    requires
        shape_ok(acc0.outputs),
    ensures
        build_args(names, obj, acc0, fuel) matches Ok(acc) ==> shape_ok(acc.outputs),
    decreases names.len(),
{
    if names.len() > 0 {
        lemma_build_args_shape(names.drop_last(), obj, acc0, fuel);
        if fuel > 0 {
            match set_get(obj, names.last()) {
                Some(e) => {
                    lemma_output_len(e, (fuel - 1) as nat);
                },
                None => {},
            }
        }
    }
}

fn append_builds(out: &mut Vec<PbBuild>, src: &Vec<PbBuild>)
    ensures
        builds_view(final(out)@) == builds_view(old(out)@) + builds_view(src@),
{
    let ghost o = builds_view(out@);
    proof {
        lemma_builds_view_map(src@);
        assert(builds_view(src@).take(0) =~= Seq::<BuildRecV>::empty());
        assert(o + builds_view(src@).take(0) =~= o);
    }
    let mut j: usize = 0;
    while j < src.len()
        invariant
            j <= src.len(),
            builds_view(src@) == src@.map_values(|b: PbBuild| b@),
            builds_view(out@) == o + builds_view(src@).take(j as int),
        decreases src.len() - j,
    {
        let ghost before = out@;
        out.push(src[j].copy());
        proof {
            assert(out@.drop_last() =~= before);
            assert(o + builds_view(src@).take(j + 1) =~= (o + builds_view(src@).take(j as int)).push(src@[j as int]@));
        }
        j = j + 1;
    }
    proof {
        assert(builds_view(src@).take(src@.len() as int) =~= builds_view(src@));
    }
}

fn arg_items_exec(re: &Expr) -> (r: Option<Vec<Expr>>)
    ensures
        match r {
            Some(v) => arg_items(re@) == Some(exprs_v(v@)),
            None => arg_items(re@) is None,
        },
{
    match &re.0.tok {
        ExprType::Value(v) => {
            let mut a: Vec<Expr> = Vec::new();
            a.push(mk_expr(ExprType::Value(v.copy()), copy_loc(&re.0.loc)));
            proof {
                assert(a@.drop_last() =~= Seq::<Expr>::empty());
                assert(exprs_v(a@.drop_last()) == Seq::<ExprV>::empty());
                assert(exprs_v(a@) =~= seq![a@[0]@]);
            }
            Some(a)
        },
        ExprType::List(es) => Some(copy_exprs(es)),
        ExprType::Object(fs) => {
            proof {
                lemma_set_v(fs@);
            }
            let mut out: Vec<Expr> = Vec::new();
            let mut i: usize = 0;
            while i < fs.len()
                invariant
                    i <= fs.len(),
                    set_v(fs@) == fs@.map_values(|p: (String, Expr)| (p.0@, p.1@)),
                    out@.len() == i,
                    forall|j: int| 0 <= j < i ==> (#[trigger] out@[j])@ == fs@[j].1@,
                decreases fs.len() - i,
            {
                out.push(fs[i].1.copy());
                i = i + 1;
            }
            proof {
                lemma_exprs_v(out@);
                assert(exprs_v(out@) =~= set_values(set_v(fs@)));
            }
            Some(out)
        },
        _ => None,
    }
}

fn item_paths_exec(items: &Vec<Expr>, n: usize, field: &str, fuel: u64) -> (r: Result<(Vec<VirtPath>, Vec<PbBuild>), Error>)
    requires
        n <= items.len(),
    ensures
        match r {
            Ok((ps, ds)) => item_paths(exprs_v(items@).take(n as int), field@, fuel as nat) == Ok::<
                (Seq<VirtPathView>, Seq<BuildRecV>),
                ErrorV,
            >((paths_view(ps@), builds_view(ds@))),
            Err(x) => item_paths(exprs_v(items@).take(n as int), field@, fuel as nat) == Err::<
                (Seq<VirtPathView>, Seq<BuildRecV>),
                ErrorV,
            >(x@),
        },
    decreases fuel, 2 + n,
{
    proof {
        lemma_exprs_v(items@);
    }
    let ghost s = exprs_v(items@).take(n as int);
    if n == 0 {
        let ps: Vec<VirtPath> = Vec::new();
        let ds: Vec<PbBuild> = Vec::new();
        proof {
            assert(s.len() == 0);
            assert(paths_view(ps@) =~= Seq::<VirtPathView>::empty());
            assert(builds_view(ds@) == Seq::<BuildRecV>::empty());
        }
        return Ok((ps, ds));
    }
    proof {
        assert(s.drop_last() =~= exprs_v(items@).take(n - 1));
        assert(s.last() == items@[n - 1]@);
    }
    let (mut ps, mut ds) = item_paths_exec(items, n - 1, field, fuel)?;
    let ri = resolve_fuel(&items[n - 1], fuel)?;
    match &ri.0.tok {
        ExprType::Value(Value::Path { path, depends }) => {
            let ghost old = ps@;
            ps.push(path.copy());
            proof {
                assert(paths_view(ps@) =~= paths_view(old).push(path@));
            }
            append_builds(&mut ds, depends);
            Ok((ps, ds))
        },
        _ => Err(Error::new(ErrorType::Type, text2("incompatible type in build arg ", field))),
    }
}

fn build_arg_paths_exec(e: &Expr, field: &str, fuel: u64) -> (r: Result<(Vec<VirtPath>, Vec<PbBuild>), Error>)
    ensures
        match r {
            Ok((ps, ds)) => build_arg_paths(e@, field@, fuel as nat) == Ok::<(Seq<VirtPathView>, Seq<BuildRecV>), ErrorV>(
                (paths_view(ps@), builds_view(ds@)),
            ),
            Err(x) => build_arg_paths(e@, field@, fuel as nat) == Err::<(Seq<VirtPathView>, Seq<BuildRecV>), ErrorV>(
                x@,
            ),
        },
    decreases fuel, 6nat,
{
    let re = resolve_fuel(e, fuel)?;
    let items = match arg_items_exec(&re) {
        Some(items) => items,
        None => {
            return Err(Error::new(ErrorType::Type, text3("field ", field, " is not a value, list, or object")));
        },
    };
    if fuel == 0 {
        return Err(fuel_error());
    }
    proof {
        lemma_exprs_v(items@);
        assert(exprs_v(items@).take(items@.len() as int) =~= exprs_v(items@));
    }
    item_paths_exec(&items, items.len(), field, fuel - 1)
}

fn item_ninja_exec(items: &Vec<Expr>, n: usize, field: &str, fuel: u64) -> (r: Result<(Vec<NinjaArg>, Vec<PbBuild>), Error>)
    requires
        n <= items.len(),
    ensures
        match r {
            Ok((gs, ds)) => item_ninja(exprs_v(items@).take(n as int), field@, fuel as nat) == Ok::<
                (Seq<ArgView>, Seq<BuildRecV>),
                ErrorV,
            >((args_view(gs@), builds_view(ds@))),
            Err(x) => item_ninja(exprs_v(items@).take(n as int), field@, fuel as nat) == Err::<
                (Seq<ArgView>, Seq<BuildRecV>),
                ErrorV,
            >(x@),
        },
    decreases fuel, 2 + n,
{
    proof {
        lemma_exprs_v(items@);
    }
    let ghost s = exprs_v(items@).take(n as int);
    if n == 0 {
        let gs: Vec<NinjaArg> = Vec::new();
        let ds: Vec<PbBuild> = Vec::new();
        proof {
            assert(s.len() == 0);
            assert(args_view(gs@) =~= Seq::<ArgView>::empty());
            assert(builds_view(ds@) == Seq::<BuildRecV>::empty());
        }
        return Ok((gs, ds));
    }
    proof {
        assert(s.drop_last() =~= exprs_v(items@).take(n - 1));
        assert(s.last() == items@[n - 1]@);
    }
    let (mut gs, mut ds) = item_ninja_exec(items, n - 1, field, fuel)?;
    let ri = resolve_fuel(&items[n - 1], fuel)?;
    match &ri.0.tok {
        ExprType::Value(a) => match arg_exec(a) {
            Some(g) => {
                let ghost old = gs@;
                gs.push(g);
                proof {
                    assert(args_view(gs@) =~= args_view(old).push(g@));
                }
                match a {
                    Value::Path { depends, .. } => append_builds(&mut ds, depends),
                    _ => {
                        proof {
                            assert(builds_view(ds@) + deps_of(a@) =~= builds_view(ds@));
                        }
                    },
                }
                Ok((gs, ds))
            },
            None => {
                let t = a.to_text();
                Err(Error::new(ErrorType::Type, text2("Rule attr is of invalid type: ", t.as_str())))
            },
        },
        _ => Err(Error::new(ErrorType::Type, text2("incompatible type in build arg ", field))),
    }
}

#[verifier::rlimit(40)]
fn build_arg_ninja_exec(e: &Expr, field: &str, fuel: u64) -> (r: Result<(Vec<NinjaArg>, Vec<PbBuild>), Error>)
    ensures
        match r {
            Ok((gs, ds)) => build_arg_ninja(e@, field@, fuel as nat) == Ok::<(Seq<ArgView>, Seq<BuildRecV>), ErrorV>(
                (args_view(gs@), builds_view(ds@)),
            ),
            Err(x) => build_arg_ninja(e@, field@, fuel as nat) == Err::<(Seq<ArgView>, Seq<BuildRecV>), ErrorV>(x@),
        },
    decreases fuel, 6nat,
{
    let re = resolve_fuel(e, fuel)?;
    let items: Vec<Expr> = match &re.0.tok {
        ExprType::List(exprs) => copy_exprs(exprs),
        ExprType::Value(v) => {
            let mut a: Vec<Expr> = Vec::new();
            a.push(mk_expr(ExprType::Value(v.copy()), copy_loc(&re.0.loc)));
            proof {
                assert(a@.drop_last() =~= Seq::<Expr>::empty());
                assert(exprs_v(a@.drop_last()) == Seq::<ExprV>::empty());
                assert(exprs_v(a@) =~= seq![a@[0]@]);
            }
            a
        },
        _ => {
            return Err(Error::new(ErrorType::Type, text3("field ", field, " is not a list or value")));
        },
    };
    if fuel == 0 {
        return Err(fuel_error());
    }
    proof {
        lemma_exprs_v(items@);
        assert(exprs_v(items@).take(items@.len() as int) =~= exprs_v(items@));
    }
    item_ninja_exec(&items, items.len(), field, fuel - 1)
}

fn out_items_exec(items: &Vec<Expr>, n: usize, fuel: u64) -> (r: Result<Vec<VirtPath>, Error>)
    requires
        n <= items.len(),
    ensures
        match r {
            Ok(ps) => out_items(exprs_v(items@).take(n as int), fuel as nat) == Ok::<Seq<VirtPathView>, ErrorV>(
                paths_view(ps@),
            ),
            Err(x) => out_items(exprs_v(items@).take(n as int), fuel as nat) == Err::<Seq<VirtPathView>, ErrorV>(x@),
        },
    decreases fuel, 2 + n,
{
    proof {
        lemma_exprs_v(items@);
    }
    let ghost s = exprs_v(items@).take(n as int);
    if n == 0 {
        let ps: Vec<VirtPath> = Vec::new();
        proof {
            assert(s.len() == 0);
            assert(paths_view(ps@) =~= Seq::<VirtPathView>::empty());
        }
        return Ok(ps);
    }
    proof {
        assert(s.drop_last() =~= exprs_v(items@).take(n - 1));
        assert(s.last() == items@[n - 1]@);
    }
    let mut ps = out_items_exec(items, n - 1, fuel)?;
    let ri = resolve_fuel(&items[n - 1], fuel)?;
    match &ri.0.tok {
        ExprType::Value(Value::Path { path, .. }) => {
            let ghost old = ps@;
            ps.push(path.copy());
            proof {
                assert(paths_view(ps@) =~= paths_view(old).push(path@));
            }
            Ok(ps)
        },
        _ => {
            let t = ri.to_text();
            Err(Error::new(ErrorType::Type, text2("incompatible type in build arg 'output' - ", t.as_str())))
        },
    }
}

/// The shape outputs are given back in.
pub enum OutShapeE {
    Single,
    List,
    Fields(Vec<String>),
}

impl OutShapeE {
    pub open spec fn shape(&self) -> OutShape {
        match self {
            OutShapeE::Single => OutShape::Single,
            OutShapeE::List => OutShape::List,
            OutShapeE::Fields(v) => OutShape::Fields(v.deep_view()),
        }
    }
}

#[verifier::rlimit(40)]
fn output_paths_exec(e: &Expr, fuel: u64) -> (r: Result<(Vec<VirtPath>, OutShapeE), Error>)
    ensures
        match r {
            Ok((ps, shape)) => output_paths(e@, fuel as nat) == Ok::<(Seq<VirtPathView>, OutShape), ErrorV>(
                (paths_view(ps@), shape.shape()),
            ),
            Err(x) => output_paths(e@, fuel as nat) == Err::<(Seq<VirtPathView>, OutShape), ErrorV>(x@),
        },
    decreases fuel, 6nat,
{
    let re = resolve_fuel(e, fuel)?;
    let shape = match &re.0.tok {
        ExprType::Value(_) => OutShapeE::Single,
        ExprType::List(_) => OutShapeE::List,
        ExprType::Object(fs) => OutShapeE::Fields(keys_of(fs)),
        _ => {
            return Err(error_at(ErrorType::Type, copy_str("output must be a value, list, or object"), &re.0.loc));
        },
    };
    let items = match arg_items_exec(&re) {
        Some(items) => items,
        None => {
            return Err(error_at(ErrorType::Type, copy_str("output must be a value, list, or object"), &re.0.loc));
        },
    };
    if fuel == 0 {
        return Err(fuel_error());
    }
    proof {
        lemma_exprs_v(items@);
        assert(exprs_v(items@).take(items@.len() as int) =~= exprs_v(items@));
    }
    let ps = out_items_exec(&items, items.len(), fuel - 1)?;
    Ok((ps, shape))
}

/// What the arguments of a build have gathered.
pub struct BuildAccE {
    pub inputs: Vec<VirtPath>,
    pub outputs: Option<(Vec<VirtPath>, OutShapeE)>,
    pub args: Vec<(String, Vec<NinjaArg>)>,
    pub dep_builds: Vec<PbBuild>,
}

impl BuildAccE {
    pub open spec fn acc(&self) -> BuildAcc {
        BuildAcc {
            inputs: paths_view(self.inputs@),
            outputs: match self.outputs {
                Some((ps, shape)) => Some((paths_view(ps@), shape.shape())),
                None => None,
            },
            args: named_args_view(self.args@),
            dep_builds: builds_view(self.dep_builds@),
        }
    }
}

fn build_args_exec(names: &Vec<String>, n: usize, obj: &Vec<(String, Expr)>, acc0: BuildAccE, fuel: u64) -> (r: Result<
    BuildAccE,
    Error,
>)
    requires
        n <= names.len(),
    ensures
        match r {
            Ok(a) => build_args(names.deep_view().take(n as int), set_v(obj@), acc0.acc(), fuel as nat) == Ok::<
                BuildAcc,
                ErrorV,
            >(a.acc()),
            Err(x) => build_args(names.deep_view().take(n as int), set_v(obj@), acc0.acc(), fuel as nat) == Err::<
                BuildAcc,
                ErrorV,
            >(x@),
        },
    decreases fuel, 2 + n,
{
    let ghost s = names.deep_view().take(n as int);
    if n == 0 {
        proof {
            assert(s.len() == 0);
        }
        return Ok(acc0);
    }
    proof {
        assert(s.drop_last() =~= names.deep_view().take(n - 1));
        assert(s.last() == names@[n - 1]@);
    }
    let mut acc = build_args_exec(names, n - 1, obj, acc0, fuel)?;
    let name = names[n - 1].as_str();
    proof {
        lemma_set_v(obj@);
        lemma_set_find(set_v(obj@), name@);
    }
    let i = match find_key(obj, name) {
        Some(i) => i,
        None => {
            return Err(Error::new(ErrorType::Type, copy_str("Can't unpack arg_name")));
        },
    };
    if fuel == 0 {
        return Err(fuel_error());
    }
    let e = &obj[i].1;
    if crate::text::str_eq(name, "input") {
        let (ps, ds) = build_arg_paths_exec(e, "input", fuel - 1)?;
        acc.inputs = ps;
        append_builds(&mut acc.dep_builds, &ds);
        Ok(acc)
    } else if crate::text::str_eq(name, "output") {
        let o = output_paths_exec(e, fuel - 1)?;
        acc.outputs = Some(o);
        Ok(acc)
    } else {
        let (gs, ds) = build_arg_ninja_exec(e, name, fuel - 1)?;
        let ghost old = acc.args@;
        acc.args.push((copy_str(name), gs));
        proof {
            assert(named_args_view(acc.args@) =~= named_args_view(old).push((name@, args_view(gs@))));
        }
        append_builds(&mut acc.dep_builds, &ds);
        Ok(acc)
    }
}

fn build_deps_exec(rule: &PbBuildRule, obj: &Vec<(String, Expr)>, fuel: u64) -> (r: Result<
    (Vec<VirtPath>, Vec<PbBuild>),
    Error,
>)
    ensures
        match r {
            Ok((ps, ds)) => build_deps(rule@, set_v(obj@), fuel as nat) == Ok::<
                (Seq<VirtPathView>, Seq<BuildRecV>),
                ErrorV,
            >((paths_view(ps@), builds_view(ds@))),
            Err(x) => build_deps(rule@, set_v(obj@), fuel as nat) == Err::<(Seq<VirtPathView>, Seq<BuildRecV>), ErrorV>(
                x@,
            ),
        },
    decreases fuel, 7nat,
{
    proof {
        lemma_set_v(obj@);
        lemma_set_find(set_v(obj@), "deps"@);
    }
    if !crate::text::contains_str(&rule.rule_args, "deps") {
        match find_key(obj, "deps") {
            Some(i) => {
                return build_arg_paths_exec(&obj[i].1, "deps", fuel);
            },
            None => {},
        }
    }
    let ps: Vec<VirtPath> = Vec::new();
    let ds: Vec<PbBuild> = Vec::new();
    proof {
        assert(paths_view(ps@) =~= Seq::<VirtPathView>::empty());
        assert(builds_view(ds@) == Seq::<BuildRecV>::empty());
    }
    Ok((ps, ds))
}

fn out_value(p: &VirtPath, b: &PbBuild, loc: &Option<Loc>) -> (r: Expr)
    ensures
        r@ == out_expr(p@, b@, opt_loc_view(*loc)),
{
    let mut d: Vec<PbBuild> = Vec::new();
    d.push(b.copy());
    proof {
        assert(d@.drop_last() =~= Seq::<PbBuild>::empty());
        assert(builds_view(d@.drop_last()) == Seq::<BuildRecV>::empty());
        assert(builds_view(d@) =~= seq![b@]);
    }
    mk_expr(ExprType::Value(Value::Path { path: p.copy(), depends: d }), copy_loc(loc))
}

#[verifier::rlimit(60)]
fn build_rest_exec(rule: &PbBuildRule, obj: &Vec<(String, Expr)>, loc: &Option<Loc>, fuel: u64) -> (r: Result<Expr, Error>)
    ensures
        ev(r) == build_rest(rule@, set_v(obj@), opt_loc_view(*loc), fuel as nat),
    decreases fuel, 8nat,
{
    let (deps, ds0) = build_deps_exec(rule, obj, fuel)?;
    let acc0 = BuildAccE { inputs: Vec::new(), outputs: None, args: Vec::new(), dep_builds: ds0 };
    proof {
        assert(paths_view(acc0.inputs@) =~= Seq::<VirtPathView>::empty());
        assert(named_args_view(acc0.args@) =~= Seq::<(Seq<char>, Seq<ArgView>)>::empty());
        assert(rule.rule_args.deep_view().take(rule.rule_args@.len() as int) =~= rule.rule_args.deep_view());
    }
    if fuel == 0 {
        return Err(fuel_error());
    }
    proof {
        lemma_build_args_shape(rule.rule_args.deep_view(), set_v(obj@), acc0.acc(), (fuel - 1) as nat);
    }
    let acc = build_args_exec(&rule.rule_args, rule.rule_args.len(), obj, acc0, fuel - 1)?;
    let BuildAccE { inputs, outputs, args, dep_builds } = acc;
    let (ps, shape) = match outputs {
        Some(o) => o,
        None => {
            return Err(error_at(ErrorType::Type, copy_str("missing required output field"), loc));
        },
    };
    let ghost pv = paths_view(ps@);
    let build = PbBuild::new(rule.copy(), inputs, copy_paths(&ps), deps, args, dep_builds);
    let ghost bv = build@;
    proof {
        // the shapes agree with the number of paths
        let items = set_v(obj@);
        assert(pv.len() == ps@.len());
    }
    match shape {
        OutShapeE::Single => {
            if ps.len() == 0 {
                return Err(error_at(ErrorType::Type, copy_str("missing required output field"), loc));
            }
            Ok(out_value(&ps[0], &build, loc))
        },
        OutShapeE::List => {
            let mut outs: Vec<Expr> = Vec::new();
            let mut i: usize = 0;
            while i < ps.len()
                invariant
                    i <= ps.len(),
                    pv == paths_view(ps@),
                    bv == build@,
                    outs@.len() == i,
                    forall|j: int| 0 <= j < i ==> (#[trigger] outs@[j])@ == out_expr(pv[j], bv, opt_loc_view(*loc)),
                decreases ps.len() - i,
            {
                outs.push(out_value(&ps[i], &build, loc));
                i = i + 1;
            }
            proof {
                lemma_exprs_v(outs@);
                assert(exprs_v(outs@) =~= Seq::new(pv.len(), |i: int| out_expr(pv[i], bv, opt_loc_view(*loc))));
            }
            Ok(mk_expr(ExprType::List(outs), copy_loc(loc)))
        },
        OutShapeE::Fields(names) => {
            if names.len() != ps.len() {
                return Err(error_at(ErrorType::Type, copy_str("missing required output field"), loc));
            }
            let mut fs: Vec<(String, Expr)> = Vec::new();
            let mut i: usize = 0;
            while i < ps.len()
                invariant
                    i <= ps.len(),
                    names@.len() == ps@.len(),
                    pv == paths_view(ps@),
                    bv == build@,
                    fs@.len() == i,
                    forall|j: int|
                        0 <= j < i ==> (#[trigger] fs@[j]).0@ == names@[j]@ && fs@[j].1@ == out_expr(
                            pv[j],
                            bv,
                            opt_loc_view(*loc),
                        ),
                decreases ps.len() - i,
            {
                fs.push((copy_str(names[i].as_str()), out_value(&ps[i], &build, loc)));
                i = i + 1;
            }
            proof {
                lemma_set_v(fs@);
                assert(set_v(fs@) =~= Seq::new(
                    names.deep_view().len(),
                    |i: int| (names.deep_view()[i], out_expr(pv[i], bv, opt_loc_view(*loc))),
                ));
            }
            Ok(mk_expr(ExprType::Object(fs), copy_loc(loc)))
        },
    }
}

pub fn call_build_exec(rule: &PbBuildRule, arg: &Expr, fuel: u64) -> (r: Result<Expr, Error>)
    ensures
        ev(r) == call_build(rule@, arg@, fuel as nat),
    decreases fuel, 9nat,
{
    let r = resolve_fuel(arg, fuel)?;
    match &r.0.tok {
        ExprType::Object(obj) => build_rest_exec(rule, obj, &r.0.loc, fuel),
        _ => {
            let t = r.to_text();
            Err(Error::new(ErrorType::Type, text2("unknown arg for pb.build, got ", t.as_str())))
        },
    }
}

/* The builtin objects */

/// A builtin function as an expression at no location.
pub open spec fn bexpr(b: BuiltinV) -> ExprV {
    mk(TokV::FuncDefBuiltin(b), None)
}

pub open spec fn pb_builtins() -> ExprV {
    mk(
        TokV::Object(
            seq![
                ("lock"@, bexpr(BuiltinV::PbLock)),
                ("rebase"@, bexpr(BuiltinV::PbRebase)),
                ("rule"@, bexpr(BuiltinV::PbRule)),
                ("translate"@, bexpr(BuiltinV::PbTranslate)),
            ],
        ),
        None,
    )
}

pub open spec fn ops_builtins() -> ExprV {
    mk(
        TokV::Object(
            seq![("transpose"@, bexpr(BuiltinV::OpsTranspose)), ("transposeObjs"@, bexpr(BuiltinV::OpsTransposeObjs))],
        ),
        None,
    )
}

pub open spec fn dbg_builtins() -> ExprV {
    mk(TokV::Object(seq![("break"@, bexpr(BuiltinV::DbgBreak)), ("trace"@, bexpr(BuiltinV::DbgTrace))]), None)
}

/// The names the builtin objects go by, in order.
pub open spec fn all_builtins() -> Seq<(Seq<char>, ExprV)> {
    seq![("dbg"@, dbg_builtins()), ("ops"@, ops_builtins()), ("pb"@, pb_builtins())]
}

fn entry(name: &str, b: Builtin) -> (r: (String, Expr))
    ensures
        r.0@ == name@,
        r.1@ == bexpr(b@),
{
    (copy_str(name), Expr::new_builtin(b))
}

/// The `pb` builtins: `lock`, `rebase`, `rule` and `translate`.
pub fn get_pb_builtins() -> (r: Result<Expr, Error>)
    ensures
        r matches Ok(e) && e@ == pb_builtins(),
{
    let mut v: Vec<(String, Expr)> = Vec::new();
    v.push(entry("lock", Builtin::PbLock));
    v.push(entry("rebase", Builtin::PbRebase));
    v.push(entry("rule", Builtin::PbRule));
    v.push(entry("translate", Builtin::PbTranslate));
    proof {
        lemma_set_v(v@);
        assert(set_v(v@) =~= pb_builtins().tok->Object_0);
    }
    Ok(ExprType::Object(v).builtin())
}

/// The `ops` builtins: `transpose` and `transposeObjs`.
pub fn get_ops_builtins() -> (r: Result<Expr, Error>)
    ensures
        r matches Ok(e) && e@ == ops_builtins(),
{
    let mut v: Vec<(String, Expr)> = Vec::new();
    v.push(entry("transpose", Builtin::OpsTranspose));
    v.push(entry("transposeObjs", Builtin::OpsTransposeObjs));
    proof {
        lemma_set_v(v@);
        assert(set_v(v@) =~= ops_builtins().tok->Object_0);
    }
    Ok(ExprType::Object(v).builtin())
}

/// The `dbg` builtins: `break` and `trace`.
pub fn get_dbg_builtins() -> (r: Result<Expr, Error>)
    ensures
        r matches Ok(e) && e@ == dbg_builtins(),
{
    let mut v: Vec<(String, Expr)> = Vec::new();
    v.push(entry("break", Builtin::DbgBreak));
    v.push(entry("trace", Builtin::DbgTrace));
    proof {
        lemma_set_v(v@);
        assert(set_v(v@) =~= dbg_builtins().tok->Object_0);
    }
    Ok(ExprType::Object(v).builtin())
}

/// All builtins, by the name of their object: `dbg`, `ops` and `pb`.
pub fn get_builtins() -> (r: Result<Vec<(String, Expr)>, Error>)
    ensures
        r matches Ok(v) && set_v(v@) == all_builtins(),
{
    let mut v: Vec<(String, Expr)> = Vec::new();
    let d = get_dbg_builtins()?;
    let o = get_ops_builtins()?;
    let p = get_pb_builtins()?;
    v.push((copy_str("dbg"), d));
    v.push((copy_str("ops"), o));
    v.push((copy_str("pb"), p));
    proof {
        lemma_set_v(v@);
        assert(set_v(v@) =~= all_builtins());
    }
    Ok(v)
}

/* ops.transpose */

/// The kinds of compound value `transpose` takes apart.
#[derive(PartialEq, Eq, Structural)]
pub enum CompoundType {
    List,
    Tuple,
    Object,
}

/// A compound value taken apart: its kind, its values, and (for an
/// object) the names of its fields.
pub open spec fn compound(t: TokV) -> Option<(CompoundType, Seq<ExprV>, Seq<Seq<char>>)> {
    match t {
        TokV::List(items) => Some((CompoundType::List, items, Seq::empty())),
        TokV::Tuple(items) => Some((CompoundType::Tuple, items, Seq::empty())),
        TokV::Object(fs) => Some((CompoundType::Object, set_values(fs), set_keys(fs))),
        _ => None,
    }
}

/// A compound value put back together from its kind, its values and (for
/// an object) the names of its fields.
pub open spec fn rebuild(p: (CompoundType, Seq<ExprV>, Seq<Seq<char>>)) -> TokV {
    match p.0 {
        CompoundType::List => TokV::List(p.1),
        CompoundType::Tuple => TokV::Tuple(p.1),
        CompoundType::Object => TokV::Object(Seq::new(p.1.len(), |i: int| (p.2[i], p.1[i]))),
    }
}

/// Taking a compound value apart loses nothing: putting its parts back
/// together gives the value again, and an object has as many names as
/// values.
pub proof fn lemma_decompose_round_trip(t: TokV)
    requires
        compound(t) is Some,
    ensures
        rebuild(compound(t).unwrap()) == t,
        compound(t).unwrap().0 == CompoundType::Object ==> compound(t).unwrap().2.len() == compound(t).unwrap().1.len(),
{
    if let TokV::Object(fs) = t {
        assert(Seq::new(set_values(fs).len(), |i: int| (set_keys(fs)[i], set_values(fs)[i])) =~= fs);
    }
}

pub open spec fn not_compound(r: ExprV) -> ErrorV {
    reref_v(err_v(ErrorType::Type, "expected tuple, list, or object, got "@ + expr_text(r, 0)), r.loc)
}

/// The elements of the outer value, each taken apart; all of one kind.
pub open spec fn decomp_all(items: Seq<ExprV>, fuel: nat) -> Result<Seq<(CompoundType, Seq<ExprV>, Seq<Seq<char>>)>, ErrorV>
    decreases fuel, 2 + items.len(),
{
    if items.len() == 0 {
        Ok(Seq::empty())
    } else {
        match decomp_all(items.drop_last(), fuel) {
            Err(x) => Err(x),
            Ok(es) => match resolve_v(items.last(), fuel) {
                Err(x) => Err(x),
                Ok(ri) => match compound(ri.tok) {
                    None => Err(not_compound(ri)),
                    Some(c) => if es.len() > 0 && c.0 != es[0].0 {
                        err_at(ErrorType::Type, "zip elements must all be of the same compound type"@, items.last().loc)
                    } else {
                        Ok(es.push(c))
                    },
                },
            },
        }
    }
}

/// The first position of `k` in `ns`, or -1.
pub open spec fn name_pos(ns: Seq<Seq<char>>, k: Seq<char>) -> int
    decreases ns.len(),
{
    if ns.len() == 0 {
        -1
    } else if ns[0] == k {
        0
    } else {
        let r = name_pos(ns.drop_first(), k);
        if r < 0 { -1 } else { r + 1 }
    }
}

/// A key of the inner values: a position, or a name.
pub enum ZKey {
    Pos(int),
    Name(Seq<char>),
}

/// The entry of the element `e` under the key `k`, if it has one.
pub open spec fn zget(e: (CompoundType, Seq<ExprV>, Seq<Seq<char>>), k: ZKey) -> Option<ExprV> {
    match k {
        ZKey::Pos(j) => if 0 <= j < e.1.len() { Some(e.1[j]) } else { None },
        ZKey::Name(n) => {
            let i = name_pos(e.2, n);
            if 0 <= i < e.1.len() { Some(e.1[i]) } else { None }
        },
    }
}

pub open spec fn null_v() -> ExprV {
    mk(TokV::Null, None)
}

/// The last of the elements that has the key `k`, or -1.
pub open spec fn last_with(es: Seq<(CompoundType, Seq<ExprV>, Seq<Seq<char>>)>, k: ZKey) -> int
    decreases es.len(),
{
    if es.len() == 0 {
        -1
    } else if zget(es.last(), k) is Some {
        es.len() - 1
    } else {
        last_with(es.drop_last(), k)
    }
}

/// The entries of the elements that have the key `k`, under the names of
/// those elements.
pub open spec fn named_column(es: Seq<(CompoundType, Seq<ExprV>, Seq<Seq<char>>)>, onames: Seq<Seq<char>>, k: ZKey) -> Seq<
    (Seq<char>, ExprV),
>
    decreases es.len(),
{
    if es.len() == 0 {
        Seq::empty()
    } else {
        let prev = named_column(es.drop_last(), onames, k);
        match zget(es.last(), k) {
            Some(e) => prev.push((onames[es.len() - 1], e)),
            None => prev,
        }
    }
}

/// The entries under the key `k`, put back together as the outer kind:
/// positions that lack it filled with null, up to the last that has it.
pub open spec fn column(tout: CompoundType, onames: Seq<Seq<char>>, es: Seq<(CompoundType, Seq<ExprV>, Seq<Seq<char>>)>, k: ZKey) -> ExprV {
    let filled = Seq::new(
        (last_with(es, k) + 1) as nat,
        |i: int|
            match zget(es[i], k) {
                Some(e) => e,
                None => null_v(),
            },
    );
    match tout {
        CompoundType::List => mk(TokV::List(filled), None),
        CompoundType::Tuple => mk(TokV::Tuple(filled), None),
        CompoundType::Object => mk(TokV::Object(named_column(es, onames, k)), None),
    }
}

/// The longest of the elements.
pub open spec fn max_len(es: Seq<(CompoundType, Seq<ExprV>, Seq<Seq<char>>)>) -> nat
    decreases es.len(),
{
    if es.len() == 0 {
        0
    } else {
        let m = max_len(es.drop_last());
        if es.last().1.len() > m { es.last().1.len() } else { m }
    }
}

/// The field names of the elements, each once, in order.
pub open spec fn name_union(es: Seq<(CompoundType, Seq<ExprV>, Seq<Seq<char>>)>) -> Seq<(Seq<char>, ExprV)>
    decreases es.len(),
{
    if es.len() == 0 {
        Seq::empty()
    } else {
        add_names(name_union(es.drop_last()), es.last().2)
    }
}

pub open spec fn add_names(acc: Seq<(Seq<char>, ExprV)>, ns: Seq<Seq<char>>) -> Seq<(Seq<char>, ExprV)>
    decreases ns.len(),
{
    if ns.len() == 0 {
        acc
    } else {
        set_insert(add_names(acc, ns.drop_last()), ns.last(), null_v())
    }
}

/// The transposition of the taken-apart elements `es` of an outer value of
/// kind `tout`: for each key the elements have (each position up to the
/// longest, or each field name), the column of their entries.
pub open spec fn zip_result(tout: CompoundType, onames: Seq<Seq<char>>, es: Seq<(CompoundType, Seq<ExprV>, Seq<Seq<char>>)>) -> ExprV {
    let tin = es[0].0;
    if tin == CompoundType::Object {
        let names = set_keys(name_union(es));
        mk(
            TokV::Object(Seq::new(names.len(), |t: int| (names[t], column(tout, onames, es, ZKey::Name(names[t]))))),
            None,
        )
    } else {
        let cols = Seq::new(max_len(es), |j: int| column(tout, onames, es, ZKey::Pos(j)));
        if tin == CompoundType::List {
            mk(TokV::List(cols), None)
        } else {
            mk(TokV::Tuple(cols), None)
        }
    }
}

/// `ops.transpose v` (`zip`): a list, tuple or object of lists, tuples or
/// objects, all of one kind, turned inside out.
pub open spec fn call_zip(arg: ExprV, fuel: nat) -> Result<ExprV, ErrorV>
    decreases fuel, 8nat,
{
    match resolve_v(arg, fuel) {
        Err(x) => Err(x),
        Ok(r) => match compound(r.tok) {
            None => Err(not_compound(r)),
            Some((tout, ovals, onames)) => if fuel == 0 {
                Err(out_of_fuel())
            } else {
                match decomp_all(ovals, (fuel - 1) as nat) {
                    Err(x) => Err(x),
                    Ok(es) => if es.len() == 0 {
                        err_at(ErrorType::Type, "zip requires at least one element"@, arg.loc)
                    } else {
                        Ok(zip_result(tout, onames, es))
                    },
                }
            },
        },
    }
}

/// A compound value taken apart.
pub struct Parts {
    pub t: CompoundType,
    pub vals: Vec<Expr>,
    pub names: Vec<String>,
}

impl Parts {
    pub open spec fn pv(&self) -> (CompoundType, Seq<ExprV>, Seq<Seq<char>>) {
        (self.t, exprs_v(self.vals@), self.names.deep_view())
    }
}

pub open spec fn parts_v(s: Seq<Parts>) -> Seq<(CompoundType, Seq<ExprV>, Seq<Seq<char>>)> {
    s.map_values(|p: Parts| p.pv())
}

fn ctype_copy(t: &CompoundType) -> (r: CompoundType)
    ensures
        r == *t,
{
    match t {
        CompoundType::List => CompoundType::List,
        CompoundType::Tuple => CompoundType::Tuple,
        CompoundType::Object => CompoundType::Object,
    }
}

fn set_values_exec(fs: &Vec<(String, Expr)>) -> (r: Vec<Expr>)
    ensures
        exprs_v(r@) == set_values(set_v(fs@)),
{
    proof {
        lemma_set_v(fs@);
    }
    let mut out: Vec<Expr> = Vec::new();
    let mut i: usize = 0;
    while i < fs.len()
        invariant
            i <= fs.len(),
            set_v(fs@) == fs@.map_values(|p: (String, Expr)| (p.0@, p.1@)),
            out@.len() == i,
            forall|j: int| 0 <= j < i ==> (#[trigger] out@[j])@ == fs@[j].1@,
        decreases fs.len() - i,
    {
        out.push(fs[i].1.copy());
        i = i + 1;
    }
    proof {
        lemma_exprs_v(out@);
        assert(exprs_v(out@) =~= set_values(set_v(fs@)));
    }
    out
}

/// What taking `e` apart gives: once it resolves, its kind, its values
/// and (for an object) the names of its fields; the error of resolving it;
/// or a Type error when it is not a list, tuple or object.
pub open spec fn decompose_v(e: ExprV, fuel: nat) -> Result<(CompoundType, Seq<ExprV>, Seq<Seq<char>>), ErrorV> {
    match resolve_v(e, fuel) {
        Err(x) => Err(x),
        Ok(ri) => match compound(ri.tok) {
            None => Err(not_compound(ri)),
            Some(c) => Ok(c),
        },
    }
}

pub open spec fn parts_res(r: Result<Parts, Error>) -> Result<(CompoundType, Seq<ExprV>, Seq<Seq<char>>), ErrorV> {
    match r {
        Ok(p) => Ok(p.pv()),
        Err(x) => Err(x@),
    }
}

fn decompose_fuel(arg: &Expr, fuel: u64) -> (r: Result<Parts, Error>)
    ensures
        parts_res(r) == decompose_v(arg@, fuel as nat),
    decreases fuel, 1nat,
{
    let ri = resolve_fuel(arg, fuel)?;
    match CompoundType::parts_of(&ri) {
        Some(c) => Ok(c),
        None => {
            let t = ri.to_text();
            Err(error_at(ErrorType::Type, text2("expected tuple, list, or object, got ", t.as_str()), &ri.0.loc))
        },
    }
}

impl CompoundType {
    /// Resolves `arg` and takes it apart: its kind, its values, and (for an
    /// object) the names of its fields; a Type error when it is not a list,
    /// tuple or object.
    pub fn decompose(arg: &Expr) -> (r: Result<Parts, Error>)
        ensures
            parts_res(r) == decompose_v(arg@, EVAL_FUEL as nat),
    {
        decompose_fuel(arg, EVAL_FUEL)
    }

    /// Takes a resolved compound value apart: its kind, its values, and
    /// (for an object) the names of its fields.
    fn parts_of(r: &Expr) -> (p: Option<Parts>)
        ensures
            match p {
                Some(p) => compound(r@.tok) == Some(p.pv()),
                None => compound(r@.tok) is None,
            },
    {
        match &r.0.tok {
            ExprType::List(items) => {
                let n: Vec<String> = Vec::new();
                proof {
                    assert(n.deep_view() =~= Seq::<Seq<char>>::empty());
                }
                Some(Parts { t: CompoundType::List, vals: copy_exprs(items), names: n })
            },
            ExprType::Tuple(items) => {
                let n: Vec<String> = Vec::new();
                proof {
                    assert(n.deep_view() =~= Seq::<Seq<char>>::empty());
                }
                Some(Parts { t: CompoundType::Tuple, vals: copy_exprs(items), names: n })
            },
            ExprType::Object(fs) => Some(Parts { t: CompoundType::Object, vals: set_values_exec(fs), names: keys_of(fs) }),
            _ => None,
        }
    }
}

fn decomp_all_exec(items: &Vec<Expr>, n: usize, fuel: u64) -> (r: Result<Vec<Parts>, Error>)
    requires
        n <= items.len(),
    ensures
        match r {
            Ok(v) => decomp_all(exprs_v(items@).take(n as int), fuel as nat) == Ok::<
                Seq<(CompoundType, Seq<ExprV>, Seq<Seq<char>>)>,
                ErrorV,
            >(parts_v(v@)),
            Err(x) => decomp_all(exprs_v(items@).take(n as int), fuel as nat) == Err::<
                Seq<(CompoundType, Seq<ExprV>, Seq<Seq<char>>)>,
                ErrorV,
            >(x@),
        },
    decreases fuel, 2 + n,
{
    proof {
        lemma_exprs_v(items@);
    }
    let ghost s = exprs_v(items@).take(n as int);
    if n == 0 {
        let out: Vec<Parts> = Vec::new();
        proof {
            assert(s.len() == 0);
            assert(parts_v(out@) =~= Seq::<(CompoundType, Seq<ExprV>, Seq<Seq<char>>)>::empty());
        }
        return Ok(out);
    }
    proof {
        assert(s.drop_last() =~= exprs_v(items@).take(n - 1));
        assert(s.last() == items@[n - 1]@);
    }
    let mut es = decomp_all_exec(items, n - 1, fuel)?;
    match decompose_fuel(&items[n - 1], fuel) {
        Err(x) => Err(x),
        Ok(c) => {
            if es.len() > 0 && c.t != es[0].t {
                return Err(error_at(
                    ErrorType::Type,
                    copy_str("zip elements must all be of the same compound type"),
                    &items[n - 1].0.loc,
                ));
            }
            let ghost old = es@;
            let ghost cv = c.pv();
            es.push(c);
            proof {
                assert(parts_v(es@) =~= parts_v(old).push(cv));
            }
            Ok(es)
        },
    }
}

/// The position of `k` among `names`.
fn name_pos_exec(names: &Vec<String>, k: &str) -> (r: Option<usize>)
    ensures
        match r {
            Some(i) => i as int == name_pos(names.deep_view(), k@),
            None => name_pos(names.deep_view(), k@) < 0,
        },
{
    let ghost ns = names.deep_view();
    let mut i: usize = 0;
    proof {
        assert(ns.skip(0) =~= ns);
    }
    while i < names.len()
        invariant
            i <= names.len(),
            ns == names.deep_view(),
            name_pos(ns, k@) == if name_pos(ns.skip(i as int), k@) < 0 { -1 } else { name_pos(ns.skip(i as int), k@) + i },
        decreases names.len() - i,
    {
        proof {
            assert(ns.skip(i as int).drop_first() =~= ns.skip(i + 1));
        }
        if crate::text::str_eq(names[i].as_str(), k) {
            return Some(i);
        }
        i = i + 1;
    }
    None
}

/// A key of the inner values.
pub enum ZKeyE {
    Pos(usize),
    Name(String),
}

impl ZKeyE {
    pub open spec fn kv(&self) -> ZKey {
        match self {
            ZKeyE::Pos(j) => ZKey::Pos(*j as int),
            ZKeyE::Name(n) => ZKey::Name(n@),
        }
    }
}

fn zget_exec(e: &Parts, k: &ZKeyE) -> (r: Option<Expr>)
    ensures
        match r {
            Some(x) => zget(e.pv(), k.kv()) == Some(x@),
            None => zget(e.pv(), k.kv()) is None,
        },
{
    proof {
        lemma_exprs_v(e.vals@);
    }
    match k {
        ZKeyE::Pos(j) => {
            if *j < e.vals.len() {
                Some(e.vals[*j].copy())
            } else {
                None
            }
        },
        ZKeyE::Name(n) => match name_pos_exec(&e.names, n.as_str()) {
            Some(i) => {
                if i < e.vals.len() {
                    Some(e.vals[i].copy())
                } else {
                    None
                }
            },
            None => None,
        },
    }
}

fn null_expr() -> (r: Expr)
    ensures
        r@ == null_v(),
{
    ExprType::Null.builtin()
}

impl CompoundType {
    /// One column of the zipped values, put back together as a value of
    /// this kind: a list or tuple padded with nulls, or an object.
    pub fn recompose(&self, onames: &Vec<String>, es: &Vec<Parts>, k: &ZKeyE) -> (r: Expr)
        requires
            *self == CompoundType::Object ==> onames@.len() >= es@.len(),
        ensures
            r@ == column(*self, onames.deep_view(), parts_v(es@), k.kv()),
    {
        let ghost esv = parts_v(es@);
        match self {
            CompoundType::Object => {
                let mut out: Vec<(String, Expr)> = Vec::new();
                let mut i: usize = 0;
                proof {
                    assert(esv.take(0) =~= Seq::<(CompoundType, Seq<ExprV>, Seq<Seq<char>>)>::empty());
                }
                while i < es.len()
                    invariant
                        i <= es.len(),
                        onames@.len() >= es@.len(),
                        esv == parts_v(es@),
                        set_v(out@) == named_column(esv.take(i as int), onames.deep_view(), k.kv()),
                    decreases es.len() - i,
                {
                    proof {
                        assert(esv.take(i + 1).drop_last() =~= esv.take(i as int));
                        assert(esv.take(i + 1).last() == es@[i as int].pv());
                    }
                    match zget_exec(&es[i], k) {
                        Some(x) => {
                            let ghost old = out@;
                            out.push((copy_str(onames[i].as_str()), x));
                            proof {
                                assert(out@.drop_last() =~= old);
                            }
                        },
                        None => {},
                    }
                    i = i + 1;
                }
                proof {
                    assert(esv.take(es@.len() as int) =~= esv);
                }
                mk_expr(ExprType::Object(out), None)
            },
            _ => {
                let ghost len = last_with(esv, k.kv()) + 1;
                let upto = match last_with_exec(es, k) {
                    Some(m) => {
                        let n = es.len();
                        assert(m < n);
                        m + 1
                    },
                    None => 0,
                };
                let mut filled: Vec<Expr> = Vec::new();
                let mut i: usize = 0;
                while i < upto
                    invariant
                        i <= upto,
                        upto as int == len,
                        upto <= es.len(),
                        esv == parts_v(es@),
                        filled@.len() == i,
                        forall|j: int|
                            0 <= j < i ==> (#[trigger] filled@[j])@ == match zget(esv[j], k.kv()) {
                                Some(e) => e,
                                None => null_v(),
                            },
                    decreases upto - i,
                {
                    let x = match zget_exec(&es[i], k) {
                        Some(x) => x,
                        None => null_expr(),
                    };
                    filled.push(x);
                    i = i + 1;
                }
                proof {
                    lemma_exprs_v(filled@);
                    assert(exprs_v(filled@) =~= Seq::new(
                        len as nat,
                        |i: int|
                            match zget(esv[i], k.kv()) {
                                Some(e) => e,
                                None => null_v(),
                            },
                    ));
                }
                match self {
                    CompoundType::List => mk_expr(ExprType::List(filled), None),
                    _ => mk_expr(ExprType::Tuple(filled), None),
                }
            },
        }
    }
}

/// The position of the last element with the key `k`.
fn last_with_exec(es: &Vec<Parts>, k: &ZKeyE) -> (r: Option<usize>)
    ensures
        match r {
            Some(m) => m as int == last_with(parts_v(es@), k.kv()) && m < es@.len(),
            None => last_with(parts_v(es@), k.kv()) == -1,
        },
{
    let ghost esv = parts_v(es@);
    let mut m: usize = es.len();
    proof {
        assert(esv.take(es@.len() as int) =~= esv);
    }
    while m > 0
        invariant
            m <= es.len(),
            esv == parts_v(es@),
            last_with(esv, k.kv()) == last_with(esv.take(m as int), k.kv()),
        decreases m,
    {
        proof {
            assert(esv.take(m as int).drop_last() =~= esv.take(m - 1));
            assert(esv.take(m as int).last() == es@[m - 1].pv());
        }
        if zget_exec(&es[m - 1], k).is_some() {
            return Some(m - 1);
        }
        m = m - 1;
    }
    proof {
        assert(esv.take(0) =~= Seq::<(CompoundType, Seq<ExprV>, Seq<Seq<char>>)>::empty());
    }
    None
}

proof fn lemma_last_with_bound(es: Seq<(CompoundType, Seq<ExprV>, Seq<Seq<char>>)>, k: ZKey)
    ensures
        -1 <= last_with(es, k) < es.len(),
        last_with(es, k) >= 0 ==> zget(es[last_with(es, k)], k) is Some,
    decreases es.len(),
{
    if es.len() > 0 {
        lemma_last_with_bound(es.drop_last(), k);
    }
}

fn zip_result_exec(tout: &CompoundType, onames: &Vec<String>, es: &Vec<Parts>) -> (r: Expr)
    requires
        es@.len() > 0,
        *tout == CompoundType::Object ==> onames@.len() >= es@.len(),
    ensures
        r@ == zip_result(*tout, onames.deep_view(), parts_v(es@)),
{
    let ghost esv = parts_v(es@);
    if es[0].t == CompoundType::Object {
        let mut acc: Vec<(String, Expr)> = Vec::new();
        let mut i: usize = 0;
        proof {
            assert(esv.take(0) =~= Seq::<(CompoundType, Seq<ExprV>, Seq<Seq<char>>)>::empty());
        }
        while i < es.len()
            invariant
                i <= es.len(),
                esv == parts_v(es@),
                set_v(acc@) == name_union(esv.take(i as int)),
            decreases es.len() - i,
        {
            proof {
                assert(esv.take(i + 1).drop_last() =~= esv.take(i as int));
                assert(esv.take(i + 1).last() == es@[i as int].pv());
            }
            let ns = &es[i].names;
            let ghost a0 = set_v(acc@);
            let mut j: usize = 0;
            proof {
                assert(ns.deep_view().take(0) =~= Seq::<Seq<char>>::empty());
            }
            while j < ns.len()
                invariant
                    j <= ns.len(),
                    set_v(acc@) == add_names(a0, ns.deep_view().take(j as int)),
                decreases ns.len() - j,
            {
                proof {
                    assert(ns.deep_view().take(j + 1).drop_last() =~= ns.deep_view().take(j as int));
                    assert(ns.deep_view().take(j + 1).last() == ns@[j as int]@);
                }
                set_insert_exec(&mut acc, copy_str(ns[j].as_str()), null_expr());
                j = j + 1;
            }
            proof {
                assert(ns.deep_view().take(ns@.len() as int) =~= ns.deep_view());
            }
            i = i + 1;
        }
        proof {
            assert(esv.take(es@.len() as int) =~= esv);
        }
        let names = keys_of(&acc);
        let mut fields: Vec<(String, Expr)> = Vec::new();
        let mut t: usize = 0;
        while t < names.len()
            invariant
                t <= names.len(),
                esv == parts_v(es@),
                *tout == CompoundType::Object ==> onames@.len() >= es@.len(),
                fields@.len() == t,
                forall|q: int|
                    0 <= q < t ==> (#[trigger] fields@[q]).0@ == names@[q]@ && fields@[q].1@ == column(
                        *tout,
                        onames.deep_view(),
                        esv,
                        ZKey::Name(names@[q]@),
                    ),
            decreases names.len() - t,
        {
            let k = ZKeyE::Name(copy_str(names[t].as_str()));
            let c = tout.recompose(onames, es, &k);
            fields.push((copy_str(names[t].as_str()), c));
            t = t + 1;
        }
        proof {
            lemma_set_v(fields@);
            let nv = names.deep_view();
            assert(set_v(fields@) =~= Seq::new(nv.len(), |q: int| (nv[q], column(*tout, onames.deep_view(), esv, ZKey::Name(nv[q])))));
        }
        mk_expr(ExprType::Object(fields), None)
    } else {
        let mut ml: usize = 0;
        let mut i: usize = 0;
        proof {
            assert(esv.take(0) =~= Seq::<(CompoundType, Seq<ExprV>, Seq<Seq<char>>)>::empty());
        }
        while i < es.len()
            invariant
                i <= es.len(),
                esv == parts_v(es@),
                ml as nat == max_len(esv.take(i as int)),
            decreases es.len() - i,
        {
            proof {
                assert(esv.take(i + 1).drop_last() =~= esv.take(i as int));
                assert(esv.take(i + 1).last() == es@[i as int].pv());
                lemma_exprs_v(es@[i as int].vals@);
            }
            if es[i].vals.len() > ml {
                ml = es[i].vals.len();
            }
            i = i + 1;
        }
        proof {
            assert(esv.take(es@.len() as int) =~= esv);
        }
        let mut cols: Vec<Expr> = Vec::new();
        let mut j: usize = 0;
        while j < ml
            invariant
                j <= ml,
                ml as nat == max_len(esv),
                esv == parts_v(es@),
                *tout == CompoundType::Object ==> onames@.len() >= es@.len(),
                cols@.len() == j,
                forall|q: int|
                    0 <= q < j ==> (#[trigger] cols@[q])@ == column(*tout, onames.deep_view(), esv, ZKey::Pos(q)),
            decreases ml - j,
        {
            let c = tout.recompose(onames, es, &ZKeyE::Pos(j));
            cols.push(c);
            j = j + 1;
        }
        proof {
            lemma_exprs_v(cols@);
            assert(exprs_v(cols@) =~= Seq::new(max_len(esv), |q: int| column(*tout, onames.deep_view(), esv, ZKey::Pos(q))));
        }
        if es[0].t == CompoundType::List {
            mk_expr(ExprType::List(cols), None)
        } else {
            mk_expr(ExprType::Tuple(cols), None)
        }
    }
}

proof fn lemma_decomp_len(items: Seq<ExprV>, fuel: nat)
    ensures
        decomp_all(items, fuel) matches Ok(es) ==> es.len() == items.len(),
    decreases items.len(),
{
    if items.len() > 0 {
        lemma_decomp_len(items.drop_last(), fuel);
    }
}

pub fn call_zip_exec(arg: &Expr, fuel: u64) -> (res: Result<Expr, Error>)
    ensures
        ev(res) == call_zip(arg@, fuel as nat),
    decreases fuel, 8nat,
{
    let outer = decompose_fuel(arg, fuel)?;
    if fuel == 0 {
        return Err(fuel_error());
    }
    proof {
        lemma_exprs_v(outer.vals@);
        assert(exprs_v(outer.vals@).take(outer.vals@.len() as int) =~= exprs_v(outer.vals@));
        lemma_decomp_len(exprs_v(outer.vals@), (fuel - 1) as nat);
    }
    let es = decomp_all_exec(&outer.vals, outer.vals.len(), fuel - 1)?;
    if es.len() == 0 {
        return Err(error_at(ErrorType::Type, copy_str("zip requires at least one element"), &arg.0.loc));
    }
    proof {
        if outer.t == CompoundType::Object {
            assert(outer.names.deep_view().len() == exprs_v(outer.vals@).len());
        }
    }
    Ok(zip_result_exec(&outer.t, &outer.names, &es))
}

} // verus!
