use vstd::prelude::*;
use crate::error::{Error, ErrorType};
use crate::eval::{mk, set_insert, set_insert_exec};
use crate::text::{chars_of, string_from_chars, copy_str};
use crate::value::{Value, ValueV};
use crate::expr::{Expr, ExprType, ExprV, TokV, set_v, copy_set};
use crate::parser::{parse_str, reads_as};
use crate::path::VirtPath;

verus! {

/// Where sources of the build language are read: the builtins their
/// expressions see.
pub struct LangContext {
    pub builtins: Vec<(String, Expr)>,
}

impl LangContext {
    /// A context with no builtins.
    pub fn new() -> (r: LangContext)
        ensures
            set_v(r.builtins@) == Seq::<(Seq<char>, ExprV)>::empty(),
    {
        let b: Vec<(String, Expr)> = Vec::new();
        proof {
            assert(set_v(b@) =~= Seq::<(Seq<char>, ExprV)>::empty());
        }
        LangContext { builtins: b }
    }

    /// The source `code` of `file`, read, with the builtins of this
    /// context bound around it.
    pub fn read_str(&self, code: &str, file: &VirtPath) -> (r: Result<Expr, Error>)
        ensures
            match r {
                Ok(e) => e@.loc is None && (e@.tok matches TokV::Bind(vars, body) && vars == set_v(self.builtins@)
                    && reads_as(code@, *body)),
                Err(e) => crate::parser::read_error(code@, e@),
            },
    {
        let body = parse_str(code, file)?;
        Ok(ExprType::Bind(copy_set(&self.builtins), body).builtin())
    }
}

/// The position of the first `=` in `s`, or -1.
pub open spec fn first_eq(s: Seq<char>) -> int
    decreases s.len(),
{
    if s.len() == 0 {
        -1
    } else if s[0] == '=' {
        0
    } else {
        let r = first_eq(s.drop_first());
        if r < 0 { -1 } else { r + 1 }
    }
}

proof fn lemma_first_eq(s: Seq<char>)
    ensures
        -1 <= first_eq(s) < s.len(),
        first_eq(s) >= 0 ==> s[first_eq(s)] == '=',
        forall|j: int| 0 <= j < s.len() && (first_eq(s) < 0 || j < first_eq(s)) ==> #[trigger] s[j] != '=',
    decreases s.len(),
{
    if s.len() > 0 {
        lemma_first_eq(s.drop_first());
        assert forall|j: int| 0 <= j < s.len() && (first_eq(s) < 0 || j < first_eq(s)) implies s[j] != '=' by {
            if j > 0 {
                assert(s[j] == s.drop_first()[j - 1]);
            }
        }
    }
}

/// `NAME=PATH`: the tree `NAME` rooted at the directory `PATH`.
pub fn parse_virt_path_mapping(s: &str) -> (r: Result<(String, VirtPath), String>)
    ensures
        first_eq(s@) < 0 ==> (r matches Err(m) && m@ == "expected NAME=PATH"@),
        first_eq(s@) >= 0 ==> (r matches Ok((n, p)) && n@ == s@.subrange(0, first_eq(s@)) && p@.name == n@
            && p@.root == s@.subrange(first_eq(s@) + 1, s@.len() as int) && p@.locked.len() == 0
            && p@.parts.len() == 0),
{
    let v = chars_of(s);
    proof {
        lemma_first_eq(s@);
    }
    let mut i: usize = 0;
    while i < v.len()
        invariant
            v@ == s@,
            i <= v.len(),
            forall|j: int| 0 <= j < i ==> v@[j] != '=',
        decreases v.len() - i,
    {
        if v[i] == '=' {
            proof {
                lemma_first_eq(s@);
                assert(s@[i as int] == '=');
                if first_eq(s@) >= 0 && first_eq(s@) < i {
                    assert(v@[first_eq(s@)] != '=');
                }
                assert(first_eq(s@) == i);
            }
            let name = string_from_chars(&v, 0, i);
            let root = string_from_chars(&v, i + 1, v.len());
            let p = VirtPath::with_root(root.as_str(), name.as_str());
            return Ok((name, p));
        }
        i = i + 1;
    }
    proof {
        if first_eq(s@) >= 0 {
            assert(v@[first_eq(s@)] == '=');
        }
    }
    Err(copy_str("expected NAME=PATH"))
}

/// The object of named paths a build description is called with.
pub open spec fn args_set(args: Seq<(Seq<char>, crate::path::VirtPathView)>) -> Seq<(Seq<char>, ExprV)>
    decreases args.len(),
{
    if args.len() == 0 {
        Seq::empty()
    } else {
        set_insert(
            args_set(args.drop_last()),
            args.last().0,
            mk(TokV::Value(ValueV::Path(args.last().1, Seq::empty())), None),
        )
    }
}

/// Each of `args` as a field holding its path (a later one of a name
/// replacing an earlier one).
pub fn gen_args_object(args: Vec<(String, VirtPath)>) -> (r: Expr)
    ensures
        r@ == mk(TokV::Object(args_set(args@.map_values(|a: (String, VirtPath)| (a.0@, a.1@)))), None),
{
    let ghost av = args@.map_values(|a: (String, VirtPath)| (a.0@, a.1@));
    let mut out: Vec<(String, Expr)> = Vec::new();
    let mut i: usize = 0;
    proof {
        assert(av.take(0) =~= Seq::<(Seq<char>, crate::path::VirtPathView)>::empty());
        assert(set_v(out@) =~= Seq::<(Seq<char>, ExprV)>::empty());
    }
    while i < args.len()
        invariant
            i <= args.len(),
            av == args@.map_values(|a: (String, VirtPath)| (a.0@, a.1@)),
            set_v(out@) == args_set(av.take(i as int)),
        decreases args.len() - i,
    {
        proof {
            assert(av.take(i + 1).drop_last() =~= av.take(i as int));
        }
        let v = ExprType::Value(Value::path(args[i].1.copy())).builtin();
        set_insert_exec(&mut out, copy_str(args[i].0.as_str()), v);
        i = i + 1;
    }
    proof {
        assert(av.take(args@.len() as int) =~= av);
    }
    ExprType::Object(out).builtin()
}

} // verus!
