use lead_build::builtins::{get_builtins, get_dbg_builtins, get_ops_builtins, get_pb_builtins, CompoundType};
use lead_build::context::LangContext;
use lead_build::error::ErrorType;
use lead_build::eval::set_insert_exec;
use lead_build::expr::{Expr, ExprType, Matcher};
use lead_build::ninja::NinjaFile;
use lead_build::ninjaexpr::add_expr_to_ninjafile;
use lead_build::parser::parse_str;
use lead_build::path::VirtPath;
use lead_build::value::Value;

fn src_path(name: &str) -> VirtPath {
    VirtPath::new("src").step(name).unwrap()
}

fn out_path(name: &str) -> VirtPath {
    VirtPath::new("out").step(name).unwrap()
}

fn path_expr(p: VirtPath) -> Expr {
    ExprType::Value(Value::path(p)).builtin()
}

/// `code` evaluated with the builtins and `extra` in scope.
fn run(code: &str, extra: Vec<(&str, Expr)>) -> Result<Expr, lead_build::error::Error> {
    let mut vars = get_builtins().unwrap();
    for (k, v) in extra {
        set_insert_exec(&mut vars, k.to_string(), v);
    }
    let body = parse_str(code, &VirtPath::new("")).unwrap();
    ExprType::Bind(vars, body).builtin().eval()
}

fn text(code: &str) -> String {
    run(code, vec![]).unwrap().to_text()
}

#[test]
fn builtin_objects_hold_their_functions() {
    let names: Vec<String> = get_builtins().unwrap().iter().map(|(k, _)| k.clone()).collect();
    assert_eq!(names, vec!["dbg", "ops", "pb"]);
    for (o, fields) in [
        (get_pb_builtins().unwrap(), vec!["lock", "rebase", "rule", "translate"]),
        (get_ops_builtins().unwrap(), vec!["transpose", "transposeObjs"]),
        (get_dbg_builtins().unwrap(), vec!["break", "trace"]),
    ] {
        match &o.0.tok {
            ExprType::Object(fs) => {
                let got: Vec<String> = fs.iter().map(|(k, _)| k.clone()).collect();
                assert_eq!(got, fields);
            },
            _ => panic!("not an object"),
        }
    }
}

#[test]
fn transpose_objs_gathers_fields_by_name() {
    assert_eq!(
        text("ops.transposeObjs [{a = 1; b = 2;}, {a = 3;}]"),
        run("{a = [1, 3]; b = [2];}", vec![]).unwrap().to_text()
    );
    let e = run("ops.transposeObjs [1]", vec![]).unwrap_err();
    assert_eq!(e.typ, ErrorType::Type);
}

#[test]
fn transpose_of_lists_and_objects() {
    assert_eq!(text("ops.transpose [[1, 2], [3, 4]]"), text("[[1, 3], [2, 4]]"));
    // a shorter element leaves its position out, not filled
    assert_eq!(text("ops.transpose [[1, 2], [3]]"), text("[[1, 3], [2]]"));
    // a missing field is filled with null up to the last element that has it
    assert_eq!(text("ops.transpose [{a = 1;}, {a = 2; b = 3;}]"), text("{a = [1, 2]; b = [null, 3];}"));
    assert_eq!(text("ops.transpose {x = [1, 2]; y = [3, 4];}"), text("[{x = 1; y = 3;}, {x = 2; y = 4;}]"));
    assert_eq!(text("ops.transpose ((1, 2), (3, 4))"), text("((1, 3), (2, 4))"));
}

#[test]
fn transpose_errors() {
    assert_eq!(run("ops.transpose [[1], {a = 1;}]", vec![]).unwrap_err().typ, ErrorType::Type);
    assert_eq!(run("ops.transpose []", vec![]).unwrap_err().typ, ErrorType::Type);
    assert_eq!(run("ops.transpose 1", vec![]).unwrap_err().typ, ErrorType::Type);
}

#[test]
fn translate_moves_a_path_between_trees() {
    let r = run(
        "pb.translate { input = i; from = [x, f]; to = t; }",
        vec![
            ("i", path_expr(src_path("a").step("b.c").unwrap())),
            ("x", path_expr(out_path("z"))),
            ("f", path_expr(src_path("a"))),
            ("t", path_expr(out_path("obj"))),
        ],
    )
    .unwrap();
    match r.value().unwrap() {
        Value::Path { path, .. } => {
            assert!(path.same_as(&out_path("obj").step("b.c").unwrap()));
        },
        _ => panic!("not a path"),
    }
    let e = run(
        "pb.translate { input = i; from = f; to = t; }",
        vec![("i", path_expr(src_path("a"))), ("f", path_expr(out_path("a"))), ("t", path_expr(out_path("b")))],
    )
    .unwrap_err();
    assert_eq!(e.typ, ErrorType::Type);
    assert!(e.msg.starts_with("Can't translate "));
}

#[test]
fn rebase_builtin_gives_the_relative_path() {
    let r = run(
        "pb.rebase { path = p; base = b; }",
        vec![("p", path_expr(src_path("a").step("x.c").unwrap())), ("b", path_expr(src_path("b")))],
    )
    .unwrap();
    assert_eq!(r.value().unwrap(), Value::String("../a/x.c".to_string()));
}

#[test]
fn lock_and_trace_and_break() {
    let r = run("pb.lock p", vec![("p", path_expr(src_path("a")))]).unwrap();
    match r.value().unwrap() {
        Value::Path { path, .. } => assert!(path.same_as(&src_path("a").lock())),
        _ => panic!("not a path"),
    }
    assert_eq!(text("dbg.trace 3"), "3");
    assert_eq!(run("dbg.break 3", vec![]).unwrap_err().typ, ErrorType::Debug);
}

#[test]
fn rule_and_build_make_a_ninja_build() {
    let code = "let cc = pb.rule (|{input, output, flags}| { command = [\"cc\", flags, input, \"-o\", output]; }); in \
                { prog = cc { input = [s]; output = o; flags = \"-O2\"; }; }";
    let e = run(code, vec![("s", path_expr(src_path("main.c"))), ("o", path_expr(out_path("prog")))]).unwrap();
    let mut ninja = NinjaFile::new();
    add_expr_to_ninjafile(&e, &mut ninja).unwrap();
    let t = ninja.to_text();
    assert!(t.contains("command = cc ${flags} ${in} -o ${out}"), "{}", t);
    assert!(t.contains("flags = -O2"), "{}", t);
    assert!(t.contains("build prog: phony"), "{}", t);
    assert!(t.contains("default"), "{}", t);
}

#[test]
fn build_errors() {
    let rule = "pb.rule (|{input, output}| { command = [input, output]; })";
    // an argument the rule takes is missing
    let e = run(&format!("({}) {{ input = s; }}", rule), vec![("s", path_expr(src_path("a")))]).unwrap_err();
    assert_eq!(e.typ, ErrorType::Type);
    // the rule function must take an object pattern
    let e = run("pb.rule (|x| x)", vec![]).unwrap_err();
    assert_eq!(e.msg, "pb.rule needs to take a pattern function as argument");
    // defaults are refused
    let e = run("pb.rule (|{input ? 1, output}| {})", vec![]).unwrap_err();
    assert_eq!(e.msg, "pb.rule does not support default values for input");
}

#[test]
fn a_top_level_path_needs_a_build() {
    let e = run("{ x = s; }", vec![("s", path_expr(src_path("a")))]).unwrap();
    let mut ninja = NinjaFile::new();
    let err = add_expr_to_ninjafile(&e, &mut ninja).unwrap_err();
    assert_eq!(err.msg, "Top-level field 'x' has no build dependencies");
    let e = run("1", vec![]).unwrap();
    let err = add_expr_to_ninjafile(&e, &mut ninja).unwrap_err();
    assert_eq!(err.msg, "Top-level value is not a path");
}

#[test]
fn context_binds_its_builtins() {
    let mut ctx = LangContext::new();
    ctx.builtins = get_builtins().unwrap();
    let e = ctx.read_str("ops.transposeObjs [{a = 1;}]", &VirtPath::new("")).unwrap();
    assert_eq!(e.eval().unwrap().to_text(), text("{a = [1];}"));
    assert!(LangContext::new().read_str("(", &VirtPath::new("")).is_err());
}

#[test]
fn object_law_reading_a_set_field_gives_the_value_set() {
    assert_eq!(text("({ a = 1; b = 2; } // { a = 3; }).a"), text("3"));
    assert_eq!(text("({ a = 1; b = 2; } // { a = 3; }).b"), text("2"));
    assert_eq!(text("({ b = 2; } // { a = 3; }).a"), text("3"));
}

#[test]
fn object_law_set_insert_keeps_other_names() {
    let mut vars: Vec<(String, Expr)> = Vec::new();
    set_insert_exec(&mut vars, "m".to_string(), ExprType::Null.builtin());
    set_insert_exec(&mut vars, "a".to_string(), ExprType::Null.builtin());
    set_insert_exec(&mut vars, "z".to_string(), ExprType::Null.builtin());
    set_insert_exec(&mut vars, "a".to_string(), ExprType::Value(Value::Int(7)).builtin());
    let names: Vec<String> = vars.iter().map(|(k, _)| k.clone()).collect();
    assert_eq!(names, vec!["a", "m", "z"]);
    assert_eq!(vars[0].1.to_text(), "7");
}

#[test]
fn matcher_run_binds_names_and_checks_shapes() {
    let one = || ExprType::Value(Value::Int(1)).builtin();
    let m = Matcher::Alias(Box::new(Matcher::Ident("x".to_string())), "all".to_string());
    let vars = m.run(&one()).unwrap();
    let names: Vec<String> = vars.iter().map(|(k, _)| k.clone()).collect();
    assert_eq!(names, vec!["all", "x"]);
    let t = Matcher::Tuple(vec![Matcher::Ident("a".to_string()), Matcher::DontCare]);
    let pair = ExprType::Tuple(vec![one(), one()]).builtin();
    let vars = t.run(&pair).unwrap();
    assert_eq!(vars.len(), 1);
    assert_eq!(vars[0].0, "a");
    let single = ExprType::Tuple(vec![one()]).builtin();
    let e = t.run(&single).unwrap_err();
    assert_eq!(e.typ, ErrorType::Type);
    assert_eq!(e.msg, "Expected tuple of length 2");
    let e = t.run(&one()).unwrap_err();
    assert_eq!(e.msg, "Expected tuple");
}

#[test]
fn ninjaexpr_refuses_non_definitions_and_adds_aliases() {
    let e = run("|x| x", vec![]).unwrap();
    let mut ninja = NinjaFile::new();
    let err = add_expr_to_ninjafile(&e, &mut ninja).unwrap_err();
    assert_eq!(err.msg, "Not a valid build definition");
    assert_eq!(err.typ, ErrorType::Custom);
    assert_eq!(ninja.to_text(), "");
    let code = "let cc = pb.rule (|{input, output}| { command = [input, output]; }); in \
                [{ prog = cc { input = [s]; output = o; }; }]";
    let e = run(code, vec![("s", path_expr(src_path("main.c"))), ("o", path_expr(out_path("prog")))]).unwrap();
    let mut ninja = NinjaFile::new();
    add_expr_to_ninjafile(&e, &mut ninja).unwrap();
    assert_eq!(
        ninja.to_text(),
        "rule command\n  command = ${in} ${out}\n\nbuild ./prog: command ./main.c\n\n\
         build prog: phony ./prog\n\ndefault ./prog\n\n"
    );
    // adding the same definition again keeps the build and its default
    // once, while the alias lists the path a second time
    add_expr_to_ninjafile(&e, &mut ninja).unwrap();
    assert_eq!(
        ninja.to_text(),
        "rule command\n  command = ${in} ${out}\n\nbuild ./prog: command ./main.c\n\n\
         build prog: phony ./prog ./prog\n\ndefault ./prog\n\n"
    );
}

#[test]
fn ninjaexpr_refuses_a_second_build_of_the_same_output() {
    let code = "let a = pb.rule (|{input, output}| { command = [\"a\", input, output]; }); \
                b = pb.rule (|{input, output}| { command = [\"b\", input, output]; }); in \
                { x = a { input = [s]; output = o; }; y = b { input = [s]; output = o; }; }";
    let e = run(code, vec![("s", path_expr(src_path("main.c"))), ("o", path_expr(out_path("prog")))]).unwrap();
    let mut ninja = NinjaFile::new();
    let err = add_expr_to_ninjafile(&e, &mut ninja).unwrap_err();
    assert_eq!(err.typ, ErrorType::Custom);
    assert!(err.msg.starts_with("different builds generating same file:\n\noutputs:\n - "), "{}", err.msg);
}

#[test]
fn parser_precedence_and_grouping() {
    assert_eq!(text("2 * 3 + 4 * 5"), text("26"));
    assert_eq!(text("20 - 4 - 3"), text("13"));
    assert_eq!(text("2 * (3 + 4) * 5"), text("70"));
    assert_eq!(text("false -> x"), text("true"));
    assert_eq!(text("true || x"), text("true"));
    assert_eq!(text("let a = 1; b = a + 1; in b"), text("2"));
    let e = run("y + 1", vec![]).unwrap_err();
    assert_eq!(e.msg, "Unknown variable y");
}

#[test]
fn decompose_resolves_and_refuses_non_compounds() {
    let e = parse_str("[1, 2] ++ [3]", &VirtPath::new("")).unwrap();
    let parts = CompoundType::decompose(&e).unwrap();
    assert!(parts.t == CompoundType::List);
    assert_eq!(parts.vals.len(), 3);
    assert!(parts.names.is_empty());
    let o = parse_str("{ a = 1; b = 2; }", &VirtPath::new("")).unwrap();
    let parts = CompoundType::decompose(&o).unwrap();
    assert!(parts.t == CompoundType::Object);
    assert_eq!(parts.names, vec!["a".to_string(), "b".to_string()]);
    let n = parse_str("1 + 2", &VirtPath::new("")).unwrap();
    let err = match CompoundType::decompose(&n) {
        Ok(_) => panic!("a number is not a compound value"),
        Err(e) => e,
    };
    assert_eq!(err.typ, ErrorType::Type);
    assert!(err.msg.starts_with("expected tuple, list, or object, got "), "{}", err.msg);
}

#[test]
fn grammar_decides_which_texts_read() {
    let f = VirtPath::new("");
    for ok in ["[]", "[1]", "[1,2]", "[1,2,]", "(1,)", "{}", "{ a; }", "f x y", "- f x", "a.b.{c}"] {
        assert!(parse_str(ok, &f).is_ok(), "{}", ok);
    }
    for bad in ["[,1,2]", "[1,,2]", "[1,2,,]", "(1", "a +", "{ a }", "let a = 1; b", "f . 1"] {
        let err = parse_str(bad, &f).unwrap_err();
        assert_eq!(err.typ, ErrorType::Parse, "{}", bad);
    }
}

#[test]
fn eval_reports_the_first_failing_item() {
    let e = parse_str("[1, y, z]", &VirtPath::new("")).unwrap();
    let err = match e.eval() {
        Ok(_) => panic!("y and z are bound nowhere"),
        Err(x) => x,
    };
    assert_eq!(err.typ, ErrorType::Scope);
    assert_eq!(err.msg, "Unknown variable y");
    let ok = parse_str("[1, [2, 3]]", &VirtPath::new("")).unwrap();
    assert!(ok.eval().is_ok());
}
