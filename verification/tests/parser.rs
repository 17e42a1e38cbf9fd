use lead_build::expr::{Expr, ExprBinOp, ExprType, Matcher};
use lead_build::parser::{parse_str, Parser};
use lead_build::path::VirtPath;
use lead_build::pbcst;
use lead_build::value::Value;

fn file() -> VirtPath {
    VirtPath::new("")
}

fn eval(code: &str) -> Expr {
    parse_str(code, &file()).unwrap()
}

fn b(t: ExprType) -> Expr {
    t.builtin()
}

/// The structure of an expression, without its locations.
fn sx(e: &Expr) -> String {
    match &e.0.tok {
        ExprType::Object(items) => format!(
            "{{{}}}",
            items.iter().map(|(k, v)| format!("{}={};", k, sx(v))).collect::<Vec<_>>().join("")
        ),
        ExprType::List(items) => format!("[{}]", items.iter().map(sx).collect::<Vec<_>>().join(",")),
        ExprType::Tuple(items) => format!("({})", items.iter().map(sx).collect::<Vec<_>>().join(",")),
        ExprType::Concat(items) => format!("concat({})", items.iter().map(sx).collect::<Vec<_>>().join(",")),
        ExprType::AttrSel(a, b) => format!("sel({},{})", sx(a), sx(b)),
        ExprType::Value(v) => format!("{:?}", v),
        ExprType::Var(n) => format!("var({})", n),
        ExprType::UnOp(op, a) => format!("{:?}({})", op, sx(a)),
        ExprType::BinOp(op, a, b) => format!("{:?}({},{})", op, sx(a), sx(b)),
        ExprType::FuncDef(m, body) => format!("fn({},{})", sm(m), sx(body)),
        ExprType::FuncDefBuiltin(bi) => format!("builtin({:?})", bi),
        ExprType::Let(bs, body) => format!(
            "let({};{})",
            bs.iter().map(|(m, v)| format!("{}={}", sm(m), sx(v))).collect::<Vec<_>>().join(","),
            sx(body)
        ),
        ExprType::Fold(f, i, x) => format!("fold({},{},{})", sx(f), sx(i), sx(x)),
        ExprType::Mapping(k, f, x, g) => format!(
            "map({:?},{},{},{})",
            k,
            sx(f),
            sx(x),
            g.as_ref().map(sx).unwrap_or_default()
        ),
        ExprType::FuncCall(a, f) => format!("call({},{})", sx(f), sx(a)),
        ExprType::Bind(items, body) => format!(
            "bind({};{})",
            items.iter().map(|(k, v)| format!("{}={}", k, sx(v))).collect::<Vec<_>>().join(","),
            sx(body)
        ),
        ExprType::Switch(x, cases, d) => format!(
            "switch({};{};{})",
            sx(x),
            cases.iter().map(|(m, v)| format!("{}=>{}", sx(m), sx(v))).collect::<Vec<_>>().join(","),
            d.as_ref().map(sx).unwrap_or_default()
        ),
        ExprType::Null => "null".to_string(),
    }
}

fn sm(m: &Matcher) -> String {
    match m {
        Matcher::Alias(m, n) => format!("{}@{}", sm(m), n),
        Matcher::DontCare => "_".to_string(),
        Matcher::Ident(n) => n.clone(),
        Matcher::Tuple(ms) => format!("({})", ms.iter().map(sm).collect::<Vec<_>>().join(",")),
        Matcher::Object(fs, all) => format!(
            "{{{}{}}}",
            fs.iter()
                .map(|(k, m, d)| format!("{}={}?{}", k, sm(m), d.as_ref().map(sx).unwrap_or_default()))
                .collect::<Vec<_>>()
                .join(","),
            if *all { "" } else { ",..." }
        ),
    }
}

fn same(expected: Expr, got: Expr) {
    assert_eq!(sx(&expected), sx(&got));
}

fn iv(i: i64) -> Expr {
    b(ExprType::Value(Value::Int(i)))
}

#[test]
fn parser_test_parse_int() {
    same(iv(1231), eval("1231"));
}

#[test]
fn parser_test_parse_obj() {
    let code = r#"
            {
                boll = 123;
                hej = 323;
            }
        "#;
    same(
        b(ExprType::Object(vec![("boll".to_string(), iv(123)), ("hej".to_string(), iv(323))])),
        eval(code),
    );
}

#[test]
fn parser_test_parse_obj_in_obj() {
    let code = r#"
            {
                boll = 123;
                hej = { a=2; b=3; };
            }
        "#;
    same(
        b(ExprType::Object(vec![
            ("boll".to_string(), iv(123)),
            (
                "hej".to_string(),
                b(ExprType::Object(vec![("a".to_string(), iv(2)), ("b".to_string(), iv(3))])),
            ),
        ])),
        eval(code),
    );
}

#[test]
fn parser_test_parse_str_unicode() {
    let code = "\"boll\\\"hej\\u0041\"";
    same(b(ExprType::Value(Value::String("boll\"hejA".into()))), eval(code));
}

#[test]
fn test_parse_str() {
    let p = Parser::new();
    let code = "\"boll\\\"hej\\u0041\"";
    same(b(ExprType::Value(Value::String("boll\"hejA".into()))), p.parse_str(code).unwrap());
}

#[test]
fn parser_test_parse_func_call() {
    let code = "hej 12";
    same(b(ExprType::FuncCall(iv(12), b(ExprType::Var("hej".into())))), eval(code));
}

#[test]
fn parser_test_parse_func_def_pattern_non_var_1() {
    let code = "{ hej, hopp, svej }: 12";
    let res = parse_str(code, &file());
    let _ = res.unwrap_err();
}

#[test]
fn parser_test_parse_func_def_pattern_non_var_2() {
    let code = "{ hej, hopp, svej, }: 12";
    let res = parse_str(code, &file());
    let _ = res.unwrap_err();
}

#[test]
fn parser_test_parse_let() {
    let code = "let a = 21; b = 33; in 434";
    same(
        b(ExprType::Let(
            vec![(Matcher::Ident("a".into()), iv(21)), (Matcher::Ident("b".into()), iv(33))],
            iv(434),
        )),
        eval(code),
    );
}

#[test]
fn test_parse_bind() {
    let code = "bind a = 21; b = 33; in 434";
    same(
        b(ExprType::Bind(vec![("a".to_string(), iv(21)), ("b".to_string(), iv(33))], iv(434))),
        eval(code),
    );
}

#[test]
fn parser_test_parse_add_mul_prio() {
    let code = "2 * 3 + 4 * 5";
    same(
        b(ExprType::BinOp(
            ExprBinOp::Add,
            b(ExprType::BinOp(ExprBinOp::Mult, iv(2), iv(3))),
            b(ExprType::BinOp(ExprBinOp::Mult, iv(4), iv(5))),
        )),
        eval(code),
    );
}

#[test]
fn parser_test_bool_op() {
    let code = "false || true";
    same(
        b(ExprType::BinOp(
            ExprBinOp::LogOr,
            b(ExprType::Value(Value::Bool(false))),
            b(ExprType::Value(Value::Bool(true))),
        )),
        eval(code),
    );
}

#[test]
fn parser_test_parse_list() {
    parse_str("[]", &file()).unwrap();
    parse_str("[1]", &file()).unwrap();
    parse_str("[1,2]", &file()).unwrap();
    parse_str("[1,2,]", &file()).unwrap();
    parse_str("[,1,2]", &file()).unwrap_err();
    parse_str("[1,,2]", &file()).unwrap_err();
    parse_str("[1,2,,]", &file()).unwrap_err();
}

#[test]
fn parser_test_parse_comment_line_only() {
    let code = "# this is a comment\n123";
    same(iv(123), eval(code));
}

#[test]
fn parser_test_parse_comment_trailing() {
    let code = "let a = 21; b = 33; # this is ignored\nin 434";
    same(
        b(ExprType::Let(
            vec![(Matcher::Ident("a".into()), iv(21)), (Matcher::Ident("b".into()), iv(33))],
            iv(434),
        )),
        eval(code),
    );
}

#[test]
fn parser_test_parse_comment_eof() {
    let code = "123 # trailing comment with no newline";
    same(iv(123), eval(code));
}

#[test]
fn parser_test_parse_hash_in_string() {
    let code = "\"abc#def\"";
    same(b(ExprType::Value(Value::String("abc#def".into()))), eval(code));
}

#[test]
fn test_parse_cst_source_and_location() {
    let code = " let a = 1; in a + 2 ";
    let tree = pbcst::parse(code, &file()).unwrap();
    assert_eq!(tree.to_source(), code);
    assert_eq!(tree.loc.start, 1);
    assert_eq!(tree.loc.end, code.len() - 1);

    assert_eq!(pbcst::parse("([1,2,])", &file()).unwrap().to_source(), "([1,2,])");
}

/* Own tests */

#[test]
fn parse_precedence_of_comparisons_and_logic() {
    // `->` is loosest and groups to the right; `!` binds looser than `+`.
    let e = eval("a -> b -> !c + 1 == 2 && d");
    assert_eq!(
        sx(&e),
        "LogImpl(var(a),LogImpl(var(b),LogAnd(Eq(Not(Add(var(c),Int(1))),Int(2)),var(d))))"
    );
}

#[test]
fn parse_application_binds_tighter_than_operators() {
    let e = eval("f x y + g.h z");
    assert_eq!(
        sx(&e),
        "Add(call(call(var(f),var(x)),var(y)),call(sel(var(g),String(\"h\")),var(z)))"
    );
}

#[test]
fn parse_string_with_embedded_expression() {
    let e = eval("\"a${b}c\"");
    assert_eq!(sx(&e), "concat(String(\"a\"),var(b),String(\"c\"))");
    // `$$` stands for a dollar sign
    assert_eq!(sx(&eval("\"$$x\"")), "String(\"$x\")");
}

#[test]
fn parse_func_def_with_patterns() {
    let e = eval("|{a, b = (x, _), c ? 1, ...} d@e| a");
    assert_eq!(sx(&e), "fn({a=a?,b=(x,_)?,c=c?Int(1),...},fn(d@e,var(a)))");
}

#[test]
fn parse_maps_folds_and_switch() {
    assert_eq!(sx(&eval("[f x for xs if g x]")), "map(List,call(var(f),var(x)),var(xs),call(var(g),var(x)))");
    assert_eq!(sx(&eval("{f for xs}")), "map(Object,var(f),var(xs),)");
    assert_eq!(sx(&eval("(f for 0: xs)")), "fold(var(f),Int(0),var(xs))");
    assert_eq!(sx(&eval("switch x { 1 => 2; _ => 3; }")), "switch(var(x);Int(1)=>Int(2);Int(3))");
}

#[test]
fn parse_later_key_replaces_earlier_and_shorthand() {
    assert_eq!(sx(&eval("{ b = 1; a = 2; b = 3; }")), "{a=Int(2);b=Int(3);}");
    assert_eq!(sx(&eval("{ x; \"y z\" = 1; }")), "{x=var(x);y z=Int(1);}");
}

#[test]
fn parse_errors() {
    // an integer literal that does not fit in 64 bits
    assert!(parse_str("9223372036854775808", &file()).is_err());
    assert_eq!(sx(&eval("9223372036854775807")), "Int(9223372036854775807)");
    // a fold with no initial value
    assert!(parse_str("(f for xs)", &file()).is_err());
    // an escape naming no character
    assert!(parse_str("\"\\ud800\"", &file()).is_err());
    // trailing tokens
    assert!(parse_str("1 2 )", &file()).is_err());
    // keys cannot embed expressions
    assert!(parse_str("{ \"a${b}\" = 1; }", &file()).is_err());
}

#[test]
fn parse_locations_follow_tokens() {
    let e = eval("  1 + 22");
    let loc = e.0.loc.as_ref().unwrap();
    assert_eq!((loc.start, loc.end), (2, 8));
}
