use lead_build::ninja::{named_rule_text, NinjaArg, NinjaBuild, NinjaBuildRef, NinjaFile, NinjaPart, NinjaRule, NinjaRuleRef};
use lead_build::path::VirtPath;

fn c(s: &str) -> NinjaArg {
    NinjaArg::Const(s.to_string())
}

fn test_rule(name: &str, rule: &NinjaRule) -> String {
    named_rule_text(name, rule)
}

fn test_path(name: &str) -> VirtPath {
    VirtPath::new("root").step(name).unwrap()
}

#[test]
fn test_write_rule() {
    let mut rule = NinjaRule::new();
    rule.var("deps", vec![c("boll"), c("something")])
        .var("something", vec![c("stuff"), c("stuff"), NinjaArg::Var("in".to_string())]);
    assert_eq!(
        test_rule("test", &rule).as_str(),
        "rule test\n  deps = boll something\n  something = stuff stuff ${in}\n\n"
    );
}

#[test]
fn test_esc_string() {
    let mut rule = NinjaRule::new();
    rule.var("a b", vec![c("a$b"), c("a b")])
        .var("b", vec![c("a\nb"), c("a:b")]);
    assert_eq!(
        test_rule("r$a", &rule).as_str(),
        "rule r$$a\n  a$ b = a$$b a$ b\n  b = a$\n    b a$:b\n\n"
    );
}

#[test]
fn test_build() {
    let mut rule = NinjaRule::new();
    rule.var("a b", vec![c("a$b"), c("a b")])
        .var("b", vec![c("a\nb"), c("a:b")]);
    let mut build = NinjaBuild::new(&NinjaRuleRef("r$a".to_string()));
    build
        .input(test_path("boll"))
        .input(test_path("hej"))
        .output(test_path("dest"))
        .output(test_path("destb"))
        .var("tjo", vec![c("xx")]);
    let output = format!("{}{}", test_rule("r$a", &rule), build.to_text());
    assert_eq!(
        output.as_str(),
        "rule r$$a\n  a$ b = a$$b a$ b\n  b = a$\n    b a$:b\n\nbuild ./dest ./destb: r$$a ./boll ./hej\n  tjo = xx\n\n"
    );
}

#[test]
fn test_build_deps() {
    let rule = NinjaRule::new();
    let mut build = NinjaBuild::new(&NinjaRuleRef("rule".to_string()));
    build
        .input(test_path("in"))
        .output(test_path("out"))
        .dep(test_path("dep"));
    let output = format!("{}{}", test_rule("rule", &rule), build.to_text());
    assert_eq!(output.as_str(), "rule rule\n\nbuild ./out: rule ./in | ./dep\n\n");
}

#[test]
fn test_build_default() {
    let mut file = NinjaFile::new();
    let rule = file.add_rule(NinjaRule::new());
    let mut build = NinjaBuild::new(&rule);
    build.input(test_path("in")).output(test_path("out"));
    let build_ref = file.add_build(build).unwrap();
    file.set_build_default(&build_ref);
    let output = file.to_text();
    assert_eq!(
        output.as_str(),
        "rule rule\n\nbuild ./out: rule ./in\n\ndefault ./out\n\n"
    );
}

#[test]
fn test_file() {
    let mut file = NinjaFile::new();

    let mut rule1 = NinjaRule::new();
    rule1.var("x", vec![c("stuff")]);
    let rule1 = file.add_rule(rule1);

    let mut rule2 = NinjaRule::new();
    rule2.var("y", vec![c("stuff")]);
    let _rule2 = file.add_rule(rule2);

    let mut build = NinjaBuild::new(&rule1);
    build
        .input(test_path("in1_1"))
        .input(test_path("in1_2"))
        .output(test_path("out1"));
    file.add_build(build).unwrap();

    assert_eq!(
        file.to_text(),
        "rule x\n  x = stuff\n\nrule y\n  y = stuff\n\nbuild ./out1: x ./in1_1 ./in1_2\n\n"
    );
}

#[test]
fn test_file_unique_rules() {
    let mut file = NinjaFile::new();

    let r1 = file.add_rule(NinjaRule::new());
    let r2 = file.add_rule(NinjaRule::new());
    let r3 = file.add_rule(NinjaRule::new());

    let mut r4 = NinjaRule::new();
    r4.var("v", vec![c("1")]);
    let r4 = file.add_rule(r4);

    let mut r5 = NinjaRule::new();
    r5.var("v", vec![c("2")]);
    let r5 = file.add_rule(r5);

    assert_eq!(r1, NinjaRuleRef("rule".to_string()));
    assert_eq!(r2, NinjaRuleRef("rule".to_string()));
    assert_eq!(r3, NinjaRuleRef("rule".to_string()));
    assert_eq!(r4, NinjaRuleRef("v".to_string()));
    assert_eq!(r5, NinjaRuleRef("v1".to_string()));
}

#[test]
fn test_ref_unique_name() {
    let mut file = NinjaFile::new();

    let _rule = file.add_rule(NinjaRule::new());

    let mut rule1 = NinjaRule::new();
    rule1.var("kind", vec![c("one")]);
    let rule1 = file.add_rule(rule1);

    let mut rule2 = NinjaRule::new();
    rule2.var("kind", vec![c("two")]);
    let rule2 = file.add_rule(rule2);

    let mut build1 = NinjaBuild::new(&rule1);
    build1.output(test_path("out1"));
    let build1_ref = file.add_build(build1).unwrap();
    file.set_build_default(&build1_ref);

    let mut build2 = NinjaBuild::new(&rule2);
    build2.output(test_path("out2"));
    file.add_build(build2).unwrap();

    assert_eq!(file.validate(), Vec::<String>::new());

    assert_eq!(
        file.to_text(),
        "rule kind\n  kind = one\n\nrule kind1\n  kind = two\n\nrule rule\n\nbuild ./out1: kind\n\nbuild ./out2: kind1\n\ndefault ./out1\n\n"
    );
}

#[test]
fn test_variable_output_name() {
    let mut file = NinjaFile::new();
    file.add_alias("out1", vec![test_path("real_out")]);

    assert_eq!(file.to_text(), "build out1: phony ./real_out\n\n");
}

#[test]
fn test_aliases_are_grouped_in_file() {
    let mut file = NinjaFile::new();
    file.add_alias("bundle", vec![test_path("first")]);
    file.add_alias("bundle", vec![test_path("second")]);
    file.add_alias("app", vec![test_path("binary")]);

    assert_eq!(
        file.to_text(),
        "build app: phony ./binary\n\nbuild bundle: phony ./first ./second\n\n"
    );
}

#[test]
fn test_multiple_same_targets() {
    let mut file = NinjaFile::new();
    let rule = file.add_rule(NinjaRule::new());
    let mut build1 = NinjaBuild::new(&rule);
    build1.output(test_path("file"));
    file.add_build(build1).unwrap();

    let mut build2 = NinjaBuild::new(&rule);
    build2.output(test_path("file"));
    assert_eq!(
        file.add_build(build2),
        Ok(NinjaBuildRef(vec![test_path("file")]))
    );

    assert_eq!(file.validate(), Vec::<String>::new());
}

#[test]
fn test_conflicting_targets() {
    let mut file = NinjaFile::new();
    let mut rule1 = NinjaRule::new();
    rule1.var("kind", vec![c("one")]);
    let rule1 = file.add_rule(rule1);

    let mut rule2 = NinjaRule::new();
    rule2.var("kind", vec![c("two")]);
    let rule2 = file.add_rule(rule2);

    let mut build1 = NinjaBuild::new(&rule1);
    build1.output(test_path("file"));
    file.add_build(build1).unwrap();

    let mut build2 = NinjaBuild::new(&rule2);
    build2.output(test_path("file"));
    let err = file.add_build(build2).unwrap_err();
    assert!(err.contains("different builds generating same file"));
    assert!(err.contains("./file"));
    assert!(err.contains("existing rules:\n - kind"));
    assert!(err.contains("new rule:\n - kind1"));
    assert!(err.contains("existing rule definitions:\nrule kind\n  kind = one\n\n"));
    assert!(err.contains("new rule definition:\nrule kind1\n  kind = two\n\n"));
    assert!(err.contains("build ./file: kind"));
    assert!(err.contains("build ./file: kind1"));
}

#[test]
fn concat_args_are_written_back_to_back() {
    let mut rule = NinjaRule::new();
    rule.var(
        "cmd",
        vec![NinjaArg::Concat(vec![
            NinjaPart::Const("-o".to_string()),
            NinjaPart::Var("out".to_string()),
            NinjaPart::Path(test_path("x")),
        ])],
    );
    assert_eq!(test_rule("cc", &rule), "rule cc\n  cmd = -o${out}./x\n\n");
}

#[test]
fn get_rule_ref_finds_only_added_rules() {
    let mut file = NinjaFile::new();
    let mut rule = NinjaRule::new();
    rule.var("kind", vec![c("one")]);
    let mut same = NinjaRule::new();
    same.var("kind", vec![c("one")]);
    let mut other = NinjaRule::new();
    other.var("kind", vec![c("two")]);
    let r = file.add_rule(rule);
    assert_eq!(file.get_rule_ref(&same), Some(r));
    assert_eq!(file.get_rule_ref(&other), None);
}

#[test]
fn validate_reports_each_doubled_output_once() {
    let mut file = NinjaFile::new();
    let rule = file.add_rule(NinjaRule::new());
    let mut build = NinjaBuild::new(&rule);
    build.output(test_path("a")).output(test_path("a")).output(test_path("a"));
    file.add_build(build).unwrap();
    assert_eq!(file.validate(), vec!["Multiple builds generating: ./a".to_string()]);
}

#[test]
fn defaults_are_sorted_and_not_repeated() {
    let mut file = NinjaFile::new();
    let rule = file.add_rule(NinjaRule::new());
    let mut build = NinjaBuild::new(&rule);
    build.output(test_path("b")).output(test_path("a"));
    let r = file.add_build(build).unwrap();
    file.set_build_default(&r);
    file.set_build_default(&r);
    assert_eq!(file.to_text(), "rule rule\n\nbuild ./b ./a: rule\n\ndefault ./a ./b\n\n");
}

#[test]
fn conflict_message_lists_both_sides() {
    let mut file = NinjaFile::new();
    let mut rule1 = NinjaRule::new();
    rule1.var("kind", vec![c("one")]);
    let rule1 = file.add_rule(rule1);
    let mut rule2 = NinjaRule::new();
    rule2.var("kind", vec![c("two")]);
    let rule2 = file.add_rule(rule2);
    let mut build1 = NinjaBuild::new(&rule1);
    build1.output(test_path("file"));
    file.add_build(build1).unwrap();
    let before = file.to_text();
    let mut build2 = NinjaBuild::new(&rule2);
    build2.output(test_path("other"));
    build2.output(test_path("file"));
    let err = file.add_build(build2).unwrap_err();
    assert_eq!(
        err,
        "different builds generating same file:\n\noutputs:\n - [root]/$/file\n\n\
         existing rules:\n - kind\nnew rule:\n - kind1\n\n\
         existing rule definitions:\nrule kind\n  kind = one\n\n\
         new rule definition:\nrule kind1\n  kind = two\n\n\
         \nexisting:\n - build ./file: kind\n\n\
         \nnew:\n - build ./other ./file: kind1\n\n"
    );
    assert_eq!(file.to_text(), before);
}
