use lead_build::datamodel::{DnjParser, Error, Expr};

#[test]
fn test_eval() {
    let expr: Expr = DnjParser::parse_str(
        r#"
                {
                    stuff = "hello";
                    something = "hej";
                }
            "#,
    )
    .unwrap();
    let value: &Expr = expr.get_item("stuff").unwrap();
    assert_eq!(value, &Expr::String("hello".into()));
}

#[test]
fn test_eval_deep() {
    let expr: Expr = DnjParser::parse_str(
        r#"
                {
                    stuff = "hello";
                    something = {
                        inner = "deep";
                    };
                }
            "#,
    )
    .unwrap();
    let value: &Expr = expr.get_path(&["something", "inner"]).unwrap();
    assert_eq!(value, &Expr::String("deep".into()));
}

#[test]
fn datamodel_fields_are_sorted_and_the_last_assignment_wins() {
    let expr = DnjParser::parse_str("{ b = 1; a = 2; b = 3; }").unwrap();
    assert_eq!(
        expr,
        Expr::Object(vec![("a".to_string(), Expr::Int(2)), ("b".to_string(), Expr::Int(3))])
    );
}

#[test]
fn datamodel_missing_field_is_an_error() {
    let expr = DnjParser::parse_str("{ a = 1; }").unwrap();
    assert_eq!(
        expr.get_item("b"),
        Err(Error::ResolvError("field not found".to_string()))
    );
}

#[test]
fn datamodel_item_of_a_non_object_is_an_error() {
    let expr = DnjParser::parse_str("{ a = 1; }").unwrap();
    assert_eq!(
        expr.get_path(&["a", "b"]),
        Err(Error::ResolvError("get_item resolving".to_string()))
    );
}

#[test]
fn datamodel_empty_path_is_the_value_itself() {
    let expr = DnjParser::parse_str("7").unwrap();
    assert_eq!(expr.get_path(&[]), Ok(&Expr::Int(7)));
}

#[test]
fn datamodel_strings_are_decoded() {
    let expr = DnjParser::parse_str(r#"{ s = "a\nb"; e = ""; }"#).unwrap();
    assert_eq!(expr.get_item("s"), Ok(&Expr::String("a\nb".to_string())));
    assert_eq!(expr.get_item("e"), Ok(&Expr::String(String::new())));
}

#[test]
fn datamodel_malformed_sources_are_refused() {
    assert!(DnjParser::parse_str("{ a = 1 }").is_err());
    assert!(DnjParser::parse_str("{ a 1; }").is_err());
    assert!(DnjParser::parse_str("{ a = 1; } 2").is_err());
    assert!(DnjParser::parse_str("").is_err());
    assert!(DnjParser::parse_str("99999999999999999999").is_err());
}
