use lead_build::text::is_valid_new_name;

#[test]
fn valid_new_names_are_accepted() {
    assert!(is_valid_new_name("x"));
    assert!(is_valid_new_name("myVar"));
    assert!(is_valid_new_name("my_var_2"));
}

#[test]
fn invalid_new_names_are_rejected() {
    assert!(!is_valid_new_name(""));
    assert!(!is_valid_new_name("2x"));
    assert!(!is_valid_new_name("my var"));
    assert!(!is_valid_new_name("my-var"));
}
