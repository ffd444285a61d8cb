use rsp::special_forms::{is_special_form, FN, IF, LET, QUOTE, REQUIRE};

#[test]
fn test_is_special_form() {
    assert!(is_special_form("let"));
    assert!(is_special_form("quote"));
    assert!(is_special_form("fn"));
    assert!(is_special_form("if"));
    assert!(is_special_form("require"));
    assert!(!is_special_form("my-function"));
    assert!(!is_special_form(""));
}

#[test]
fn test_special_form_constants() {
    assert_eq!(LET, "let");
    assert_eq!(QUOTE, "quote");
    assert_eq!(FN, "fn");
    assert_eq!(IF, "if");
    assert_eq!(REQUIRE, "require");
}

#[test]
fn special_form_names_are_case_sensitive() {
    assert!(!is_special_form("Let"));
    assert!(!is_special_form("IF"));
    assert!(!is_special_form("lets"));
    assert!(!is_special_form("f"));
}
