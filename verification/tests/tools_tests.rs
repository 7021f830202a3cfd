use rustdocs::tools::{item_search_limit, requested_version, requirement_text, search_limit, truncate_source, unresolved_message};

#[test]
fn version_choice() {
    assert_eq!(requested_version(&Some("1.2.3".into())), Some("1.2.3".to_string()));
    assert_eq!(requested_version(&Some("latest".into())), None);
    assert_eq!(requested_version(&Some(String::new())), None);
    assert_eq!(requested_version(&None), None);
    assert_eq!(requested_version(&Some(" latest".into())), Some(" latest".to_string()));
}

#[test]
fn limits() {
    assert_eq!(search_limit(None), 10);
    assert_eq!(search_limit(Some(3)), 3);
    assert_eq!(search_limit(Some(100)), 25);
    assert_eq!(item_search_limit(None), 30);
    assert_eq!(item_search_limit(Some(0)), 0);
    assert_eq!(item_search_limit(Some(1000)), 100);
}

#[test]
fn requirement_default() {
    assert_eq!(requirement_text(&None), "*");
    assert_eq!(requirement_text(&Some("^1".into())), "^1");
}

#[test]
fn source_truncation() {
    let (t, cut) = truncate_source("fn main() {}");
    assert_eq!(t, "fn main() {}");
    assert!(!cut);
    let long: String = "é".repeat(20005);
    let (t, cut) = truncate_source(&long);
    assert!(cut);
    assert_eq!(t.chars().count(), 20000);
    let exact: String = "x".repeat(20000);
    assert_eq!(truncate_source(&exact), (exact.clone(), false));
}

#[test]
fn unresolved_text() {
    assert_eq!(unresolved_message("item 'x' not found", "axum", "0.7.5"), "item 'x' not found in axum@0.7.5");
}
