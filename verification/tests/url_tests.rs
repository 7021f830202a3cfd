use rustdocs::url::{
    crate_archive_url, crate_url, dependencies_url, rustdoc_json_url, search_url, urlencode, versions_url,
};

#[test]
fn urlencode_keeps_unreserved() {
    assert_eq!(urlencode("serde_json"), "serde_json");
    assert_eq!(urlencode("a-b.c~d"), "a-b.c~d");
    assert_eq!(urlencode("AZaz09"), "AZaz09");
}

#[test]
fn urlencode_escapes_the_rest() {
    assert_eq!(urlencode("web framework"), "web%20framework");
    assert_eq!(urlencode("a/b?c=d&e"), "a%2Fb%3Fc%3Dd%26e");
    assert_eq!(urlencode("é"), "%C3%A9");
    assert_eq!(urlencode(""), "");
    assert_eq!(urlencode("%"), "%25");
}

#[test]
fn urlencode_distinct_inputs_stay_distinct() {
    let inputs = ["a b", "a%20b", "a+b", "a  b", "ab"];
    for (i, x) in inputs.iter().enumerate() {
        for (j, y) in inputs.iter().enumerate() {
            if i != j {
                assert_ne!(urlencode(x), urlencode(y));
            }
        }
    }
}

#[test]
fn registry_urls() {
    assert_eq!(search_url("async postgres", 10), "https://crates.io/api/v1/crates?q=async%20postgres&per_page=10");
    assert_eq!(crate_url("serde"), "https://crates.io/api/v1/crates/serde");
    assert_eq!(versions_url("axum"), "https://crates.io/api/v1/crates/axum/versions");
    assert_eq!(dependencies_url("axum", "0.7.5"), "https://crates.io/api/v1/crates/axum/0.7.5/dependencies");
    assert_eq!(dependencies_url("a b", "1.0.0+x"), "https://crates.io/api/v1/crates/a%20b/1.0.0%2Bx/dependencies");
}

#[test]
fn docs_and_archive_urls() {
    assert_eq!(rustdoc_json_url("serde", "1.0.200"), "https://docs.rs/crate/serde/1.0.200/json.zst");
    assert_eq!(
        crate_archive_url("serde", "1.0.200"),
        "https://static.crates.io/crates/serde/serde-1.0.200.crate"
    );
}

#[test]
fn encoding_distributes_over_concatenation() {
    for (a, b) in [("a b", "c/d"), ("", "ü"), ("x~", ""), ("100%", "&q=1")] {
        let whole = format!("{a}{b}");
        assert_eq!(urlencode(&whole), urlencode(a) + &urlencode(b));
    }
}
