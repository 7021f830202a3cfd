use rustdocs::text::{
    chars_of, collapse_whitespace, contains_chars, decimal_string, is_whitespace_char, join_strings,
    last_path_segment, snippet, split_path, string_of, trim_text,
};

#[test]
fn whitespace_matches_std_for_every_char() {
    for u in 0u32..=0x10FFFF {
        if let Some(c) = char::from_u32(u) {
            assert_eq!(is_whitespace_char(c), c.is_whitespace(), "U+{:04X}", u);
        }
    }
}

#[test]
fn trim_matches_std() {
    for s in ["", "  ", " a ", "\u{3000}x y\u{2029}", "\t\nabc\r\n", "abc", "\u{85}z"] {
        let t: String = trim_text(s).into_iter().collect();
        assert_eq!(t, s.trim());
    }
}

#[test]
fn snippet_collapses_whitespace() {
    assert_eq!(snippet("  Hello\n\tworld  ", 200), "Hello world");
    assert_eq!(snippet("a\r\n\r\nb   c", 200), "a b c");
    assert_eq!(snippet("", 200), "");
    assert_eq!(snippet(" \n\t ", 10), "");
}

#[test]
fn snippet_cuts_long_text() {
    assert_eq!(snippet("abcdef", 3), "abc...");
    assert_eq!(snippet("abc", 3), "abc");
    assert_eq!(snippet("one two three", 7), "one two...");
    assert_eq!(snippet("héllo wörld", 5), "héllo...");
    assert_eq!(snippet("abc", 0), "...");
}

#[test]
fn snippet_is_one_line() {
    let s = snippet("line one\nline two\r\n\ttabbed\u{2028}sep", 1000);
    assert!(!s.contains('\n') && !s.contains('\r') && !s.contains('\t'));
    assert_eq!(s, "line one line two tabbed sep");
}

#[test]
fn collapse_matches_split_whitespace() {
    for s in ["a  b", "  x\ty\nz ", "", "single", "\u{a0}nb\u{a0}sp\u{a0}"] {
        let got: String = collapse_whitespace(s).into_iter().collect();
        assert_eq!(got, s.split_whitespace().collect::<Vec<_>>().join(" "));
    }
}

#[test]
fn split_path_drops_empty_segments() {
    assert_eq!(split_path("axum::Router"), vec!["axum".to_string(), "Router".to_string()]);
    assert_eq!(split_path("::a::::b::"), vec!["a".to_string(), "b".to_string()]);
    assert_eq!(split_path(""), Vec::<String>::new());
    assert_eq!(split_path("a:b"), vec!["a:b".to_string()]);
    assert_eq!(split_path(":::x"), vec![":x".to_string()]);
}

#[test]
fn split_path_matches_std() {
    for s in ["a::b::c", "::", ":::", "a:::b", "x::::y", "std::collections::HashMap", "::::"] {
        let want: Vec<String> = s.split("::").filter(|p| !p.is_empty()).map(String::from).collect();
        assert_eq!(split_path(s), want, "{s}");
    }
}

#[test]
fn last_segment_matches_rsplit() {
    for s in ["a::b", ":::", "abc", "a:::b", "", "x::", "::y", "a::b::c"] {
        assert_eq!(last_path_segment(s), s.rsplit("::").next().unwrap(), "{s}");
    }
}

#[test]
fn decimal_digits() {
    assert_eq!(decimal_string(0), "0");
    assert_eq!(decimal_string(7), "7");
    assert_eq!(decimal_string(20000), "20000");
    assert_eq!(decimal_string(u64::MAX), u64::MAX.to_string());
}

#[test]
fn join_and_chars() {
    let parts = vec!["a".to_string(), "b".to_string(), "c".to_string()];
    assert_eq!(join_strings(&parts, "::"), "a::b::c");
    assert_eq!(join_strings(&Vec::new(), ", "), "");
    assert_eq!(string_of(&chars_of("héllo")), "héllo");
}

#[test]
fn substring_search() {
    let hay = chars_of("IntoIterator");
    assert!(contains_chars(&hay, &chars_of("Iter")));
    assert!(contains_chars(&hay, &chars_of("")));
    assert!(!contains_chars(&hay, &chars_of("iter")));
    assert!(!contains_chars(&chars_of("ab"), &chars_of("abc")));
}

#[test]
fn snippet_of_a_snippet_is_the_same() {
    for (d, m) in [("a  b\n\tc", 100), ("alpha beta gamma", 6), ("alpha beta gamma", 5), ("  x  ", 0), ("", 3), ("one\r\ntwo", 3)] {
        let s = snippet(d, m);
        assert_eq!(snippet(&s, m), s, "{d:?} {m}");
    }
    assert_eq!(snippet("alpha beta gamma", 6), "alpha ...");
}
