use std::io::Write;

use rustdocs::archive::{decompress_rustdoc, extract_source, load_rustdoc_json, LoadError, SourceError};
use rustdocs::cache::{cache_key, DocCache};
use rustdocs::model::{ItemInner, StructKind};

fn crate_archive(entries: &[(&str, &[u8])]) -> Vec<u8> {
    let mut builder = tar::Builder::new(Vec::new());
    for (path, data) in entries {
        let mut header = tar::Header::new_gnu();
        header.set_size(data.len() as u64);
        header.set_mode(0o644);
        header.set_cksum();
        builder.append_data(&mut header, path, *data).unwrap();
    }
    let tar_bytes = builder.into_inner().unwrap();
    let mut gz = flate2::write::GzEncoder::new(Vec::new(), flate2::Compression::default());
    gz.write_all(&tar_bytes).unwrap();
    gz.finish().unwrap()
}

#[test]
fn extracts_a_source_file() {
    let archive = crate_archive(&[
        ("demo-1.0.0/Cargo.toml", b"[package]\nname = \"demo\"\n"),
        ("demo-1.0.0/src/lib.rs", b"pub fn hello() {}\n"),
    ]);
    assert_eq!(extract_source(&archive, "demo", "1.0.0", "src/lib.rs").unwrap(), "pub fn hello() {}\n");
    assert_eq!(extract_source(&archive, "demo", "1.0.0", "Cargo.toml").unwrap(), "[package]\nname = \"demo\"\n");
}

#[test]
fn missing_file() {
    let archive = crate_archive(&[("demo-1.0.0/src/lib.rs", b"x")]);
    match extract_source(&archive, "demo", "1.0.0", "src/main.rs") {
        Err(e @ SourceError::NotFound { .. }) => {
            assert_eq!(e.message(), "file 'src/main.rs' not found in demo-1.0.0.crate");
        },
        other => panic!("unexpected {other:?}"),
    }
    assert!(matches!(extract_source(&archive, "demo", "2.0.0", "src/lib.rs"), Err(SourceError::NotFound { .. })));
}

#[test]
fn non_utf8_file() {
    let archive = crate_archive(&[("demo-1.0.0/data.bin", &[0xff, 0xfe, 0x00])]);
    match extract_source(&archive, "demo", "1.0.0", "data.bin") {
        Err(e @ SourceError::NotUtf8 { .. }) => {
            assert_eq!(e.message(), "source file 'data.bin' is not valid UTF-8");
        },
        other => panic!("unexpected {other:?}"),
    }
}

fn gzip(bytes: &[u8]) -> Vec<u8> {
    let mut gz = flate2::write::GzEncoder::new(Vec::new(), flate2::Compression::default());
    gz.write_all(bytes).unwrap();
    gz.finish().unwrap()
}

#[test]
fn damaged_tail_after_the_wanted_file() {
    let mut builder = tar::Builder::new(Vec::new());
    let mut header = tar::Header::new_gnu();
    header.set_size(1);
    header.set_mode(0o644);
    header.set_cksum();
    builder.append_data(&mut header, "demo-1.0.0/src/lib.rs", &b"x"[..]).unwrap();
    let mut tar_bytes = builder.into_inner().unwrap();
    tar_bytes.truncate(tar_bytes.len() - 1024);
    tar_bytes.extend_from_slice(&[0x41u8; 512]);
    let archive = gzip(&tar_bytes);
    assert_eq!(extract_source(&archive, "demo", "1.0.0", "src/lib.rs").unwrap(), "x");
    assert!(matches!(extract_source(&archive, "demo", "1.0.0", "src/main.rs"), Err(SourceError::Archive)));
}

#[test]
fn not_an_archive() {
    assert!(matches!(extract_source(b"plain text", "demo", "1.0.0", "src/lib.rs"), Err(SourceError::Archive)));
}

#[test]
fn decompresses_rustdoc_json() {
    let json = br#"{"format_version": 61}"#;
    let compressed = zstd::stream::encode_all(&json[..], 3).unwrap();
    assert_eq!(decompress_rustdoc(&compressed, "demo", "1.0.0").unwrap(), json.to_vec());
    let e = decompress_rustdoc(b"not zstd", "demo", "1.0.0").unwrap_err();
    assert_eq!(e.message(), "failed to decompress rustdoc JSON for demo@1.0.0");
}

fn rd_item(id: u32, name: &str, docs: Option<&str>, span: Option<(&str, usize)>, inner: rustdoc_types::ItemEnum) -> rustdoc_types::Item {
    rustdoc_types::Item {
        id: rustdoc_types::Id(id),
        crate_id: 0,
        name: Some(name.to_string()),
        span: span.map(|(f, l)| rustdoc_types::Span { filename: f.into(), begin: (l, 0), end: (l + 1, 0) }),
        visibility: rustdoc_types::Visibility::Public,
        docs: docs.map(String::from),
        links: Default::default(),
        attrs: vec![],
        deprecation: None,
        stability: None,
        const_stability: None,
        inner,
    }
}

/// A crate `demo` with a struct `S`, filed under key 7 though its own id is
/// 1, in the given format version; zstd-compressed.
fn rustdoc_json(format_version: u32) -> Vec<u8> {
    let mut index: std::collections::HashMap<rustdoc_types::Id, rustdoc_types::Item, _> = Default::default();
    index.insert(
        rustdoc_types::Id(0),
        rd_item(0, "demo", Some("The crate."), None, rustdoc_types::ItemEnum::Module(rustdoc_types::Module {
            is_crate: true,
            items: vec![rustdoc_types::Id(7)],
            is_stripped: false,
        })),
    );
    index.insert(
        rustdoc_types::Id(7),
        rd_item(1, "S", None, Some(("src/lib.rs", 3)), rustdoc_types::ItemEnum::Struct(rustdoc_types::Struct {
            kind: rustdoc_types::StructKind::Unit,
            generics: rustdoc_types::Generics { params: vec![], where_predicates: vec![] },
            impls: vec![],
        })),
    );
    let mut paths: std::collections::HashMap<rustdoc_types::Id, rustdoc_types::ItemSummary, _> = Default::default();
    paths.insert(
        rustdoc_types::Id(7),
        rustdoc_types::ItemSummary { crate_id: 0, path: vec!["demo".into(), "S".into()], kind: rustdoc_types::ItemKind::Struct },
    );
    let c = rustdoc_types::Crate {
        root: rustdoc_types::Id(0),
        crate_version: Some("1.0.0".into()),
        includes_private: false,
        index,
        paths,
        external_crates: Default::default(),
        target: rustdoc_types::Target { triple: "x86_64-unknown-linux-gnu".into(), target_features: vec![] },
        format_version,
    };
    zstd::stream::encode_all(serde_json::to_vec(&c).unwrap().as_slice(), 3).unwrap()
}

fn load_err(compressed: &[u8]) -> LoadError {
    match load_rustdoc_json(compressed, "demo", "1.0.0") {
        Err(e) => e,
        Ok(_) => panic!("loaded"),
    }
}

#[test]
fn loads_rustdoc_json() {
    let p = match load_rustdoc_json(&rustdoc_json(rustdoc_types::FORMAT_VERSION), "demo", "1.0.0") {
        Ok(p) => p,
        Err(e) => panic!("{}", e.message()),
    };
    assert_eq!(p.rustdoc_crate().crate_version.as_deref(), Some("1.0.0"));
    let mut keys = p.entry_keys();
    let kinds: Vec<ItemInner> = keys
        .iter()
        .map(|k| if *k == 0 { ItemInner::Module { items: vec![7] } } else { ItemInner::Struct { generics: vec![], kind: StructKind::Unit } })
        .collect();
    let d = p.into_docs(kinds);
    keys.sort();
    assert_eq!(keys, vec![0, 7]);
    assert_eq!(d.item_count(), 2);
    assert_eq!(d.format_version(), rustdoc_types::FORMAT_VERSION);
    let demo = d.get(0).unwrap();
    assert_eq!(demo.name.as_deref(), Some("demo"));
    assert_eq!(demo.docs.as_deref(), Some("The crate."));
    assert!(matches!(demo.inner, ItemInner::Module { .. }));
    let s = d.get(7).unwrap();
    assert_eq!(s.id, 1);
    assert_eq!(s.name.as_deref(), Some("S"));
    let span = s.span.as_ref().unwrap();
    assert_eq!((span.filename.as_str(), span.line), ("src/lib.rs", 3));
    assert!(d.get(1).is_none());
    assert_eq!(d.path_count(), 1);
    assert_eq!(d.path(7), Some(&vec!["demo".to_string(), "S".to_string()]));
}

#[test]
fn format_version_gate() {
    let e = load_err(&rustdoc_json(57));
    assert!(matches!(e, LoadError::FormatMismatch { found: 57, .. }));
    assert_eq!(
        e.message(),
        "rustdoc JSON for demo@1.0.0 has format_version 57, but this build of rustdocs-mcp supports 61"
    );
    let u = LoadError::Unparsable { krate: "a".into(), version: "1".into(), found: 0, detail: "bad".into() };
    assert_eq!(u.message(), "cannot parse rustdoc JSON for a@1 (format_version 0, expected 61): bad");
}

#[test]
fn unparsable_json_reports_its_format_version() {
    let old = zstd::stream::encode_all(&br#"{"format_version": 30, "index": 5}"#[..], 3).unwrap();
    match load_err(&old) {
        LoadError::Unparsable { found, detail, .. } => {
            assert_eq!(found, 30);
            assert!(!detail.is_empty());
        },
        other => panic!("unexpected {other:?}"),
    }
    let junk = zstd::stream::encode_all(&b"not json"[..], 3).unwrap();
    assert!(matches!(load_err(&junk), LoadError::Unparsable { found: 0, .. }));
    assert!(matches!(load_err(b"not zstd"), LoadError::Decompress { .. }));
}

#[test]
fn cache_returns_what_was_stored() {
    let mut cache: DocCache<u32> = DocCache::new();
    let key = cache_key("serde", "1.0.0");
    assert_eq!(key, "serde@1.0.0");
    assert_eq!(cache.get("serde@1.0.0"), None);
    cache.insert(key, 7);
    cache.insert(cache_key("axum", "0.7.0"), 8);
    assert_eq!(cache.get("serde@1.0.0"), Some(&7));
    assert_eq!(cache.get("axum@0.7.0"), Some(&8));
    cache.insert(cache_key("serde", "1.0.0"), 9);
    assert_eq!(cache.get("serde@1.0.0"), Some(&9));
    assert_eq!(cache.get("tokio@1.0.0"), None);
}
