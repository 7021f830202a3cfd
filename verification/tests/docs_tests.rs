use rustdocs::model::{
    CrateDocs, DocItem, ItemInner, ItemKind, MacroKind, Param, RustType, SourceSpan, StructKind, TypeArg, TypeArgs,
};
use rustdocs::query::{
    candidate_rows, display_name, find_by_name, follow_import, fuzzy_candidates, id_path, inherent_methods,
    item_report, module_items, resolve_id, resolve_path, search_items, span_str, trait_impls, ItemLookupError,
};
use rustdocs::render::{item_kind_name, render_type, signature};

fn path(p: &str, id: u32) -> RustType {
    RustType::ResolvedPath { path: p.to_string(), id, args: None }
}

fn prim(p: &str) -> RustType {
    RustType::Primitive(p.to_string())
}

fn item(id: u32, name: Option<&str>, docs: Option<&str>, inner: ItemInner) -> DocItem {
    DocItem { id, name: name.map(String::from), docs: docs.map(String::from), span: None, inner }
}

/// A small crate: module `demo` with struct `Router`, an inherent impl with
/// `new` and `route`, a `Clone` impl, a re-export `Alias` of `Router`, and a
/// second `route` function elsewhere.
fn demo() -> CrateDocs {
    let mut d = CrateDocs::new(61);
    d.add_item(0, item(0, Some("demo"), Some("The demo crate.\n\nMore."), ItemInner::Module { items: vec![1, 5, 9] }));
    d.add_item(1, DocItem {
        id: 1,
        name: Some("Router".into()),
        docs: Some("A router.".into()),
        span: Some(SourceSpan { filename: "src/router.rs".into(), line: 42 }),
        inner: ItemInner::Struct { generics: vec!["S".into()], kind: StructKind::Plain { fields: vec![2, 99] } },
    });
    d.add_item(2, item(2, Some("routes"), None, ItemInner::StructField(path("std::vec::Vec", 50))));
    d.add_item(3, item(3, None, None, ItemInner::Impl {
        generics: vec![],
        trait_path: None,
        for_: path("demo::Router", 1),
        items: vec![4, 6],
        is_negative: false,
        is_synthetic: false,
    }));
    d.add_item(4, item(4, Some("new"), Some("Makes one."), ItemInner::Function {
        generics: vec![],
        inputs: vec![],
        output: Some(RustType::Generic("Self".into())),
        is_c_variadic: false,
    }));
    d.add_item(5, item(5, None, None, ItemInner::Use { source: "demo::Router".into(), name: "Alias".into(), id: Some(1) }));
    d.add_item(6, item(6, Some("route"), None, ItemInner::Function {
        generics: vec!["T".into()],
        inputs: vec![
            Param { name: "self".into(), type_: RustType::Generic("Self".into()) },
            Param { name: "path".into(), type_: RustType::BorrowedRef { lifetime: None, is_mutable: false, type_: Box::new(prim("str")) } },
        ],
        output: Some(RustType::Generic("Self".into())),
        is_c_variadic: false,
    }));
    d.add_item(7, item(7, None, None, ItemInner::Impl {
        generics: vec!["S".into()],
        trait_path: Some("Clone".into()),
        for_: path("demo::Router", 1),
        items: vec![8],
        is_negative: false,
        is_synthetic: false,
    }));
    d.add_item(8, item(8, Some("clone"), None, ItemInner::Function { generics: vec![], inputs: vec![], output: None, is_c_variadic: false }));
    d.add_item(9, item(9, Some("route"), Some("Free function."), ItemInner::Function { generics: vec![], inputs: vec![], output: None, is_c_variadic: false }));
    d.add_path(0, vec!["demo".into()]);
    d.add_path(1, vec!["demo".into(), "Router".into()]);
    d.add_path(9, vec!["demo".into(), "route".into()]);
    d
}

#[test]
fn kind_names() {
    assert_eq!(item_kind_name(ItemKind::Use), "import");
    assert_eq!(item_kind_name(ItemKind::ProcDerive), "proc macro (derive)");
    assert_eq!(item_kind_name(ItemInner::ProcMacro(MacroKind::Bang).item_kind()), "macro");
    assert_eq!(item_kind_name(ItemInner::ProcMacro(MacroKind::Attr).item_kind()), "proc macro (attribute)");
}

#[test]
fn render_types() {
    let vec_u8 = RustType::ResolvedPath {
        path: "std::vec::Vec".into(),
        id: 1,
        args: Some(Box::new(TypeArgs::AngleBracketed { args: vec![TypeArg::Type(prim("u8"))] })),
    };
    assert_eq!(render_type(&vec_u8), "Vec<u8>");
    assert_eq!(render_type(&RustType::Tuple(vec![prim("u8"), prim("bool")])), "(u8, bool)");
    assert_eq!(render_type(&RustType::Tuple(vec![])), "()");
    assert_eq!(render_type(&RustType::Slice(Box::new(prim("u8")))), "[u8]");
    assert_eq!(render_type(&RustType::Array { type_: Box::new(prim("u8")), len: "4".into() }), "[u8; 4]");
    assert_eq!(
        render_type(&RustType::BorrowedRef { lifetime: Some("'a".into()), is_mutable: true, type_: Box::new(prim("str")) }),
        "&'a mut str"
    );
    assert_eq!(render_type(&RustType::RawPointer { is_mutable: false, type_: Box::new(prim("u8")) }), "*u8");
    assert_eq!(render_type(&RustType::DynTrait { trait_paths: vec!["std::fmt::Debug".into(), "Send".into()] }), "dyn Debug");
    assert_eq!(render_type(&RustType::DynTrait { trait_paths: vec![] }), "dyn");
    assert_eq!(render_type(&RustType::ImplTrait { bound_count: 2 }), "impl (2 bounds)");
    assert_eq!(render_type(&RustType::Infer), "_");
    assert_eq!(
        render_type(&RustType::QualifiedPath {
            name: "Item".into(),
            self_type: Box::new(RustType::Generic("I".into())),
            trait_path: Some("Iterator".into()),
        }),
        "<I as Iterator>::Item"
    );
    assert_eq!(
        render_type(&RustType::QualifiedPath { name: "Output".into(), self_type: Box::new(RustType::Generic("T".into())), trait_path: None }),
        "T::Output"
    );
    let fnp = RustType::FunctionPointer {
        inputs: vec![Param { name: "x".into(), type_: prim("i32") }],
        output: Some(Box::new(prim("bool"))),
    };
    assert_eq!(render_type(&fnp), "fn(x: i32) -> bool");
    let fn_trait = RustType::ResolvedPath {
        path: "Fn".into(),
        id: 3,
        args: Some(Box::new(TypeArgs::Parenthesized { inputs: vec![prim("u8")], output: Some(Box::new(prim("u16"))) })),
    };
    assert_eq!(render_type(&fn_trait), "Fn(u8) -> u16");
    let args = RustType::ResolvedPath {
        path: "a::B".into(),
        id: 4,
        args: Some(Box::new(TypeArgs::AngleBracketed {
            args: vec![TypeArg::Lifetime("'a".into()), TypeArg::Const("N".into()), TypeArg::Infer],
        })),
    };
    assert_eq!(render_type(&args), "B<'a, N, _>");
    let rtn = RustType::ResolvedPath { path: "f".into(), id: 5, args: Some(Box::new(TypeArgs::ReturnTypeNotation)) };
    assert_eq!(render_type(&rtn), "f(..)");
    assert_eq!(render_type(&RustType::Pat { type_: Box::new(prim("u32")) }), "u32");
}

#[test]
fn signatures() {
    let d = demo();
    assert_eq!(signature(&d, d.get(1).unwrap()), "struct Router<S> { routes: Vec }");
    assert_eq!(signature(&d, d.get(6).unwrap()), "fn route<T>(self: Self, path: &str) -> Self");
    assert_eq!(signature(&d, d.get(0).unwrap()), "module demo (3 items)");
    assert_eq!(signature(&d, d.get(3).unwrap()), "impl Router");
    assert_eq!(signature(&d, d.get(7).unwrap()), "impl Clone for Router");
    assert_eq!(signature(&d, d.get(5).unwrap()), "use demo::Router as ");
    assert_eq!(signature(&d, d.get(2).unwrap()), "routes: Vec");
    let ext = item(20, Some("core"), None, ItemInner::ExternCrate);
    assert_eq!(signature(&d, &ext), "core (extern crate)");
    let var = item(21, Some("f"), None, ItemInner::Function { generics: vec![], inputs: vec![], output: None, is_c_variadic: true });
    assert_eq!(signature(&d, &var), "fn f(), ...");
    let tup = item(22, Some("P"), None, ItemInner::Struct { generics: vec![], kind: StructKind::Tuple(vec![Some(2), None]) });
    assert_eq!(signature(&d, &tup), "struct P ( routes: Vec )");
    let unit = item(23, Some("U"), None, ItemInner::Struct { generics: vec![], kind: StructKind::Unit });
    assert_eq!(signature(&d, &unit), "struct U { }");
    let en = item(24, Some("E"), None, ItemInner::Enum { generics: vec![], variants: vec![4, 6, 100] });
    assert_eq!(signature(&d, &en), "enum E { new, route }");
    let al = item(25, Some("A"), None, ItemInner::TraitAlias { param_count: 3 });
    assert_eq!(signature(&d, &al), "trait alias A (3 bounds)");
    let c = item(26, Some("MAX"), None, ItemInner::Constant { type_: prim("u32"), expr: "10".into() });
    assert_eq!(signature(&d, &c), "const MAX: u32 = 10");
    let at = item(27, Some("Item"), None, ItemInner::AssocType { type_: None });
    assert_eq!(signature(&d, &at), "associated type Item");
    let p = item(28, None, None, ItemInner::Primitive { name: "u8".into() });
    assert_eq!(signature(&d, &p), "primitive u8");
}

#[test]
fn names_and_paths() {
    let d = demo();
    assert_eq!(display_name(d.get(5).unwrap()), "Alias");
    assert_eq!(display_name(d.get(3).unwrap()), "");
    assert_eq!(id_path(&d, 1), "demo::Router");
    assert_eq!(id_path(&d, 5), "use demo::Router");
    assert_eq!(id_path(&d, 4), "new");
    assert_eq!(id_path(&d, 3), "#Id(3)");
    assert_eq!(id_path(&d, 12345), "#Id(12345)");
    assert_eq!(span_str(d.get(1).unwrap()), Some("src/router.rs:42".to_string()));
    assert_eq!(span_str(d.get(2).unwrap()), None);
}

#[test]
fn module_listing() {
    let d = demo();
    let rows = module_items(&d, 0);
    assert_eq!(rows.len(), 3);
    assert_eq!(rows[0].name, "Router");
    assert_eq!(rows[0].kind, "struct");
    assert_eq!(rows[0].path, "demo::Router");
    assert_eq!(rows[0].docs, "A router.");
    assert_eq!(rows[1].name, "Alias");
    assert_eq!(rows[1].kind, "import");
    assert_eq!(rows[1].path, "use demo::Router");
    assert_eq!(rows[2].path, "demo::route");
    assert!(module_items(&d, 1).is_empty());
    assert!(module_items(&d, 999).is_empty());
}

#[test]
fn methods_and_impls() {
    let d = demo();
    let ms = inherent_methods(&d, 1);
    assert_eq!(ms.len(), 2);
    assert_eq!(ms[0].name, "new");
    assert_eq!(ms[0].signature, "fn new() -> Self");
    assert_eq!(ms[0].docs, "Makes one.");
    assert_eq!(ms[1].name, "route");
    let imps = trait_impls(&d, 1);
    assert_eq!(imps.len(), 1);
    assert_eq!(imps[0].trait_path, "Clone");
    assert_eq!(imps[0].generics, "<S>");
    assert!(!imps[0].negative && !imps[0].synthetic);
    assert_eq!(imps[0].provided_methods, vec!["clone".to_string()]);
    assert!(inherent_methods(&d, 2).is_empty());
}

#[test]
fn searching() {
    let d = demo();
    let rows = search_items(&d, "ROUT", 30);
    let names: Vec<&str> = rows.iter().map(|r| r.name.as_str()).collect();
    assert_eq!(names, vec!["Router", "routes", "route", "route"]);
    assert_eq!(search_items(&d, "rout", 2).len(), 2);
    assert!(search_items(&d, "rout", 0).is_empty());
    assert!(search_items(&d, "zzz", 5).is_empty());
    assert_eq!(find_by_name(&d, "route"), vec![1, 2, 6, 9]);
    assert_eq!(candidate_rows(&d, &[9, 77, 1]).len(), 2);
}

#[test]
fn path_resolution() {
    let d = demo();
    assert_eq!(resolve_path(&d, "demo::Router"), Some((1, "demo::Router".to_string())));
    assert_eq!(resolve_path(&d, "::demo::::Router::"), Some((1, "demo::Router".to_string())));
    assert_eq!(resolve_path(&d, "demo::router"), None);
    assert_eq!(follow_import(&d, 5), 1);
    assert_eq!(follow_import(&d, 1), 1);
    assert_eq!(resolve_id(&d, "demo::Router"), Ok((1, false)));
    assert_eq!(resolve_id(&d, "x::Alias"), Err("item 'x::Alias' not found".to_string()));
    assert_eq!(resolve_id(&d, "other::new"), Ok((4, true)));
    assert_eq!(
        resolve_id(&d, "x::route"),
        Err("ambiguous path 'x::route'; use a full path like crate::mod::Name".to_string())
    );
    assert_eq!(fuzzy_candidates(&d, "x::rout").len(), 4);
    assert!(fuzzy_candidates(&d, "x::zzz").is_empty());
}

#[test]
fn import_chains_stop_after_eight_steps() {
    let mut d = CrateDocs::new(61);
    for i in 0u32..12 {
        d.add_item(i, item(i, None, None, ItemInner::Use { source: "x".into(), name: "x".into(), id: Some(i + 1) }));
    }
    assert_eq!(follow_import(&d, 0), 8);
    let mut e = CrateDocs::new(61);
    e.add_item(0, item(0, None, None, ItemInner::Use { source: "s".into(), name: "s".into(), id: Some(0) }));
    assert_eq!(follow_import(&e, 0), 0);
}

#[test]
fn item_reports() {
    let d = demo();
    let r = item_report(&d, "demo::Router").unwrap();
    assert_eq!(r.resolved_path, "demo::Router");
    assert!(!r.fuzzy_match);
    assert_eq!(r.kind, "struct");
    assert_eq!(r.span, Some("src/router.rs:42".to_string()));
    assert!(r.module_items.is_none());
    let m = item_report(&d, "demo").unwrap();
    assert_eq!(m.module_items.unwrap().len(), 3);
    assert_eq!(m.docs, "The demo crate.\n\nMore.");
    match item_report(&d, "nothing::Here") {
        Err(ItemLookupError::Unresolved { error, candidates }) => {
            assert_eq!(error, "item 'nothing::Here' not found");
            assert!(candidates.is_empty());
        },
        other => panic!("unexpected {other:?}"),
    }
    let mut broken = CrateDocs::new(61);
    broken.add_path(40, vec!["gone".into()]);
    assert!(matches!(item_report(&broken, "gone"), Err(ItemLookupError::MissingFromIndex)));
}

#[test]
fn candidates_are_grouped_by_path() {
    let mut d = CrateDocs::new(61);
    d.add_item(1, item(1, Some("Error"), Some("first"), ItemInner::Variant));
    d.add_item(2, item(2, Some("Errors"), None, ItemInner::Variant));
    d.add_item(3, item(3, Some("Error"), Some("second"), ItemInner::Variant));
    d.add_item(4, item(4, Some("ErrorKind"), None, ItemInner::Variant));
    d.add_path(4, vec!["x".into(), "ErrorKind".into()]);
    let rows = candidate_rows(&d, &[1, 2, 3, 4, 3]);
    let paths: Vec<&str> = rows.iter().map(|r| r.path.as_str()).collect();
    assert_eq!(paths, vec!["Error", "Error", "Error", "Errors", "x::ErrorKind"]);
    let docs: Vec<&str> = rows.iter().map(|r| r.docs.as_str()).collect();
    assert_eq!(docs, vec!["first", "second", "second", "", ""]);
    let fz = fuzzy_candidates(&d, "m::error");
    let fz_paths: Vec<&str> = fz.iter().map(|r| r.path.as_str()).collect();
    assert_eq!(fz_paths, vec!["Error", "Error", "Errors", "x::ErrorKind"]);
}

#[test]
fn provided_methods_are_functions_only() {
    let mut d = CrateDocs::new(61);
    d.add_item(1, item(1, Some("S"), None, ItemInner::Struct { generics: vec![], kind: StructKind::Unit }));
    d.add_item(2, item(2, None, None, ItemInner::Impl {
        generics: vec![],
        trait_path: Some("Iterator".into()),
        for_: path("S", 1),
        items: vec![3, 4, 5, 6],
        is_negative: false,
        is_synthetic: false,
    }));
    d.add_item(3, item(3, Some("Item"), None, ItemInner::AssocType { type_: Some(prim("u8")) }));
    d.add_item(4, item(4, Some("next"), None, ItemInner::Function { generics: vec![], inputs: vec![], output: None, is_c_variadic: false }));
    d.add_item(5, item(5, Some("LIMIT"), None, ItemInner::AssocConst { type_: prim("usize") }));
    d.add_item(6, item(6, Some("size_hint"), None, ItemInner::Function { generics: vec![], inputs: vec![], output: None, is_c_variadic: false }));
    let imps = trait_impls(&d, 1);
    assert_eq!(imps.len(), 1);
    assert_eq!(imps[0].provided_methods, vec!["next".to_string(), "size_hint".to_string()]);
}
