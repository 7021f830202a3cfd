//! One-line renderings of types, kinds and item signatures.

use vstd::prelude::*;
use vstd::string::*;
use crate::model::{CrateDocs, DocItem, ItemInner, ItemKind, Param, RustType, StructKind, TypeArg, TypeArgs};
use crate::text::{decimal, decimal_string, join, join_strings, last_path_segment, last_segment, views};

verus! {

/// The human-readable name of an item kind.
pub open spec fn kind_name(k: ItemKind) -> Seq<char> {
    match k {
        ItemKind::Module => "module"@,
        ItemKind::ExternCrate => "extern crate"@,
        ItemKind::Use => "import"@,
        ItemKind::Struct => "struct"@,
        ItemKind::StructField => "field"@,
        ItemKind::Union => "union"@,
        ItemKind::Enum => "enum"@,
        ItemKind::Variant => "variant"@,
        ItemKind::Function => "function"@,
        ItemKind::TypeAlias => "type alias"@,
        ItemKind::Constant => "constant"@,
        ItemKind::Trait => "trait"@,
        ItemKind::TraitAlias => "trait alias"@,
        ItemKind::Impl => "impl"@,
        ItemKind::Static => "static"@,
        ItemKind::ExternType => "extern type"@,
        ItemKind::Macro => "macro"@,
        ItemKind::ProcAttribute => "proc macro (attribute)"@,
        ItemKind::ProcDerive => "proc macro (derive)"@,
        ItemKind::AssocConst => "associated constant"@,
        ItemKind::AssocType => "associated type"@,
        ItemKind::Primitive => "primitive"@,
        ItemKind::Keyword => "keyword"@,
        ItemKind::Attribute => "attribute"@,
    }
}

/// Human-readable kind name for an item.
pub fn item_kind_name(kind: ItemKind) -> (s: String)
    ensures
        s@ == kind_name(kind),
{
    let name = match kind {
        ItemKind::Module => "module",
        ItemKind::ExternCrate => "extern crate",
        ItemKind::Use => "import",
        ItemKind::Struct => "struct",
        ItemKind::StructField => "field",
        ItemKind::Union => "union",
        ItemKind::Enum => "enum",
        ItemKind::Variant => "variant",
        ItemKind::Function => "function",
        ItemKind::TypeAlias => "type alias",
        ItemKind::Constant => "constant",
        ItemKind::Trait => "trait",
        ItemKind::TraitAlias => "trait alias",
        ItemKind::Impl => "impl",
        ItemKind::Static => "static",
        ItemKind::ExternType => "extern type",
        ItemKind::Macro => "macro",
        ItemKind::ProcAttribute => "proc macro (attribute)",
        ItemKind::ProcDerive => "proc macro (derive)",
        ItemKind::AssocConst => "associated constant",
        ItemKind::AssocType => "associated type",
        ItemKind::Primitive => "primitive",
        ItemKind::Keyword => "keyword",
        ItemKind::Attribute => "attribute",
    };
    String::from_str(name)
}

// ---------------------------------------------------------------------------
// types
// ---------------------------------------------------------------------------

/// `"mut "` for a mutable pointer or reference, else nothing.
pub open spec fn mut_text(is_mutable: bool) -> Seq<char> {
    if is_mutable { "mut "@ } else { Seq::empty() }
}

/// The compact one-line rendering of a type.
pub open spec fn type_text(t: RustType) -> Seq<char>
    decreases t,
{
    match t {
        RustType::ResolvedPath { path, args, .. } => match args {
            Some(a) => last_segment(path@) + args_text(*a),
            None => last_segment(path@),
        },
        RustType::DynTrait { trait_paths } => if trait_paths@.len() > 0 {
            "dyn "@ + last_segment(trait_paths@[0]@)
        } else {
            "dyn"@
        },
        RustType::Generic(s) => s@,
        RustType::Primitive(s) => s@,
        RustType::FunctionPointer { inputs, output } => match output {
            Some(o) => "fn("@ + params_text(inputs@) + ") -> "@ + type_text(*o),
            None => "fn("@ + params_text(inputs@) + ")"@,
        },
        RustType::Tuple(ts) => "("@ + types_text(ts@) + ")"@,
        RustType::Slice(e) => "["@ + type_text(*e) + "]"@,
        RustType::Array { type_, len } => "["@ + type_text(*type_) + "; "@ + len@ + "]"@,
        RustType::Pat { type_ } => type_text(*type_),
        RustType::ImplTrait { bound_count } => "impl ("@ + decimal(bound_count as nat) + " bounds)"@,
        RustType::Infer => "_"@,
        RustType::RawPointer { is_mutable, type_ } => "*"@ + mut_text(is_mutable) + type_text(*type_),
        RustType::BorrowedRef { lifetime, is_mutable, type_ } => "&"@ + match lifetime {
            Some(l) => l@ + " "@,
            None => Seq::empty(),
        } + mut_text(is_mutable) + type_text(*type_),
        RustType::QualifiedPath { name, self_type, trait_path } => match trait_path {
            Some(tp) => "<"@ + type_text(*self_type) + " as "@ + tp@ + ">::"@ + name@,
            None => type_text(*self_type) + "::"@ + name@,
        },
    }
}

/// `name: T` for each parameter, joined by `, `.
pub open spec fn params_text(ps: Seq<Param>) -> Seq<char>
    decreases ps,
{
    if ps.len() == 0 {
        Seq::empty()
    } else if ps.len() == 1 {
        param_text(ps[0])
    } else {
        params_text(ps.drop_last()) + ", "@ + param_text(ps.last())
    }
}

/// `name: T`
pub open spec fn param_text(p: Param) -> Seq<char>
    decreases p,
{
    p.name@ + ": "@ + type_text(p.type_)
}

/// The types rendered and joined by `, `.
pub open spec fn types_text(ts: Seq<RustType>) -> Seq<char>
    decreases ts,
{
    if ts.len() == 0 {
        Seq::empty()
    } else if ts.len() == 1 {
        type_text(ts[0])
    } else {
        types_text(ts.drop_last()) + ", "@ + type_text(ts.last())
    }
}

/// The rendering of the generic arguments of a path.
pub open spec fn args_text(a: TypeArgs) -> Seq<char>
    decreases a,
{
    match a {
        TypeArgs::AngleBracketed { args } => "<"@ + arg_list_text(args@) + ">"@,
        TypeArgs::Parenthesized { inputs, output } => match output {
            Some(o) => "("@ + types_text(inputs@) + ") -> "@ + type_text(*o),
            None => "("@ + types_text(inputs@) + ")"@,
        },
        TypeArgs::ReturnTypeNotation => "(..)"@,
    }
}

/// The generic arguments rendered and joined by `, `.
pub open spec fn arg_list_text(v: Seq<TypeArg>) -> Seq<char>
    decreases v,
{
    if v.len() == 0 {
        Seq::empty()
    } else if v.len() == 1 {
        arg_text(v[0])
    } else {
        arg_list_text(v.drop_last()) + ", "@ + arg_text(v.last())
    }
}

/// One generic argument: a lifetime, a type, a const expression or `_`.
pub open spec fn arg_text(a: TypeArg) -> Seq<char>
    decreases a,
{
    match a {
        TypeArg::Lifetime(s) => s@,
        TypeArg::Type(t) => type_text(t),
        TypeArg::Const(e) => e@,
        TypeArg::Infer => "_"@,
    }
}

/// Render a type to a compact one-line string.
pub fn render_type(t: &RustType) -> (s: String)
    ensures
        s@ == type_text(*t),
    decreases t,
{
    match t {
        RustType::ResolvedPath { path, args, .. } => {
            let mut s = last_path_segment(path.as_str());
            match args {
                Some(a) => {
                    let r = render_generic_args(a);
                    s.append(r.as_str());
                },
                None => {},
            }
            s
        },
        RustType::DynTrait { trait_paths } => render_dyn_trait(trait_paths),
        RustType::Generic(g) => g.clone(),
        RustType::Primitive(p) => p.clone(),
        RustType::FunctionPointer { inputs, output } => {
            let mut s = String::from_str("fn(");
            let ps = render_params(inputs);
            s.append(ps.as_str());
            match output {
                Some(o) => {
                    s.append(") -> ");
                    let r = render_type(o);
                    s.append(r.as_str());
                },
                None => {
                    s.append(")");
                },
            }
            s
        },
        RustType::Tuple(ts) => {
            let mut s = String::from_str("(");
            let r = render_types(ts);
            s.append(r.as_str());
            s.append(")");
            s
        },
        RustType::Slice(e) => {
            let mut s = String::from_str("[");
            let r = render_type(e);
            s.append(r.as_str());
            s.append("]");
            s
        },
        RustType::Array { type_, len } => {
            let mut s = String::from_str("[");
            let r = render_type(type_);
            s.append(r.as_str());
            s.append("; ");
            s.append(len.as_str());
            s.append("]");
            s
        },
        RustType::Pat { type_ } => render_type(type_),
        RustType::ImplTrait { bound_count } => {
            let mut s = String::from_str("impl (");
            let n = decimal_string(*bound_count as u64);
            s.append(n.as_str());
            s.append(" bounds)");
            s
        },
        RustType::Infer => String::from_str("_"),
        RustType::RawPointer { is_mutable, type_ } => {
            let mut s = String::from_str("*");
            if *is_mutable {
                s.append("mut ");
            }
            let r = render_type(type_);
            s.append(r.as_str());
            s
        },
        RustType::BorrowedRef { lifetime, is_mutable, type_ } => {
            let mut s = String::from_str("&");
            match lifetime {
                Some(l) => {
                    s.append(l.as_str());
                    s.append(" ");
                },
                None => {},
            }
            if *is_mutable {
                s.append("mut ");
            }
            let r = render_type(type_);
            s.append(r.as_str());
            s
        },
        RustType::QualifiedPath { name, self_type, trait_path } => {
            let st = render_type(self_type);
            match trait_path {
                Some(tp) => {
                    let mut s = String::from_str("<");
                    s.append(st.as_str());
                    s.append(" as ");
                    s.append(tp.as_str());
                    s.append(">::");
                    s.append(name.as_str());
                    s
                },
                None => {
                    let mut s = st;
                    s.append("::");
                    s.append(name.as_str());
                    s
                },
            }
        },
    }
}

/// `dyn` and the last segment of the first trait's path, or bare `dyn`.
fn render_dyn_trait(trait_paths: &Vec<String>) -> (s: String)
    ensures
        s@ == if trait_paths@.len() > 0 { "dyn "@ + last_segment(trait_paths@[0]@) } else { "dyn"@ },
{
    if trait_paths.len() > 0 {
        let mut s = String::from_str("dyn ");
        let n = last_path_segment(trait_paths[0].as_str());
        s.append(n.as_str());
        s
    } else {
        String::from_str("dyn")
    }
}

fn render_params(ps: &Vec<Param>) -> (s: String)
    ensures
        s@ == params_text(ps@),
    decreases ps,
{
    let mut out = String::new();
    let mut i: usize = 0;
    while i < ps.len()
        invariant
            i <= ps@.len(),
            out@ == params_text(ps@.take(i as int)),
        decreases ps@.len() - i,
    {
        assert(ps@.take(i + 1).drop_last() == ps@.take(i as int));
        if i > 0 {
            out.append(", ");
        }
        proof { assert(decreases_to!(ps => ps@[i as int])); }
        let p = render_param(&ps[i]);
        out.append(p.as_str());
        i += 1;
    }
    assert(ps@.take(ps@.len() as int) == ps@);
    out
}

fn render_param(p: &Param) -> (s: String)
    ensures
        s@ == param_text(*p),
    decreases p,
{
    let mut s = p.name.clone();
    s.append(": ");
    let t = render_type(&p.type_);
    s.append(t.as_str());
    s
}

fn render_types(ts: &Vec<RustType>) -> (s: String)
    ensures
        s@ == types_text(ts@),
    decreases ts,
{
    let mut out = String::new();
    let mut i: usize = 0;
    while i < ts.len()
        invariant
            i <= ts@.len(),
            out@ == types_text(ts@.take(i as int)),
        decreases ts@.len() - i,
    {
        assert(ts@.take(i + 1).drop_last() == ts@.take(i as int));
        if i > 0 {
            out.append(", ");
        }
        proof { assert(decreases_to!(ts => ts@[i as int])); }
        let r = render_type(&ts[i]);
        out.append(r.as_str());
        i += 1;
    }
    assert(ts@.take(ts@.len() as int) == ts@);
    out
}

fn render_generic_args(a: &TypeArgs) -> (s: String)
    ensures
        s@ == args_text(*a),
    decreases a,
{
    match a {
        TypeArgs::AngleBracketed { args } => {
            let mut s = String::from_str("<");
            let r = render_arg_list(args);
            s.append(r.as_str());
            s.append(">");
            s
        },
        TypeArgs::Parenthesized { inputs, output } => {
            let mut s = String::from_str("(");
            let r = render_types(inputs);
            s.append(r.as_str());
            match output {
                Some(o) => {
                    s.append(") -> ");
                    let x = render_type(o);
                    s.append(x.as_str());
                },
                None => {
                    s.append(")");
                },
            }
            s
        },
        TypeArgs::ReturnTypeNotation => String::from_str("(..)"),
    }
}

fn render_arg_list(v: &Vec<TypeArg>) -> (s: String)
    ensures
        s@ == arg_list_text(v@),
    decreases v,
{
    let mut out = String::new();
    let mut i: usize = 0;
    while i < v.len()
        invariant
            i <= v@.len(),
            out@ == arg_list_text(v@.take(i as int)),
        decreases v@.len() - i,
    {
        assert(v@.take(i + 1).drop_last() == v@.take(i as int));
        if i > 0 {
            out.append(", ");
        }
        proof { assert(decreases_to!(v => v@[i as int])); }
        let x = render_arg(&v[i]);
        out.append(x.as_str());
        i += 1;
    }
    assert(v@.take(v@.len() as int) == v@);
    out
}

fn render_arg(a: &TypeArg) -> (s: String)
    ensures
        s@ == arg_text(*a),
    decreases a,
{
    match a {
        TypeArg::Lifetime(l) => l.clone(),
        TypeArg::Type(t) => render_type(t),
        TypeArg::Const(e) => e.clone(),
        TypeArg::Infer => String::from_str("_"),
    }
}

// ---------------------------------------------------------------------------
// signatures
// ---------------------------------------------------------------------------

/// The text of an optional name, or `d` when there is none.
pub open spec fn name_or(n: Option<String>, d: Seq<char>) -> Seq<char> {
    match n {
        Some(s) => s@,
        None => d,
    }
}

/// `<A, B>` for generic parameter names, or nothing when there are none.
pub open spec fn generics_text(g: Seq<String>) -> Seq<char> {
    if g.len() == 0 {
        Seq::empty()
    } else {
        "<"@ + join(views(g), ", "@) + ">"@
    }
}

/// `name: T` for a field item, `name: ?` for anything else; an unnamed
/// item is `_`.
pub open spec fn field_repr_text(f: DocItem) -> Seq<char> {
    let n = name_or(f.name, "_"@);
    match f.inner {
        ItemInner::StructField(t) => n + ": "@ + type_text(t),
        _ => n + ": ?"@,
    }
}

/// The field renderings of those `ids` that the index holds, in order.
pub open spec fn field_reprs(idx: Map<u32, DocItem>, ids: Seq<u32>) -> Seq<Seq<char>>
    decreases ids.len(),
{
    if ids.len() == 0 {
        Seq::empty()
    } else {
        let rest = field_reprs(idx, ids.drop_last());
        if idx.contains_key(ids.last()) {
            rest.push(field_repr_text(idx[ids.last()]))
        } else {
            rest
        }
    }
}

/// The field renderings of the present, indexed ids of a tuple struct.
pub open spec fn tuple_field_reprs(idx: Map<u32, DocItem>, ids: Seq<Option<u32>>) -> Seq<Seq<char>>
    decreases ids.len(),
{
    if ids.len() == 0 {
        Seq::empty()
    } else {
        let rest = tuple_field_reprs(idx, ids.drop_last());
        match ids.last() {
            Some(id) => if idx.contains_key(id) {
                rest.push(field_repr_text(idx[id]))
            } else {
                rest
            },
            None => rest,
        }
    }
}

/// The names of those `ids` that the index holds with a name, in order.
pub open spec fn item_names(idx: Map<u32, DocItem>, ids: Seq<u32>) -> Seq<Seq<char>>
    decreases ids.len(),
{
    if ids.len() == 0 {
        Seq::empty()
    } else {
        let rest = item_names(idx, ids.drop_last());
        if idx.contains_key(ids.last()) && idx[ids.last()].name is Some {
            rest.push(idx[ids.last()].name->0@)
        } else {
            rest
        }
    }
}

/// The body of a struct signature.
pub open spec fn struct_body_text(idx: Map<u32, DocItem>, k: StructKind) -> Seq<char> {
    match k {
        StructKind::Unit => "{ }"@,
        StructKind::Tuple(ids) => "( "@ + join(tuple_field_reprs(idx, ids@), ", "@) + " )"@,
        StructKind::Plain { fields } => "{ "@ + join(field_reprs(idx, fields@), ", "@) + " }"@,
    }
}

/// `impl Trait for T` or `impl T`.
pub open spec fn impl_header_text(trait_path: Option<String>, for_: RustType) -> Seq<char> {
    match trait_path {
        Some(tp) => "impl "@ + tp@ + " for "@ + type_text(for_),
        None => "impl "@ + type_text(for_),
    }
}

/// The one-line signature of an item, by its kind.
pub open spec fn signature_text(idx: Map<u32, DocItem>, item: DocItem) -> Seq<char> {
    let name = name_or(item.name, Seq::empty());
    match item.inner {
        ItemInner::Function { generics, inputs, output, is_c_variadic } =>
            "fn "@ + name + generics_text(generics@) + "("@ + params_text(inputs@) + ")"@
                + (if is_c_variadic { ", ..."@ } else { Seq::empty() })
                + match output {
                    Some(t) => " -> "@ + type_text(t),
                    None => Seq::empty(),
                },
        ItemInner::Struct { generics, kind } =>
            "struct "@ + name + generics_text(generics@) + " "@ + struct_body_text(idx, kind),
        ItemInner::Union { generics, fields } =>
            "union "@ + name + generics_text(generics@) + " { "@ + join(field_reprs(idx, fields@), ", "@) + " }"@,
        ItemInner::Enum { generics, variants } =>
            "enum "@ + name + generics_text(generics@) + " { "@ + join(item_names(idx, variants@), ", "@) + " }"@,
        ItemInner::Trait { generics, items } =>
            "trait "@ + name + generics_text(generics@) + " { "@ + join(item_names(idx, items@), ", "@) + " }"@,
        ItemInner::TraitAlias { param_count } =>
            "trait alias "@ + name + " ("@ + decimal(param_count as nat) + " bounds)"@,
        ItemInner::TypeAlias { generics, type_ } =>
            "type "@ + name + generics_text(generics@) + " = "@ + type_text(type_),
        ItemInner::Static { type_ } => "static "@ + name + ": "@ + type_text(type_),
        ItemInner::Constant { type_, expr } => "const "@ + name + ": "@ + type_text(type_) + " = "@ + expr@,
        ItemInner::Module { items } => "module "@ + name + " ("@ + decimal(items@.len()) + " items)"@,
        ItemInner::Impl { trait_path, for_, .. } => impl_header_text(trait_path, for_),
        ItemInner::Macro => "macro "@ + name,
        ItemInner::ProcMacro(_) => "proc macro "@ + name,
        ItemInner::Primitive { name: p } => "primitive "@ + p@,
        ItemInner::Use { source, .. } => "use "@ + source@ + " as "@ + name,
        ItemInner::AssocConst { type_ } => "associated const "@ + name + ": "@ + type_text(type_),
        ItemInner::AssocType { type_ } => match type_ {
            Some(t) => "associated type "@ + name + " = "@ + type_text(t),
            None => "associated type "@ + name,
        },
        ItemInner::StructField(t) => name + ": "@ + type_text(t),
        ItemInner::Variant => "variant "@ + name,
        ItemInner::ExternType => "extern type "@ + name,
        ItemInner::ExternCrate => name + " ("@ + kind_name(ItemKind::ExternCrate) + ")"@,
    }
}

fn name_text(n: &Option<String>, d: &str) -> (s: String)
    ensures
        s@ == name_or(*n, d@),
{
    match n {
        Some(x) => x.clone(),
        None => String::from_str(d),
    }
}

/// `<A, B>` for the generic parameter names, or nothing when there are none.
pub fn render_generics(g: &Vec<String>) -> (s: String)
    ensures
        s@ == generics_text(g@),
{
    if g.len() == 0 {
        String::new()
    } else {
        let mut s = String::from_str("<");
        let j = join_strings(g, ", ");
        s.append(j.as_str());
        s.append(">");
        s
    }
}

fn field_repr(f: &DocItem) -> (s: String)
    ensures
        s@ == field_repr_text(*f),
{
    let mut s = name_text(&f.name, "_");
    match &f.inner {
        ItemInner::StructField(t) => {
            s.append(": ");
            let r = render_type(t);
            s.append(r.as_str());
        },
        _ => {
            s.append(": ?");
        },
    }
    s
}

fn field_repr_list(docs: &CrateDocs, ids: &Vec<u32>) -> (parts: Vec<String>)
    ensures
        views(parts@) == field_reprs(docs.index(), ids@),
{
    let mut parts: Vec<String> = Vec::new();
    let mut i: usize = 0;
    while i < ids.len()
        invariant
            i <= ids@.len(),
            views(parts@) == field_reprs(docs.index(), ids@.take(i as int)),
        decreases ids@.len() - i,
    {
        assert(ids@.take(i + 1).drop_last() == ids@.take(i as int));
        match docs.get(ids[i]) {
            Some(f) => {
                let ghost before = views(parts@);
                parts.push(field_repr(f));
                assert(views(parts@) =~= before.push(field_repr_text(*f)));
            },
            None => {},
        }
        i += 1;
    }
    assert(ids@.take(ids@.len() as int) == ids@);
    parts
}

fn tuple_field_repr_list(docs: &CrateDocs, ids: &Vec<Option<u32>>) -> (parts: Vec<String>)
    ensures
        views(parts@) == tuple_field_reprs(docs.index(), ids@),
{
    let mut parts: Vec<String> = Vec::new();
    let mut i: usize = 0;
    while i < ids.len()
        invariant
            i <= ids@.len(),
            views(parts@) == tuple_field_reprs(docs.index(), ids@.take(i as int)),
        decreases ids@.len() - i,
    {
        assert(ids@.take(i + 1).drop_last() == ids@.take(i as int));
        match ids[i] {
            Some(id) => match docs.get(id) {
                Some(f) => {
                    let ghost before = views(parts@);
                    parts.push(field_repr(f));
                    assert(views(parts@) =~= before.push(field_repr_text(*f)));
                },
                None => {},
            },
            None => {},
        }
        i += 1;
    }
    assert(ids@.take(ids@.len() as int) == ids@);
    parts
}

fn item_name_list(docs: &CrateDocs, ids: &Vec<u32>) -> (parts: Vec<String>)
    ensures
        views(parts@) == item_names(docs.index(), ids@),
{
    let mut parts: Vec<String> = Vec::new();
    let mut i: usize = 0;
    while i < ids.len()
        invariant
            i <= ids@.len(),
            views(parts@) == item_names(docs.index(), ids@.take(i as int)),
        decreases ids@.len() - i,
    {
        assert(ids@.take(i + 1).drop_last() == ids@.take(i as int));
        match docs.get(ids[i]) {
            Some(it) => match &it.name {
                Some(n) => {
                    let ghost before = views(parts@);
                    parts.push(n.clone());
                    assert(views(parts@) =~= before.push(n@));
                },
                None => {},
            },
            None => {},
        }
        i += 1;
    }
    assert(ids@.take(ids@.len() as int) == ids@);
    parts
}

fn render_struct(docs: &CrateDocs, kind: &StructKind) -> (s: String)
    ensures
        s@ == struct_body_text(docs.index(), *kind),
{
    match kind {
        StructKind::Unit => String::from_str("{ }"),
        StructKind::Tuple(ids) => {
            let parts = tuple_field_repr_list(docs, ids);
            let mut s = String::from_str("( ");
            let j = join_strings(&parts, ", ");
            s.append(j.as_str());
            s.append(" )");
            s
        },
        StructKind::Plain { fields } => {
            let parts = field_repr_list(docs, fields);
            let mut s = String::from_str("{ ");
            let j = join_strings(&parts, ", ");
            s.append(j.as_str());
            s.append(" }");
            s
        },
    }
}

fn render_impl_header(trait_path: &Option<String>, for_: &RustType) -> (s: String)
    ensures
        s@ == impl_header_text(*trait_path, *for_),
{
    let f = render_type(for_);
    let mut s = String::from_str("impl ");
    match trait_path {
        Some(tp) => {
            s.append(tp.as_str());
            s.append(" for ");
            s.append(f.as_str());
        },
        None => {
            s.append(f.as_str());
        },
    }
    s
}

/// `prefix` + `name` + `generics` + `middle` + `list joined by ", "` + `suffix`.
fn braced(prefix: &str, name: &String, generics: &Vec<String>, middle: &str, list: &Vec<String>, suffix: &str) -> (s: String)
    ensures
        s@ == prefix@ + name@ + generics_text(generics@) + middle@ + join(views(list@), ", "@) + suffix@,
{
    let mut s = String::from_str(prefix);
    s.append(name.as_str());
    let g = render_generics(generics);
    s.append(g.as_str());
    s.append(middle);
    let j = join_strings(list, ", ");
    s.append(j.as_str());
    s.append(suffix);
    s
}

/// Best-effort one-line signature for an item, depending on its kind.
pub fn signature(docs: &CrateDocs, item: &DocItem) -> (s: String)
    ensures
        s@ == signature_text(docs.index(), *item),
{
    let name = match &item.name {
        Some(n) => n.clone(),
        None => String::new(),
    };
    match &item.inner {
        ItemInner::Function { generics, inputs, output, is_c_variadic } => {
            let mut s = String::from_str("fn ");
            s.append(name.as_str());
            let g = render_generics(generics);
            s.append(g.as_str());
            s.append("(");
            let ps = render_params(inputs);
            s.append(ps.as_str());
            s.append(")");
            let ghost head = s@;
            if *is_c_variadic {
                s.append(", ...");
            } else {
                assert(head + Seq::<char>::empty() =~= head);
            }
            let ghost mid = s@;
            match output {
                Some(t) => {
                    s.append(" -> ");
                    let r = render_type(t);
                    s.append(r.as_str());
                },
                None => {
                    assert(mid + Seq::<char>::empty() =~= mid);
                },
            }
            s
        },
        ItemInner::Struct { generics, kind } => {
            let mut s = String::from_str("struct ");
            s.append(name.as_str());
            let g = render_generics(generics);
            s.append(g.as_str());
            s.append(" ");
            let b = render_struct(docs, kind);
            s.append(b.as_str());
            s
        },
        ItemInner::Union { generics, fields } => {
            let parts = field_repr_list(docs, fields);
            braced("union ", &name, generics, " { ", &parts, " }")
        },
        ItemInner::Enum { generics, variants } => {
            let parts = item_name_list(docs, variants);
            braced("enum ", &name, generics, " { ", &parts, " }")
        },
        ItemInner::Trait { generics, items } => {
            let parts = item_name_list(docs, items);
            braced("trait ", &name, generics, " { ", &parts, " }")
        },
        ItemInner::TraitAlias { param_count } => {
            let mut s = String::from_str("trait alias ");
            s.append(name.as_str());
            s.append(" (");
            let n = decimal_string(*param_count as u64);
            s.append(n.as_str());
            s.append(" bounds)");
            s
        },
        ItemInner::TypeAlias { generics, type_ } => {
            let mut s = String::from_str("type ");
            s.append(name.as_str());
            let g = render_generics(generics);
            s.append(g.as_str());
            s.append(" = ");
            let r = render_type(type_);
            s.append(r.as_str());
            s
        },
        ItemInner::Static { type_ } => {
            let mut s = String::from_str("static ");
            s.append(name.as_str());
            s.append(": ");
            let r = render_type(type_);
            s.append(r.as_str());
            s
        },
        ItemInner::Constant { type_, expr } => {
            let mut s = String::from_str("const ");
            s.append(name.as_str());
            s.append(": ");
            let r = render_type(type_);
            s.append(r.as_str());
            s.append(" = ");
            s.append(expr.as_str());
            s
        },
        ItemInner::Module { items } => {
            let mut s = String::from_str("module ");
            s.append(name.as_str());
            s.append(" (");
            let n = decimal_string(items.len() as u64);
            s.append(n.as_str());
            s.append(" items)");
            s
        },
        ItemInner::Impl { trait_path, for_, .. } => render_impl_header(trait_path, for_),
        ItemInner::Macro => {
            let mut s = String::from_str("macro ");
            s.append(name.as_str());
            s
        },
        ItemInner::ProcMacro(_) => {
            let mut s = String::from_str("proc macro ");
            s.append(name.as_str());
            s
        },
        ItemInner::Primitive { name: p } => {
            let mut s = String::from_str("primitive ");
            s.append(p.as_str());
            s
        },
        ItemInner::Use { source, .. } => {
            let mut s = String::from_str("use ");
            s.append(source.as_str());
            s.append(" as ");
            s.append(name.as_str());
            s
        },
        ItemInner::AssocConst { type_ } => {
            let mut s = String::from_str("associated const ");
            s.append(name.as_str());
            s.append(": ");
            let r = render_type(type_);
            s.append(r.as_str());
            s
        },
        ItemInner::AssocType { type_ } => {
            let mut s = String::from_str("associated type ");
            s.append(name.as_str());
            match type_ {
                Some(t) => {
                    s.append(" = ");
                    let r = render_type(t);
                    s.append(r.as_str());
                },
                None => {},
            }
            s
        },
        ItemInner::StructField(t) => {
            let mut s = name;
            s.append(": ");
            let r = render_type(t);
            s.append(r.as_str());
            s
        },
        ItemInner::Variant => {
            let mut s = String::from_str("variant ");
            s.append(name.as_str());
            s
        },
        ItemInner::ExternType => {
            let mut s = String::from_str("extern type ");
            s.append(name.as_str());
            s
        },
        ItemInner::ExternCrate => {
            let mut s = name;
            s.append(" (");
            let k = item_kind_name(ItemKind::ExternCrate);
            s.append(k.as_str());
            s.append(")");
            s
        },
    }
}


/// The generic parameter list `<A, B>` of the names `g`, or nothing when
/// there are none.
pub open spec fn param_list(g: Seq<String>) -> Seq<char> {
    if g.len() == 0 { Seq::empty() } else { "<"@ + join(views(g), ", "@) + ">"@ }
}

/// How the signature of a generic item begins: its keyword, its name and its
/// generic parameter list; `None` for the other kinds of item.
pub open spec fn generic_head(item: DocItem) -> Option<Seq<char>> {
    let name = match item.name {
        Some(n) => n@,
        None => Seq::empty(),
    };
    match item.inner {
        ItemInner::Function { generics, .. } => Some("fn "@ + name + param_list(generics@)),
        ItemInner::Struct { generics, .. } => Some("struct "@ + name + param_list(generics@)),
        ItemInner::Union { generics, .. } => Some("union "@ + name + param_list(generics@)),
        ItemInner::Enum { generics, .. } => Some("enum "@ + name + param_list(generics@)),
        ItemInner::Trait { generics, .. } => Some("trait "@ + name + param_list(generics@)),
        ItemInner::TypeAlias { generics, .. } => Some("type "@ + name + param_list(generics@)),
        _ => None,
    }
}

/// The signature of a function, struct, union, enum, trait or type alias
/// starts with its keyword, its name and, right after the name, its generic
/// parameter list.
pub proof fn lemma_signature_shows_generics(idx: Map<u32, DocItem>, item: DocItem)
    ensures
        generic_head(item) matches Some(h) ==> signature_text(idx, item).len() >= h.len()
            && signature_text(idx, item).subrange(0, h.len() as int) == h,
{
    if let Some(h) = generic_head(item) {
        let sig = signature_text(idx, item);
        match item.inner {
            ItemInner::Function { generics, inputs, output, is_c_variadic } => {
                let tail = "("@ + params_text(inputs@) + ")"@
                    + (if is_c_variadic { ", ..."@ } else { Seq::empty() })
                    + match output {
                        Some(t) => " -> "@ + type_text(t),
                        None => Seq::empty(),
                    };
                assert(sig =~= h + tail);
            },
            ItemInner::Struct { generics, kind } => {
                assert(sig =~= h + (" "@ + struct_body_text(idx, kind)));
            },
            ItemInner::Union { generics, fields } => {
                assert(sig =~= h + (" { "@ + join(field_reprs(idx, fields@), ", "@) + " }"@));
            },
            ItemInner::Enum { generics, variants } => {
                assert(sig =~= h + (" { "@ + join(item_names(idx, variants@), ", "@) + " }"@));
            },
            ItemInner::Trait { generics, items } => {
                assert(sig =~= h + (" { "@ + join(item_names(idx, items@), ", "@) + " }"@));
            },
            ItemInner::TypeAlias { generics, type_ } => {
                assert(sig =~= h + (" = "@ + type_text(type_)));
            },
            _ => {},
        }
        assert(sig.subrange(0, h.len() as int) =~= h);
    }
}


/// The name shown for each kind: a trait is a "trait", an import an
/// "import", a struct field a "field", and so on for every kind.
pub proof fn lemma_kind_names()
    ensures
        kind_name(ItemKind::Module) == "module"@,
        kind_name(ItemKind::ExternCrate) == "extern crate"@,
        kind_name(ItemKind::Use) == "import"@,
        kind_name(ItemKind::Struct) == "struct"@,
        kind_name(ItemKind::StructField) == "field"@,
        kind_name(ItemKind::Union) == "union"@,
        kind_name(ItemKind::Enum) == "enum"@,
        kind_name(ItemKind::Variant) == "variant"@,
        kind_name(ItemKind::Function) == "function"@,
        kind_name(ItemKind::TypeAlias) == "type alias"@,
        kind_name(ItemKind::Constant) == "constant"@,
        kind_name(ItemKind::Trait) == "trait"@,
        kind_name(ItemKind::TraitAlias) == "trait alias"@,
        kind_name(ItemKind::Impl) == "impl"@,
        kind_name(ItemKind::Static) == "static"@,
        kind_name(ItemKind::ExternType) == "extern type"@,
        kind_name(ItemKind::Macro) == "macro"@,
        kind_name(ItemKind::ProcAttribute) == "proc macro (attribute)"@,
        kind_name(ItemKind::ProcDerive) == "proc macro (derive)"@,
        kind_name(ItemKind::AssocConst) == "associated constant"@,
        kind_name(ItemKind::AssocType) == "associated type"@,
        kind_name(ItemKind::Primitive) == "primitive"@,
        kind_name(ItemKind::Keyword) == "keyword"@,
        kind_name(ItemKind::Attribute) == "attribute"@,
{
}

} // verus!
