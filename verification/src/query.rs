//! Lookups over crate documentation: names, canonical paths, module
//! contents, methods, trait impls, searches and path resolution.

use vstd::prelude::*;
use vstd::string::*;
use crate::model::{CrateDocs, DocItem, ItemInner, RustType, kind_of};
use crate::render::{generics_text, item_kind_name, kind_name, render_generics, signature, signature_text};
use crate::text::{
    chars_of, contains_chars, decimal, decimal_string, has_substring, join, join_strings, last_path_segment,
    last_segment, lowercase, path_segments, snippet, snippet_text, split_path, to_lowercase, views,
};

verus! {

/// One item in a listing: name, kind, canonical path and doc snippet.
#[derive(Debug)]
pub struct ItemRow {
    pub name: String,
    pub kind: String,
    pub path: String,
    pub docs: String,
}

/// One inherent method: name, signature and doc snippet.
#[derive(Debug)]
pub struct MethodRow {
    pub name: String,
    pub signature: String,
    pub docs: String,
}

/// One trait implementation: the trait's path, the impl's generics, its
/// negative and synthetic flags, and the names of the methods it provides.
#[derive(Debug)]
pub struct ImplRow {
    pub trait_path: String,
    pub generics: String,
    pub negative: bool,
    pub synthetic: bool,
    pub provided_methods: Vec<String>,
}

/// The texts of an item row.
pub open spec fn item_row_view(r: ItemRow) -> (Seq<char>, Seq<char>, Seq<char>, Seq<char>) {
    (r.name@, r.kind@, r.path@, r.docs@)
}

/// The texts of item rows.
pub open spec fn item_rows_view(rs: Seq<ItemRow>) -> Seq<(Seq<char>, Seq<char>, Seq<char>, Seq<char>)> {
    rs.map_values(|r: ItemRow| item_row_view(r))
}

/// The texts of a method row.
pub open spec fn method_row_view(r: MethodRow) -> (Seq<char>, Seq<char>, Seq<char>) {
    (r.name@, r.signature@, r.docs@)
}

/// The texts of method rows.
pub open spec fn method_rows_view(rs: Seq<MethodRow>) -> Seq<(Seq<char>, Seq<char>, Seq<char>)> {
    rs.map_values(|r: MethodRow| method_row_view(r))
}

/// The contents of an impl row.
pub open spec fn impl_row_view(r: ImplRow) -> (Seq<char>, Seq<char>, bool, bool, Seq<Seq<char>>) {
    (r.trait_path@, r.generics@, r.negative, r.synthetic, views(r.provided_methods@))
}

/// The contents of impl rows.
pub open spec fn impl_rows_view(rs: Seq<ImplRow>) -> Seq<(Seq<char>, Seq<char>, bool, bool, Seq<Seq<char>>)> {
    rs.map_values(|r: ImplRow| impl_row_view(r))
}

/// The display name of an item: its own name, or for a `use` item the name
/// it binds; otherwise empty.
pub open spec fn display_name_text(item: DocItem) -> Seq<char> {
    match item.name {
        Some(n) => n@,
        None => match item.inner {
            ItemInner::Use { name, .. } => name@,
            _ => Seq::empty(),
        },
    }
}

/// Best display name for an item: its own name, or the inner name for
/// `use` items (which carry no name of their own).
pub fn display_name(item: &DocItem) -> (s: String)
    ensures
        s@ == display_name_text(*item),
{
    match &item.name {
        Some(n) => n.clone(),
        None => match &item.inner {
            ItemInner::Use { name, .. } => name.clone(),
            _ => String::new(),
        },
    }
}

/// `#Id(n)`: the fallback text for an id with neither path nor name.
pub open spec fn id_fallback(id: u32) -> Seq<char> {
    "#Id("@ + decimal(id as nat) + ")"@
}

fn render_id_fallback(id: u32) -> (s: String)
    ensures
        s@ == id_fallback(id),
{
    let mut s = String::from_str("#Id(");
    let n = decimal_string(id as u64);
    s.append(n.as_str());
    s.append(")");
    s
}

/// The canonical path of `id` joined by `::`; failing that, `use <source>`
/// for a re-export, the item's name, or `#Id(n)`.
pub open spec fn id_path_text(docs: CrateDocs, id: u32) -> Seq<char> {
    if docs.path_map().contains_key(id) {
        join(views(docs.path_map()[id]@), "::"@)
    } else if docs.index().contains_key(id) {
        match docs.index()[id].inner {
            ItemInner::Use { source, .. } => "use "@ + source@,
            _ => match docs.index()[id].name {
                Some(n) => n@,
                None => id_fallback(id),
            },
        }
    } else {
        id_fallback(id)
    }
}

/// Canonical path string for an id, or a readable fallback (use source /
/// bare name) for items without a canonical path.
pub fn id_path(docs: &CrateDocs, id: u32) -> (s: String)
    ensures
        s@ == id_path_text(*docs, id),
{
    match docs.path(id) {
        Some(p) => join_strings(p, "::"),
        None => match docs.get(id) {
            Some(it) => match &it.inner {
                ItemInner::Use { source, .. } => {
                    let mut s = String::from_str("use ");
                    s.append(source.as_str());
                    s
                },
                _ => match &it.name {
                    Some(n) => n.clone(),
                    None => render_id_fallback(id),
                },
            },
            None => render_id_fallback(id),
        },
    }
}

/// `file:line` of where an item is defined, when known.
pub open spec fn span_text(item: DocItem) -> Option<Seq<char>> {
    match item.span {
        Some(sp) => Some(sp.filename@ + ":"@ + decimal(sp.line as nat)),
        None => None,
    }
}

/// Where an item is defined, as "file:line" when the span is present.
pub fn span_str(item: &DocItem) -> (r: Option<String>)
    ensures
        match r {
            Some(s) => span_text(*item) == Some(s@),
            None => span_text(*item) is None,
        },
{
    match &item.span {
        Some(sp) => {
            let mut s = sp.filename.clone();
            s.append(":");
            let n = decimal_string(sp.line as u64);
            s.append(n.as_str());
            Some(s)
        },
        None => None,
    }
}

/// The doc text of an item, empty when it has none.
pub open spec fn docs_text(item: DocItem) -> Seq<char> {
    match item.docs {
        Some(d) => d@,
        None => Seq::empty(),
    }
}

fn item_docs_snippet(item: &DocItem, max: usize) -> (s: String)
    ensures
        s@ == snippet_text(docs_text(*item), max as nat),
{
    match &item.docs {
        Some(d) => snippet(d.as_str(), max),
        None => {
            proof {
                reveal_strlit("");
                assert(""@ =~= Seq::<char>::empty());
            }
            snippet("", max)
        },
    }
}

/// The row of an item in a listing, with a doc snippet of `max` chars.
pub open spec fn row_of(docs: CrateDocs, item: DocItem, max: nat) -> (Seq<char>, Seq<char>, Seq<char>, Seq<char>) {
    (
        display_name_text(item),
        kind_name(kind_of(item.inner)),
        id_path_text(docs, item.id),
        snippet_text(docs_text(item), max),
    )
}

fn item_row(docs: &CrateDocs, item: &DocItem, max: usize) -> (r: ItemRow)
    ensures
        item_row_view(r) == row_of(*docs, *item, max as nat),
{
    ItemRow {
        name: display_name(item),
        kind: item_kind_name(item.inner.item_kind()),
        path: id_path(docs, item.id),
        docs: item_docs_snippet(item, max),
    }
}

/// The rows of those `ids` that the index holds, in order.
pub open spec fn rows_of_ids(docs: CrateDocs, ids: Seq<u32>, max: nat) -> Seq<(Seq<char>, Seq<char>, Seq<char>, Seq<char>)>
    decreases ids.len(),
{
    if ids.len() == 0 {
        Seq::empty()
    } else {
        let rest = rows_of_ids(docs, ids.drop_last(), max);
        if docs.index().contains_key(ids.last()) {
            rest.push(row_of(docs, docs.index()[ids.last()], max))
        } else {
            rest
        }
    }
}

fn rows_for_ids(docs: &CrateDocs, ids: &[u32], max: usize) -> (rows: Vec<ItemRow>)
    ensures
        item_rows_view(rows@) == rows_of_ids(*docs, ids@, max as nat),
{
    let mut rows: Vec<ItemRow> = Vec::new();
    let mut i: usize = 0;
    while i < ids.len()
        invariant
            i <= ids@.len(),
            item_rows_view(rows@) == rows_of_ids(*docs, ids@.take(i as int), max as nat),
        decreases ids@.len() - i,
    {
        assert(ids@.take(i + 1).drop_last() == ids@.take(i as int));
        match docs.get(ids[i]) {
            Some(it) => {
                let ghost before = item_rows_view(rows@);
                let r = item_row(docs, it, max);
                rows.push(r);
                assert(item_rows_view(rows@) =~= before.push(row_of(*docs, *it, max as nat)));
            },
            None => {},
        }
        i += 1;
    }
    assert(ids@.take(ids@.len() as int) == ids@);
    rows
}

/// The rows of the items directly inside module `module_id`; nothing when
/// `module_id` is not an indexed module.
pub open spec fn module_rows(docs: CrateDocs, module_id: u32) -> Seq<(Seq<char>, Seq<char>, Seq<char>, Seq<char>)> {
    if docs.index().contains_key(module_id) {
        match docs.index()[module_id].inner {
            ItemInner::Module { items } => rows_of_ids(docs, items@, 200),
            _ => Seq::empty(),
        }
    } else {
        Seq::empty()
    }
}

/// Items directly inside a module (names, kinds, paths, docs snippets).
pub fn module_items(docs: &CrateDocs, module_id: u32) -> (rows: Vec<ItemRow>)
    ensures
        item_rows_view(rows@) == module_rows(*docs, module_id),
{
    match docs.get(module_id) {
        Some(item) => match &item.inner {
            ItemInner::Module { items } => rows_for_ids(docs, items.as_slice(), 200),
            _ => Vec::new(),
        },
        None => Vec::new(),
    }
}

/// Rows for candidate ids, grouped by canonical path, for disambiguation
/// output.
pub fn candidate_rows(docs: &CrateDocs, ids: &[u32]) -> (rows: Vec<ItemRow>)
    ensures
        item_rows_view(rows@) == grouped_by_path(rows_of_ids(*docs, ids@, 160)),
{
    let rows = rows_for_ids(docs, ids, 160);
    group_by_path(&rows)
}

/// Whether row `j` is the first of `rows` with its path.
pub open spec fn first_with_path(rows: Seq<(Seq<char>, Seq<char>, Seq<char>, Seq<char>)>, j: int) -> bool {
    forall|k: int| 0 <= k < j ==> rows[k].2 != rows[j].2
}

/// The rows of `rows` whose path is `p`, in order.
pub open spec fn rows_with_path(rows: Seq<(Seq<char>, Seq<char>, Seq<char>, Seq<char>)>, p: Seq<char>) -> Seq<(Seq<char>, Seq<char>, Seq<char>, Seq<char>)>
    decreases rows.len(),
{
    if rows.len() == 0 {
        Seq::empty()
    } else {
        let rest = rows_with_path(rows.drop_last(), p);
        if rows.last().2 == p { rest.push(rows.last()) } else { rest }
    }
}

/// The groups of the first `n` rows' paths: for each row among them that is
/// the first with its path, all rows with that path, in order.
pub open spec fn grouped_from(rows: Seq<(Seq<char>, Seq<char>, Seq<char>, Seq<char>)>, n: nat) -> Seq<(Seq<char>, Seq<char>, Seq<char>, Seq<char>)>
    decreases n,
{
    if n == 0 {
        Seq::empty()
    } else {
        grouped_from(rows, (n - 1) as nat) + if first_with_path(rows, n - 1) {
            rows_with_path(rows, rows[n - 1].2)
        } else {
            Seq::empty()
        }
    }
}

/// `rows` grouped by path: groups in the order of each path's first row,
/// rows within a group in their original order.
pub open spec fn grouped_by_path(rows: Seq<(Seq<char>, Seq<char>, Seq<char>, Seq<char>)>) -> Seq<(Seq<char>, Seq<char>, Seq<char>, Seq<char>)> {
    grouped_from(rows, rows.len())
}

proof fn lemma_rows_with_path(rows: Seq<(Seq<char>, Seq<char>, Seq<char>, Seq<char>)>, p: Seq<char>)
    ensures
        forall|i: int| 0 <= i < rows_with_path(rows, p).len() ==> (#[trigger] rows_with_path(rows, p)[i]).2 == p,
    decreases rows.len(),
{
    if rows.len() > 0 {
        lemma_rows_with_path(rows.drop_last(), p);
        let rest = rows_with_path(rows.drop_last(), p);
        let r = rows_with_path(rows, p);
        assert forall|i: int| 0 <= i < r.len() implies (#[trigger] r[i]).2 == p by {
            if i < rest.len() {
                assert(r[i] == rest[i]);
            }
        }
    }
}

/// No row of the first `n` groups has the path of a later first row.
proof fn lemma_grouped_from_paths(rows: Seq<(Seq<char>, Seq<char>, Seq<char>, Seq<char>)>, n: nat)
    requires
        n <= rows.len(),
    ensures
        forall|i: int, k: int| 0 <= i < grouped_from(rows, n).len() && n <= k < rows.len() && first_with_path(rows, k)
            ==> (#[trigger] grouped_from(rows, n)[i]).2 != #[trigger] rows[k].2,
    decreases n,
{
    if n > 0 {
        let m = (n - 1) as nat;
        lemma_grouped_from_paths(rows, m);
        let g = grouped_from(rows, m);
        let b = if first_with_path(rows, n - 1) { rows_with_path(rows, rows[n - 1].2) } else { Seq::empty() };
        lemma_rows_with_path(rows, rows[n - 1].2);
        assert forall|i: int, k: int| 0 <= i < grouped_from(rows, n).len() && n <= k < rows.len() && first_with_path(rows, k)
            implies (#[trigger] grouped_from(rows, n)[i]).2 != #[trigger] rows[k].2 by {
            if i < g.len() {
                assert(grouped_from(rows, n)[i] == g[i]);
            } else {
                assert(grouped_from(rows, n)[i] == b[i - g.len()]);
                assert(rows[n - 1].2 != rows[k].2);
            }
        }
    }
}

/// Whether rows with equal paths stand next to each other.
pub open spec fn paths_adjacent(g: Seq<(Seq<char>, Seq<char>, Seq<char>, Seq<char>)>) -> bool {
    forall|a: int, b: int, c: int| 0 <= a < b < c < g.len() && (#[trigger] g[a]).2 == (#[trigger] g[c]).2
        ==> (#[trigger] g[b]).2 == g[a].2
}

proof fn lemma_grouped_from_adjacent(rows: Seq<(Seq<char>, Seq<char>, Seq<char>, Seq<char>)>, n: nat)
    requires
        n <= rows.len(),
    ensures
        paths_adjacent(grouped_from(rows, n)),
    decreases n,
{
    if n > 0 {
        let m = (n - 1) as nat;
        lemma_grouped_from_adjacent(rows, m);
        lemma_grouped_from_paths(rows, m);
        let g = grouped_from(rows, m);
        let first = first_with_path(rows, n - 1);
        let b = if first { rows_with_path(rows, rows[n - 1].2) } else { Seq::empty() };
        lemma_rows_with_path(rows, rows[n - 1].2);
        let all = grouped_from(rows, n);
        assert(all == g + b);
        assert forall|x: int, y: int, z: int| 0 <= x < y < z < all.len() && (#[trigger] all[x]).2 == (#[trigger] all[z]).2
            implies (#[trigger] all[y]).2 == all[x].2 by {
            if z < g.len() {
                assert(all[x] == g[x] && all[y] == g[y] && all[z] == g[z]);
            } else if x >= g.len() {
                assert(all[x] == b[x - g.len()] && all[y] == b[y - g.len()] && all[z] == b[z - g.len()]);
            } else {
                assert(all[x] == g[x]);
                assert(all[z] == b[z - g.len()]);
                assert(g[x].2 != rows[n - 1].2);
            }
        }
    }
}

/// Grouping keeps rows with equal paths next to each other.
pub proof fn lemma_grouped_paths_adjacent(rows: Seq<(Seq<char>, Seq<char>, Seq<char>, Seq<char>)>)
    ensures
        paths_adjacent(grouped_by_path(rows)),
{
    lemma_grouped_from_adjacent(rows, rows.len());
}

fn copy_row(r: &ItemRow) -> (c: ItemRow)
    ensures
        item_row_view(c) == item_row_view(*r),
{
    ItemRow { name: r.name.clone(), kind: r.kind.clone(), path: r.path.clone(), docs: r.docs.clone() }
}

/// Rows grouped by their path, stably.
fn group_by_path(rows: &Vec<ItemRow>) -> (out: Vec<ItemRow>)
    ensures
        item_rows_view(out@) == grouped_by_path(item_rows_view(rows@)),
{
    let ghost v = item_rows_view(rows@);
    let n = rows.len();
    let mut out: Vec<ItemRow> = Vec::new();
    let mut i: usize = 0;
    while i < n
        invariant
            n == rows@.len(),
            v == item_rows_view(rows@),
            i <= n,
            item_rows_view(out@) == grouped_from(v, i as nat),
        decreases n - i,
    {
        let mut first = true;
        let mut k: usize = 0;
        while k < i
            invariant
                n == rows@.len(),
                v == item_rows_view(rows@),
                k <= i < n,
                first <==> forall|m: int| 0 <= m < k ==> v[m].2 != v[i as int].2,
            decreases i - k,
        {
            assert(v[k as int].2 == rows@[k as int].path@);
            assert(v[i as int].2 == rows@[i as int].path@);
            if rows[k].path == rows[i].path {
                first = false;
            }
            k += 1;
        }
        let ghost base = item_rows_view(out@);
        if first {
            let mut j: usize = 0;
            while j < n
                invariant
                    n == rows@.len(),
                    v == item_rows_view(rows@),
                    i < n,
                    j <= n,
                    item_rows_view(out@) == base + rows_with_path(v.take(j as int), v[i as int].2),
                decreases n - j,
            {
                assert(v.take(j + 1).drop_last() == v.take(j as int));
                assert(v.take(j + 1).last() == v[j as int]);
                assert(v[j as int].2 == rows@[j as int].path@);
                assert(v[i as int].2 == rows@[i as int].path@);
                if rows[j].path == rows[i].path {
                    let ghost before = item_rows_view(out@);
                    out.push(copy_row(&rows[j]));
                    assert(item_rows_view(out@) =~= before.push(v[j as int]));
                }
                j += 1;
            }
            assert(v.take(n as int) == v);
        } else {
            assert(base + Seq::empty() == base);
        }
        i += 1;
    }
    out
}

/// Whether a type is the path type with item id `id`.
pub open spec fn type_is(t: RustType, id: u32) -> bool {
    match t {
        RustType::ResolvedPath { id: pid, .. } => pid == id,
        _ => false,
    }
}

fn type_matches(t: &RustType, id: u32) -> (b: bool)
    ensures
        b == type_is(*t, id),
{
    match t {
        RustType::ResolvedPath { id: pid, .. } => *pid == id,
        _ => false,
    }
}

/// The `i`-th item in reading order, which the index holds.
fn nth_item<'a>(docs: &'a CrateDocs, i: usize) -> (it: &'a DocItem)
    requires
        docs.wf(),
        i < docs.item_ids().len(),
    ensures
        *it == docs.values()[i as int],
{
    let id = docs.item_id_at(i);
    assert(docs.item_ids().contains(id));
    docs.get(id).unwrap()
}

/// The row of an inherent method.
pub open spec fn method_row_of(docs: CrateDocs, m: DocItem) -> (Seq<char>, Seq<char>, Seq<char>) {
    (
        match m.name {
            Some(n) => n@,
            None => Seq::empty(),
        },
        signature_text(docs.index(), m),
        snippet_text(docs_text(m), 200),
    )
}

/// The method rows of those `ids` that the index holds as functions.
pub open spec fn impl_method_rows(docs: CrateDocs, ids: Seq<u32>) -> Seq<(Seq<char>, Seq<char>, Seq<char>)>
    decreases ids.len(),
{
    if ids.len() == 0 {
        Seq::empty()
    } else {
        let rest = impl_method_rows(docs, ids.drop_last());
        if docs.index().contains_key(ids.last()) && docs.index()[ids.last()].inner is Function {
            rest.push(method_row_of(docs, docs.index()[ids.last()]))
        } else {
            rest
        }
    }
}

/// The method rows that an item contributes for type `type_id`: those of an
/// inherent (no trait, not negative) impl for that type.
pub open spec fn inherent_rows_of(docs: CrateDocs, item: DocItem, type_id: u32) -> Seq<(Seq<char>, Seq<char>, Seq<char>)> {
    match item.inner {
        ItemInner::Impl { trait_path, for_, items, is_negative, .. } =>
            if trait_path is None && !is_negative && type_is(for_, type_id) {
                impl_method_rows(docs, items@)
            } else {
                Seq::empty()
            },
        _ => Seq::empty(),
    }
}

/// The inherent method rows of `type_id` over the items `vals`, in order.
pub open spec fn inherent_rows(docs: CrateDocs, vals: Seq<DocItem>, type_id: u32) -> Seq<(Seq<char>, Seq<char>, Seq<char>)>
    decreases vals.len(),
{
    if vals.len() == 0 {
        Seq::empty()
    } else {
        inherent_rows(docs, vals.drop_last(), type_id) + inherent_rows_of(docs, vals.last(), type_id)
    }
}

fn push_method_rows(docs: &CrateDocs, ids: &Vec<u32>, rows: &mut Vec<MethodRow>)
    ensures
        method_rows_view(final(rows)@) == method_rows_view(old(rows)@) + impl_method_rows(*docs, ids@),
{
    let mut i: usize = 0;
    while i < ids.len()
        invariant
            i <= ids@.len(),
            method_rows_view(rows@) == method_rows_view(old(rows)@) + impl_method_rows(*docs, ids@.take(i as int)),
        decreases ids@.len() - i,
    {
        assert(ids@.take(i + 1).drop_last() == ids@.take(i as int));
        match docs.get(ids[i]) {
            Some(m) => {
                if let ItemInner::Function { .. } = &m.inner {
                    let ghost before = method_rows_view(rows@);
                    let name = match &m.name {
                        Some(n) => n.clone(),
                        None => String::new(),
                    };
                    let r = MethodRow { name, signature: signature(docs, m), docs: item_docs_snippet(m, 200) };
                    rows.push(r);
                    assert(method_rows_view(rows@) =~= before.push(method_row_of(*docs, *m)));
                }
            },
            None => {},
        }
        i += 1;
    }
    assert(ids@.take(ids@.len() as int) == ids@);
}

/// Inherent methods of a type (impl blocks without a trait).
pub fn inherent_methods(docs: &CrateDocs, type_id: u32) -> (rows: Vec<MethodRow>)
    requires
        docs.wf(),
    ensures
        method_rows_view(rows@) == inherent_rows(*docs, docs.values(), type_id),
{
    let mut rows: Vec<MethodRow> = Vec::new();
    let n = docs.item_count();
    let mut i: usize = 0;
    while i < n
        invariant
            docs.wf(),
            n == docs.item_ids().len(),
            i <= n,
            method_rows_view(rows@) == inherent_rows(*docs, docs.values().take(i as int), type_id),
        decreases n - i,
    {
        let item = nth_item(docs, i);
        assert(docs.values().take(i + 1).drop_last() == docs.values().take(i as int));
        assert(docs.values().take(i + 1).last() == *item);
        let ghost before = method_rows_view(rows@);
        match &item.inner {
            ItemInner::Impl { trait_path, for_, items, is_negative, .. } => {
                if trait_path.is_none() && !*is_negative && type_matches(for_, type_id) {
                    push_method_rows(docs, items, &mut rows);
                } else {
                    assert(before + Seq::empty() == before);
                }
            },
            _ => {
                assert(before + Seq::empty() == before);
            },
        }
        i += 1;
    }
    assert(docs.values().take(n as int) == docs.values());
    rows
}

/// The names of those `ids` that the index holds as named functions, in
/// order: the methods an impl provides.
pub open spec fn method_names(idx: Map<u32, DocItem>, ids: Seq<u32>) -> Seq<Seq<char>>
    decreases ids.len(),
{
    if ids.len() == 0 {
        Seq::empty()
    } else {
        let rest = method_names(idx, ids.drop_last());
        let k = ids.last();
        if idx.contains_key(k) && idx[k].inner is Function && idx[k].name is Some {
            rest.push(idx[k].name->0@)
        } else {
            rest
        }
    }
}

/// The names of the methods among `ids`: indexed, named function items.
pub fn method_name_list(docs: &CrateDocs, ids: &Vec<u32>) -> (names: Vec<String>)
    ensures
        views(names@) == method_names(docs.index(), ids@),
{
    let mut names: Vec<String> = Vec::new();
    let mut i: usize = 0;
    while i < ids.len()
        invariant
            i <= ids@.len(),
            views(names@) == method_names(docs.index(), ids@.take(i as int)),
        decreases ids@.len() - i,
    {
        assert(ids@.take(i + 1).drop_last() == ids@.take(i as int));
        match docs.get(ids[i]) {
            Some(it) => match (&it.inner, &it.name) {
                (ItemInner::Function { .. }, Some(n)) => {
                    let ghost before = views(names@);
                    names.push(n.clone());
                    assert(views(names@) =~= before.push(n@));
                },
                _ => {},
            },
            None => {},
        }
        i += 1;
    }
    assert(ids@.take(ids@.len() as int) == ids@);
    names
}

/// The impl row that an item contributes for type `type_id`: one for a
/// trait impl for that type.
pub open spec fn trait_rows_of(docs: CrateDocs, item: DocItem, type_id: u32) -> Seq<(Seq<char>, Seq<char>, bool, bool, Seq<Seq<char>>)> {
    match item.inner {
        ItemInner::Impl { generics, trait_path, for_, items, is_negative, is_synthetic } => match trait_path {
            Some(tp) => if type_is(for_, type_id) {
                seq![(tp@, generics_text(generics@), is_negative, is_synthetic, method_names(docs.index(), items@))]
            } else {
                Seq::empty()
            },
            None => Seq::empty(),
        },
        _ => Seq::empty(),
    }
}

/// The trait impl rows of `type_id` over the items `vals`, in order.
pub open spec fn trait_rows(docs: CrateDocs, vals: Seq<DocItem>, type_id: u32) -> Seq<(Seq<char>, Seq<char>, bool, bool, Seq<Seq<char>>)>
    decreases vals.len(),
{
    if vals.len() == 0 {
        Seq::empty()
    } else {
        trait_rows(docs, vals.drop_last(), type_id) + trait_rows_of(docs, vals.last(), type_id)
    }
}

/// Trait implementations of a type (impl blocks with a trait).
pub fn trait_impls(docs: &CrateDocs, type_id: u32) -> (rows: Vec<ImplRow>)
    requires
        docs.wf(),
    ensures
        impl_rows_view(rows@) == trait_rows(*docs, docs.values(), type_id),
{
    let mut rows: Vec<ImplRow> = Vec::new();
    let n = docs.item_count();
    let mut i: usize = 0;
    while i < n
        invariant
            docs.wf(),
            n == docs.item_ids().len(),
            i <= n,
            impl_rows_view(rows@) == trait_rows(*docs, docs.values().take(i as int), type_id),
        decreases n - i,
    {
        let item = nth_item(docs, i);
        assert(docs.values().take(i + 1).drop_last() == docs.values().take(i as int));
        assert(docs.values().take(i + 1).last() == *item);
        let ghost before = impl_rows_view(rows@);
        let mut pushed = false;
        match &item.inner {
            ItemInner::Impl { generics, trait_path, for_, items, is_negative, is_synthetic } => {
                match trait_path {
                    Some(tp) => {
                        if type_matches(for_, type_id) {
                            let r = ImplRow {
                                trait_path: tp.clone(),
                                generics: render_generics(generics),
                                negative: *is_negative,
                                synthetic: *is_synthetic,
                                provided_methods: method_name_list(docs, items),
                            };
                            rows.push(r);
                            pushed = true;
                            assert(impl_rows_view(rows@) =~= before + trait_rows_of(*docs, *item, type_id));
                        }
                    },
                    None => {},
                }
            },
            _ => {},
        }
        if !pushed {
            assert(trait_rows_of(*docs, *item, type_id) =~= Seq::empty());
            assert(before + Seq::empty() == before);
        }
        i += 1;
    }
    assert(docs.values().take(n as int) == docs.values());
    rows
}

/// Whether an item shows up in a search for `needle` (already lowercased):
/// its display name is non-empty and, lowercased, contains `needle`.
pub open spec fn search_hit(item: DocItem, needle: Seq<char>) -> bool {
    display_name_text(item).len() > 0 && has_substring(lowercase(display_name_text(item)), needle)
}

/// The rows of all search hits among `vals`, in order.
pub open spec fn search_rows(docs: CrateDocs, vals: Seq<DocItem>, needle: Seq<char>) -> Seq<(Seq<char>, Seq<char>, Seq<char>, Seq<char>)>
    decreases vals.len(),
{
    if vals.len() == 0 {
        Seq::empty()
    } else {
        let rest = search_rows(docs, vals.drop_last(), needle);
        if search_hit(vals.last(), needle) {
            rest.push(row_of(docs, vals.last(), 160))
        } else {
            rest
        }
    }
}

/// The result of a search: the first rows of all hits, at most `limit` of
/// them.
pub open spec fn search_result(docs: CrateDocs, query: Seq<char>, limit: nat) -> Seq<(Seq<char>, Seq<char>, Seq<char>, Seq<char>)> {
    let all = search_rows(docs, docs.values(), lowercase(query));
    if all.len() <= limit { all } else { all.take(limit as int) }
}

proof fn lemma_search_rows_prefix(docs: CrateDocs, vals: Seq<DocItem>, needle: Seq<char>, j: int)
    requires
        0 <= j <= vals.len(),
    ensures
        search_rows(docs, vals.take(j), needle).len() <= search_rows(docs, vals, needle).len(),
        search_rows(docs, vals.take(j), needle) == search_rows(docs, vals, needle).take(
            search_rows(docs, vals.take(j), needle).len() as int,
        ),
    decreases vals.len(),
{
    let a = search_rows(docs, vals, needle);
    if j == vals.len() {
        assert(vals.take(j) == vals);
        assert(a.take(a.len() as int) == a);
    } else {
        let d = vals.drop_last();
        assert(d.take(j) == vals.take(j));
        lemma_search_rows_prefix(docs, d, needle, j);
        let b = search_rows(docs, d, needle);
        let c = search_rows(docs, vals.take(j), needle);
        assert(b.len() <= a.len());
        assert(a.take(b.len() as int) == b);
        assert(a.take(c.len() as int) == b.take(c.len() as int));
    }
}

/// Whether `hay` contains `needle` (both as strings).
fn text_contains(hay: &str, needle: &Vec<char>) -> (b: bool)
    ensures
        b == has_substring(hay@, needle@),
{
    let h = chars_of(hay);
    contains_chars(&h, needle)
}

/// Substring search over item names.
pub fn search_items(docs: &CrateDocs, query: &str, limit: usize) -> (rows: Vec<ItemRow>)
    requires
        docs.wf(),
    ensures
        item_rows_view(rows@) == search_result(*docs, query@, limit as nat),
{
    let mut rows: Vec<ItemRow> = Vec::new();
    if limit == 0 {
        return rows;
    }
    let lowered = to_lowercase(query);
    let needle = chars_of(lowered.as_str());
    let n = docs.item_count();
    let mut i: usize = 0;
    while i < n
        invariant_except_break
            rows@.len() < limit,
        invariant
            docs.wf(),
            n == docs.item_ids().len(),
            i <= n,
            needle@ == lowercase(query@),
            item_rows_view(rows@) == search_rows(*docs, docs.values().take(i as int), needle@),
        ensures
            rows@.len() <= limit,
            rows@.len() < limit ==> i == n,
        decreases n - i,
    {
        let item = nth_item(docs, i);
        assert(docs.values().take(i + 1).drop_last() == docs.values().take(i as int));
        assert(docs.values().take(i + 1).last() == *item);
        let name = display_name(item);
        let lname = to_lowercase(name.as_str());
        let name_chars = chars_of(name.as_str());
        let hit = name_chars.len() > 0 && text_contains(lname.as_str(), &needle);
        if hit {
            let ghost before = item_rows_view(rows@);
            let r = item_row(docs, item, 160);
            rows.push(r);
            assert(item_rows_view(rows@) =~= before.push(row_of(*docs, *item, 160)));
            if rows.len() >= limit {
                i += 1;
                break;
            }
        }
        i += 1;
    }
    proof {
        let all = search_rows(*docs, docs.values(), needle@);
        lemma_search_rows_prefix(*docs, docs.values(), needle@, i as int);
        if i == n {
            assert(docs.values().take(n as int) == docs.values());
        }
        if rows@.len() == limit {
            assert(all.take(all.len() as int) == all);
        }
    }
    rows
}

/// Whether an item's own name, lowercased, contains `needle`.
pub open spec fn name_hit(item: DocItem, needle: Seq<char>) -> bool {
    match item.name {
        Some(n) => has_substring(lowercase(n@), needle),
        None => false,
    }
}

/// The ids of the items among `vals` whose name, lowercased, contains
/// `needle`, in order.
pub open spec fn name_matches(vals: Seq<DocItem>, needle: Seq<char>) -> Seq<u32>
    decreases vals.len(),
{
    if vals.len() == 0 {
        Seq::empty()
    } else {
        let rest = name_matches(vals.drop_last(), needle);
        if name_hit(vals.last(), needle) { rest.push(vals.last().id) } else { rest }
    }
}

/// Case-insensitive search by name; returns ids of every matching item.
pub fn find_by_name(docs: &CrateDocs, name: &str) -> (ids: Vec<u32>)
    requires
        docs.wf(),
    ensures
        ids@ == name_matches(docs.values(), lowercase(name@)),
{
    let lowered = to_lowercase(name);
    let needle = chars_of(lowered.as_str());
    let mut ids: Vec<u32> = Vec::new();
    let n = docs.item_count();
    let mut i: usize = 0;
    while i < n
        invariant
            docs.wf(),
            n == docs.item_ids().len(),
            i <= n,
            needle@ == lowercase(name@),
            ids@ == name_matches(docs.values().take(i as int), needle@),
        decreases n - i,
    {
        let item = nth_item(docs, i);
        assert(docs.values().take(i + 1).drop_last() == docs.values().take(i as int));
        assert(docs.values().take(i + 1).last() == *item);
        match &item.name {
            Some(nm) => {
                let l = to_lowercase(nm.as_str());
                if text_contains(l.as_str(), &needle) {
                    ids.push(item.id);
                }
            },
            None => {},
        }
        i += 1;
    }
    assert(docs.values().take(n as int) == docs.values());
    ids
}

/// The first id of `ids` that satisfies `p`.
pub open spec fn first_id(ids: Seq<u32>, p: spec_fn(u32) -> bool) -> Option<u32>
    decreases ids.len(),
{
    if ids.len() == 0 {
        None
    } else if p(ids[0]) {
        Some(ids[0])
    } else {
        first_id(ids.skip(1), p)
    }
}

proof fn lemma_first_id(ids: Seq<u32>, p: spec_fn(u32) -> bool, k: int)
    requires
        0 <= k <= ids.len(),
        forall|j: int| 0 <= j < k ==> !p(#[trigger] ids[j]),
    ensures
        k < ids.len() && p(ids[k]) ==> first_id(ids, p) == Some(ids[k]),
        k == ids.len() ==> first_id(ids, p) is None,
    decreases k,
{
    if k > 0 {
        assert forall|j: int| 0 <= j < k - 1 implies !p(#[trigger] ids.skip(1)[j]) by {
            assert(ids.skip(1)[j] == ids[j + 1]);
        }
        lemma_first_id(ids.skip(1), p, k - 1);
        assert(!p(ids[0]));
    }
}

/// An id whose canonical path has exactly the segments `wanted`.
pub open spec fn has_path(docs: CrateDocs, wanted: Seq<Seq<char>>) -> spec_fn(u32) -> bool {
    |id: u32| docs.path_map().contains_key(id) && views(docs.path_map()[id]@) == wanted
}

/// The first id, in path reading order, whose canonical path is the
/// non-empty `::`-segments of `path`.
pub open spec fn path_match(docs: CrateDocs, path: Seq<char>) -> Option<u32> {
    first_id(docs.path_ids(), has_path(docs, path_segments(path)))
}

fn same_strings(a: &Vec<String>, b: &Vec<String>) -> (r: bool)
    ensures
        r == (views(a@) == views(b@)),
{
    if a.len() != b.len() {
        assert(views(a@).len() != views(b@).len());
        return false;
    }
    let mut i: usize = 0;
    while i < a.len()
        invariant
            a@.len() == b@.len(),
            i <= a@.len(),
            forall|j: int| 0 <= j < i ==> a@[j]@ == b@[j]@,
        decreases a@.len() - i,
    {
        if a[i] != b[i] {
            assert(views(a@)[i as int] != views(b@)[i as int]);
            return false;
        }
        i += 1;
    }
    assert(views(a@) =~= views(b@));
    true
}

/// Resolve a "::"-separated path string ("axum::Router") to an item id and
/// its canonical path. Exact, case-sensitive match over the paths map.
pub fn resolve_path(docs: &CrateDocs, path: &str) -> (r: Option<(u32, String)>)
    requires
        docs.wf(),
    ensures
        match r {
            Some((id, p)) => path_match(*docs, path@) == Some(id)
                && p@ == join(views(docs.path_map()[id]@), "::"@),
            None => path_match(*docs, path@) is None,
        },
{
    let wanted = split_path(path);
    let ghost p = has_path(*docs, path_segments(path@));
    let n = docs.path_count();
    let mut i: usize = 0;
    while i < n
        invariant
            docs.wf(),
            n == docs.path_ids().len(),
            i <= n,
            views(wanted@) == path_segments(path@),
            p == has_path(*docs, path_segments(path@)),
            forall|j: int| 0 <= j < i ==> !p(#[trigger] docs.path_ids()[j]),
        decreases n - i,
    {
        let id = docs.path_id_at(i);
        assert(docs.path_ids().contains(id));
        let segs = docs.path(id).unwrap();
        if same_strings(segs, &wanted) {
            proof { lemma_first_id(docs.path_ids(), p, i as int); }
            return Some((id, join_strings(segs, "::")));
        }
        i += 1;
    }
    proof { lemma_first_id(docs.path_ids(), p, i as int); }
    None
}

/// The id a `use` item re-exports, when it names another id.
pub open spec fn import_step(idx: Map<u32, DocItem>, id: u32) -> Option<u32> {
    if idx.contains_key(id) {
        match idx[id].inner {
            ItemInner::Use { id: Some(next), .. } => if next != id { Some(next) } else { None },
            _ => None,
        }
    } else {
        None
    }
}

/// Where following re-exports from `id` leads within `fuel` steps.
pub open spec fn follow_from(idx: Map<u32, DocItem>, id: u32, fuel: nat) -> u32
    decreases fuel,
{
    if fuel == 0 {
        id
    } else {
        match import_step(idx, id) {
            Some(next) => follow_from(idx, next, (fuel - 1) as nat),
            None => id,
        }
    }
}

/// Follow `use` re-export chains to the canonical item, at most 8 steps.
pub fn follow_import(docs: &CrateDocs, id: u32) -> (r: u32)
    ensures
        r == follow_from(docs.index(), id, 8),
{
    let mut cur = id;
    let mut k: u32 = 0;
    while k < 8
        invariant
            k <= 8,
            follow_from(docs.index(), id, 8) == follow_from(docs.index(), cur, (8 - k) as nat),
        decreases 8 - k,
    {
        let next = match docs.get(cur) {
            Some(item) => match &item.inner {
                ItemInner::Use { id: Some(nx), .. } => if *nx != cur { Some(*nx) } else { None },
                _ => None,
            },
            None => None,
        };
        match next {
            Some(nx) => {
                cur = nx;
            },
            None => {
                return cur;
            },
        }
        k += 1;
    }
    cur
}

/// The ids of the items among `vals` named exactly `name`, in order.
pub open spec fn exact_name_ids(vals: Seq<DocItem>, name: Seq<char>) -> Seq<u32>
    decreases vals.len(),
{
    if vals.len() == 0 {
        Seq::empty()
    } else {
        let rest = exact_name_ids(vals.drop_last(), name);
        if vals.last().name is Some && vals.last().name->0@ == name { rest.push(vals.last().id) } else { rest }
    }
}

/// How a path resolves: to an id and whether the match was by name only,
/// or to an error message.
pub open spec fn path_resolution(docs: CrateDocs, path: Seq<char>) -> Result<(u32, bool), Seq<char>> {
    match path_match(docs, path) {
        Some(id) => Ok((follow_from(docs.index(), id, 8), false)),
        None => {
            let exact = exact_name_ids(docs.values(), last_segment(path));
            if exact.len() == 0 {
                Err("item '"@ + path + "' not found"@)
            } else if exact.len() == 1 {
                Ok((follow_from(docs.index(), exact[0], 8), true))
            } else {
                Err("ambiguous path '"@ + path + "'; use a full path like crate::mod::Name"@)
            }
        },
    }
}

/// The view of a path resolution result.
pub open spec fn resolution_view(r: Result<(u32, bool), String>) -> Result<(u32, bool), Seq<char>> {
    match r {
        Ok(x) => Ok(x),
        Err(e) => Err(e@),
    }
}

/// Resolve a path to an item id, following re-export chains. Returns the id
/// plus whether the match was fuzzy (by name rather than exact path).
pub fn resolve_id(docs: &CrateDocs, path: &str) -> (r: Result<(u32, bool), String>)
    requires
        docs.wf(),
    ensures
        resolution_view(r) == path_resolution(*docs, path@),
{
    match resolve_path(docs, path) {
        Some((id, _)) => {
            return Ok((follow_import(docs, id), false));
        },
        None => {},
    }
    let last = last_path_segment(path);
    let mut exact: Vec<u32> = Vec::new();
    let n = docs.item_count();
    let mut i: usize = 0;
    while i < n
        invariant
            docs.wf(),
            n == docs.item_ids().len(),
            i <= n,
            exact@ == exact_name_ids(docs.values().take(i as int), last@),
        decreases n - i,
    {
        let item = nth_item(docs, i);
        assert(docs.values().take(i + 1).drop_last() == docs.values().take(i as int));
        assert(docs.values().take(i + 1).last() == *item);
        match &item.name {
            Some(nm) => {
                if *nm == last {
                    exact.push(item.id);
                }
            },
            None => {},
        }
        i += 1;
    }
    assert(docs.values().take(n as int) == docs.values());
    if exact.len() == 0 {
        let mut e = String::from_str("item '");
        e.append(path);
        e.append("' not found");
        Err(e)
    } else if exact.len() == 1 {
        Ok((follow_import(docs, exact[0]), true))
    } else {
        let mut e = String::from_str("ambiguous path '");
        e.append(path);
        e.append("'; use a full path like crate::mod::Name");
        Err(e)
    }
}

/// The candidate rows shown for a path that did not resolve: items whose
/// name contains the path's last segment, case-insensitively, grouped by
/// canonical path.
pub open spec fn candidates_for(docs: CrateDocs, path: Seq<char>) -> Seq<(Seq<char>, Seq<char>, Seq<char>, Seq<char>)> {
    grouped_by_path(rows_of_ids(docs, name_matches(docs.values(), lowercase(last_segment(path))), 160))
}

/// Candidate rows for an unresolved path, to help disambiguate.
pub fn fuzzy_candidates(docs: &CrateDocs, path: &str) -> (rows: Vec<ItemRow>)
    requires
        docs.wf(),
    ensures
        item_rows_view(rows@) == candidates_for(*docs, path@),
{
    let last = last_path_segment(path);
    let ids = find_by_name(docs, last.as_str());
    if ids.len() == 0 {
        assert(item_rows_view(Seq::<ItemRow>::empty()) =~= rows_of_ids(*docs, ids@, 160));
        assert(grouped_by_path(rows_of_ids(*docs, ids@, 160)) =~= Seq::empty());
        return Vec::new();
    }
    candidate_rows(docs, ids.as_slice())
}

/// What a lookup of one item reports, apart from the crate and version.
#[derive(Debug)]
pub struct ItemReport {
    pub resolved_path: String,
    pub fuzzy_match: bool,
    pub name: String,
    pub kind: String,
    pub signature: String,
    pub docs: String,
    pub span: Option<String>,
    /// The module's contents when the item is a module.
    pub module_items: Option<Vec<ItemRow>>,
}

/// Why an item lookup failed.
#[derive(Debug)]
pub enum ItemLookupError {
    /// The path did not resolve: the reason, and candidates by name.
    Unresolved { error: String, candidates: Vec<ItemRow> },
    /// The path resolved to an id that the index does not hold.
    MissingFromIndex,
}

/// The texts and flags of a report about `item`, reached as `target`.
pub open spec fn report_matches(r: ItemReport, docs: CrateDocs, target: u32, fuzzy: bool, item: DocItem) -> bool {
    &&& r.resolved_path@ == id_path_text(docs, target)
    &&& r.fuzzy_match == fuzzy
    &&& r.name@ == display_name_text(item)
    &&& r.kind@ == kind_name(kind_of(item.inner))
    &&& r.signature@ == signature_text(docs.index(), item)
    &&& r.docs@ == docs_text(item)
    &&& match r.span {
        Some(sp) => span_text(item) == Some(sp@),
        None => span_text(item) is None,
    }
    &&& match r.module_items {
        Some(rows) => item.inner is Module && item_rows_view(rows@) == module_rows(docs, target),
        None => !(item.inner is Module),
    }
}

/// Resolve a path to an item, following re-export chains, and report on it.
pub fn item_report(docs: &CrateDocs, path: &str) -> (r: Result<ItemReport, ItemLookupError>)
    requires
        docs.wf(),
    ensures
        match path_resolution(*docs, path@) {
            Err(e) => r matches Err(ItemLookupError::Unresolved { error, candidates })
                && error@ == e && item_rows_view(candidates@) == candidates_for(*docs, path@),
            Ok((target, fuzzy)) => if docs.index().contains_key(target) {
                r matches Ok(rep) && report_matches(rep, *docs, target, fuzzy, docs.index()[target])
            } else {
                r matches Err(ItemLookupError::MissingFromIndex)
            },
        },
{
    let (target, fuzzy) = match resolve_id(docs, path) {
        Ok(x) => x,
        Err(e) => {
            return Err(ItemLookupError::Unresolved { error: e, candidates: fuzzy_candidates(docs, path) });
        },
    };
    let item = match docs.get(target) {
        Some(it) => it,
        None => {
            return Err(ItemLookupError::MissingFromIndex);
        },
    };
    let is_module = match &item.inner {
        ItemInner::Module { .. } => true,
        _ => false,
    };
    let docs_text = match &item.docs {
        Some(d) => d.clone(),
        None => String::new(),
    };
    Ok(ItemReport {
        resolved_path: id_path(docs, target),
        fuzzy_match: fuzzy,
        name: display_name(item),
        kind: item_kind_name(item.inner.item_kind()),
        signature: signature(docs, item),
        docs: docs_text,
        span: span_str(item),
        module_items: if is_module { Some(module_items(docs, target)) } else { None },
    })
}

/// A search returns at most `limit` rows, fewer only when fewer items
/// match, and they are the first matches in reading order.
pub proof fn lemma_search_bounded(docs: CrateDocs, query: Seq<char>, limit: nat)
    ensures
        search_result(docs, query, limit).len() <= limit,
        search_result(docs, query, limit).len() < limit
            ==> search_result(docs, query, limit).len() == search_rows(docs, docs.values(), lowercase(query)).len(),
        search_result(docs, query, limit) == search_rows(docs, docs.values(), lowercase(query)).take(
            search_result(docs, query, limit).len() as int,
        ),
{
    let all = search_rows(docs, docs.values(), lowercase(query));
    assert(all.take(all.len() as int) == all);
}

/// An item that is not a re-export resolves to itself, however many steps
/// the chain may take.
pub proof fn lemma_canonical_item_is_fixed(idx: Map<u32, DocItem>, id: u32, fuel: nat)
    requires
        import_step(idx, id) is None,
    ensures
        follow_from(idx, id, fuel) == id,
{
}

/// A path that names an item's canonical path resolves exactly (not by a
/// name search); when it names a re-export of a canonical item, it
/// resolves to that item.
pub proof fn lemma_exact_path_resolution(docs: CrateDocs, path: Seq<char>)
    requires
        path_match(docs, path) is Some,
    ensures
        path_resolution(docs, path) matches Ok((_, fuzzy)) && !fuzzy,
        ({
            let id = path_match(docs, path)->0;
            match import_step(docs.index(), id) {
                None => path_resolution(docs, path) == Ok::<(u32, bool), Seq<char>>((id, false)),
                Some(target) => import_step(docs.index(), target) is None
                    ==> path_resolution(docs, path) == Ok::<(u32, bool), Seq<char>>((target, false)),
            }
        }),
{
    let idx = docs.index();
    let id = path_match(docs, path)->0;
    match import_step(idx, id) {
        None => {
            lemma_canonical_item_is_fixed(idx, id, 8);
        },
        Some(target) => {
            if import_step(idx, target) is None {
                lemma_canonical_item_is_fixed(idx, target, 7);
                assert(follow_from(idx, id, 8) == follow_from(idx, target, 7));
            }
        },
    }
}


// ---------------------------------------------------------------------------
// what the listings report, stated against the items themselves
// ---------------------------------------------------------------------------

/// Whether `item` is an impl of some trait for the type with id `t`.
pub open spec fn is_trait_impl_for(item: DocItem, t: u32) -> bool {
    item.inner matches ItemInner::Impl { trait_path: Some(_), for_: RustType::ResolvedPath { id, .. }, .. } && id == t
}

/// Whether `row` reports `item` as a trait impl for the type with id `t`:
/// the row carries the impl's trait path, its generic parameter list, its
/// own negative and synthetic flags, and the names of its function items.
pub open spec fn reports_trait_impl(
    docs: CrateDocs,
    item: DocItem,
    t: u32,
    row: (Seq<char>, Seq<char>, bool, bool, Seq<Seq<char>>),
) -> bool {
    match item.inner {
        ItemInner::Impl { generics, trait_path, for_, items, is_negative, is_synthetic } => match (trait_path, for_) {
            (Some(tp), RustType::ResolvedPath { id, .. }) => {
                &&& id == t
                &&& row.0 == tp@
                &&& row.1 == (if generics@.len() == 0 { Seq::empty() } else { "<"@ + join(views(generics@), ", "@) + ">"@ })
                &&& row.2 == is_negative
                &&& row.3 == is_synthetic
                &&& row.4 == method_names(docs.index(), items@)
            },
            _ => false,
        },
        _ => false,
    }
}

/// Whether some item of `vals` is a trait impl for `t` that `row` reports.
pub open spec fn reported_by_some(docs: CrateDocs, vals: Seq<DocItem>, t: u32, row: (Seq<char>, Seq<char>, bool, bool, Seq<Seq<char>>)) -> bool {
    exists|j: int| 0 <= j < vals.len() && #[trigger] reports_trait_impl(docs, vals[j], t, row)
}

/// The trait impl rows of a type: every row reports one trait impl for that
/// type, with that impl's own flags and generics, and every trait impl for
/// the type is reported by a row.
pub proof fn lemma_trait_impl_rows(docs: CrateDocs, vals: Seq<DocItem>, t: u32)
    ensures
        forall|i: int| 0 <= i < trait_rows(docs, vals, t).len()
            ==> #[trigger] reported_by_some(docs, vals, t, trait_rows(docs, vals, t)[i]),
        forall|j: int| 0 <= j < vals.len() && #[trigger] is_trait_impl_for(vals[j], t) ==> exists|i: int|
            0 <= i < trait_rows(docs, vals, t).len() && reports_trait_impl(docs, vals[j], t, trait_rows(docs, vals, t)[i]),
    decreases vals.len(),
{
    let rows = trait_rows(docs, vals, t);
    if vals.len() == 0 {
        assert(rows.len() == 0);
    }
    if vals.len() > 0 {
        let d = vals.drop_last();
        let last = vals.last();
        lemma_trait_impl_rows(docs, d, t);
        let a = trait_rows(docs, d, t);
        let b = trait_rows_of(docs, last, t);
        assert(rows == a + b);
        if b.len() > 0 {
            assert(b.len() == 1);
            assert(reports_trait_impl(docs, last, t, b[0]));
        }
        assert forall|i: int| 0 <= i < rows.len() implies #[trigger] reported_by_some(docs, vals, t, rows[i]) by {
            if i < a.len() {
                assert(rows[i] == a[i]);
                assert(reported_by_some(docs, d, t, a[i]));
                let j = choose|j: int| 0 <= j < d.len() && #[trigger] reports_trait_impl(docs, d[j], t, a[i]);
                assert(d[j] == vals[j]);
                assert(reports_trait_impl(docs, vals[j], t, trait_rows(docs, vals, t)[i]));
            } else {
                assert(rows[i] == b[0]);
                assert(vals[vals.len() - 1] == last);
                assert(reports_trait_impl(docs, vals[vals.len() - 1], t, trait_rows(docs, vals, t)[i]));
            }
        }
        assert forall|j: int| 0 <= j < vals.len() && #[trigger] is_trait_impl_for(vals[j], t) implies exists|i: int|
            0 <= i < rows.len() && reports_trait_impl(docs, vals[j], t, rows[i]) by {
            if j < d.len() {
                assert(d[j] == vals[j]);
                assert(is_trait_impl_for(d[j], t));
                let i = choose|i: int| 0 <= i < a.len() && reports_trait_impl(docs, d[j], t, a[i]);
                assert(rows[i] == a[i]);
            } else {
                assert(vals[j] == last);
                assert(b.len() == 1);
                assert(rows[a.len() as int] == b[0]);
            }
        }
    }
}


/// Whether the index holds a function item under `id`.
pub open spec fn is_method_at(idx: Map<u32, DocItem>, id: u32) -> bool {
    idx.contains_key(id) && idx[id].inner is Function
}

/// The number of ids among `ids` under which the index holds a function.
pub open spec fn method_count(idx: Map<u32, DocItem>, ids: Seq<u32>) -> nat
    decreases ids.len(),
{
    if ids.len() == 0 {
        0
    } else {
        method_count(idx, ids.drop_last()) + if is_method_at(idx, ids.last()) { 1nat } else { 0nat }
    }
}

/// Whether `item` is an inherent impl (no trait, not negative) for the type
/// with id `t`.
pub open spec fn is_inherent_impl_for(item: DocItem, t: u32) -> bool {
    item.inner matches ItemInner::Impl { trait_path: None, for_: RustType::ResolvedPath { id, .. }, is_negative, .. }
        && id == t && !is_negative
}

/// The item ids an impl lists, or none for another item.
pub open spec fn impl_items(item: DocItem) -> Seq<u32> {
    match item.inner {
        ItemInner::Impl { items, .. } => items@,
        _ => Seq::empty(),
    }
}

/// The number of function items over all inherent impls for `t` in `vals`.
pub open spec fn inherent_method_total(docs: CrateDocs, vals: Seq<DocItem>, t: u32) -> nat
    decreases vals.len(),
{
    if vals.len() == 0 {
        0
    } else {
        inherent_method_total(docs, vals.drop_last(), t) + if is_inherent_impl_for(vals.last(), t) {
            method_count(docs.index(), impl_items(vals.last()))
        } else {
            0nat
        }
    }
}

/// Whether `row` occurs in `rows`.
pub open spec fn has_method_row(rows: Seq<(Seq<char>, Seq<char>, Seq<char>)>, row: (Seq<char>, Seq<char>, Seq<char>)) -> bool {
    exists|i: int| 0 <= i < rows.len() && #[trigger] rows[i] == row
}

/// Whether `row` is the row of a function item listed by `ids`.
pub open spec fn row_of_listed_method(docs: CrateDocs, ids: Seq<u32>, row: (Seq<char>, Seq<char>, Seq<char>)) -> bool {
    exists|k: int| 0 <= k < ids.len() && #[trigger] is_method_at(docs.index(), ids[k])
        && row == method_row_of(docs, docs.index()[ids[k]])
}

/// Whether `row` is the row of a function item of some inherent impl for
/// `t` in `vals`.
pub open spec fn row_of_inherent_method(docs: CrateDocs, vals: Seq<DocItem>, t: u32, row: (Seq<char>, Seq<char>, Seq<char>)) -> bool {
    exists|j: int| 0 <= j < vals.len() && #[trigger] is_inherent_impl_for(vals[j], t)
        && row_of_listed_method(docs, impl_items(vals[j]), row)
}

proof fn lemma_impl_method_rows(docs: CrateDocs, ids: Seq<u32>)
    ensures
        impl_method_rows(docs, ids).len() == method_count(docs.index(), ids),
        forall|i: int| 0 <= i < impl_method_rows(docs, ids).len()
            ==> #[trigger] row_of_listed_method(docs, ids, impl_method_rows(docs, ids)[i]),
        forall|k: int| 0 <= k < ids.len() && #[trigger] is_method_at(docs.index(), ids[k])
            ==> has_method_row(impl_method_rows(docs, ids), method_row_of(docs, docs.index()[ids[k]])),
    decreases ids.len(),
{
    let rows = impl_method_rows(docs, ids);
    if ids.len() == 0 {
        assert(rows.len() == 0);
    } else {
        let d = ids.drop_last();
        lemma_impl_method_rows(docs, d);
        let a = impl_method_rows(docs, d);
        let l = ids.last();
        let hit = is_method_at(docs.index(), l);
        if hit {
            assert(rows == a.push(method_row_of(docs, docs.index()[l])));
        } else {
            assert(rows == a);
        }
        assert forall|i: int| 0 <= i < rows.len() implies #[trigger] row_of_listed_method(docs, ids, rows[i]) by {
            if i < a.len() {
                assert(rows[i] == a[i]);
                assert(row_of_listed_method(docs, d, a[i]));
                let k = choose|k: int| 0 <= k < d.len() && #[trigger] is_method_at(docs.index(), d[k])
                    && a[i] == method_row_of(docs, docs.index()[d[k]]);
                assert(d[k] == ids[k]);
            } else {
                assert(ids[ids.len() - 1] == l);
                assert(is_method_at(docs.index(), ids[ids.len() - 1]));
            }
        }
        assert forall|k: int| 0 <= k < ids.len() && #[trigger] is_method_at(docs.index(), ids[k])
            implies has_method_row(rows, method_row_of(docs, docs.index()[ids[k]])) by {
            if k < d.len() {
                assert(d[k] == ids[k]);
                assert(is_method_at(docs.index(), d[k]));
                let i = choose|i: int| 0 <= i < a.len() && #[trigger] a[i] == method_row_of(docs, docs.index()[d[k]]);
                assert(rows[i] == a[i]);
            } else {
                assert(ids[k] == l);
                assert(rows[a.len() as int] == method_row_of(docs, docs.index()[l]));
            }
        }
    }
}

/// The inherent methods of a type: every row is the row of a function item
/// of some inherent impl for that type; every function item of every such
/// impl has its row; and there is one row per such function item.
pub proof fn lemma_inherent_method_rows(docs: CrateDocs, vals: Seq<DocItem>, t: u32)
    ensures
        inherent_rows(docs, vals, t).len() == inherent_method_total(docs, vals, t),
        forall|i: int| 0 <= i < inherent_rows(docs, vals, t).len()
            ==> #[trigger] row_of_inherent_method(docs, vals, t, inherent_rows(docs, vals, t)[i]),
        forall|j: int, k: int| 0 <= j < vals.len() && #[trigger] is_inherent_impl_for(vals[j], t)
            && 0 <= k < impl_items(vals[j]).len() && #[trigger] is_method_at(docs.index(), impl_items(vals[j])[k])
            ==> has_method_row(inherent_rows(docs, vals, t), method_row_of(docs, docs.index()[impl_items(vals[j])[k]])),
    decreases vals.len(),
{
    let rows = inherent_rows(docs, vals, t);
    if vals.len() == 0 {
        assert(rows.len() == 0);
    } else {
        let d = vals.drop_last();
        let l = vals.last();
        lemma_inherent_method_rows(docs, d, t);
        let a = inherent_rows(docs, d, t);
        let b = inherent_rows_of(docs, l, t);
        assert(rows == a + b);
        lemma_impl_method_rows(docs, impl_items(l));
        if is_inherent_impl_for(l, t) {
            assert(b == impl_method_rows(docs, impl_items(l)));
        } else {
            assert(b.len() == 0);
        }
        assert forall|i: int| 0 <= i < rows.len() implies #[trigger] row_of_inherent_method(docs, vals, t, rows[i]) by {
            if i < a.len() {
                assert(rows[i] == a[i]);
                assert(row_of_inherent_method(docs, d, t, a[i]));
                let j = choose|j: int| 0 <= j < d.len() && #[trigger] is_inherent_impl_for(d[j], t)
                    && row_of_listed_method(docs, impl_items(d[j]), a[i]);
                assert(d[j] == vals[j]);
                assert(is_inherent_impl_for(vals[j], t));
            } else {
                assert(rows[i] == b[i - a.len()]);
                assert(row_of_listed_method(docs, impl_items(l), b[i - a.len()]));
                assert(vals[vals.len() - 1] == l);
                assert(is_inherent_impl_for(vals[vals.len() - 1], t));
            }
        }
        assert forall|j: int, k: int| 0 <= j < vals.len() && #[trigger] is_inherent_impl_for(vals[j], t)
            && 0 <= k < impl_items(vals[j]).len() && #[trigger] is_method_at(docs.index(), impl_items(vals[j])[k])
            implies has_method_row(rows, method_row_of(docs, docs.index()[impl_items(vals[j])[k]])) by {
            let row = method_row_of(docs, docs.index()[impl_items(vals[j])[k]]);
            if j < d.len() {
                assert(d[j] == vals[j]);
                assert(is_inherent_impl_for(d[j], t));
                assert(is_method_at(docs.index(), impl_items(d[j])[k]));
                assert(has_method_row(a, row));
                let i = choose|i: int| 0 <= i < a.len() && #[trigger] a[i] == row;
                assert(rows[i] == a[i]);
            } else {
                assert(vals[j] == l);
                assert(is_method_at(docs.index(), impl_items(l)[k]));
                assert(has_method_row(b, row));
                let i = choose|i: int| 0 <= i < b.len() && #[trigger] b[i] == row;
                assert(rows[a.len() + i] == b[i]);
            }
        }
    }
}


/// Whether `item`'s display name is non-empty and, lowercased, contains
/// `needle` as a contiguous run.
pub open spec fn name_contains(item: DocItem, needle: Seq<char>) -> bool {
    display_name_text(item).len() > 0 && has_substring(lowercase(display_name_text(item)), needle)
}

/// Whether `row` is the row of an item of `vals` whose name contains
/// `needle`.
pub open spec fn row_of_named_hit(docs: CrateDocs, vals: Seq<DocItem>, needle: Seq<char>, row: (Seq<char>, Seq<char>, Seq<char>, Seq<char>)) -> bool {
    exists|j: int| 0 <= j < vals.len() && #[trigger] name_contains(vals[j], needle) && row == row_of(docs, vals[j], 160)
}

proof fn lemma_search_rows_sound(docs: CrateDocs, vals: Seq<DocItem>, needle: Seq<char>)
    ensures
        forall|i: int| 0 <= i < search_rows(docs, vals, needle).len()
            ==> #[trigger] row_of_named_hit(docs, vals, needle, search_rows(docs, vals, needle)[i]),
    decreases vals.len(),
{
    let rows = search_rows(docs, vals, needle);
    if vals.len() == 0 {
        assert(rows.len() == 0);
    } else {
        let d = vals.drop_last();
        lemma_search_rows_sound(docs, d, needle);
        let a = search_rows(docs, d, needle);
        assert forall|i: int| 0 <= i < rows.len() implies #[trigger] row_of_named_hit(docs, vals, needle, rows[i]) by {
            if i < a.len() {
                assert(rows[i] == a[i]);
                assert(row_of_named_hit(docs, d, needle, a[i]));
                let j = choose|j: int| 0 <= j < d.len() && #[trigger] name_contains(d[j], needle) && a[i] == row_of(docs, d[j], 160);
                assert(d[j] == vals[j]);
                assert(name_contains(vals[j], needle));
            } else {
                assert(vals[vals.len() - 1] == vals.last());
                assert(name_contains(vals[vals.len() - 1], needle));
            }
        }
    }
}

/// A search finds what contains the query: an item whose display name,
/// lowercased, holds the lowercased query at some position `p` is in the
/// result whenever fewer than `limit` hits come before it; and every row of
/// the result is the row of an item whose lowercased display name contains
/// the lowercased query.
pub proof fn lemma_search_finds_substring(docs: CrateDocs, query: Seq<char>, limit: nat, j: int, p: int)
    requires
        0 <= j < docs.values().len(),
        display_name_text(docs.values()[j]).len() > 0,
        0 <= p,
        p + lowercase(query).len() <= lowercase(display_name_text(docs.values()[j])).len(),
        lowercase(display_name_text(docs.values()[j])).subrange(p, p + lowercase(query).len()) == lowercase(query),
        search_rows(docs, docs.values().take(j), lowercase(query)).len() < limit,
    ensures
        search_result(docs, query, limit).contains(row_of(docs, docs.values()[j], 160)),
        forall|i: int| 0 <= i < search_result(docs, query, limit).len()
            ==> #[trigger] row_of_named_hit(docs, docs.values(), lowercase(query), search_result(docs, query, limit)[i]),
{
    let v = docs.values();
    let n = lowercase(query);
    let name = lowercase(display_name_text(v[j]));
    assert(name.subrange(p, p + n.len()) == n);
    assert(has_substring(name, n));
    assert(v.take(j + 1).drop_last() == v.take(j));
    assert(v.take(j + 1).last() == v[j]);
    let before = search_rows(docs, v.take(j), n);
    assert(search_rows(docs, v.take(j + 1), n) == before.push(row_of(docs, v[j], 160)));
    lemma_search_rows_prefix(docs, v, n, j + 1);
    let all = search_rows(docs, v, n);
    let c = before.len() as int;
    let s1 = search_rows(docs, v.take(j + 1), n);
    assert(s1.len() == c + 1);
    assert(s1[c] == row_of(docs, v[j], 160));
    assert(s1 == all.take(c + 1));
    assert(all.take(c + 1)[c] == all[c]);
    assert(all[c] == row_of(docs, v[j], 160));
    let r = search_result(docs, query, limit);
    assert(r[c] == all[c]);
    assert(r.contains(row_of(docs, v[j], 160)));
    lemma_search_rows_sound(docs, v, n);
    assert forall|i: int| 0 <= i < r.len() implies #[trigger] row_of_named_hit(docs, v, n, r[i]) by {
        assert(r[i] == all[i]);
    }
}

} // verus!
