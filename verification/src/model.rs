//! The library's model of a crate's rustdoc JSON: items keyed by id, the
//! canonical paths of items, and the types that signatures mention.

use vstd::prelude::*;
use std::collections::HashMap;

verus! {

broadcast use vstd::std_specs::hash::group_hash_axioms;

/// A named parameter of a function or function pointer.
#[derive(Debug)]
pub struct Param {
    pub name: String,
    pub type_: RustType,
}

/// A Rust type as rustdoc describes it.
#[derive(Debug)]
pub enum RustType {
    /// A path to a named type, with its item id and optional generic args.
    ResolvedPath { path: String, id: u32, args: Option<Box<TypeArgs>> },
    /// `dyn` of some traits, given by their paths.
    DynTrait { trait_paths: Vec<String> },
    /// A generic parameter.
    Generic(String),
    /// A primitive such as `u8`.
    Primitive(String),
    /// `fn(..) -> ..`
    FunctionPointer { inputs: Vec<Param>, output: Option<Box<RustType>> },
    /// `(A, B, ..)`
    Tuple(Vec<RustType>),
    /// `[T]`
    Slice(Box<RustType>),
    /// `[T; len]`
    Array { type_: Box<RustType>, len: String },
    /// A pattern type over its base type.
    Pat { type_: Box<RustType> },
    /// `impl Trait`, with the number of its bounds.
    ImplTrait { bound_count: usize },
    /// `_`
    Infer,
    /// `*const T` / `*mut T`
    RawPointer { is_mutable: bool, type_: Box<RustType> },
    /// `&'a T` / `&'a mut T`
    BorrowedRef { lifetime: Option<String>, is_mutable: bool, type_: Box<RustType> },
    /// `<T as Trait>::Name` or `T::Name`
    QualifiedPath { name: String, self_type: Box<RustType>, trait_path: Option<String> },
}

/// Generic arguments of a path.
#[derive(Debug)]
pub enum TypeArgs {
    /// `<A, B, ..>`
    AngleBracketed { args: Vec<TypeArg> },
    /// `(A, B) -> C`
    Parenthesized { inputs: Vec<RustType>, output: Option<Box<RustType>> },
    /// `(..)`
    ReturnTypeNotation,
}

/// One generic argument.
#[derive(Debug)]
pub enum TypeArg {
    Lifetime(String),
    Type(RustType),
    /// A const argument, by its expression.
    Const(String),
    Infer,
}

/// Where an item is defined.
#[derive(Debug)]
pub struct SourceSpan {
    pub filename: String,
    /// The line the item begins on.
    pub line: usize,
}

/// The flavour of a procedural macro.
#[derive(Debug, Clone, Copy)]
pub enum MacroKind {
    Bang,
    Attr,
    Derive,
}

/// The shape of a struct's fields, by field item ids.
#[derive(Debug)]
pub enum StructKind {
    Unit,
    /// Positional fields; `None` for a stripped field.
    Tuple(Vec<Option<u32>>),
    Plain { fields: Vec<u32> },
}

/// What an item is, with what the library reads of it.
#[derive(Debug)]
#[allow(inconsistent_fields)]
pub enum ItemInner {
    Module { items: Vec<u32> },
    ExternCrate,
    /// A re-export: its source path, the name it is bound to, and the id it
    /// refers to when known.
    Use { source: String, name: String, id: Option<u32> },
    Union { generics: Vec<String>, fields: Vec<u32> },
    Struct { generics: Vec<String>, kind: StructKind },
    StructField(RustType),
    Enum { generics: Vec<String>, variants: Vec<u32> },
    Variant,
    Function { generics: Vec<String>, inputs: Vec<Param>, output: Option<RustType>, is_c_variadic: bool },
    Trait { generics: Vec<String>, items: Vec<u32> },
    /// A trait alias, with the number of its bounds.
    TraitAlias { param_count: usize },
    Impl {
        generics: Vec<String>,
        trait_path: Option<String>,
        for_: RustType,
        items: Vec<u32>,
        is_negative: bool,
        is_synthetic: bool,
    },
    TypeAlias { generics: Vec<String>, type_: RustType },
    Constant { type_: RustType, expr: String },
    Static { type_: RustType },
    ExternType,
    Macro,
    ProcMacro(MacroKind),
    Primitive { name: String },
    AssocConst { type_: RustType },
    AssocType { type_: Option<RustType> },
}

/// One item of the documentation index.
#[derive(Debug)]
pub struct DocItem {
    pub id: u32,
    pub name: Option<String>,
    pub docs: Option<String>,
    pub span: Option<SourceSpan>,
    pub inner: ItemInner,
}

/// The kinds of item that rustdoc distinguishes.
#[derive(Debug, Clone, Copy, PartialEq, Eq, Structural)]
pub enum ItemKind {
    Module,
    ExternCrate,
    Use,
    Struct,
    StructField,
    Union,
    Enum,
    Variant,
    Function,
    TypeAlias,
    Constant,
    Trait,
    TraitAlias,
    Impl,
    Static,
    ExternType,
    Macro,
    ProcAttribute,
    ProcDerive,
    AssocConst,
    AssocType,
    Primitive,
    Keyword,
    Attribute,
}

/// The kind of an item (`ItemEnum::item_kind`).
pub open spec fn kind_of(inner: ItemInner) -> ItemKind {
    match inner {
        ItemInner::Module { .. } => ItemKind::Module,
        ItemInner::ExternCrate => ItemKind::ExternCrate,
        ItemInner::Use { .. } => ItemKind::Use,
        ItemInner::Union { .. } => ItemKind::Union,
        ItemInner::Struct { .. } => ItemKind::Struct,
        ItemInner::StructField(_) => ItemKind::StructField,
        ItemInner::Enum { .. } => ItemKind::Enum,
        ItemInner::Variant => ItemKind::Variant,
        ItemInner::Function { .. } => ItemKind::Function,
        ItemInner::Trait { .. } => ItemKind::Trait,
        ItemInner::TraitAlias { .. } => ItemKind::TraitAlias,
        ItemInner::Impl { .. } => ItemKind::Impl,
        ItemInner::TypeAlias { .. } => ItemKind::TypeAlias,
        ItemInner::Constant { .. } => ItemKind::Constant,
        ItemInner::Static { .. } => ItemKind::Static,
        ItemInner::ExternType => ItemKind::ExternType,
        ItemInner::Macro => ItemKind::Macro,
        ItemInner::ProcMacro(MacroKind::Bang) => ItemKind::Macro,
        ItemInner::ProcMacro(MacroKind::Attr) => ItemKind::ProcAttribute,
        ItemInner::ProcMacro(MacroKind::Derive) => ItemKind::ProcDerive,
        ItemInner::Primitive { .. } => ItemKind::Primitive,
        ItemInner::AssocConst { .. } => ItemKind::AssocConst,
        ItemInner::AssocType { .. } => ItemKind::AssocType,
    }
}

impl ItemInner {
    /// The kind of this item.
    pub fn item_kind(&self) -> (k: ItemKind)
        ensures
            k == kind_of(*self),
    {
        match self {
            ItemInner::Module { .. } => ItemKind::Module,
            ItemInner::ExternCrate => ItemKind::ExternCrate,
            ItemInner::Use { .. } => ItemKind::Use,
            ItemInner::Union { .. } => ItemKind::Union,
            ItemInner::Struct { .. } => ItemKind::Struct,
            ItemInner::StructField(_) => ItemKind::StructField,
            ItemInner::Enum { .. } => ItemKind::Enum,
            ItemInner::Variant => ItemKind::Variant,
            ItemInner::Function { .. } => ItemKind::Function,
            ItemInner::Trait { .. } => ItemKind::Trait,
            ItemInner::TraitAlias { .. } => ItemKind::TraitAlias,
            ItemInner::Impl { .. } => ItemKind::Impl,
            ItemInner::TypeAlias { .. } => ItemKind::TypeAlias,
            ItemInner::Constant { .. } => ItemKind::Constant,
            ItemInner::Static { .. } => ItemKind::Static,
            ItemInner::ExternType => ItemKind::ExternType,
            ItemInner::Macro => ItemKind::Macro,
            ItemInner::ProcMacro(MacroKind::Bang) => ItemKind::Macro,
            ItemInner::ProcMacro(MacroKind::Attr) => ItemKind::ProcAttribute,
            ItemInner::ProcMacro(MacroKind::Derive) => ItemKind::ProcDerive,
            ItemInner::Primitive { .. } => ItemKind::Primitive,
            ItemInner::AssocConst { .. } => ItemKind::AssocConst,
            ItemInner::AssocType { .. } => ItemKind::AssocType,
        }
    }
}

/// No element occurs twice.
pub open spec fn distinct(s: Seq<u32>) -> bool {
    forall|i: int, j: int| 0 <= i < j < s.len() ==> s[i] != s[j]
}

/// The documentation of one crate version: the item index, in the order in
/// which it was read, and the canonical paths of items.
#[derive(Debug)]
pub struct CrateDocs {
    items: HashMap<u32, DocItem>,
    item_order: Vec<u32>,
    paths: HashMap<u32, Vec<String>>,
    path_order: Vec<u32>,
    format_version: u32,
}

impl CrateDocs {
    /// The item index: id to item.
    pub closed spec fn index(&self) -> Map<u32, DocItem> {
        self.items@
    }

    /// The ids of the index, in reading order.
    pub closed spec fn item_ids(&self) -> Seq<u32> {
        self.item_order@
    }

    /// Canonical paths: id to path segments.
    pub closed spec fn path_map(&self) -> Map<u32, Vec<String>> {
        self.paths@
    }

    /// The ids that have a canonical path, in reading order.
    pub closed spec fn path_ids(&self) -> Seq<u32> {
        self.path_order@
    }

    /// The rustdoc JSON format version the documentation was written in.
    pub closed spec fn version_of_format(&self) -> u32 {
        self.format_version
    }

    /// The rustdoc JSON format version the documentation was written in.
    pub fn format_version(&self) -> (v: u32)
        ensures
            v == self.version_of_format(),
    {
        self.format_version
    }

    /// The items of the index, in reading order.
    pub open spec fn values(&self) -> Seq<DocItem> {
        self.item_ids().map_values(|k: u32| self.index()[k])
    }

    /// Well-formed: each order lists the keys of its map once each.
    pub open spec fn wf(&self) -> bool {
        &&& distinct(self.item_ids())
        &&& forall|k: u32| self.index().contains_key(k) <==> self.item_ids().contains(k)
        &&& distinct(self.path_ids())
        &&& forall|k: u32| self.path_map().contains_key(k) <==> self.path_ids().contains(k)
    }

    /// Empty documentation in the given format version.
    pub fn new(format_version: u32) -> (d: CrateDocs)
        ensures
            d.wf(),
            d.version_of_format() == format_version,
            d.index() == Map::<u32, DocItem>::empty(),
            d.item_ids() == Seq::<u32>::empty(),
            d.path_map() == Map::<u32, Vec<String>>::empty(),
            d.path_ids() == Seq::<u32>::empty(),
    {
        CrateDocs {
            items: HashMap::new(),
            item_order: Vec::new(),
            paths: HashMap::new(),
            path_order: Vec::new(),
            format_version,
        }
    }

    /// Adds `item` to the index under `id` (the key the documentation
    /// files it under, which rustdoc makes the item's own id); an item
    /// already stored under that key is replaced and keeps its place in the
    /// order.
    pub fn add_item(&mut self, id: u32, item: DocItem)
        requires
            old(self).wf(),
        ensures
            final(self).wf(),
            final(self).version_of_format() == old(self).version_of_format(),
            final(self).index() == old(self).index().insert(id, item),
            final(self).item_ids() == if old(self).index().contains_key(id) {
                old(self).item_ids()
            } else {
                old(self).item_ids().push(id)
            },
            final(self).path_map() == old(self).path_map(),
            final(self).path_ids() == old(self).path_ids(),
    {
        let present = self.items.contains_key(&id);
        self.items.insert(id, item);
        if !present {
            self.item_order.push(id);
        }
        proof {
            if !present {
                assert forall|i: int| 0 <= i < old(self).item_ids().len() implies old(self).item_ids()[i] != id by {
                    assert(old(self).item_ids().contains(old(self).item_ids()[i]));
                }
                assert(distinct(self.item_ids())) by {
                    assert forall|i: int, j: int| 0 <= i < j < self.item_ids().len() implies self.item_ids()[i] != self.item_ids()[j] by {
                        if j == self.item_ids().len() - 1 {
                            assert(self.item_ids()[i] == old(self).item_ids()[i]);
                        } else {
                            assert(self.item_ids()[i] == old(self).item_ids()[i]);
                            assert(self.item_ids()[j] == old(self).item_ids()[j]);
                        }
                    }
                }
            }
            assert forall|k: u32| self.index().contains_key(k) <==> self.item_ids().contains(k) by {
                if k != id {
                    if old(self).item_ids().contains(k) {
                        let i = choose|i: int| 0 <= i < old(self).item_ids().len() && old(self).item_ids()[i] == k;
                        assert(self.item_ids()[i] == k);
                    }
                }
                if k == id {
                    if !present {
                        assert(self.item_ids()[self.item_ids().len() - 1] == id);
                    }
                }
            }
        }
    }

    /// Records the canonical path of `id`, replacing an earlier one.
    pub fn add_path(&mut self, id: u32, path: Vec<String>)
        requires
            old(self).wf(),
        ensures
            final(self).wf(),
            final(self).version_of_format() == old(self).version_of_format(),
            final(self).index() == old(self).index(),
            final(self).item_ids() == old(self).item_ids(),
            final(self).path_map() == old(self).path_map().insert(id, path),
            final(self).path_ids() == if old(self).path_map().contains_key(id) {
                old(self).path_ids()
            } else {
                old(self).path_ids().push(id)
            },
    {
        let present = self.paths.contains_key(&id);
        self.paths.insert(id, path);
        if !present {
            self.path_order.push(id);
        }
        proof {
            if !present {
                assert forall|i: int| 0 <= i < old(self).path_ids().len() implies old(self).path_ids()[i] != id by {
                    assert(old(self).path_ids().contains(old(self).path_ids()[i]));
                }
                assert(distinct(self.path_ids())) by {
                    assert forall|i: int, j: int| 0 <= i < j < self.path_ids().len() implies self.path_ids()[i] != self.path_ids()[j] by {
                        if j == self.path_ids().len() - 1 {
                            assert(self.path_ids()[i] == old(self).path_ids()[i]);
                        } else {
                            assert(self.path_ids()[i] == old(self).path_ids()[i]);
                            assert(self.path_ids()[j] == old(self).path_ids()[j]);
                        }
                    }
                }
            }
            assert forall|k: u32| self.path_map().contains_key(k) <==> self.path_ids().contains(k) by {
                if k != id {
                    if old(self).path_ids().contains(k) {
                        let i = choose|i: int| 0 <= i < old(self).path_ids().len() && old(self).path_ids()[i] == k;
                        assert(self.path_ids()[i] == k);
                    }
                }
                if k == id {
                    if !present {
                        assert(self.path_ids()[self.path_ids().len() - 1] == id);
                    }
                }
            }
        }
    }

    /// The item stored under `id`.
    pub fn get(&self, id: u32) -> (r: Option<&DocItem>)
        ensures
            match r {
                Some(it) => self.index().contains_key(id) && self.index()[id] == *it,
                None => !self.index().contains_key(id),
            },
    {
        self.items.get(&id)
    }

    /// The canonical path of `id`.
    pub fn path(&self, id: u32) -> (r: Option<&Vec<String>>)
        ensures
            match r {
                Some(p) => self.path_map().contains_key(id) && self.path_map()[id] == *p,
                None => !self.path_map().contains_key(id),
            },
    {
        self.paths.get(&id)
    }

    /// The number of items in the index.
    pub fn item_count(&self) -> (n: usize)
        ensures
            n == self.item_ids().len(),
    {
        self.item_order.len()
    }

    /// The id of the `i`-th item in reading order.
    pub fn item_id_at(&self, i: usize) -> (id: u32)
        requires
            i < self.item_ids().len(),
        ensures
            id == self.item_ids()[i as int],
    {
        self.item_order[i]
    }

    /// The number of canonical paths.
    pub fn path_count(&self) -> (n: usize)
        ensures
            n == self.path_ids().len(),
    {
        self.path_order.len()
    }

    /// The id of the `i`-th canonical path in reading order.
    pub fn path_id_at(&self, i: usize) -> (id: u32)
        requires
            i < self.path_ids().len(),
        ensures
            id == self.path_ids()[i as int],
    {
        self.path_order[i]
    }
}


/// An item's kind is named after what the item is: each kind of item has
/// the kind of the same name, and a procedural macro the kind its flavour
/// gives (a function-like one is a macro).
pub proof fn lemma_kind_follows_item(inner: ItemInner)
    ensures
        inner is Module ==> kind_of(inner) == ItemKind::Module,
        inner is ExternCrate ==> kind_of(inner) == ItemKind::ExternCrate,
        inner is Use ==> kind_of(inner) == ItemKind::Use,
        inner is Union ==> kind_of(inner) == ItemKind::Union,
        inner is Struct ==> kind_of(inner) == ItemKind::Struct,
        inner is StructField ==> kind_of(inner) == ItemKind::StructField,
        inner is Enum ==> kind_of(inner) == ItemKind::Enum,
        inner is Variant ==> kind_of(inner) == ItemKind::Variant,
        inner is Function ==> kind_of(inner) == ItemKind::Function,
        inner is Trait ==> kind_of(inner) == ItemKind::Trait,
        inner is TraitAlias ==> kind_of(inner) == ItemKind::TraitAlias,
        inner is Impl ==> kind_of(inner) == ItemKind::Impl,
        inner is TypeAlias ==> kind_of(inner) == ItemKind::TypeAlias,
        inner is Constant ==> kind_of(inner) == ItemKind::Constant,
        inner is Static ==> kind_of(inner) == ItemKind::Static,
        inner is ExternType ==> kind_of(inner) == ItemKind::ExternType,
        inner is Macro ==> kind_of(inner) == ItemKind::Macro,
        inner is Primitive ==> kind_of(inner) == ItemKind::Primitive,
        inner is AssocConst ==> kind_of(inner) == ItemKind::AssocConst,
        inner is AssocType ==> kind_of(inner) == ItemKind::AssocType,
        inner matches ItemInner::ProcMacro(MacroKind::Bang) ==> kind_of(inner) == ItemKind::Macro,
        inner matches ItemInner::ProcMacro(MacroKind::Attr) ==> kind_of(inner) == ItemKind::ProcAttribute,
        inner matches ItemInner::ProcMacro(MacroKind::Derive) ==> kind_of(inner) == ItemKind::ProcDerive,
{
}

} // verus!
