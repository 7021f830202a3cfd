//! Decoding what docs.rs and static.crates.io serve: the zstd-compressed
//! rustdoc JSON, its parse and format version, and source files inside a `.crate`
//! archive (a gzip-compressed tar).

use vstd::prelude::*;
use vstd::string::*;
use vstd::utf8::{decode_utf8, valid_utf8};
use crate::model::{CrateDocs, DocItem, ItemInner, SourceSpan};
use crate::text::{decimal, decimal_string, push_char, views};

verus! {

/// What `zstd::stream::decode_all` yields for `data`: the decompressed
/// bytes, or `None` when it fails.
pub uninterp spec fn zstd_decoded(data: Seq<u8>) -> Option<Seq<u8>>;

/// `zstd::stream::decode_all` on a byte slice: `Some` with the decompressed
/// bytes exactly when the crate decodes `data`. The decoding itself is left
/// unstated; the contract claims that it depends on `data` alone.
#[verifier::external_body]
fn zstd_decode_all(data: &[u8]) -> (r: Option<Vec<u8>>)
    ensures
        match r {
            Some(v) => zstd_decoded(data@) == Some(v@),
            None => zstd_decoded(data@) is None,
        },
{
    match zstd::stream::decode_all(data) {
        Ok(v) => Some(v),
        Err(_) => None,
    }
}

/// What a `flate2::read::GzDecoder` read to the end yields for `data`.
pub uninterp spec fn gunzipped(data: Seq<u8>) -> Option<Seq<u8>>;

/// `flate2::read::GzDecoder::new(data)` read to the end: `Some` with the
/// decompressed bytes exactly when the gzip stream decodes. The decoding
/// itself is left unstated; the contract claims that it depends on `data`
/// alone.
#[verifier::external_body]
fn gunzip(data: &[u8]) -> (r: Option<Vec<u8>>)
    ensures
        match r {
            Some(v) => gunzipped(data@) == Some(v@),
            None => gunzipped(data@) is None,
        },
{
    let mut out = Vec::new();
    match std::io::Read::read_to_end(&mut flate2::read::GzDecoder::new(data), &mut out) {
        Ok(_) => Some(out),
        Err(_) => None,
    }
}

/// One member of a tar archive: its path (lossily as UTF-8) and contents.
pub struct TarMember {
    pub path: String,
    pub data: Vec<u8>,
}

/// The paths and contents of tar members.
pub open spec fn members_view(ms: Seq<TarMember>) -> Seq<(Seq<char>, Seq<u8>)> {
    ms.map_values(|m: TarMember| (m.path@, m.data@))
}

/// What `tar::Archive::entries` lists for `data`: each member's path and
/// contents, in archive order, up to the first member that cannot be read,
/// and whether the listing reached the end of the archive.
pub uninterp spec fn tar_members(data: Seq<u8>) -> (Seq<(Seq<char>, Seq<u8>)>, bool);

/// `tar::Archive::new(data).entries()`, each entry's `path()` (converted
/// lossily to UTF-8) and contents read to the end, in archive order. The
/// members before the first failing step are returned, with `true` when no
/// step failed. The tar format itself is left unstated; the contract claims
/// that the listing depends on `data` alone.
#[verifier::external_body]
fn tar_listing(data: &[u8]) -> (r: (Vec<TarMember>, bool))
    ensures
        tar_members(data@) == (members_view(r.0@), r.1),
{
    let mut archive = tar::Archive::new(data);
    let mut out = Vec::new();
    let Ok(entries) = archive.entries() else { return (out, false) };
    for entry in entries {
        let Ok(mut entry) = entry else { return (out, false) };
        let Ok(path) = entry.path() else { return (out, false) };
        let path = path.to_string_lossy().into_owned();
        let mut data = Vec::new();
        if std::io::Read::read_to_end(&mut entry, &mut data).is_err() { return (out, false) }
        out.push(TarMember { path, data });
    }
    (out, true)
}

/// `String::from_utf8`: `Some` exactly when the bytes are valid UTF-8,
/// holding the characters they encode.
#[verifier::external_body]
fn utf8_string(bytes: Vec<u8>) -> (r: Option<String>)
    ensures
        r is Some <==> valid_utf8(bytes@),
        r matches Some(s) ==> s@ == decode_utf8(bytes@),
{
    String::from_utf8(bytes).ok()
}

/// The rustdoc JSON format version that `rustdoc_types` reads.
#[verifier::external_body]
pub(crate) fn supported_format_version() -> (v: u32)
    ensures
        v == 61,
{
    rustdoc_types::FORMAT_VERSION
}

/// Why a rustdoc JSON download could not be used.
#[derive(Debug)]
#[allow(inconsistent_fields)]
pub enum LoadError {
    /// The zstd stream did not decompress.
    Decompress { krate: String, version: String },
    /// The JSON did not parse as rustdoc JSON; `found` is its
    /// `format_version` field (0 when unreadable) and `detail` the parser's
    /// message.
    Unparsable { krate: String, version: String, found: u64, detail: String },
    /// The JSON parsed but declares another format version.
    FormatMismatch { krate: String, version: String, found: u32 },
}

/// Decompress the zstd-compressed rustdoc JSON of `krate@version`.
pub fn decompress_rustdoc(compressed: &[u8], krate: &str, version: &str) -> (r: Result<Vec<u8>, LoadError>)
    ensures
        match r {
            Ok(json) => zstd_decoded(compressed@) == Some(json@),
            Err(e) => zstd_decoded(compressed@) is None
                && (e matches LoadError::Decompress { krate: k, version: v } && k@ == krate@ && v@ == version@),
        },
{
    match zstd_decode_all(compressed) {
        Some(json) => Ok(json),
        None => Err(LoadError::Decompress { krate: String::from_str(krate), version: String::from_str(version) }),
    }
}

#[verifier::external_type_specification]
#[verifier::external_body]
pub struct ExRustdocCrate(rustdoc_types::Crate);

/// The plain fields of one entry of a rustdoc index: the key it is filed
/// under, and the item's own id, name, doc text and span.
pub struct EntryHead {
    pub key: u32,
    pub id: u32,
    pub name: Option<String>,
    pub docs: Option<String>,
    pub span: Option<SourceSpan>,
}

/// The text of an optional string.
pub open spec fn opt_text(o: Option<String>) -> Option<Seq<char>> {
    match o {
        Some(s) => Some(s@),
        None => None,
    }
}

/// The file name and line of an optional span.
pub open spec fn span_parts(o: Option<SourceSpan>) -> Option<(Seq<char>, usize)> {
    match o {
        Some(sp) => Some((sp.filename@, sp.line)),
        None => None,
    }
}

/// The plain fields of an entry: id, name, docs and span.
pub open spec fn head_view(h: EntryHead) -> (u32, Option<Seq<char>>, Option<Seq<char>>, Option<(Seq<char>, usize)>) {
    (h.id, opt_text(h.name), opt_text(h.docs), span_parts(h.span))
}

/// The same fields of a documented item.
pub open spec fn item_head(it: DocItem) -> (u32, Option<Seq<char>>, Option<Seq<char>>, Option<(Seq<char>, usize)>) {
    (it.id, opt_text(it.name), opt_text(it.docs), span_parts(it.span))
}

/// `hs` lists the map `m` once each: distinct keys, each with the value `m`
/// holds under it, and every key of `m` listed.
pub open spec fn lists_entries(
    hs: Seq<EntryHead>,
    m: Map<u32, (u32, Option<Seq<char>>, Option<Seq<char>>, Option<(Seq<char>, usize)>)>,
) -> bool {
    &&& forall|i: int, j: int| 0 <= i < j < hs.len() ==> hs[i].key != hs[j].key
    &&& forall|i: int| 0 <= i < hs.len() ==> m.contains_key(#[trigger] hs[i].key) && m[hs[i].key] == head_view(hs[i])
    &&& forall|k: u32| m.contains_key(k) ==> exists|i: int| 0 <= i < hs.len() && #[trigger] hs[i].key == k
}

/// `ps` lists the map `m` once each, as [`lists_entries`] does.
pub open spec fn lists_paths(ps: Seq<(u32, Vec<String>)>, m: Map<u32, Seq<Seq<char>>>) -> bool {
    &&& forall|i: int, j: int| 0 <= i < j < ps.len() ==> ps[i].0 != ps[j].0
    &&& forall|i: int| 0 <= i < ps.len() ==> m.contains_key(#[trigger] ps[i].0) && m[ps[i].0] == views(ps[i].1@)
    &&& forall|k: u32| m.contains_key(k) ==> exists|i: int| 0 <= i < ps.len() && #[trigger] ps[i].0 == k
}

/// Whether `serde_json::from_slice::<rustdoc_types::Crate>` accepts `json`.
pub uninterp spec fn rustdoc_json_parses(json: Seq<u8>) -> bool;

/// The message of the error `serde_json::from_slice::<rustdoc_types::Crate>`
/// reports for `json`.
pub uninterp spec fn rustdoc_parse_message(json: Seq<u8>) -> Seq<char>;

/// The `format_version` of the crate parsed from `json`.
pub uninterp spec fn parsed_format_version(json: Seq<u8>) -> u32;

/// The index of the crate parsed from `json`: each key to the item's own
/// id, name, doc text and span (file name, as `Path::display` shows it, and
/// first line).
pub uninterp spec fn rustdoc_entries(json: Seq<u8>) -> Map<u32, (u32, Option<Seq<char>>, Option<Seq<char>>, Option<(Seq<char>, usize)>)>;

/// The canonical paths of the crate parsed from `json`: id to path
/// segments.
pub uninterp spec fn rustdoc_paths(json: Seq<u8>) -> Map<u32, Seq<Seq<char>>>;

/// The `format_version` field of `json` read as a generic JSON value: the
/// field's value when `json` is a JSON object whose field holds an unsigned
/// integer, else `None`.
pub uninterp spec fn json_format_field(json: Seq<u8>) -> Option<u64>;

/// `serde_json::from_slice::<rustdoc_types::Crate>`: exactly when the JSON
/// parses, the crate together with the plain fields of its `index` entries
/// and its `paths`, each map walked once (in the map's order, left
/// unstated), and its `format_version`; else the parser's error message.
/// What each item is (its `inner`) is left unstated.
#[verifier::external_body]
fn parse_rustdoc_json(json: &[u8]) -> (r: Result<(rustdoc_types::Crate, Vec<EntryHead>, Vec<(u32, Vec<String>)>, u32), String>)
    ensures
        r is Ok <==> rustdoc_json_parses(json@),
        r matches Err(m) ==> m@ == rustdoc_parse_message(json@),
        r matches Ok((_, heads, paths, v)) ==> v == parsed_format_version(json@)
            && lists_entries(heads@, rustdoc_entries(json@)) && lists_paths(paths@, rustdoc_paths(json@)),
{
    let c: rustdoc_types::Crate = match serde_json::from_slice(json) {
        Ok(c) => c,
        Err(e) => return Err(e.to_string()),
    };
    let heads = c.index.iter().map(|(k, it)| EntryHead { key: k.0, id: it.id.0, name: it.name.clone(), docs: it.docs.clone(),
        span: it.span.as_ref().map(|s| SourceSpan { filename: s.filename.display().to_string(), line: s.begin.0 }) }).collect();
    let paths = c.paths.iter().map(|(k, s)| (k.0, s.path.clone())).collect();
    let v = c.format_version;
    Ok((c, heads, paths, v))
}

/// `serde_json::from_slice::<serde_json::Value>`, then `get("format_version")`
/// and `as_u64`: the `format_version` field when it can be read as an
/// unsigned integer.
#[verifier::external_body]
fn json_format_version(json: &[u8]) -> (v: Option<u64>)
    ensures
        v == json_format_field(json@),
{
    match serde_json::from_slice::<serde_json::Value>(json) {
        Ok(value) => match value.get("format_version") {
            Some(f) => f.as_u64(),
            None => None,
        },
        Err(_) => None,
    }
}

/// A parsed rustdoc crate: the crate, the plain fields of its index entries
/// and its canonical paths, each listed once per key.
pub struct ParsedRustdoc {
    parsed: rustdoc_types::Crate,
    heads: Vec<EntryHead>,
    paths: Vec<(u32, Vec<String>)>,
    format_version: u32,
    entry_map: Ghost<Map<u32, (u32, Option<Seq<char>>, Option<Seq<char>>, Option<(Seq<char>, usize)>)>>,
    path_map: Ghost<Map<u32, Seq<Seq<char>>>>,
}

impl ParsedRustdoc {
    #[verifier::type_invariant]
    spec fn listed_once(self) -> bool {
        lists_entries(self.heads@, self.entry_map@) && lists_paths(self.paths@, self.path_map@)
    }

    /// The index entries: key to the item's id, name, docs and span.
    pub closed spec fn entries(&self) -> Map<u32, (u32, Option<Seq<char>>, Option<Seq<char>>, Option<(Seq<char>, usize)>)> {
        self.entry_map@
    }

    /// The canonical paths: id to path segments.
    pub closed spec fn canonical_paths(&self) -> Map<u32, Seq<Seq<char>>> {
        self.path_map@
    }

    /// The keys of the index, in the order the entries are listed.
    pub closed spec fn keys(&self) -> Seq<u32> {
        self.heads@.map_values(|h: EntryHead| h.key)
    }

    /// The format version the crate declares.
    pub closed spec fn format(&self) -> u32 {
        self.format_version
    }

    /// The parsed crate, from which the kind of each item is read.
    pub fn rustdoc_crate(&self) -> &rustdoc_types::Crate {
        &self.parsed
    }

    /// The keys of the index, in the order the entries are listed.
    pub fn entry_keys(&self) -> (ks: Vec<u32>)
        ensures
            ks@ == self.keys(),
    {
        let mut ks: Vec<u32> = Vec::new();
        let mut i: usize = 0;
        while i < self.heads.len()
            invariant
                i <= self.heads@.len(),
                ks@ == self.heads@.take(i as int).map_values(|h: EntryHead| h.key),
            decreases self.heads@.len() - i,
        {
            assert(self.heads@.take(i + 1).map_values(|h: EntryHead| h.key)
                =~= self.heads@.take(i as int).map_values(|h: EntryHead| h.key).push(self.heads@[i as int].key));
            ks.push(self.heads[i].key);
            i += 1;
        }
        assert(self.heads@.take(self.heads@.len() as int) == self.heads@);
        ks
    }

    /// The documentation model of the crate: every index entry under its
    /// key, with its plain fields and the kind `kinds[i]` given for the
    /// `i`-th key of [`entry_keys`](Self::entry_keys), and every canonical
    /// path.
    pub fn into_docs(self, kinds: Vec<ItemInner>) -> (d: CrateDocs)
        requires
            kinds@.len() == self.keys().len(),
        ensures
            d.wf(),
            d.version_of_format() == self.format(),
            forall|k: u32| d.index().contains_key(k) <==> self.entries().contains_key(k),
            forall|k: u32| #[trigger] self.entries().contains_key(k) ==> item_head(d.index()[k]) == self.entries()[k],
            forall|i: int| 0 <= i < kinds@.len() ==> d.index()[#[trigger] self.keys()[i]].inner == kinds@[i],
            forall|k: u32| d.path_map().contains_key(k) <==> self.canonical_paths().contains_key(k),
            forall|k: u32| #[trigger] self.canonical_paths().contains_key(k)
                ==> views(d.path_map()[k]@) == self.canonical_paths()[k],
    {
        proof { use_type_invariant(&self); }
        let ghost hs0 = self.heads@;
        let ghost ks0 = kinds@;
        let ghost ps0 = self.paths@;
        let ghost em = self.entry_map@;
        let ghost pm = self.path_map@;
        let ghost keys0 = self.keys();
        let ParsedRustdoc { parsed: _, heads, paths, format_version, entry_map: _, path_map: _ } = self;
        let mut heads = heads;
        let mut paths = paths;
        let mut kinds = kinds;
        let mut d = CrateDocs::new(format_version);
        while heads.len() > 0
            invariant
                hs0.len() == ks0.len(),
                paths@ == ps0,
                d.path_map() == Map::<u32, Vec<String>>::empty(),
                heads@.len() == kinds@.len(),
                heads@.len() <= hs0.len(),
                heads@ == hs0.take(heads@.len() as int),
                kinds@ == ks0.take(kinds@.len() as int),
                forall|i: int, j: int| 0 <= i < j < hs0.len() ==> hs0[i].key != hs0[j].key,
                d.wf(),
                d.version_of_format() == format_version,
                forall|k: u32| d.index().contains_key(k)
                    <==> exists|j: int| heads@.len() <= j < hs0.len() && #[trigger] hs0[j].key == k,
                forall|j: int| heads@.len() <= j < hs0.len() ==> item_head(d.index()[#[trigger] hs0[j].key]) == head_view(hs0[j])
                    && d.index()[hs0[j].key].inner == ks0[j],
            decreases heads@.len(),
        {
            let ghost n = heads@.len() - 1;
            let h = heads.pop().unwrap();
            let inner = kinds.pop().unwrap();
            assert(h == hs0[n]);
            assert(inner == ks0[n]);
            assert(heads@ =~= hs0.take(n));
            assert(kinds@ =~= ks0.take(n));
            let key = h.key;
            let item = DocItem { id: h.id, name: h.name, docs: h.docs, span: h.span, inner };
            d.add_item(key, item);
            assert forall|k: u32| d.index().contains_key(k)
                <==> exists|j: int| heads@.len() <= j < hs0.len() && #[trigger] hs0[j].key == k by {
                if k == key {
                    assert(hs0[n].key == k);
                }
            }
        }
        assert(ps0.take(ps0.len() as int) == ps0);
        while paths.len() > 0
            invariant
                hs0.len() == ks0.len(),
                paths@.len() <= ps0.len(),
                paths@ == ps0.take(paths@.len() as int),
                forall|i: int, j: int| 0 <= i < j < ps0.len() ==> ps0[i].0 != ps0[j].0,
                d.wf(),
                d.version_of_format() == format_version,
                forall|k: u32| d.path_map().contains_key(k)
                    <==> exists|j: int| paths@.len() <= j < ps0.len() && #[trigger] ps0[j].0 == k,
                forall|j: int| paths@.len() <= j < ps0.len() ==> views(d.path_map()[#[trigger] ps0[j].0]@) == views(ps0[j].1@),
                forall|k: u32| d.index().contains_key(k)
                    <==> exists|j: int| 0 <= j < hs0.len() && #[trigger] hs0[j].key == k,
                forall|j: int| 0 <= j < hs0.len() ==> item_head(d.index()[#[trigger] hs0[j].key]) == head_view(hs0[j])
                    && d.index()[hs0[j].key].inner == ks0[j],
            decreases paths@.len(),
        {
            let ghost n = paths@.len() - 1;
            let (id, segs) = paths.pop().unwrap();
            assert((id, segs) == ps0[n]);
            assert(paths@ =~= ps0.take(n));
            d.add_path(id, segs);
            assert forall|k: u32| d.path_map().contains_key(k)
                <==> exists|j: int| paths@.len() <= j < ps0.len() && #[trigger] ps0[j].0 == k by {
                if k == id {
                    assert(ps0[n].0 == k);
                }
            }
        }
        proof {
            assert forall|i: int| 0 <= i < ks0.len() implies d.index()[#[trigger] keys0[i]].inner == ks0[i] by {
                assert(keys0[i] == hs0[i].key);
            }
            assert forall|k: u32| d.index().contains_key(k) <==> em.contains_key(k) by {
                if em.contains_key(k) {
                    let j = choose|j: int| 0 <= j < hs0.len() && #[trigger] hs0[j].key == k;
                }
            }
            assert forall|k: u32| #[trigger] em.contains_key(k) implies item_head(d.index()[k]) == em[k] by {
                let j = choose|j: int| 0 <= j < hs0.len() && #[trigger] hs0[j].key == k;
            }
            assert forall|k: u32| d.path_map().contains_key(k) <==> pm.contains_key(k) by {
                if pm.contains_key(k) {
                    let j = choose|j: int| 0 <= j < ps0.len() && #[trigger] ps0[j].0 == k;
                }
            }
            assert forall|k: u32| #[trigger] pm.contains_key(k) implies views(d.path_map()[k]@) == pm[k] by {
                let j = choose|j: int| 0 <= j < ps0.len() && #[trigger] ps0[j].0 == k;
            }
        }
        d
    }
}

/// Decompress and parse the rustdoc JSON of `krate@version`, accepting it
/// only in the format version this build reads. A JSON that does not parse
/// is reported with the `format_version` it declares (0 when unreadable).
/// A successful load holds exactly the index entries and canonical paths
/// of the decompressed JSON.
pub fn load_rustdoc_json(compressed: &[u8], krate: &str, version: &str) -> (r: Result<ParsedRustdoc, LoadError>)
    ensures
        match zstd_decoded(compressed@) {
            None => r matches Err(LoadError::Decompress { krate: k, version: v }) && k@ == krate@ && v@ == version@,
            Some(json) => if !rustdoc_json_parses(json) {
                r matches Err(LoadError::Unparsable { krate: k, version: v, found, detail })
                    && k@ == krate@ && v@ == version@
                    && found == match json_format_field(json) {
                        Some(f) => f,
                        None => 0,
                    }
                    && detail@ == rustdoc_parse_message(json)
            } else if parsed_format_version(json) != 61 {
                r matches Err(LoadError::FormatMismatch { krate: k, version: v, found })
                    && k@ == krate@ && v@ == version@ && found == parsed_format_version(json)
            } else {
                r matches Ok(p) && p.entries() == rustdoc_entries(json) && p.canonical_paths() == rustdoc_paths(json)
                    && p.format() == 61
            },
        },
{
    let json = decompress_rustdoc(compressed, krate, version)?;
    match parse_rustdoc_json(json.as_slice()) {
        Ok((c, heads, paths, found)) => {
            if found == supported_format_version() {
                Ok(ParsedRustdoc {
                    parsed: c,
                    heads,
                    paths,
                    format_version: found,
                    entry_map: Ghost(rustdoc_entries(json@)),
                    path_map: Ghost(rustdoc_paths(json@)),
                })
            } else {
                Err(LoadError::FormatMismatch { krate: String::from_str(krate), version: String::from_str(version), found })
            }
        },
        Err(detail) => {
            let found = match json_format_version(json.as_slice()) {
                Some(f) => f,
                None => 0,
            };
            Err(LoadError::Unparsable { krate: String::from_str(krate), version: String::from_str(version), found, detail })
        },
    }
}

/// The message of a load error.
pub open spec fn load_error_text(e: LoadError) -> Seq<char> {
    match e {
        LoadError::Decompress { krate, version } =>
            "failed to decompress rustdoc JSON for "@ + krate@ + "@"@ + version@,
        LoadError::Unparsable { krate, version, found, detail } =>
            "cannot parse rustdoc JSON for "@ + krate@ + "@"@ + version@ + " (format_version "@
                + decimal(found as nat) + ", expected "@ + decimal(61) + "): "@ + detail@,
        LoadError::FormatMismatch { krate, version, found } =>
            "rustdoc JSON for "@ + krate@ + "@"@ + version@ + " has format_version "@ + decimal(found as nat)
                + ", but this build of rustdocs-mcp supports "@ + decimal(61),
    }
}

impl LoadError {
    /// The message reported for this error.
    pub fn message(&self) -> (s: String)
        ensures
            s@ == load_error_text(*self),
    {
        match self {
            LoadError::Decompress { krate, version } => {
                let mut s = String::from_str("failed to decompress rustdoc JSON for ");
                s.append(krate.as_str());
                s.append("@");
                s.append(version.as_str());
                s
            },
            LoadError::Unparsable { krate, version, found, detail } => {
                let mut s = String::from_str("cannot parse rustdoc JSON for ");
                s.append(krate.as_str());
                s.append("@");
                s.append(version.as_str());
                s.append(" (format_version ");
                let f = decimal_string(*found);
                s.append(f.as_str());
                s.append(", expected ");
                let x = decimal_string(supported_format_version() as u64);
                s.append(x.as_str());
                s.append("): ");
                s.append(detail.as_str());
                s
            },
            LoadError::FormatMismatch { krate, version, found } => {
                let mut s = String::from_str("rustdoc JSON for ");
                s.append(krate.as_str());
                s.append("@");
                s.append(version.as_str());
                s.append(" has format_version ");
                let f = decimal_string(*found as u64);
                s.append(f.as_str());
                s.append(", but this build of rustdocs-mcp supports ");
                let x = decimal_string(supported_format_version() as u64);
                s.append(x.as_str());
                s
            },
        }
    }
}

/// `p` with each backslash replaced by a slash.
pub open spec fn slashed(p: Seq<char>) -> Seq<char> {
    p.map_values(|c: char| if c == '\\' { '/' } else { c })
}

fn slashed_path(p: &str) -> (s: String)
    ensures
        s@ == slashed(p@),
{
    let mut s = String::new();
    let ghost view = p@;
    for c in it: p.chars()
        invariant
            it.seq() == view,
            s@ == slashed(view.take(it.index() as int)),
    {
        assert(slashed(view.take(it.index() + 1)) =~= slashed(view.take(it.index() as int)).push(
            if c == '\\' { '/' } else { c },
        ));
        if c == '\\' {
            push_char(&mut s, '/');
        } else {
            push_char(&mut s, c);
        }
    }
    assert(view.take(view.len() as int) == view);
    s
}

/// The path of a source file inside the archive of `krate@version`:
/// `{krate}-{version}/{path}`.
pub open spec fn member_path(krate: Seq<char>, version: Seq<char>, path: Seq<char>) -> Seq<char> {
    krate + "-"@ + version + "/"@ + path
}

/// The contents of the first member whose path, with backslashes turned
/// into slashes, is `wanted`.
pub open spec fn first_member(ms: Seq<(Seq<char>, Seq<u8>)>, wanted: Seq<char>) -> Option<Seq<u8>>
    decreases ms.len(),
{
    if ms.len() == 0 {
        None
    } else if slashed(ms[0].0) == wanted {
        Some(ms[0].1)
    } else {
        first_member(ms.skip(1), wanted)
    }
}

proof fn lemma_first_member(ms: Seq<(Seq<char>, Seq<u8>)>, wanted: Seq<char>, k: int)
    requires
        0 <= k <= ms.len(),
        forall|j: int| 0 <= j < k ==> slashed(#[trigger] ms[j].0) != wanted,
    ensures
        k < ms.len() && slashed(ms[k].0) == wanted ==> first_member(ms, wanted) == Some(ms[k].1),
        k == ms.len() ==> first_member(ms, wanted) is None,
    decreases k,
{
    if k > 0 {
        assert forall|j: int| 0 <= j < k - 1 implies slashed(#[trigger] ms.skip(1)[j].0) != wanted by {
            assert(ms.skip(1)[j] == ms[j + 1]);
        }
        lemma_first_member(ms.skip(1), wanted, k - 1);
        assert(slashed(ms[0].0) != wanted);
    }
}

/// Why a source file could not be taken from a crate archive.
#[derive(Debug)]
pub enum SourceError {
    /// The archive is not a readable gzip-compressed tar, or a member
    /// before the wanted file could not be read.
    Archive,
    /// The archive holds no such file.
    NotFound { path: String, krate: String, version: String },
    /// The file is not valid UTF-8.
    NotUtf8 { path: String },
}

/// The message of a source error.
pub open spec fn source_error_text(e: SourceError) -> Seq<char> {
    match e {
        SourceError::Archive => "failed to read crate archive"@,
        SourceError::NotFound { path, krate, version } =>
            "file '"@ + path@ + "' not found in "@ + krate@ + "-"@ + version@ + ".crate"@,
        SourceError::NotUtf8 { path } => "source file '"@ + path@ + "' is not valid UTF-8"@,
    }
}

impl SourceError {
    /// The message reported for this error.
    pub fn message(&self) -> (s: String)
        ensures
            s@ == source_error_text(*self),
    {
        match self {
            SourceError::Archive => String::from_str("failed to read crate archive"),
            SourceError::NotFound { path, krate, version } => {
                let mut s = String::from_str("file '");
                s.append(path.as_str());
                s.append("' not found in ");
                s.append(krate.as_str());
                s.append("-");
                s.append(version.as_str());
                s.append(".crate");
                s
            },
            SourceError::NotUtf8 { path } => {
                let mut s = String::from_str("source file '");
                s.append(path.as_str());
                s.append("' is not valid UTF-8");
                s
            },
        }
    }
}

/// The members of a `.crate` archive: gunzip, then list the tar; `None`
/// when the gzip stream does not decode.
pub open spec fn archive_members(archive: Seq<u8>) -> Option<(Seq<(Seq<char>, Seq<u8>)>, bool)> {
    match gunzipped(archive) {
        Some(tar) => Some(tar_members(tar)),
        None => None,
    }
}

/// Take the source file `path` (relative to the crate root) out of the
/// `.crate` archive of `krate@version`.
pub fn extract_source(archive: &[u8], krate: &str, version: &str, path: &str) -> (r: Result<String, SourceError>)
    ensures
        match archive_members(archive@) {
            None => r matches Err(SourceError::Archive),
            Some((ms, complete)) => match first_member(ms, member_path(krate@, version@, path@)) {
                None => if complete {
                    r matches Err(SourceError::NotFound { path: p, krate: k, version: v })
                        && p@ == path@ && k@ == krate@ && v@ == version@
                } else {
                    r matches Err(SourceError::Archive)
                },
                Some(bytes) => if valid_utf8(bytes) {
                    r matches Ok(text) && text@ == decode_utf8(bytes)
                } else {
                    r matches Err(SourceError::NotUtf8 { path: p }) && p@ == path@
                },
            },
        },
{
    let tar = match gunzip(archive) {
        Some(t) => t,
        None => return Err(SourceError::Archive),
    };
    let (members, complete) = tar_listing(tar.as_slice());
    let mut wanted = String::from_str(krate);
    wanted.append("-");
    wanted.append(version);
    wanted.append("/");
    wanted.append(path);
    let ghost ms = members_view(members@);
    let mut i: usize = 0;
    while i < members.len()
        invariant
            i <= members@.len(),
            ms == members_view(members@),
            archive_members(archive@) == Some((ms, complete)),
            wanted@ == member_path(krate@, version@, path@),
            forall|j: int| 0 <= j < i ==> slashed(#[trigger] ms[j].0) != wanted@,
        decreases members@.len() - i,
    {
        let p = slashed_path(members[i].path.as_str());
        assert(ms[i as int].0 == members@[i as int].path@);
        if p == wanted {
            proof { lemma_first_member(ms, wanted@, i as int); }
            let bytes = members[i].data.clone();
            assert(ms[i as int].1 == bytes@);
            return match utf8_string(bytes) {
                Some(text) => Ok(text),
                None => Err(SourceError::NotUtf8 { path: String::from_str(path) }),
            };
        }
        i += 1;
    }
    proof { lemma_first_member(ms, wanted@, i as int); }
    if !complete {
        return Err(SourceError::Archive);
    }
    Err(SourceError::NotFound { path: String::from_str(path), krate: String::from_str(krate), version: String::from_str(version) })
}

} // verus!
