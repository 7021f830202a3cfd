# rustdocs

A documentation server for published Rust crates, speaking the Model Context
Protocol over stdio. It answers questions about crates.io packages (search,
metadata, versions, dependencies) and about their API surface, read from the
rustdoc JSON that docs.rs publishes (items, modules, methods, trait impls,
name search, source files).

The logic is a Verus-verified library; a thin binary does the network and
protocol work.

## Layout

- `src/` — the verified library
  - `text.rs`: whitespace, trimming, joining, `::` paths, decimals, substring search
  - `url.rs`: percent-encoding and the endpoint addresses
  - `registry.rs`: crates.io records and version-requirement resolution (semver)
  - `model.rs`: the documentation index (items by id, canonical paths, types)
  - `render.rs`: one-line renderings of types and item signatures
  - `query.rs`: lookups — path resolution, re-export following, module
    listings, inherent methods, trait impls, searches, item reports
  - `archive.rs`: zstd-compressed rustdoc JSON (decompression, parsing with
    rustdoc-types, the format-version check) and `.crate` (gzip + tar) archives
  - `cache.rs`: the `crate@version` cache
  - `tools.rs`: defaults and limits of the server's tools
- `tests/` — tests of the library on concrete values
- `app/` — the server: HTTP, serde copies of the registry records, the
  copy of each rustdoc item's kind into the library's model, and the MCP
  tool handlers
