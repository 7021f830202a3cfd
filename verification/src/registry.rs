//! crates.io registry data, and the resolution of a version requirement to
//! a concrete release.

use vstd::prelude::*;
use vstd::string::*;
use crate::text::{lemma_trim_idempotent, trim, trim_text, string_of};

verus! {

/// Response of the crates.io search endpoint.
#[derive(Debug)]
pub struct SearchResponse {
    pub crates: Vec<CrateSummary>,
}

/// One crate in a search result.
#[derive(Debug)]
pub struct CrateSummary {
    pub name: String,
    pub description: Option<String>,
    pub max_version: String,
    pub downloads: u64,
    pub recent_downloads: u64,
    pub documentation: Option<String>,
    pub repository: Option<String>,
    pub homepage: Option<String>,
    pub keywords: Option<Vec<String>>,
    pub categories: Option<Vec<String>>,
    pub created_at: String,
    pub updated_at: String,
}

/// Response of the crates.io metadata endpoint.
#[derive(Debug)]
pub struct CrateDetailsResponse {
    pub crate_: CrateDetails,
}

/// Full metadata of one crate.
#[derive(Debug)]
pub struct CrateDetails {
    pub name: String,
    pub description: Option<String>,
    pub max_version: String,
    pub newest_version: String,
    pub downloads: u64,
    pub recent_downloads: u64,
    pub documentation: Option<String>,
    pub repository: Option<String>,
    pub homepage: Option<String>,
    pub keywords: Vec<String>,
    pub categories: Vec<String>,
    pub created_at: String,
    pub updated_at: String,
    pub default_version: String,
    pub num_versions: u64,
}

/// Response of the crates.io versions endpoint.
#[derive(Debug)]
pub struct VersionsResponse {
    pub versions: Vec<VersionInfo>,
}

/// One published version of a crate.
#[derive(Debug)]
pub struct VersionInfo {
    pub num: String,
    pub yanked: bool,
    pub downloads: u64,
    pub created_at: String,
    pub rust_version: Option<String>,
}

/// Response of the crates.io dependencies endpoint.
#[derive(Debug)]
pub struct DependenciesResponse {
    pub dependencies: Vec<Dependency>,
}

/// One dependency of a crate version.
#[derive(Debug)]
pub struct Dependency {
    pub name: String,
    pub req: String,
    pub optional: bool,
    pub default_features: bool,
    pub features: Vec<String>,
    pub kind: String,
    pub target: Option<String>,
}

// ---------------------------------------------------------------------------
// semver
// ---------------------------------------------------------------------------

#[verifier::external_type_specification]
#[verifier::external_body]
pub struct ExVersionReq(semver::VersionReq);

#[verifier::external_type_specification]
#[verifier::external_body]
pub struct ExVersion(semver::Version);

/// Whether `semver::VersionReq::parse` accepts `text`.
pub uninterp spec fn semver_requirement_parses(text: Seq<char>) -> bool;

/// Whether `semver::Version::parse` accepts `text`.
pub uninterp spec fn semver_version_parses(text: Seq<char>) -> bool;

/// Whether the requirement parsed from `requirement` matches the version
/// parsed from `version` (`semver::VersionReq::matches`).
pub uninterp spec fn semver_matches(requirement: Seq<char>, version: Seq<char>) -> bool;

/// A cargo-style version requirement together with the text it was parsed
/// from. The parse is a function of the text, so the contracts speak of the
/// text alone.
pub struct SemverRequirement {
    text: String,
    parsed: semver::VersionReq,
}

/// A semantic version together with the text it was parsed from. The parse
/// is a function of the text, so the contracts speak of the text alone.
pub struct SemverVersion {
    text: String,
    parsed: semver::Version,
}

impl SemverRequirement {
    /// The text this requirement was parsed from.
    pub closed spec fn text(&self) -> Seq<char> {
        self.text@
    }

    /// `semver::VersionReq::parse`: `Some` exactly when the crate accepts
    /// `text`; the value keeps `text` beside the parsed requirement.
    #[verifier::external_body]
    pub(crate) fn parse(text: &str) -> (r: Option<SemverRequirement>)
        ensures
            r is Some <==> semver_requirement_parses(text@),
            r matches Some(q) ==> q.text() == text@,
    {
        match semver::VersionReq::parse(text) {
            Ok(parsed) => Some(SemverRequirement { text: text.to_string(), parsed }),
            Err(_) => None,
        }
    }

    /// `semver::VersionReq::matches`, on the requirement and version parsed
    /// from the texts these values carry.
    #[verifier::external_body]
    pub(crate) fn matches(&self, version: &SemverVersion) -> (b: bool)
        ensures
            b == semver_matches(self.text(), version.text()),
    {
        self.parsed.matches(&version.parsed)
    }
}

impl SemverVersion {
    /// The text this version was parsed from.
    pub closed spec fn text(&self) -> Seq<char> {
        self.text@
    }

    /// `semver::Version::parse`: `Some` exactly when the crate accepts
    /// `text`; the value keeps `text` beside the parsed version.
    #[verifier::external_body]
    pub(crate) fn parse(text: &str) -> (r: Option<SemverVersion>)
        ensures
            r is Some <==> semver_version_parses(text@),
            r matches Some(v) ==> v.text() == text@,
    {
        match semver::Version::parse(text) {
            Ok(parsed) => Some(SemverVersion { text: text.to_string(), parsed }),
            Err(_) => None,
        }
    }
}

// ---------------------------------------------------------------------------
// resolution
// ---------------------------------------------------------------------------

/// The first index of `vs` whose entry satisfies `p`.
pub open spec fn first_where(vs: Seq<VersionInfo>, p: spec_fn(VersionInfo) -> bool) -> Option<nat>
    decreases vs.len(),
{
    if vs.len() == 0 {
        None
    } else if p(vs[0]) {
        Some(0)
    } else {
        match first_where(vs.skip(1), p) {
            Some(k) => Some(k + 1),
            None => None,
        }
    }
}

/// A release that has not been yanked.
pub open spec fn is_release() -> spec_fn(VersionInfo) -> bool {
    |v: VersionInfo| !v.yanked
}

/// A release whose version text is exactly `r`.
pub open spec fn is_exact_release(r: Seq<char>) -> spec_fn(VersionInfo) -> bool {
    |v: VersionInfo| !v.yanked && v.num@ == r
}

/// A release whose version parses and matches the requirement `r`.
pub open spec fn is_matching_release(r: Seq<char>) -> spec_fn(VersionInfo) -> bool {
    |v: VersionInfo| !v.yanked && semver_version_parses(v.num@) && semver_matches(r, v.num@)
}

/// Requirements that ask for the newest release.
pub open spec fn means_newest(r: Seq<char>) -> bool {
    r.len() == 0 || r == "*"@ || r == "latest"@ || r == "newest"@
}

/// Why a requirement could not be resolved.
#[derive(Debug)]
pub enum ResolveError {
    /// Every version is yanked (or there is none).
    NoRelease,
    /// The (trimmed) requirement is not valid cargo semver syntax.
    InvalidRequirement { requirement: String },
    /// No release matches the (trimmed) requirement.
    NoMatch { requirement: String },
}

/// The abstract outcome of a resolution.
pub enum Resolution {
    Version(Seq<char>),
    NoRelease,
    InvalidRequirement(Seq<char>),
    NoMatch(Seq<char>),
}

/// The outcome that a resolution result stands for.
pub open spec fn resolution_of(r: Result<String, ResolveError>) -> Resolution {
    match r {
        Ok(v) => Resolution::Version(v@),
        Err(ResolveError::NoRelease) => Resolution::NoRelease,
        Err(ResolveError::InvalidRequirement { requirement }) => Resolution::InvalidRequirement(requirement@),
        Err(ResolveError::NoMatch { requirement }) => Resolution::NoMatch(requirement@),
    }
}

/// The resolution of requirement `req` against `vs` (newest first):
/// empty, `*`, `latest` or `newest` give the first release; a release whose
/// text equals the requirement wins next; otherwise the first release that
/// the cargo requirement matches.
pub open spec fn resolution(vs: Seq<VersionInfo>, req: Seq<char>) -> Resolution {
    let r = trim(req);
    match first_where(vs, is_release()) {
        None => Resolution::NoRelease,
        Some(newest) => if means_newest(r) {
            Resolution::Version(vs[newest as int].num@)
        } else if first_where(vs, is_exact_release(r)) is Some {
            Resolution::Version(r)
        } else if !semver_requirement_parses(r) {
            Resolution::InvalidRequirement(r)
        } else {
            match first_where(vs, is_matching_release(r)) {
                Some(k) => Resolution::Version(vs[k as int].num@),
                None => Resolution::NoMatch(r),
            }
        },
    }
}

proof fn lemma_first_where_found(vs: Seq<VersionInfo>, p: spec_fn(VersionInfo) -> bool)
    ensures
        first_where(vs, p) matches Some(k) ==> k < vs.len() && p(vs[k as int]),
    decreases vs.len(),
{
    if vs.len() > 0 && !p(vs[0]) {
        lemma_first_where_found(vs.skip(1), p);
        if let Some(k) = first_where(vs.skip(1), p) {
            assert(vs.skip(1)[k as int] == vs[k as int + 1]);
        }
    }
}

proof fn lemma_first_where(vs: Seq<VersionInfo>, p: spec_fn(VersionInfo) -> bool, k: int)
    requires
        0 <= k <= vs.len(),
        forall|j: int| 0 <= j < k ==> !p(#[trigger] vs[j]),
    ensures
        k < vs.len() && p(vs[k]) ==> first_where(vs, p) == Some(k as nat),
        k == vs.len() ==> first_where(vs, p) is None,
    decreases k,
{
    if k > 0 {
        assert forall|j: int| 0 <= j < k - 1 implies !p(#[trigger] vs.skip(1)[j]) by {
            assert(vs.skip(1)[j] == vs[j + 1]);
        }
        lemma_first_where(vs.skip(1), p, k - 1);
        assert(!p(vs[0]));
    }
}

/// The index of the first release in `vs`, or with `exact`, of the first
/// release whose text is `r`.
fn find_first(vs: &[VersionInfo], r: &String, exact: bool) -> (k: Option<usize>)
    ensures
        ({
            let p = if exact { is_exact_release(r@) } else { is_release() };
            match k {
                Some(i) => first_where(vs@, p) == Some(i as nat),
                None => first_where(vs@, p) is None,
            }
        }),
{
    let ghost p = if exact { is_exact_release(r@) } else { is_release() };
    let mut i: usize = 0;
    while i < vs.len()
        invariant
            i <= vs@.len(),
            p == (if exact { is_exact_release(r@) } else { is_release() }),
            forall|j: int| 0 <= j < i ==> !p(#[trigger] vs@[j]),
        decreases vs@.len() - i,
    {
        let hit = !vs[i].yanked && (!exact || vs[i].num == *r);
        if hit {
            proof { lemma_first_where(vs@, p, i as int); }
            return Some(i);
        }
        i += 1;
    }
    proof { lemma_first_where(vs@, p, i as int); }
    None
}

/// Resolve a semver requirement to a concrete non-yanked version.
///
/// Accepted forms:
///   - empty / "*" / "latest" / "newest" -> newest non-yanked
///   - "1.2.3"           -> exact version
///   - "1.2", "^1.2",
///     ">=1, <2", ...    -> cargo-style requirement, newest match
pub fn resolve(versions: &[VersionInfo], req: &str) -> (r: Result<String, ResolveError>)
    ensures
        resolution_of(r) == resolution(versions@, req@),
{
    let tv = trim_text(req);
    let trimmed = string_of(tv.as_slice());
    let newest = find_first(versions, &trimmed, false);
    let newest = match newest {
        None => return Err(ResolveError::NoRelease),
        Some(k) => k,
    };
    proof { lemma_first_where_found(versions@, is_release()); }
    if tv.len() == 0 || trimmed == String::from_str("*")
        || trimmed == String::from_str("latest") || trimmed == String::from_str("newest") {
        return Ok(versions[newest].num.clone());
    }
    if find_first(versions, &trimmed, true).is_some() {
        return Ok(trimmed);
    }
    let parsed = match SemverRequirement::parse(trimmed.as_str()) {
        None => return Err(ResolveError::InvalidRequirement { requirement: trimmed }),
        Some(q) => q,
    };
    let ghost p = is_matching_release(trimmed@);
    let mut i: usize = 0;
    while i < versions.len()
        invariant
            i <= versions@.len(),
            parsed.text() == trimmed@,
            trimmed@ == trim(req@),
            !means_newest(trimmed@),
            first_where(versions@, is_release()) is Some,
            first_where(versions@, is_exact_release(trimmed@)) is None,
            semver_requirement_parses(trimmed@),
            p == is_matching_release(trimmed@),
            forall|j: int| 0 <= j < i ==> !p(#[trigger] versions@[j]),
        decreases versions@.len() - i,
    {
        if !versions[i].yanked {
            match SemverVersion::parse(versions[i].num.as_str()) {
                Some(ver) => {
                    if parsed.matches(&ver) {
                        proof { lemma_first_where(versions@, p, i as int); }
                        return Ok(versions[i].num.clone());
                    }
                }
                None => {}
            }
        }
        i += 1;
    }
    proof { lemma_first_where(versions@, p, i as int); }
    Err(ResolveError::NoMatch { requirement: trimmed })
}

/// The message of a resolution failure.
pub open spec fn resolve_error_text(e: ResolveError) -> Seq<char> {
    match e {
        ResolveError::NoRelease => "no non-yanked versions found"@,
        ResolveError::InvalidRequirement { requirement } => "invalid semver requirement '"@ + requirement@ + "'"@,
        ResolveError::NoMatch { requirement } =>
            "no non-yanked version of the crate matches requirement '"@ + requirement@ + "'"@,
    }
}

impl ResolveError {
    /// The message reported for this error.
    pub fn message(&self) -> (s: String)
        ensures
            s@ == resolve_error_text(*self),
    {
        match self {
            ResolveError::NoRelease => String::from_str("no non-yanked versions found"),
            ResolveError::InvalidRequirement { requirement } => {
                let mut s = String::from_str("invalid semver requirement '");
                s.append(requirement.as_str());
                s.append("'");
                s
            },
            ResolveError::NoMatch { requirement } => {
                let mut s = String::from_str("no non-yanked version of the crate matches requirement '");
                s.append(requirement.as_str());
                s.append("'");
                s
            },
        }
    }
}

/// Whitespace around a requirement does not matter: resolving `req` and
/// resolving it trimmed give the same outcome.
pub proof fn lemma_resolution_ignores_surrounding_whitespace(vs: Seq<VersionInfo>, req: Seq<char>)
    ensures
        resolution(vs, trim(req)) == resolution(vs, req),
{
    lemma_trim_idempotent(req);
}

/// A resolved version is always the text of a non-yanked entry of the
/// list.
pub proof fn lemma_resolved_is_release(vs: Seq<VersionInfo>, req: Seq<char>)
    ensures
        resolution(vs, req) matches Resolution::Version(v) ==> exists|i: int|
            0 <= i < vs.len() && !(#[trigger] vs[i]).yanked && vs[i].num@ == v,
{
    let r = trim(req);
    lemma_first_where_found(vs, is_release());
    lemma_first_where_found(vs, is_exact_release(r));
    lemma_first_where_found(vs, is_matching_release(r));
    if let Some(k) = first_where(vs, is_release()) {
        let k = k as int;
        assert(!vs[k].yanked);
    }
    if let Some(k) = first_where(vs, is_exact_release(r)) {
        let k = k as int;
        assert(!vs[k].yanked && vs[k].num@ == r);
    }
    if let Some(k) = first_where(vs, is_matching_release(r)) {
        let k = k as int;
        assert(!vs[k].yanked);
    }
}

/// The newest release wins for an empty, `*`, `latest` or `newest`
/// requirement: entry `i` when it is the first that is not yanked.
pub proof fn lemma_newest_requirement(vs: Seq<VersionInfo>, req: Seq<char>, i: int)
    requires
        means_newest(trim(req)),
        0 <= i < vs.len(),
        !vs[i].yanked,
        forall|j: int| 0 <= j < i ==> (#[trigger] vs[j]).yanked,
    ensures
        resolution(vs, req) == Resolution::Version(vs[i].num@),
{
    lemma_first_where(vs, is_release(), i);
}

/// An exact version wins: when a non-yanked entry's text is the trimmed
/// requirement (and the requirement does not ask for the newest release),
/// that text is the result, whatever the semver reading of it.
pub proof fn lemma_exact_version_wins(vs: Seq<VersionInfo>, req: Seq<char>, i: int)
    requires
        !means_newest(trim(req)),
        0 <= i < vs.len(),
        !vs[i].yanked,
        vs[i].num@ == trim(req),
    ensures
        resolution(vs, req) == Resolution::Version(trim(req)),
{
    let r = trim(req);
    lemma_first_where_found(vs, is_release());
    lemma_first_where_found(vs, is_exact_release(r));
    if first_where(vs, is_release()) is None {
        lemma_first_where_exists(vs, is_release(), i);
    }
    if first_where(vs, is_exact_release(r)) is None {
        lemma_first_where_exists(vs, is_exact_release(r), i);
    }
}

/// The version texts of the releases (entries not yanked) of `vs`, in
/// order.
pub open spec fn release_texts(vs: Seq<VersionInfo>) -> Seq<Seq<char>>
    decreases vs.len(),
{
    if vs.len() == 0 {
        Seq::empty()
    } else if vs[0].yanked {
        release_texts(vs.skip(1))
    } else {
        seq![vs[0].num@] + release_texts(vs.skip(1))
    }
}

/// The first text of `ns` that satisfies `q`.
pub open spec fn first_text(ns: Seq<Seq<char>>, q: spec_fn(Seq<char>) -> bool) -> Option<Seq<char>>
    decreases ns.len(),
{
    if ns.len() == 0 {
        None
    } else if q(ns[0]) {
        Some(ns[0])
    } else {
        first_text(ns.skip(1), q)
    }
}

proof fn lemma_first_release(vs: Seq<VersionInfo>, p: spec_fn(VersionInfo) -> bool, q: spec_fn(Seq<char>) -> bool)
    requires
        forall|v: VersionInfo| #[trigger] p(v) == (!v.yanked && q(v.num@)),
    ensures
        match first_where(vs, p) {
            Some(k) => k < vs.len() && first_text(release_texts(vs), q) == Some(vs[k as int].num@),
            None => first_text(release_texts(vs), q) is None,
        },
    decreases vs.len(),
{
    if vs.len() > 0 {
        let rest = release_texts(vs.skip(1));
        lemma_first_release(vs.skip(1), p, q);
        if !vs[0].yanked {
            let ns = seq![vs[0].num@] + rest;
            assert(ns[0] == vs[0].num@);
            assert(ns.skip(1) =~= rest);
        }
        if !p(vs[0]) {
            if let Some(k) = first_where(vs.skip(1), p) {
                assert(vs.skip(1)[k as int] == vs[k as int + 1]);
            }
        }
    }
}

/// Only the releases matter, and only the requirement's trimmed text:
/// yanked entries, the other fields of entries, and whitespace around the
/// requirement do not change the resolution.
pub proof fn lemma_resolution_depends_on_releases(vs1: Seq<VersionInfo>, req1: Seq<char>, vs2: Seq<VersionInfo>, req2: Seq<char>)
    requires
        release_texts(vs1) == release_texts(vs2),
        trim(req1) == trim(req2),
    ensures
        resolution(vs1, req1) == resolution(vs2, req2),
{
    let r = trim(req1);
    let any = |n: Seq<char>| true;
    let exact = |n: Seq<char>| n == r;
    let matching = |n: Seq<char>| semver_version_parses(n) && semver_matches(r, n);
    lemma_first_release(vs1, is_release(), any);
    lemma_first_release(vs2, is_release(), any);
    lemma_first_release(vs1, is_exact_release(r), exact);
    lemma_first_release(vs2, is_exact_release(r), exact);
    lemma_first_release(vs1, is_matching_release(r), matching);
    lemma_first_release(vs2, is_matching_release(r), matching);
}

proof fn lemma_first_where_exists(vs: Seq<VersionInfo>, p: spec_fn(VersionInfo) -> bool, i: int)
    requires
        0 <= i < vs.len(),
        p(vs[i]),
    ensures
        first_where(vs, p) is Some,
    decreases vs.len(),
{
    if !p(vs[0]) {
        assert(vs.skip(1)[i - 1] == vs[i]);
        lemma_first_where_exists(vs.skip(1), p, i - 1);
    }
}

} // verus!
