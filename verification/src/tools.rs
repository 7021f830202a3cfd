//! The decisions the documentation tools make around their lookups: which
//! version to use, how many results to ask for, how much source to return.

use vstd::prelude::*;
use vstd::string::*;
use crate::text::{chars_of, string_of_prefix};

verus! {

/// A requested version that names a concrete version: present, non-empty
/// and not `latest`.
pub open spec fn explicit_version(version: Option<String>) -> Option<Seq<char>> {
    match version {
        Some(v) => if v@.len() > 0 && v@ != "latest"@ { Some(v@) } else { None },
        None => None,
    }
}

/// The version to use as given, or `None` when the newest release must be
/// looked up (version omitted, empty or `latest`).
pub fn requested_version(version: &Option<String>) -> (r: Option<String>)
    ensures
        match r {
            Some(v) => explicit_version(*version) == Some(v@),
            None => explicit_version(*version) is None,
        },
{
    match version {
        Some(v) => {
            let cs = chars_of(v.as_str());
            if cs.len() > 0 && *v != String::from_str("latest") {
                Some(v.clone())
            } else {
                None
            }
        },
        None => None,
    }
}

/// The number of crates a registry search asks for: 10 by default, at
/// most 25.
pub fn search_limit(limit: Option<u32>) -> (n: u32)
    ensures
        n == match limit {
            Some(l) => if l < 25 { l } else { 25 },
            None => 10,
        },
{
    let l = match limit {
        Some(l) => l,
        None => 10,
    };
    if l < 25 { l } else { 25 }
}

/// The number of items an item search returns at most: 30 by default, at
/// most 100.
pub fn item_search_limit(limit: Option<u32>) -> (n: usize)
    ensures
        n == match limit {
            Some(l) => if l < 100 { l } else { 100 },
            None => 30,
        },
{
    let l = match limit {
        Some(l) => l,
        None => 30,
    };
    if l < 100 { l as usize } else { 100 }
}

/// The requirement to resolve: as given, or `*` when omitted.
pub fn requirement_text(req: &Option<String>) -> (r: String)
    ensures
        r@ == match *req {
            Some(s) => s@,
            None => "*"@,
        },
{
    match req {
        Some(s) => s.clone(),
        None => String::from_str("*"),
    }
}

/// The most characters of a source file that are returned.
pub const SOURCE_CHAR_LIMIT: usize = 20000;

/// The first `SOURCE_CHAR_LIMIT` characters of `text`, and whether any
/// were cut.
pub open spec fn truncated_text(text: Seq<char>) -> (Seq<char>, bool) {
    if text.len() > SOURCE_CHAR_LIMIT {
        (text.take(SOURCE_CHAR_LIMIT as int), true)
    } else {
        (text, false)
    }
}

/// Cut a source file to at most `SOURCE_CHAR_LIMIT` characters, saying
/// whether it was cut.
pub fn truncate_source(text: &str) -> (r: (String, bool))
    ensures
        (r.0@, r.1) == truncated_text(text@),
{
    let cs = chars_of(text);
    if cs.len() > SOURCE_CHAR_LIMIT {
        (string_of_prefix(cs.as_slice(), SOURCE_CHAR_LIMIT), true)
    } else {
        let s = string_of_prefix(cs.as_slice(), cs.len());
        assert(cs@.take(cs@.len() as int) == cs@);
        (s, false)
    }
}

/// `{error} in {krate}@{version}`: an unresolved path in a listing tool.
pub fn unresolved_message(error: &str, krate: &str, version: &str) -> (s: String)
    ensures
        s@ == error@ + " in "@ + krate@ + "@"@ + version@,
{
    let mut s = String::from_str(error);
    s.append(" in ");
    s.append(krate);
    s.append("@");
    s.append(version);
    s
}

/// A returned source is a prefix of the file, at most
/// `SOURCE_CHAR_LIMIT` characters long, and is cut exactly when the file is
/// longer than that.
pub proof fn lemma_truncation_is_prefix(text: Seq<char>)
    ensures
        truncated_text(text).0.len() <= SOURCE_CHAR_LIMIT,
        truncated_text(text).0 == text.take(truncated_text(text).0.len() as int),
        truncated_text(text).1 <==> text.len() > SOURCE_CHAR_LIMIT,
        !truncated_text(text).1 ==> truncated_text(text).0 == text,
{
    assert(text.take(text.len() as int) == text);
}

} // verus!
