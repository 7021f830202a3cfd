//! Percent-encoding and the URLs of the crates.io API, docs.rs and the
//! crates.io archive host.

use vstd::prelude::*;
use vstd::string::*;
use crate::text::{decimal, decimal_string, push_char};

verus! {

/// Bytes that pass through percent-encoding unchanged: ASCII letters,
/// digits and `-`, `_`, `.`, `~`.
pub open spec fn is_unreserved(b: u8) -> bool {
    ||| 0x61 <= b <= 0x7a
    ||| 0x41 <= b <= 0x5a
    ||| 0x30 <= b <= 0x39
    ||| b == 0x2d
    ||| b == 0x5f
    ||| b == 0x2e
    ||| b == 0x7e
}

/// The uppercase hexadecimal digit for `d < 16`.
pub open spec fn hex_digit(d: u8) -> char {
    if d < 10 { ((48 + d) as u32) as char } else { ((55 + d) as u32) as char }
}

/// The encoding of one byte: itself when unreserved, else `%` and two
/// uppercase hex digits.
pub open spec fn encode_byte(b: u8) -> Seq<char> {
    if is_unreserved(b) {
        seq![(b as u32) as char]
    } else {
        seq!['%', hex_digit(b / 16), hex_digit(b % 16)]
    }
}

/// The percent-encoding of a byte sequence, byte by byte.
pub open spec fn percent_encoded(bytes: Seq<u8>) -> Seq<char>
    decreases bytes.len(),
{
    if bytes.len() == 0 {
        Seq::empty()
    } else {
        encode_byte(bytes[0]) + percent_encoded(bytes.skip(1))
    }
}

proof fn lemma_percent_encoded_push(bytes: Seq<u8>, b: u8)
    ensures
        percent_encoded(bytes.push(b)) == percent_encoded(bytes) + encode_byte(b),
    decreases bytes.len(),
{
    if bytes.len() == 0 {
        assert(bytes.push(b).skip(1) =~= Seq::<u8>::empty());
        assert(bytes.push(b)[0] == b);
        assert(percent_encoded(Seq::<u8>::empty()) == Seq::<char>::empty());
        assert(bytes =~= Seq::<u8>::empty());
        assert(encode_byte(b) + Seq::<char>::empty() =~= encode_byte(b));
    } else {
        lemma_percent_encoded_push(bytes.skip(1), b);
        assert(bytes.push(b).skip(1) == bytes.skip(1).push(b));
        assert(bytes.push(b)[0] == bytes[0]);
    }
}

fn hex_char(d: u8) -> (c: char)
    requires
        d < 16,
    ensures
        c == hex_digit(d),
{
    if d < 10 {
        (48u8 + d) as char
    } else {
        (55u8 + d) as char
    }
}

/// Percent-encodes every byte of `s` except the unreserved ones.
pub fn urlencode(s: &str) -> (out: String)
    ensures
        out@ == percent_encoded(s.spec_bytes()),
{
    let bytes = s.as_bytes();
    let mut out = String::new();
    let mut i: usize = 0;
    while i < bytes.len()
        invariant
            i <= bytes@.len(),
            bytes@ == s.spec_bytes(),
            out@ == percent_encoded(bytes@.take(i as int)),
        decreases bytes@.len() - i,
    {
        let b = bytes[i];
        proof {
            assert(bytes@.take(i + 1) == bytes@.take(i as int).push(b));
            lemma_percent_encoded_push(bytes@.take(i as int), b);
        }
        if (0x61 <= b && b <= 0x7a) || (0x41 <= b && b <= 0x5a) || (0x30 <= b && b <= 0x39)
            || b == 0x2d || b == 0x5f || b == 0x2e || b == 0x7e {
            push_char(&mut out, b as char);
        } else {
            push_char(&mut out, '%');
            push_char(&mut out, hex_char(b / 16));
            push_char(&mut out, hex_char(b % 16));
            assert(out@ == percent_encoded(bytes@.take(i as int)) + encode_byte(b));
        }
        i += 1;
    }
    assert(bytes@.take(bytes@.len() as int) == bytes@);
    out
}

/// The value of a hexadecimal digit character, for the decoding below.
pub open spec fn hex_value(c: char) -> int {
    let u = c as u32;
    if 0x30 <= u <= 0x39 { u - 0x30 } else if 0x41 <= u <= 0x46 { u - 55 } else { 0 }
}

/// Percent-decoding: `%XY` becomes the byte `0xXY`, any other character
/// its own code as a byte.
pub open spec fn percent_decoded(s: Seq<char>) -> Seq<u8>
    decreases s.len(),
{
    if s.len() == 0 {
        Seq::empty()
    } else if s[0] == '%' && s.len() >= 3 {
        seq![(16 * hex_value(s[1]) + hex_value(s[2])) as u8] + percent_decoded(s.skip(3))
    } else {
        seq![(s[0] as u32) as u8] + percent_decoded(s.skip(1))
    }
}

proof fn lemma_decode_encoded_byte(b: u8, rest: Seq<char>)
    ensures
        percent_decoded(encode_byte(b) + rest) == seq![b] + percent_decoded(rest),
{
    let e = encode_byte(b) + rest;
    if is_unreserved(b) {
        assert(e[0] == (b as u32) as char);
        assert(e.skip(1) == rest);
    } else {
        let hi = b / 16;
        let lo = b % 16;
        assert(e[0] == '%');
        assert(e[1] == hex_digit(hi));
        assert(e[2] == hex_digit(lo));
        assert(hex_value(hex_digit(hi)) == hi as int);
        assert(hex_value(hex_digit(lo)) == lo as int);
        assert(e.skip(3) == rest);
    }
}

/// Percent-decoding undoes `percent_encoded`.
pub proof fn lemma_percent_decode_encode(bytes: Seq<u8>)
    ensures
        percent_decoded(percent_encoded(bytes)) == bytes,
    decreases bytes.len(),
{
    if bytes.len() > 0 {
        lemma_percent_decode_encode(bytes.skip(1));
        lemma_decode_encoded_byte(bytes[0], percent_encoded(bytes.skip(1)));
        assert(seq![bytes[0]] + bytes.skip(1) == bytes);
    }
}

/// Percent-encoding never maps two different strings to one: the encoded
/// form determines the bytes it came from.
pub proof fn lemma_urlencode_injective(a: &str, b: &str)
    requires
        percent_encoded(a.spec_bytes()) == percent_encoded(b.spec_bytes()),
    ensures
        a.spec_bytes() == b.spec_bytes(),
{
    lemma_percent_decode_encode(a.spec_bytes());
    lemma_percent_decode_encode(b.spec_bytes());
}

/// Encoding works byte by byte: the encoding of a concatenation is the
/// concatenation of the encodings.
pub proof fn lemma_percent_encoded_concat(a: Seq<u8>, b: Seq<u8>)
    ensures
        percent_encoded(a + b) == percent_encoded(a) + percent_encoded(b),
    decreases a.len(),
{
    if a.len() == 0 {
        assert(a + b =~= b);
        assert(Seq::<char>::empty() + percent_encoded(b) =~= percent_encoded(b));
    } else {
        lemma_percent_encoded_concat(a.skip(1), b);
        assert((a + b)[0] == a[0]);
        assert((a + b).skip(1) =~= a.skip(1) + b);
        assert(encode_byte(a[0]) + (percent_encoded(a.skip(1)) + percent_encoded(b))
            =~= (encode_byte(a[0]) + percent_encoded(a.skip(1))) + percent_encoded(b));
    }
}

/// The characters that can appear in an encoded string.
pub open spec fn is_url_safe_char(c: char) -> bool {
    let u = c as u32;
    ||| u < 128 && is_unreserved(u as u8)
    ||| c == '%'
}

/// Every character of an encoded string is unreserved ASCII or `%`, and
/// unreserved bytes stand for themselves.
pub proof fn lemma_urlencode_url_safe(bytes: Seq<u8>)
    ensures
        forall|i: int| 0 <= i < percent_encoded(bytes).len() ==> is_url_safe_char(#[trigger] percent_encoded(bytes)[i]),
    decreases bytes.len(),
{
    if bytes.len() > 0 {
        lemma_urlencode_url_safe(bytes.skip(1));
        let e = encode_byte(bytes[0]);
        let r = percent_encoded(bytes.skip(1));
        assert forall|i: int| 0 <= i < (e + r).len() implies is_url_safe_char(#[trigger] (e + r)[i]) by {
            if i < e.len() {
                let b = bytes[0];
                if !is_unreserved(b) && i > 0 {
                    let d = if i == 1 { b / 16 } else { b % 16 };
                    assert(e[i] == hex_digit(d));
                    assert(d < 16);
                }
            } else {
                assert((e + r)[i] == r[i - e.len()]);
            }
        }
    }
}

/// The crates.io search endpoint for `q`, asking for `limit` results.
pub fn search_url(q: &str, limit: u32) -> (url: String)
    ensures
        url@ == "https://crates.io/api/v1/crates?q="@ + percent_encoded(q.spec_bytes())
            + "&per_page="@ + decimal(limit as nat),
{
    let mut url = String::from_str("https://crates.io/api/v1/crates?q=");
    let q_enc = urlencode(q);
    url.append(q_enc.as_str());
    url.append("&per_page=");
    let n = decimal_string(limit as u64);
    url.append(n.as_str());
    url
}

/// The crates.io metadata endpoint of crate `name`.
pub fn crate_url(name: &str) -> (url: String)
    ensures
        url@ == "https://crates.io/api/v1/crates/"@ + percent_encoded(name.spec_bytes()),
{
    let mut url = String::from_str("https://crates.io/api/v1/crates/");
    let enc = urlencode(name);
    url.append(enc.as_str());
    url
}

/// The crates.io endpoint listing the versions of crate `name`.
pub fn versions_url(name: &str) -> (url: String)
    ensures
        url@ == "https://crates.io/api/v1/crates/"@ + percent_encoded(name.spec_bytes()) + "/versions"@,
{
    let mut url = crate_url(name);
    url.append("/versions");
    url
}

/// The crates.io endpoint listing the dependencies of `name` at `version`.
pub fn dependencies_url(name: &str, version: &str) -> (url: String)
    ensures
        url@ == "https://crates.io/api/v1/crates/"@ + percent_encoded(name.spec_bytes()) + "/"@
            + percent_encoded(version.spec_bytes()) + "/dependencies"@,
{
    let mut url = crate_url(name);
    url.append("/");
    let v = urlencode(version);
    url.append(v.as_str());
    url.append("/dependencies");
    url
}

/// The docs.rs address of the zstd-compressed rustdoc JSON of
/// `krate@version`.
pub fn rustdoc_json_url(krate: &str, version: &str) -> (url: String)
    ensures
        url@ == "https://docs.rs/crate/"@ + krate@ + "/"@ + version@ + "/json.zst"@,
{
    let mut url = String::from_str("https://docs.rs/crate/");
    url.append(krate);
    url.append("/");
    url.append(version);
    url.append("/json.zst");
    url
}

/// The static.crates.io address of the `.crate` archive of
/// `krate@version`.
pub fn crate_archive_url(krate: &str, version: &str) -> (url: String)
    ensures
        url@ == "https://static.crates.io/crates/"@ + krate@ + "/"@ + krate@ + "-"@ + version@
            + ".crate"@,
{
    let mut url = String::from_str("https://static.crates.io/crates/");
    url.append(krate);
    url.append("/");
    url.append(krate);
    url.append("-");
    url.append(version);
    url.append(".crate");
    url
}

} // verus!
