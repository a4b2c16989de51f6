//! Content-addressed ETags of the embedded static assets and the
//! revalidation decision behind every `304 Not Modified`.
use vstd::prelude::*;

use crate::handlers::{if_none_match_matches, none_match, quoted_etag};
use crate::outside::header_bytes_ok;
use vstd::utf8::encode_utf8;
use crate::text::{hex_of, hex_text, push_char, push_str, split_all, split_on, views};

verus! {

/// The FNV-1a offset basis.
pub const FNV_OFFSET: u64 = 0xcbf2_9ce4_8422_2325;

/// The FNV-1a prime.
pub const FNV_PRIME: u64 = 0x0000_0100_0000_01b3;

/// FNV-1a over bytes: start from the offset basis; per byte, xor it in and
/// multiply by the prime modulo 2^64.
pub open spec fn fnv1a_of(bytes: Seq<u8>) -> u64
    decreases bytes.len(),
{
    if bytes.len() == 0 {
        FNV_OFFSET
    } else {
        let h = fnv1a_of(bytes.drop_last()) ^ (bytes.last() as u64);
        ((h as nat * FNV_PRIME as nat) % 0x1_0000_0000_0000_0000nat) as u64
    }
}

/// FNV-1a hash: a tiny content hash for `ETag`s.
pub fn fnv1a(bytes: &[u8]) -> (h: u64)
    ensures
        h == fnv1a_of(bytes@),
{
    let mut hash: u64 = FNV_OFFSET;
    let mut i: usize = 0;
    assert(bytes@.take(0) =~= Seq::<u8>::empty());
    while i < bytes.len()
        invariant
            i <= bytes@.len(),
            hash == fnv1a_of(bytes@.take(i as int)),
        decreases bytes.len() - i,
    {
        assert(bytes@.take(i + 1).drop_last() =~= bytes@.take(i as int));
        hash = hash ^ (bytes[i] as u64);
        hash = hash.wrapping_mul(FNV_PRIME);
        i += 1;
    }
    assert(bytes@.take(bytes@.len() as int) =~= bytes@);
    hash
}

/// A stable id for a build of the embedded decoder: the last `/`-separated
/// part of its install path (which changes only when the bytes do).
pub fn webpgf_build_id(path: &str) -> (r: String)
    ensures
        r@ == split_on(path@, '/').last(),
{
    let mut parts = split_all(path, '/');
    proof {
        crate::text::lemma_split_on_len(path@, '/');
    }
    let last = parts.pop();
    match last {
        Some(p) => p,
        None => String::new(),
    }
}

/// The ETag id of a file of the embedded decoder build: the build id, `-`,
/// and the file's kind (`js`, `wasm`).
pub fn build_etag_id(path: &str, kind: &str) -> (r: String)
    ensures
        r@ == split_on(path@, '/').last() + seq!['-'] + kind@,
{
    let mut r = webpgf_build_id(path);
    push_char(&mut r, '-');
    push_str(&mut r, kind);
    r
}

/// The ETag id of an embedded asset: its name, `-`, and the lower-case hex
/// FNV-1a hash of its bytes.
pub fn content_etag_id(name: &str, bytes: &[u8]) -> (r: String)
    ensures
        r@ == name@ + seq!['-'] + hex_of(fnv1a_of(bytes@) as nat),
{
    let mut r = crate::text::owned(name);
    push_char(&mut r, '-');
    let hex = hex_text(fnv1a(bytes));
    push_str(&mut r, hex.as_str());
    r
}

/// How to answer a request for a resource with an ETag: the header value of
/// the ETag (if it can be one) and whether the client's copy is current.
pub struct Revalidation {
    pub etag: Option<String>,
    pub not_modified: bool,
}

/// Decide between `304` and a full answer for a resource whose quoted ETag is
/// `etag`: not modified exactly when the ETag exists and the request's
/// `If-None-Match` matches it.
pub fn revalidate(if_none_match: Option<&str>, etag: Option<String>) -> (r: Revalidation)
    ensures
        r.etag == etag,
        r.not_modified == match etag {
            Some(e) => none_match(
                match if_none_match {
                    Some(h) => Some(h@),
                    None => None,
                },
                e@,
            ),
            None => false,
        },
{
    let not_modified = match &etag {
        Some(e) => if_none_match_matches(if_none_match, e.as_str()),
        None => false,
    };
    Revalidation { etag, not_modified }
}

/// The answer for an embedded asset with ETag id `etag_id` (quoted to form
/// the ETag): the ETag is there exactly when the quoted id can stand in a
/// header, and the asset is not modified exactly when the request's
/// `If-None-Match` matches that ETag.
pub fn asset_revalidation(if_none_match: Option<&str>, etag_id: &str) -> (r: Revalidation)
    ensures
        r.etag is Some <==> header_bytes_ok(encode_utf8(seq!['"'] + etag_id@ + seq!['"'])),
        match r.etag {
            Some(e) => e@ == seq!['"'] + etag_id@ + seq!['"'] && r.not_modified == none_match(
                match if_none_match {
                    Some(h) => Some(h@),
                    None => None,
                },
                e@,
            ),
            None => !r.not_modified,
        },
{
    revalidate(if_none_match, quoted_etag(etag_id))
}

} // verus!
