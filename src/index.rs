//! The two namespaces of the index (height to digest, digest to record) and
//! how a height or a digest string becomes a key in them.

use vstd::prelude::*;
use vstd::slice::{slice_subrange, slice_to_vec};
use vstd::string::StringSliceAdditionalSpecFns;
use crate::atom::{decimal, decimal_digits, digit_char, u64_decimal};
use crate::codec::decode_spec;
use crate::error::IndexerError;
use crate::hex_text::{hex_ascii, hex_decode, hex_decoded, law_hex_round_trip};

verus! {

broadcast use vstd::string::is_ascii_spec_bytes;

/// The key under which the height namespace holds a block's digest: the
/// height's decimal form, in ASCII.
pub open spec fn height_key_spec(height: u64) -> Seq<u8> {
    decimal(height as nat).map_values(|c: char| c as u8)
}

/// The marker that introduces a digest written as hex text: `0x_`.
pub open spec fn hex_marker() -> Seq<u8> {
    seq![48u8, 120u8, 95u8]
}

/// The key bytes that a digest string names: the hex text after the marker
/// read as bytes, or else the string's own bytes. None where the text after
/// the marker is no hex.
pub open spec fn digest_key_spec(digest: Seq<u8>) -> Option<Seq<u8>> {
    if digest.len() >= 3 && digest.take(3) == hex_marker() {
        hex_decoded(digest.skip(3))
    } else {
        Some(digest)
    }
}

/// What one namespace holds under `key`, if anything.
pub open spec fn lookup(ns: Map<Seq<u8>, Seq<u8>>, key: Seq<u8>) -> Option<Seq<u8>> {
    if ns.contains_key(key) {
        Some(ns[key])
    } else {
        None
    }
}

/// The bytes of what a lookup found, if anything.
pub open spec fn found_bytes(found: Option<Vec<u8>>) -> Option<Seq<u8>> {
    match found {
        Some(b) => Some(b@),
        None => None,
    }
}

/// What a query yields from the record bytes it found: nothing on a miss,
/// else the record's fields or why they cannot be read.
pub open spec fn record_result(found: Option<Seq<u8>>) -> Result<
    Option<Seq<Seq<u8>>>,
    IndexerError,
> {
    match found {
        None => Ok(None),
        Some(b) => match decode_spec(b) {
            Ok(fs) => Ok(Some(fs)),
            Err(e) => Err(e),
        },
    }
}

/// A query of the pages namespace by raw digest bytes.
pub open spec fn query_key(pages: Map<Seq<u8>, Seq<u8>>, key: Seq<u8>) -> Result<
    Option<Seq<Seq<u8>>>,
    IndexerError,
> {
    record_result(lookup(pages, key))
}

/// The record bytes that a query by height reaches: none where the height
/// namespace holds no digest, else what the pages namespace held for it.
pub open spec fn chained(digest: Option<Seq<u8>>, page: Option<Seq<u8>>) -> Option<Seq<u8>> {
    match digest {
        None => None,
        Some(_) => page,
    }
}

/// A query by height: the height namespace gives a digest, the pages
/// namespace the record.
pub open spec fn query_height(
    heights: Map<Seq<u8>, Seq<u8>>,
    pages: Map<Seq<u8>, Seq<u8>>,
    height: u64,
) -> Result<Option<Seq<Seq<u8>>>, IndexerError> {
    let digest = lookup(heights, height_key_spec(height));
    record_result(
        chained(
            digest,
            match digest {
                Some(d) => lookup(pages, d),
                None => None,
            },
        ),
    )
}

/// A query by digest string.
pub open spec fn query_digest(pages: Map<Seq<u8>, Seq<u8>>, digest: Seq<u8>) -> Result<
    Option<Seq<Seq<u8>>>,
    IndexerError,
> {
    match digest_key_spec(digest) {
        None => Err(IndexerError::InvalidKey),
        Some(k) => query_key(pages, k),
    }
}

/// The height namespace's key for `height`.
pub fn height_key(height: u64) -> (r: Vec<u8>)
    ensures
        r@ == height_key_spec(height),
{
    let s = u64_decimal(height);
    let text = s.as_str();
    proof {
        assert forall|i: int| 0 <= i < text@.len() implies '\0' <= #[trigger] text@[i]
            <= '\u{7f}' by {
            let d = decimal_digits(height as nat)[i];
            assert(text@[i] == digit_char(d));
        }
        assert(text.is_ascii());
    }
    let b = text.as_bytes();
    let r = slice_to_vec(b);
    assert(r@ =~= height_key_spec(height));
    r
}

/// The pages namespace's key that a digest string names.
pub fn digest_key(digest: &str) -> (r: Result<Vec<u8>, IndexerError>)
    ensures
        match digest_key_spec(digest.spec_bytes()) {
            Some(k) => r is Ok && r->Ok_0@ == k,
            None => r == Err::<Vec<u8>, _>(IndexerError::InvalidKey),
        },
{
    let b = digest.as_bytes();
    if b.len() >= 3 && b[0] == 48 && b[1] == 120 && b[2] == 95 {
        assert(b@.take(3) =~= hex_marker());
        let rest = slice_subrange(b, 3, b.len());
        assert(rest@ =~= b@.skip(3));
        match hex_decode(rest) {
            Ok(v) => Ok(v),
            Err(_) => Err(IndexerError::InvalidKey),
        }
    } else {
        assert(b@.len() >= 3 ==> b@.take(3) != hex_marker()) by {
            if b@.len() >= 3 && b@.take(3) == hex_marker() {
                assert(b@[0] == b@.take(3)[0]);
                assert(b@[1] == b@.take(3)[1]);
                assert(b@[2] == b@.take(3)[2]);
            }
        }
        Ok(slice_to_vec(b))
    }
}

/// A query by height gives what a query by the digest stored for that
/// height gives, with the digest written as marked hex text, and also as raw
/// bytes where those do not begin with the marker.
pub proof fn law_height_resolution(
    heights: Map<Seq<u8>, Seq<u8>>,
    pages: Map<Seq<u8>, Seq<u8>>,
    height: u64,
)
    requires
        heights.contains_key(height_key_spec(height)),
    ensures
        query_height(heights, pages, height) == query_digest(
            pages,
            hex_marker() + hex_ascii(heights[height_key_spec(height)]),
        ),
        !(heights[height_key_spec(height)].len() >= 3 && heights[height_key_spec(height)].take(3)
            == hex_marker()) ==> query_height(heights, pages, height) == query_digest(
            pages,
            heights[height_key_spec(height)],
        ),
{
    let d = heights[height_key_spec(height)];
    let text = hex_marker() + hex_ascii(d);
    assert(text.take(3) =~= hex_marker());
    assert(text.skip(3) =~= hex_ascii(d));
    law_hex_round_trip(d);
}

/// A height or a digest that the index does not hold yields no record and
/// no error.
pub proof fn law_not_found(
    heights: Map<Seq<u8>, Seq<u8>>,
    pages: Map<Seq<u8>, Seq<u8>>,
    height: u64,
    digest: Seq<u8>,
)
    ensures
        !heights.contains_key(height_key_spec(height)) ==> query_height(heights, pages, height)
            == Ok::<_, IndexerError>(None::<Seq<Seq<u8>>>),
        heights.contains_key(height_key_spec(height)) && !pages.contains_key(
            heights[height_key_spec(height)],
        ) ==> query_height(heights, pages, height) == Ok::<_, IndexerError>(
            None::<Seq<Seq<u8>>>,
        ),
        digest_key_spec(digest) is Some && !pages.contains_key(digest_key_spec(digest)->0)
            ==> query_digest(pages, digest) == Ok::<_, IndexerError>(None::<Seq<Seq<u8>>>),
{
}

} // verus!
