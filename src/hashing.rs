use vstd::prelude::*;

use crate::primitives::H256;

verus! {

/// The Keccak-256 digest of a byte string.
pub uninterp spec fn keccak_of(data: Seq<u8>) -> Seq<u8>;

/// The BLAKE2b-256 digest of a byte string.
pub uninterp spec fn blake2_of(data: Seq<u8>) -> Seq<u8>;

/// The SCALE compact encoding of a length that fits in a `u32`: one, two or
/// four little-endian bytes holding the length shifted left by two with the
/// mode in the low bits, or the mode byte `3` followed by the four bytes of
/// the length.
pub open spec fn compact_len_bytes(n: nat) -> Seq<u8> {
    if n < 64 {
        seq![(n * 4) as u8]
    } else if n < 16384 {
        let v = n * 4 + 1;
        seq![(v % 256) as u8, (v / 256) as u8]
    } else if n < 1073741824 {
        let v = n * 4 + 2;
        seq![(v % 256) as u8, ((v / 256) % 256) as u8, ((v / 65536) % 256) as u8, (v / 16777216) as u8]
    } else {
        seq![3u8, (n % 256) as u8, ((n / 256) % 256) as u8, ((n / 65536) % 256) as u8, ((n / 16777216) % 256) as u8]
    }
}

/// The SCALE encoding of a byte string: its compact length, then its bytes.
pub open spec fn scale_byte_string(s: Seq<u8>) -> Seq<u8> {
    compact_len_bytes(s.len()) + s
}

/// The SCALE encodings of `items`, one after another.
pub open spec fn scale_items(items: Seq<Seq<u8>>) -> Seq<u8>
    decreases items.len(),
{
    if items.len() == 0 {
        Seq::empty()
    } else {
        scale_items(items.drop_last()) + scale_byte_string(items.last())
    }
}

/// The SCALE encoding of a list of byte strings: the compact length of the
/// list, then each string with its own compact length.
pub open spec fn scale_of_byte_lists(items: Seq<Seq<u8>>) -> Seq<u8> {
    compact_len_bytes(items.len()) + scale_items(items)
}

/// The list and each of its strings are short enough for a compact length.
pub open spec fn byte_lists_fit(items: Seq<Seq<u8>>) -> bool {
    &&& items.len() <= u32::MAX
    &&& forall|i: int| 0 <= i < items.len() ==> #[trigger] items[i].len() <= u32::MAX
}

/// Relies on `sp_core_hashing::keccak_256`: the digest depends on the bytes alone.
#[verifier::external_body]
pub fn keccak256(data: &[u8]) -> (r: H256)
    ensures
        r@ == keccak_of(data@),
{
    sp_core_hashing::keccak_256(data)
}

/// Relies on `sp_core_hashing::blake2_256`: the digest depends on the bytes alone.
#[verifier::external_body]
pub(crate) fn blake2_256(data: &[u8]) -> (r: H256)
    ensures
        r@ == blake2_of(data@),
{
    sp_core_hashing::blake2_256(data)
}

/// Relies on `parity_scale_codec::Encode::encode` for `Vec<Vec<u8>>`, which
/// writes each slice as its compact length and then its elements, and panics
/// on a length above `u32::MAX`.
#[verifier::external_body]
pub(crate) fn encode_byte_lists(items: &Vec<Vec<u8>>) -> (r: Vec<u8>)
    requires
        byte_lists_fit(items.deep_view()),
    ensures
        r@ == scale_of_byte_lists(items.deep_view()),
{
    parity_scale_codec::Encode::encode(items)
}

} // verus!
