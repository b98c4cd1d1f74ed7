//! Hashing of labels to the scalar field and to G1, through BLAKE2b with a
//! 64-byte output.

use vstd::prelude::*;
use crate::group::{fr_from_wide_bytes, fr_is_zero, fr_is_zero_of, fr_wide_of, g1_mul, g1_mul_of};

verus! {

/// The 64-byte BLAKE2b digest of the bytes, without a key.
pub uninterp spec fn blake2b_512_of(data: Seq<u8>) -> Seq<u8>;

/// Relies on blake2_rfc::blake2b::blake2b with a 64-byte output and an empty
/// key: the digest depends on the bytes alone and has 64 bytes.
#[verifier::external_body]
fn blake2b_512(data: &Vec<u8>) -> (r: Vec<u8>)
    ensures
        r@ == blake2b_512_of(data@),
        r@.len() == 64,
{
    blake2_rfc::blake2b::blake2b(64, &[], data).as_bytes().to_vec()
}

/// The bytes of the label, followed by the retry counter where it is not
/// zero.
pub open spec fn hash_input(label: Seq<u8>, counter: u8) -> Seq<u8> {
    if counter == 0 {
        label
    } else {
        label.push(counter)
    }
}

fn hash_input_bytes(label: &[u8], counter: u8) -> (r: Vec<u8>)
    ensures
        r@ == hash_input(label@, counter),
{
    let mut v = vstd::slice::slice_to_vec(label);
    if counter != 0 {
        v.push(counter);
    }
    v
}

/// The scalar of the label's bytes hashed with the counter, or, where it is
/// zero and the counter has not run out, that of the next counter.
pub open spec fn label_scalar_at(bytes: Seq<u8>, counter: u8) -> rabe_bn::Fr
    decreases u8::MAX - counter,
{
    let f = fr_wide_of(blake2b_512_of(hash_input(bytes, counter)));
    if !fr_is_zero_of(f) || counter == u8::MAX {
        f
    } else {
        label_scalar_at(bytes, (counter + 1) as u8)
    }
}

/// The scalar that a label hashes to.
pub open spec fn label_scalar(label: Seq<char>) -> rabe_bn::Fr {
    label_scalar_at(vstd::utf8::encode_utf8(label), 0)
}

/// Hashes a label to a scalar: its UTF-8 bytes go through BLAKE2b-512 and the
/// digest, read as a big-endian integer, is reduced modulo the order of Fr.
/// Where that gives zero, the bytes are hashed again with a counter byte
/// appended, counting up from one.
pub fn blake2b_hash_fr(label: &str) -> (r: rabe_bn::Fr)
    ensures
        r == label_scalar(label@),
{
    let bytes = label.as_bytes();
    let mut counter: u8 = 0;
    let mut digest = blake2b_512(&hash_input_bytes(bytes, counter));
    let mut h = fr_from_wide_bytes(&digest);
    while fr_is_zero(&h) && counter < u8::MAX
        invariant
            bytes@ == vstd::utf8::encode_utf8(label@),
            h == fr_wide_of(blake2b_512_of(hash_input(bytes@, counter))),
            label_scalar(label@) == label_scalar_at(bytes@, counter),
        decreases u8::MAX - counter,
    {
        counter += 1;
        digest = blake2b_512(&hash_input_bytes(bytes, counter));
        h = fr_from_wide_bytes(&digest);
    }
    h
}

/// Hashes a label to G1 as `base` multiplied by the label's scalar.
pub fn blake2b_hash_g1(base: rabe_bn::G1, label: &str) -> (r: rabe_bn::G1)
    ensures
        r == g1_mul_of(base, label_scalar(label@)),
{
    g1_mul(base, blake2b_hash_fr(label))
}

} // verus!
