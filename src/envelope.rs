//! The symmetric envelope: a target-group element, serialized and written in
//! hexadecimal, is hashed with SHA3-256 into an AES-256 key, and the payload,
//! padded after PKCS#7, is encrypted in CBC mode under a random IV that leads
//! the ciphertext.

use vstd::prelude::*;
use crypto::buffer::WriteBuffer;
use crypto::digest::Digest;
use rustc_serialize::hex::ToHex;
use crate::group::{gt_bytes, gt_bytes_of};

verus! {

/// The length of the IV that leads an envelope, and of a cipher block.
pub const IV_LEN: usize = 16;

/// The lowercase hexadecimal digit of a value below sixteen.
pub open spec fn hex_digit(n: int) -> char {
    seq!['0', '1', '2', '3', '4', '5', '6', '7', '8', '9', 'a', 'b', 'c', 'd', 'e', 'f'][n]
}

/// Two lowercase hexadecimal digits per byte, the high half first.
pub open spec fn hex_of(b: Seq<u8>) -> Seq<char> {
    Seq::new(
        2 * b.len(),
        |i: int|
            if i % 2 == 0 {
                hex_digit(b[i / 2] as int / 16)
            } else {
                hex_digit(b[i / 2] as int % 16)
            },
    )
}

/// The SHA3-256 digest of a text's UTF-8 bytes.
pub uninterp spec fn sha3_256_of(text: Seq<char>) -> Seq<u8>;

/// The AES-256-CBC encryption, without padding, of the whole blocks `data`
/// under `key` and `iv`.
pub uninterp spec fn aes256_cbc_of(key: Seq<u8>, iv: Seq<u8>, data: Seq<u8>) -> Seq<u8>;

/// The AES-256-CBC decryption, without padding, of the whole blocks `data`
/// under `key` and `iv`.
pub uninterp spec fn aes256_cbc_dec_of(key: Seq<u8>, iv: Seq<u8>, data: Seq<u8>) -> Seq<u8>;

/// The number of padding bytes that PKCS#7 adds to a payload: one to a full
/// block, each holding that number.
pub open spec fn pad_len(n: int) -> int {
    IV_LEN as int - n % (IV_LEN as int)
}

/// The payload padded after PKCS#7 to whole blocks.
pub open spec fn pkcs7_pad(pt: Seq<u8>) -> Seq<u8> {
    pt + Seq::new(pad_len(pt.len() as int) as nat, |i: int| pad_len(pt.len() as int) as u8)
}

/// Whether the blocks end in valid PKCS#7 padding: a last byte between one
/// and a block's length, no more than the data holds, and that many bytes at
/// the end all equal to it.
pub open spec fn padding_valid(d: Seq<u8>) -> bool {
    &&& d.len() > 0
    &&& 1 <= d.last() <= IV_LEN
    &&& d.last() <= d.len()
    &&& forall|i: int| d.len() - d.last() <= i < d.len() ==> d[i] == d.last()
}

/// The key of an envelope sealed under the given key material.
pub open spec fn envelope_key(material: Seq<u8>) -> Seq<u8> {
    sha3_256_of(hex_of(material))
}

/// An envelope: the IV, then the padded payload encrypted under the
/// material's key.
pub open spec fn sealed(material: Seq<u8>, iv: Seq<u8>, pt: Seq<u8>) -> Seq<u8> {
    iv + aes256_cbc_of(envelope_key(material), iv, pkcs7_pad(pt))
}

/// Whether a blob can be an envelope: an IV and at least one whole block.
pub open spec fn envelope_shaped(blob: Seq<u8>) -> bool {
    blob.len() >= 2 * IV_LEN && blob.len() % (IV_LEN as nat) == 0
}

/// The blocks after an envelope's IV, decrypted under the material's key.
pub open spec fn envelope_blocks(material: Seq<u8>, blob: Seq<u8>) -> Seq<u8> {
    aes256_cbc_dec_of(
        envelope_key(material),
        blob.take(IV_LEN as int),
        blob.skip(IV_LEN as int),
    )
}

/// What an envelope opens to under the key material: nothing where it is
/// not an IV and whole blocks or its decrypted blocks do not end in valid
/// padding, else those blocks without the padding.
pub open spec fn envelope_plain(material: Seq<u8>, blob: Seq<u8>) -> Option<Seq<u8>> {
    if !envelope_shaped(blob) {
        None
    } else {
        let d = envelope_blocks(material, blob);
        if padding_valid(d) {
            Some(d.take(d.len() - d.last()))
        } else {
            None
        }
    }
}

/// The bytes of an optional byte vector.
pub open spec fn bytes_of(r: Option<Vec<u8>>) -> Option<Seq<u8>> {
    match r {
        Some(v) => Some(v@),
        None => None,
    }
}

/// Relies on rustc_serialize's `ToHex` for byte slices: two lowercase
/// hexadecimal digits per byte, the high half first.
#[verifier::external_body]
fn to_hex(b: &[u8]) -> (r: String)
    ensures
        r@ == hex_of(b@),
{
    b.to_hex()
}

/// Relies on crypto::sha3::Sha3::sha3_256, fed the text's UTF-8 bytes: a
/// 32-byte digest that depends on the text alone.
#[verifier::external_body]
fn sha3_256(text: &str) -> (r: Vec<u8>)
    ensures
        r@ == sha3_256_of(text@),
        r@.len() == 32,
{
    let mut hasher = crypto::sha3::Sha3::sha3_256();
    hasher.input_str(text);
    let mut out = vec![0u8; 32];
    hasher.result(&mut out);
    out
}

/// Relies on crypto::aes::cbc_encryptor with a 256-bit key and no padding:
/// whole blocks, handed over in one call with room for all of the output,
/// are encrypted completely, into as many bytes.
#[verifier::external_body]
fn aes_cbc_encrypt(key: &[u8], iv: &[u8], data: &[u8]) -> (r: Option<Vec<u8>>)
    requires
        key@.len() == 32,
        iv@.len() == IV_LEN,
        data@.len() % (IV_LEN as nat) == 0,
    ensures
        r is Some,
        r->0@ == aes256_cbc_of(key@, iv@, data@),
        r->0@.len() == data@.len(),
{
    let mut enc = crypto::aes::cbc_encryptor(crypto::aes::KeySize::KeySize256, key, iv, crypto::blockmodes::NoPadding);
    let mut out = vec![0u8; data.len()];
    let mut read = crypto::buffer::RefReadBuffer::new(data);
    let mut write = crypto::buffer::RefWriteBuffer::new(&mut out);
    let done = enc.encrypt(&mut read, &mut write, true).ok()?;
    matches!(done, crypto::buffer::BufferResult::BufferUnderflow).then_some(())?;
    Some(out)
}

/// Relies on crypto::aes::cbc_decryptor with a 256-bit key and no padding:
/// whole blocks, handed over in one call with room for all of the output,
/// are decrypted completely, into as many bytes. CBC decryption and
/// encryption under one key and IV undo each other on whole blocks: blocks
/// that the encryptor made from `pt` decrypt to `pt`, and the encryptor
/// turns the decryption back into the blocks.
#[verifier::external_body]
fn aes_cbc_decrypt(key: &[u8], iv: &[u8], data: &[u8]) -> (r: Option<Vec<u8>>)
    requires
        key@.len() == 32,
        iv@.len() == IV_LEN,
        data@.len() % (IV_LEN as nat) == 0,
    ensures
        r is Some,
        r->0@ == aes256_cbc_dec_of(key@, iv@, data@),
        r->0@.len() == data@.len(),
        aes256_cbc_of(key@, iv@, r->0@) == data@,
        forall|pt: Seq<u8>|
            pt.len() % (IV_LEN as nat) == 0 && data@ == #[trigger] aes256_cbc_of(key@, iv@, pt)
                ==> r is Some && r->0@ == pt,
{
    let mut dec = crypto::aes::cbc_decryptor(crypto::aes::KeySize::KeySize256, key, iv, crypto::blockmodes::NoPadding);
    let mut out = vec![0u8; data.len()];
    let mut read = crypto::buffer::RefReadBuffer::new(data);
    let mut write = crypto::buffer::RefWriteBuffer::new(&mut out);
    let done = dec.decrypt(&mut read, &mut write, true).ok()?;
    matches!(done, crypto::buffer::BufferResult::BufferUnderflow).then_some(())?;
    Some(out)
}

/// The AES key of an envelope: SHA3-256 of the key material in hexadecimal.
pub fn derive_key(material: &Vec<u8>) -> (r: Vec<u8>)
    ensures
        r@ == envelope_key(material@),
        r@.len() == 32,
{
    let text = to_hex(material.as_slice());
    sha3_256(text.as_str())
}

/// Pads the payload after PKCS#7.
pub fn pad(pt: &[u8]) -> (r: Vec<u8>)
    ensures
        r@ == pkcs7_pad(pt@),
        r@.len() % (IV_LEN as nat) == 0,
{
    let n = IV_LEN - pt.len() % IV_LEN;
    let mut out = vstd::slice::slice_to_vec(pt);
    let mut i: usize = 0;
    while i < n
        invariant
            n == pad_len(pt@.len() as int),
            1 <= n <= IV_LEN,
            i <= n,
            out@ == pt@ + Seq::new(i as nat, |j: int| n as u8),
        decreases n - i,
    {
        out.push(n as u8);
        assert(out@ =~= pt@ + Seq::new((i + 1) as nat, |j: int| n as u8));
        i += 1;
    }
    proof {
        assert(out@ =~= pkcs7_pad(pt@));
        lemma_pad_aligned(pt@);
    }
    out
}

/// Checks and strips PKCS#7 padding; refuses data whose padding is invalid.
pub fn unpad(d: &Vec<u8>) -> (r: Option<Vec<u8>>)
    ensures
        r is Some <==> padding_valid(d@),
        r is Some ==> r->0@ == d@.take(d@.len() - d@.last()),
{
    let len = d.len();
    if len == 0 {
        return None;
    }
    let n = d[len - 1];
    if n == 0 || n as usize > IV_LEN || n as usize > len {
        return None;
    }
    let mut i: usize = len - n as usize;
    while i < len
        invariant
            len == d@.len(),
            n == d@.last(),
            len - n <= i <= len,
            forall|j: int| len - n <= j < i ==> d@[j] == n,
        decreases len - i,
    {
        if d[i] != n {
            return None;
        }
        i += 1;
    }
    let stripped = vstd::slice::slice_to_vec(vstd::slice::slice_subrange(d.as_slice(), 0, len - n as usize));
    Some(stripped)
}

/// Stripping the padding that `pad` adds gives the payload back.
pub proof fn lemma_unpad_pad(pt: Seq<u8>)
    ensures
        padding_valid(pkcs7_pad(pt)),
        pkcs7_pad(pt).take(pkcs7_pad(pt).len() - pkcs7_pad(pt).last()) == pt,
{
    let p = pkcs7_pad(pt);
    let n = pad_len(pt.len() as int);
    assert(1 <= n <= IV_LEN);
    assert(p.last() == n as u8);
    assert(p.take(p.len() - p.last()) =~= pt);
}

/// Padding stripped from whole blocks that end in valid padding is added
/// back by `pad`.
pub proof fn lemma_pad_unpad(d: Seq<u8>)
    requires
        d.len() % (IV_LEN as nat) == 0,
        padding_valid(d),
    ensures
        pkcs7_pad(d.take(d.len() - d.last())) == d,
{
    let n = d.last() as int;
    let m = d.len() - n;
    let k = d.len() as int / (IV_LEN as int);
    vstd::arithmetic::div_mod::lemma_fundamental_div_mod(d.len() as int, IV_LEN as int);
    assert(m == (IV_LEN as int) * (k - 1) + (IV_LEN as int - n));
    vstd::arithmetic::div_mod::lemma_mod_multiples_vanish(k - 1, IV_LEN as int - n, IV_LEN as int);
    if n < IV_LEN {
        vstd::arithmetic::div_mod::lemma_small_mod((IV_LEN as int - n) as nat, IV_LEN as nat);
    }
    assert(pad_len(m) == n);
    assert(pkcs7_pad(d.take(m)) =~= d);
}

/// Seals the payload under the key material and the given IV: the IV, then
/// the padded payload's blocks encrypted, as many bytes as they.
pub fn seal(material: &Vec<u8>, iv: &Vec<u8>, pt: &Vec<u8>) -> (r: Vec<u8>)
    requires
        iv@.len() == IV_LEN,
    ensures
        r@ == sealed(material@, iv@, pt@),
        r@.len() == IV_LEN + pkcs7_pad(pt@).len(),
        envelope_shaped(r@),
{
    let key = derive_key(material);
    let padded = pad(pt.as_slice());
    let mut body = match aes_cbc_encrypt(key.as_slice(), iv.as_slice(), padded.as_slice()) {
        Some(b) => b,
        None => Vec::new(),
    };
    let mut out = vstd::slice::slice_to_vec(iv.as_slice());
    out.append(&mut body);
    proof {
        lemma_pad_aligned(pt@);
        vstd::arithmetic::div_mod::lemma_add_mod_noop(IV_LEN as int, padded@.len() as int, IV_LEN as int);
    }
    out
}

/// Opens an envelope under the key material: the first block is the IV, the
/// rest the ciphertext, which must be at least one whole block and decrypt to
/// valid padding. It fails exactly where it is not so shaped or the padding
/// is invalid; what it accepts is the sealing of what it returns; one that
/// `seal` made from `pt` under the same material gives `pt` back.
pub fn open(material: &Vec<u8>, blob: &Vec<u8>) -> (r: Option<Vec<u8>>)
    ensures
        bytes_of(r) == envelope_plain(material@, blob@),
        !envelope_shaped(blob@) ==> r is None,
        r is Some ==> blob@ == sealed(material@, blob@.take(IV_LEN as int), r->0@),
        forall|pt: Seq<u8>|
            envelope_shaped(blob@) && blob@ == #[trigger] sealed(
                material@,
                blob@.take(IV_LEN as int),
                pt,
            ) ==> r is Some && r->0@ == pt,
{
    if blob.len() < 2 * IV_LEN || blob.len() % IV_LEN != 0 {
        return None;
    }
    let key = derive_key(material);
    let iv = vstd::slice::slice_subrange(blob.as_slice(), 0, IV_LEN);
    let body = vstd::slice::slice_subrange(blob.as_slice(), IV_LEN, blob.len());
    let padded = match aes_cbc_decrypt(key.as_slice(), iv, body) {
        Some(p) => p,
        None => {
            proof {
                assert forall|pt: Seq<u8>|
                    blob@ != #[trigger] sealed(material@, blob@.take(IV_LEN as int), pt) by {
                    if blob@ == sealed(material@, blob@.take(IV_LEN as int), pt) {
                        lemma_pad_aligned(pt);
                        assert(iv@ =~= blob@.take(IV_LEN as int));
                        assert(body@ =~= aes256_cbc_of(envelope_key(material@), iv@, pkcs7_pad(pt)));
                    }
                }
            }
            return None;
        },
    };
    let r = unpad(&padded);
    proof {
        assert(iv@ =~= blob@.take(IV_LEN as int));
        assert(body@ =~= blob@.skip(IV_LEN as int));
        if r is Some {
            lemma_pad_unpad(padded@);
            assert(blob@ =~= iv@ + body@);
        }
        assert forall|pt: Seq<u8>|
            blob@ == #[trigger] sealed(material@, blob@.take(IV_LEN as int), pt) implies r is Some
                && r->0@ == pt by {
            lemma_pad_aligned(pt);
            assert(iv@ =~= blob@.take(IV_LEN as int));
            assert(body@ =~= aes256_cbc_of(envelope_key(material@), iv@, pkcs7_pad(pt)));
            lemma_unpad_pad(pt);
        }
    }
    r
}

/// The padded payload is whole blocks, at least one.
pub proof fn lemma_pad_aligned(pt: Seq<u8>)
    ensures
        pkcs7_pad(pt).len() % (IV_LEN as nat) == 0,
        pkcs7_pad(pt).len() >= IV_LEN,
{
    let n = pad_len(pt.len() as int);
    assert((pt.len() + n) % (IV_LEN as int) == 0) by {
        vstd::arithmetic::div_mod::lemma_fundamental_div_mod(pt.len() as int, IV_LEN as int);
        vstd::arithmetic::div_mod::lemma_mod_multiples_basic(
            pt.len() as int / (IV_LEN as int) + 1,
            IV_LEN as int,
        );
    }
}

/// Draws a fresh IV.
fn random_iv() -> (r: Vec<u8>)
    ensures
        r@.len() == IV_LEN,
{
    let mut iv: Vec<u8> = Vec::new();
    while iv.len() < IV_LEN
        invariant
            iv@.len() <= IV_LEN,
        decreases IV_LEN - iv@.len(),
    {
        iv.push(rand::random::<u8>());
    }
    iv
}

/// Encrypts the payload under a target-group element: the element's
/// serialization is the key material, and a fresh random IV leads the result.
pub fn encrypt_symmetric(k: &rabe_bn::Gt, pt: &Vec<u8>) -> (r: Vec<u8>)
    ensures
        envelope_shaped(r@),
        r@.len() == IV_LEN + pkcs7_pad(pt@).len(),
        r@ == sealed(gt_bytes_of(*k), r@.take(IV_LEN as int), pt@),
{
    let material = gt_bytes(k);
    let iv = random_iv();
    let r = seal(&material, &iv, pt);
    proof {
        assert(r@.take(IV_LEN as int) =~= iv@);
    }
    r
}

/// Decrypts an envelope under a target-group element; fails exactly where
/// the blob is not an IV and whole blocks, or its padding is invalid. What it
/// accepts is the sealing of what it returns, and an envelope that
/// `encrypt_symmetric` made from `pt` under the same element gives `pt`.
pub fn decrypt_symmetric(k: &rabe_bn::Gt, blob: &Vec<u8>) -> (r: Option<Vec<u8>>)
    ensures
        bytes_of(r) == envelope_plain(gt_bytes_of(*k), blob@),
        !envelope_shaped(blob@) ==> r is None,
        r is Some ==> blob@ == sealed(gt_bytes_of(*k), blob@.take(IV_LEN as int), r->0@),
        forall|pt: Seq<u8>|
            envelope_shaped(blob@) && blob@ == #[trigger] sealed(
                gt_bytes_of(*k),
                blob@.take(IV_LEN as int),
                pt,
            ) ==> r is Some && r->0@ == pt,
{
    let material = gt_bytes(k);
    open(&material, blob)
}

/// Decrypting what encryption under the same target-group element made gives
/// the payload back: the envelope starts with its IV, so the clause of
/// `decrypt_symmetric` on envelopes sealed under the element's serialization
/// applies to it.
pub proof fn lemma_envelope_round_trip(k: rabe_bn::Gt, iv: Seq<u8>, pt: Seq<u8>)
    requires
        iv.len() == IV_LEN,
    ensures
        sealed(gt_bytes_of(k), iv, pt) == sealed(
            gt_bytes_of(k),
            sealed(gt_bytes_of(k), iv, pt).take(IV_LEN as int),
            pt,
        ),
{
    assert(sealed(gt_bytes_of(k), iv, pt).take(IV_LEN as int) =~= iv);
}

} // verus!
