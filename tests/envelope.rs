use rabe::envelope::{decrypt_symmetric, derive_key, encrypt_symmetric, open, pad, seal, unpad};
use rabe::hash::{blake2b_hash_fr, blake2b_hash_g1};
use crypto::buffer::{ReadBuffer, WriteBuffer};
use crypto::digest::Digest;
use rabe_bn::Group;

#[test]
fn sealed_payload_opens() {
    let material = vec![1u8, 2, 3];
    let iv = vec![7u8; 16];
    let pt = b"attack at dawn".to_vec();
    let blob = seal(&material, &iv, &pt);
    assert_eq!(&blob[..16], &iv[..]);
    assert_eq!(blob.len(), 32);
    assert_ne!(&blob[16..30], &pt[..]);
    assert_eq!(open(&material, &blob).unwrap(), pt);
}

#[test]
fn short_blob_is_refused() {
    assert!(open(&vec![1u8], &vec![0u8; 15]).is_none());
}

#[test]
fn other_material_does_not_open() {
    let iv = vec![0u8; 16];
    let pt = b"attack at dawn".to_vec();
    let blob = seal(&vec![1u8], &iv, &pt);
    assert_ne!(open(&vec![2u8], &blob), Some(pt));
}

#[test]
fn key_is_a_sha3_digest() {
    let k = derive_key(&vec![0xabu8, 0x01]);
    assert_eq!(k.len(), 32);
    assert_eq!(k, derive_key(&vec![0xabu8, 0x01]));
    assert_ne!(k, derive_key(&vec![0x01u8, 0xab]));
    assert_ne!(derive_key(&vec![]), Vec::<u8>::new());
}

#[test]
fn symmetric_round_trip_on_target_group() {
    let k = rabe_bn::pairing(rabe_bn::G1::random(&mut rand::thread_rng()), rabe_bn::G2::one());
    let pt = b"hello".to_vec();
    let blob = encrypt_symmetric(&k, &pt);
    assert_eq!(blob.len(), 32);
    assert_eq!(decrypt_symmetric(&k, &blob).unwrap(), pt);
    let other = rabe_bn::pairing(rabe_bn::G1::one(), rabe_bn::G2::one());
    assert_ne!(decrypt_symmetric(&other, &blob), Some(pt));
}

#[test]
fn ivs_are_fresh() {
    let k = rabe_bn::pairing(rabe_bn::G1::one(), rabe_bn::G2::one());
    let a = encrypt_symmetric(&k, &b"x".to_vec());
    let b = encrypt_symmetric(&k, &b"x".to_vec());
    assert_ne!(a[..16], b[..16]);
}

#[test]
fn label_hashes_are_deterministic() {
    assert!(blake2b_hash_fr("A") == blake2b_hash_fr("A"));
    assert!(blake2b_hash_fr("A") != blake2b_hash_fr("B"));
    assert!(blake2b_hash_fr("A") != rabe_bn::Fr::zero());
    let g = rabe_bn::G1::one();
    assert!(blake2b_hash_g1(g, "A") == g * blake2b_hash_fr("A"));
    assert!(blake2b_hash_g1(g, "A") != g);
}

#[test]
fn key_hashes_lowercase_hex_of_material() {
    let mut hasher = crypto::sha3::Sha3::sha3_256();
    hasher.input_str("ab01ff");
    let mut expected = vec![0u8; 32];
    hasher.result(&mut expected);
    assert_eq!(derive_key(&vec![0xabu8, 0x01, 0xff]), expected);
}

#[test]
fn label_scalar_is_reduced_blake2b_digest() {
    let digest = blake2_rfc::blake2b::blake2b(64, &[], b"attribute");
    let mut buf = [0u8; 64];
    buf.copy_from_slice(digest.as_bytes());
    assert!(blake2b_hash_fr("attribute") == rabe_bn::Fr::interpret(&buf));
}

#[test]
fn envelope_body_is_aes_cbc() {
    let material = vec![5u8, 6];
    let iv = vec![9u8; 16];
    let pt = b"sixteen byte msg".to_vec();
    let blob = seal(&material, &iv, &pt);
    let key = derive_key(&material);
    let mut dec = crypto::aes::cbc_decryptor(
        crypto::aes::KeySize::KeySize256,
        &key,
        &iv,
        crypto::blockmodes::PkcsPadding,
    );
    let mut out = vec![0u8; blob.len()];
    let mut read = crypto::buffer::RefReadBuffer::new(&blob[16..]);
    let mut write = crypto::buffer::RefWriteBuffer::new(&mut out);
    dec.decrypt(&mut read, &mut write, true).unwrap();
    assert!(read.is_empty());
    let n = write.position();
    assert_eq!(&out[..n], &pt[..]);
    // a full block of padding follows a block-aligned payload
    assert_eq!(blob.len(), 16 + 32);
}

#[test]
fn iv_only_and_misaligned_blobs_are_refused() {
    let material = vec![3u8];
    assert!(open(&material, &vec![0u8; 16]).is_none());
    assert!(open(&material, &vec![0u8; 33]).is_none());
    assert!(open(&material, &vec![]).is_none());
}

#[test]
fn oversized_padding_byte_is_refused() {
    let material = vec![4u8];
    let key = derive_key(&material);
    let iv = vec![1u8; 16];
    let mut enc = crypto::aes::cbc_encryptor(
        crypto::aes::KeySize::KeySize256,
        &key,
        &iv,
        crypto::blockmodes::NoPadding,
    );
    let block = [17u8; 16];
    let mut out = vec![0u8; 16];
    {
        let mut read = crypto::buffer::RefReadBuffer::new(&block);
        let mut write = crypto::buffer::RefWriteBuffer::new(&mut out);
        enc.encrypt(&mut read, &mut write, true).unwrap();
    }
    let mut blob = iv.clone();
    blob.extend_from_slice(&out);
    assert!(open(&material, &blob).is_none());
}

#[test]
fn padding_round_trip() {
    assert_eq!(pad(b""), vec![16u8; 16]);
    let p = pad(b"abc");
    assert_eq!(p.len(), 16);
    assert_eq!(&p[3..], &[13u8; 13][..]);
    assert_eq!(unpad(&p).unwrap(), b"abc".to_vec());
    assert_eq!(pad(&[0u8; 16]).len(), 32);
    assert!(unpad(&vec![1u8, 2, 0]).is_none());
    assert!(unpad(&vec![5u8, 5, 5, 4, 5, 5]).is_none());
    assert!(unpad(&vec![17u8; 17]).is_none());
    assert!(unpad(&vec![]).is_none());
}

#[test]
fn any_blocks_with_valid_padding_open() {
    let material = vec![8u8, 9];
    let key = derive_key(&material);
    let iv = vec![2u8; 16];
    let mut block = [0u8; 16];
    for (i, b) in block.iter_mut().enumerate() {
        *b = i as u8 + 40;
    }
    block[13] = 3;
    block[14] = 3;
    block[15] = 3;
    let mut enc = crypto::aes::cbc_encryptor(
        crypto::aes::KeySize::KeySize256,
        &key,
        &iv,
        crypto::blockmodes::NoPadding,
    );
    let mut out = vec![0u8; 16];
    {
        let mut read = crypto::buffer::RefReadBuffer::new(&block);
        let mut write = crypto::buffer::RefWriteBuffer::new(&mut out);
        enc.encrypt(&mut read, &mut write, true).unwrap();
    }
    let mut blob = iv.clone();
    blob.extend_from_slice(&out);
    let opened = open(&material, &blob).unwrap();
    assert_eq!(opened, block[..13].to_vec());
    assert_eq!(seal(&material, &iv, &opened), blob);
}

#[test]
fn sealed_length_is_iv_and_padded_blocks() {
    let iv = vec![0u8; 16];
    for n in [0usize, 1, 15, 16, 17, 31, 32, 100] {
        let blob = seal(&vec![1u8], &iv, &vec![7u8; n]);
        assert_eq!(blob.len(), 16 + 16 * (n / 16 + 1));
    }
}
