use rabe::lsw::{decrypt, decryption_element, encrypt, keygen, setup, split_secret, KpAbeCiphertext, KpAbeSecretKey};
use rabe::scalar::Scalar;

fn plaintext() -> Vec<u8> {
    String::from("dance like no one's watching, encrypt like everyone is!").into_bytes()
}

fn attributes(names: &[&str]) -> Vec<String> {
    names.iter().map(|n| String::from(*n)).collect()
}

#[test]
fn and() {
    let (pk, msk) = setup();
    let att_matching = attributes(&["A", "B", "C"]);
    let plaintext = plaintext();
    let policy = String::from(r#"{"AND": [{"ATT": "C"}, {"ATT": "B"}]}"#);
    let ct_kp_matching: KpAbeCiphertext = encrypt(&pk, &att_matching, &plaintext).unwrap();
    let sk: KpAbeSecretKey = keygen(&pk, &msk, &policy).unwrap();
    assert_eq!(decrypt(&sk, &ct_kp_matching).unwrap(), plaintext);
}

#[test]
fn or() {
    let (pk, msk) = setup();
    let att_matching = attributes(&["A", "B", "C"]);
    let plaintext = plaintext();
    let policy = String::from(r#"{"OR": [{"ATT": "X"}, {"ATT": "B"}]}"#);
    let ct_kp_matching: KpAbeCiphertext = encrypt(&pk, &att_matching, &plaintext).unwrap();
    let sk: KpAbeSecretKey = keygen(&pk, &msk, &policy).unwrap();
    assert_eq!(decrypt(&sk, &ct_kp_matching).unwrap(), plaintext);
}

#[test]
fn or_and() {
    let (pk, msk) = setup();
    let att_matching = attributes(&["A", "Y", "Z"]);
    let plaintext = plaintext();
    let policy = String::from(r#"{"OR": [{"ATT": "X"}, {"AND": [{"ATT": "Y"}, {"ATT": "Z"}]}]}"#);
    let ct_kp_matching: KpAbeCiphertext = encrypt(&pk, &att_matching, &plaintext).unwrap();
    let sk: KpAbeSecretKey = keygen(&pk, &msk, &policy).unwrap();
    assert_eq!(decrypt(&sk, &ct_kp_matching).unwrap(), plaintext);
}

#[test]
fn not() {
    let (pk, msk) = setup();
    let att_matching = attributes(&["A", "B"]);
    let plaintext = plaintext();
    let policy = String::from(r#"{"OR": [{"ATT": "X"}, {"ATT": "Y"}]}"#);
    let ct_kp_matching: KpAbeCiphertext = encrypt(&pk, &att_matching, &plaintext).unwrap();
    let sk: KpAbeSecretKey = keygen(&pk, &msk, &policy).unwrap();
    assert_eq!(decrypt(&sk, &ct_kp_matching), None);
}

#[test]
fn encrypt_refuses_empty_attributes() {
    let (pk, _msk) = setup();
    assert!(encrypt(&pk, &Vec::new(), b"hello").is_none());
}

#[test]
fn encrypt_refuses_empty_plaintext() {
    let (pk, _msk) = setup();
    assert!(encrypt(&pk, &attributes(&["A"]), b"").is_none());
}

#[test]
fn encrypt_lists_attributes_in_order() {
    let (pk, _msk) = setup();
    let ct = encrypt(&pk, &attributes(&["B", "A"]), b"x").unwrap();
    let names: Vec<&str> = ct.ej.iter().map(|c| c.attr.as_str()).collect();
    assert_eq!(names, vec!["B", "A"]);
    // one IV and one padded block
    assert_eq!(ct.ct.len(), 32);
}

#[test]
fn keygen_refuses_malformed_policy() {
    let (pk, msk) = setup();
    assert!(keygen(&pk, &msk, &String::from("joking-around?")).is_none());
    assert!(keygen(&pk, &msk, &String::from(r#"{"AND": [{"ATT": "A"}]}"#)).is_none());
    assert!(keygen(&pk, &msk, &String::from("")).is_none());
}

#[test]
fn keygen_refuses_negation() {
    let (pk, msk) = setup();
    let policy = String::from(r#"{"OR": [{"ATT": "X"}, {"NOT": {"ATT": "Y"}}]}"#);
    assert!(keygen(&pk, &msk, &policy).is_none());
}

#[test]
fn keygen_labels_follow_leaves() {
    let (pk, msk) = setup();
    let policy = String::from(r#"{"OR": [{"ATT": "X"}, {"AND": [{"ATT": "Y"}, {"ATT": "Z"}]}]}"#);
    let sk = keygen(&pk, &msk, &policy).unwrap();
    let labels: Vec<&str> = sk.dj.iter().map(|c| c.label.as_str()).collect();
    assert_eq!(labels, vec!["L:X", "RL:Y", "RR:Z"]);
    let attrs: Vec<&str> = sk.dj.iter().map(|c| c.attr.as_str()).collect();
    assert_eq!(attrs, vec!["X", "Y", "Z"]);
    assert_eq!(sk.policy, policy);
}

#[test]
fn decrypt_with_other_authority_fails() {
    let (pk, msk) = setup();
    let (pk2, _msk2) = setup();
    let policy = String::from(r#"{"ATT": "A"}"#);
    let sk = keygen(&pk, &msk, &policy).unwrap();
    let ct = encrypt(&pk2, &attributes(&["A"]), &plaintext()).unwrap();
    assert_ne!(decrypt(&sk, &ct), Some(plaintext()));
}

#[test]
fn single_attribute_round_trip() {
    let (pk, msk) = setup();
    let sk = keygen(&pk, &msk, &String::from(r#"{"ATT": "A"}"#)).unwrap();
    let ct = encrypt(&pk, &attributes(&["A"]), b"hello").unwrap();
    assert_eq!(decrypt(&sk, &ct).unwrap(), b"hello".to_vec());
}

#[test]
fn and_with_missing_attribute_fails() {
    let (pk, msk) = setup();
    let sk = keygen(&pk, &msk, &String::from(r#"{"AND": [{"ATT": "A"}, {"ATT": "D"}]}"#)).unwrap();
    let ct = encrypt(&pk, &attributes(&["A", "B"]), b"hello").unwrap();
    assert_eq!(decrypt(&sk, &ct), None);
}

#[test]
fn split_secret_adds_up() {
    let s = Scalar::from_u64(12345);
    for n in 1..5usize {
        let parts = split_secret(&s, n);
        assert_eq!(parts.len(), n);
        let mut sum = Scalar::zero();
        for p in parts.iter() {
            sum = sum.add(p);
        }
        assert!(sum.equals(&s));
    }
}

#[test]
fn element_recovered_only_when_satisfied() {
    let (pk, msk) = setup();
    let sk = keygen(&pk, &msk, &String::from(r#"{"OR": [{"ATT": "X"}, {"ATT": "B"}]}"#)).unwrap();
    let good = encrypt(&pk, &attributes(&["B"]), b"m").unwrap();
    let bad = encrypt(&pk, &attributes(&["C"]), b"m").unwrap();
    assert!(decryption_element(&sk, &good).is_some());
    assert!(decryption_element(&sk, &bad).is_none());
}

#[test]
fn key_missing_a_component_is_refused() {
    let (pk, msk) = setup();
    let mut sk = keygen(&pk, &msk, &String::from(r#"{"AND": [{"ATT": "A"}, {"ATT": "B"}]}"#)).unwrap();
    sk.dj.pop();
    let ct = encrypt(&pk, &attributes(&["A", "B"]), b"m").unwrap();
    assert!(decryption_element(&sk, &ct).is_none());
    assert_eq!(decrypt(&sk, &ct), None);
}

#[test]
fn repeated_attribute_gets_distinct_labels_and_decrypts() {
    let (pk, msk) = setup();
    let policy = String::from(
        r#"{"OR": [{"AND": [{"ATT": "A"}, {"ATT": "B"}]}, {"AND": [{"ATT": "A"}, {"ATT": "C"}]}]}"#,
    );
    let sk = keygen(&pk, &msk, &policy).unwrap();
    let labels: Vec<&str> = sk.dj.iter().map(|c| c.label.as_str()).collect();
    assert_eq!(labels, vec!["LL:A", "LR:B", "RL:A", "RR:C"]);
    let ct = encrypt(&pk, &attributes(&["A", "C"]), &plaintext()).unwrap();
    assert_eq!(decrypt(&sk, &ct).unwrap(), plaintext());
    let ct = encrypt(&pk, &attributes(&["B", "A"]), &plaintext()).unwrap();
    assert_eq!(decrypt(&sk, &ct).unwrap(), plaintext());
}

#[test]
fn same_attribute_twice_under_and_decrypts() {
    let (pk, msk) = setup();
    let sk = keygen(&pk, &msk, &String::from(r#"{"AND": [{"ATT": "A"}, {"ATT": "A"}]}"#)).unwrap();
    let ct = encrypt(&pk, &attributes(&["A"]), b"twice").unwrap();
    assert_eq!(decrypt(&sk, &ct).unwrap(), b"twice".to_vec());
}

#[test]
fn truncated_envelope_is_refused() {
    let (pk, msk) = setup();
    let sk = keygen(&pk, &msk, &String::from(r#"{"ATT": "A"}"#)).unwrap();
    let mut ct = encrypt(&pk, &attributes(&["A"]), b"hello").unwrap();
    ct.ct.truncate(16);
    assert_eq!(decrypt(&sk, &ct), None);
    let mut ct = encrypt(&pk, &attributes(&["A"]), b"hello").unwrap();
    ct.ct.pop();
    assert_eq!(decrypt(&sk, &ct), None);
}
