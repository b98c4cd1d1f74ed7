//! The key-policy scheme of Lewko, Sahai and Waters: setup, key generation
//! from a policy, encryption under a set of attributes, and decryption, which
//! succeeds where the attributes satisfy the key's policy.

use vstd::prelude::*;
use crate::envelope::{bytes_of, decrypt_symmetric, encrypt_symmetric, envelope_plain, envelope_shaped, pkcs7_pad, sealed, IV_LEN};
use crate::group::{
    fr_mul, fr_mul_of, fr_of, g1_add, g1_add_of, g1_mul, g1_mul_of, g1_neg, g1_neg_of, g1_random,
    g2_mul, g2_mul_of, g2_random, gt_bytes_of, gt_mul, gt_mul_of, gt_pow, gt_pow_of, pair, pair_of,
};
use crate::hash::{blake2b_hash_fr, blake2b_hash_g1, label_scalar};
use crate::lsss::{
    calc_coefficients, gen_shares, lemma_pruned_labels_are_attributes, lemma_pruned_tag_count,
    lemma_pruned_tags_are_share_tags, lemma_same_policy_shares, lemma_tags_distinct,
    lemma_tag_count, share_labels, share_values, shares_fit,
};
use crate::parser::{lemma_same_policy_alike, lemma_tokens_same_policy, parse_policy, spells};
use crate::policy::{
    calc_pruned, calc_pruned_tags, has_negation, holds, leaf_labels, leaf_tags, names, pruned,
    pruned_tags, Policy,
};
use crate::scalar::{order, Scalar};

verus! {

/// The public parameters.
pub struct KpAbePublicKey {
    pub g_g1: rabe_bn::G1,
    pub g_g2: rabe_bn::G2,
    pub g_g1_b: rabe_bn::G1,
    pub g_g1_b2: rabe_bn::G1,
    pub h_g1_b: rabe_bn::G1,
    pub e_gg_alpha: rabe_bn::Gt,
}

/// The master secret of the authority.
pub struct KpAbeMasterKey {
    pub alpha1: Scalar,
    pub alpha2: Scalar,
    pub b: Scalar,
    pub h_g1: rabe_bn::G1,
    pub h_g2: rabe_bn::G2,
}

/// The part of a secret key that belongs to one leaf of its policy: the
/// leaf's tag, which no other leaf shares, and its attribute.
pub struct KeyComponent {
    pub label: String,
    pub attr: String,
    pub d1: rabe_bn::G1,
    pub d2: rabe_bn::G2,
}

/// A user's secret key: the policy's text and one component per leaf.
pub struct KpAbeSecretKey {
    pub policy: String,
    pub dj: Vec<KeyComponent>,
}

/// The part of a ciphertext that belongs to one attribute.
pub struct CiphertextComponent {
    pub attr: String,
    pub e3: rabe_bn::G1,
    pub e4: rabe_bn::G1,
    pub e5: rabe_bn::G1,
}

/// A ciphertext: the masked target-group element, the encapsulation of the
/// secret exponent, one component per attribute, and the symmetric envelope.
pub struct KpAbeCiphertext {
    pub e1: rabe_bn::Gt,
    pub e2: rabe_bn::G2,
    pub ej: Vec<CiphertextComponent>,
    pub ct: Vec<u8>,
}

/// The tags of a key's components.
pub open spec fn key_labels(dj: Seq<KeyComponent>) -> Seq<Seq<char>> {
    dj.map_values(|c: KeyComponent| c.label@)
}

/// The attributes of a key's components.
pub open spec fn key_attrs(dj: Seq<KeyComponent>) -> Seq<Seq<char>> {
    dj.map_values(|c: KeyComponent| c.attr@)
}

/// The attributes of a ciphertext's components.
pub open spec fn ct_attrs(ej: Seq<CiphertextComponent>) -> Seq<Seq<char>> {
    ej.map_values(|c: CiphertextComponent| c.attr@)
}

/// The sum of the scalars' integers.
pub open spec fn scalar_sum(v: Seq<Scalar>) -> int
    decreases v.len(),
{
    if v.len() == 0 {
        0
    } else {
        scalar_sum(v.drop_last()) + v.last().value()
    }
}

/// The first position of `x` in `v`; the length of `v` where it is absent.
pub open spec fn first_index(v: Seq<Seq<char>>, x: Seq<char>) -> int
    decreases v.len(),
{
    if v.len() == 0 {
        0
    } else if v[0] == x {
        0
    } else {
        1 + first_index(v.skip(1), x)
    }
}

proof fn lemma_first_index(v: Seq<Seq<char>>, x: Seq<char>, i: int)
    requires
        0 <= i < v.len(),
        v[i] == x,
        forall|j: int| 0 <= j < i ==> v[j] != x,
    ensures
        first_index(v, x) == i,
    decreases i,
{
    if i > 0 {
        assert forall|j: int| 0 <= j < i - 1 implies v.skip(1)[j] != x by {
            assert(v.skip(1)[j] == v[j + 1]);
        }
        lemma_first_index(v.skip(1), x, i - 1);
    }
}

/// A key component made from the share `lambda` and the random scalar `r`:
/// `D1 = g1·(alpha2·lambda) + H(attr)·r` and `D2 = g2·r`.
pub open spec fn key_component_fits(
    pk: KpAbePublicKey,
    msk: KpAbeMasterKey,
    c: KeyComponent,
    lambda: int,
    r: int,
) -> bool {
    &&& c.d1 == g1_add_of(
        g1_mul_of(pk.g_g1, fr_mul_of(fr_of(msk.alpha2.value()), fr_of(lambda))),
        g1_mul_of(g1_mul_of(pk.g_g1, label_scalar(c.attr@)), fr_of(r)),
    )
    &&& c.d2 == g2_mul_of(pk.g_g2, fr_of(r))
}

/// Whether the key's components carry shares of `alpha1` over the policy,
/// each with a random scalar of its own.
pub open spec fn key_shares_fit(
    pk: KpAbePublicKey,
    msk: KpAbeMasterKey,
    q: Policy,
    dj: Seq<KeyComponent>,
) -> bool {
    exists|lambdas: Seq<int>, rs: Seq<int>|
        shares_fit(q, msk.alpha1.value(), lambdas) && #[trigger] key_parts_fit(pk, msk, dj, lambdas, rs)
}

/// Whether each key component is made from the share and the random scalar
/// at its position.
pub open spec fn key_parts_fit(
    pk: KpAbePublicKey,
    msk: KpAbeMasterKey,
    dj: Seq<KeyComponent>,
    lambdas: Seq<int>,
    rs: Seq<int>,
) -> bool {
    &&& lambdas.len() == dj.len()
    &&& rs.len() == dj.len()
    &&& forall|i: int| 0 <= i < dj.len() ==> key_component_fits(pk, msk, #[trigger] dj[i], lambdas[i], rs[i])
}

/// A ciphertext component for the secret `s` and its part `x`:
/// `E3 = H(attr)·s`, `E4 = g1·b·x` and `E5 = g1·b²·(x·H(attr)) + h1·b·x`.
pub open spec fn ct_component_fits(pk: KpAbePublicKey, c: CiphertextComponent, s: int, x: int) -> bool {
    &&& c.e3 == g1_mul_of(g1_mul_of(pk.g_g1, label_scalar(c.attr@)), fr_of(s))
    &&& c.e4 == g1_mul_of(pk.g_g1_b, fr_of(x))
    &&& c.e5 == g1_add_of(
        g1_mul_of(pk.g_g1_b2, fr_mul_of(fr_of(x), label_scalar(c.attr@))),
        g1_mul_of(pk.h_g1_b, fr_of(x)),
    )
}

/// Whether the ciphertext is made from the secret `s`, its parts `sx`, one
/// per attribute, that add up to it, and the target-group element `mu` that
/// keys the envelope of the plaintext.
pub open spec fn ciphertext_fits(
    pk: KpAbePublicKey,
    plaintext: Seq<u8>,
    ct: KpAbeCiphertext,
    s: Scalar,
    sx: Seq<Scalar>,
    mu: rabe_bn::Gt,
) -> bool {
    &&& sx.len() == ct.ej@.len()
    &&& scalar_sum(sx) % order() == s.value()
    &&& ct.e2 == g2_mul_of(pk.g_g2, fr_of(s.value()))
    &&& ct.e1 == gt_mul_of(gt_pow_of(pk.e_gg_alpha, fr_of(s.value())), mu)
    &&& ct.ct@ == sealed(gt_bytes_of(mu), ct.ct@.take(IV_LEN as int), plaintext)
    &&& forall|i: int|
        0 <= i < sx.len() ==> ct_component_fits(pk, #[trigger] ct.ej@[i], s.value(), sx[i].value())
}

proof fn lemma_ciphertext_witness(
    pk: KpAbePublicKey,
    plaintext: Seq<u8>,
    ct: KpAbeCiphertext,
    s: Scalar,
    sx: Seq<Scalar>,
    mu: rabe_bn::Gt,
)
    requires
        ciphertext_fits(pk, plaintext, ct, s, sx, mu),
    ensures
        exists|s2: Scalar, sx2: Seq<Scalar>, mu2: rabe_bn::Gt|
            #[trigger] ciphertext_fits(pk, plaintext, ct, s2, sx2, mu2),
{
}

/// The factor of one picked leaf: `e(D1, E2)·e(-E3, D2)` for the key
/// component with the tag and the ciphertext component of the attribute,
/// raised to minus the coefficient one.
pub open spec fn blind_factor(
    dj: Seq<KeyComponent>,
    ct: KpAbeCiphertext,
    tag: Seq<char>,
    attr: Seq<char>,
) -> rabe_bn::Gt {
    let d = dj[first_index(key_labels(dj), tag)];
    let e = ct.ej@[first_index(ct_attrs(ct.ej@), attr)];
    gt_pow_of(
        gt_mul_of(pair_of(d.d1, ct.e2), pair_of(g1_neg_of(e.e3), d.d2)),
        fr_of((0 - 1) % order()),
    )
}

/// `E1` times the factors of the picked leaves, given by their tags and
/// attributes.
pub open spec fn recovered(
    dj: Seq<KeyComponent>,
    ct: KpAbeCiphertext,
    tags: Seq<Seq<char>>,
    attrs: Seq<Seq<char>>,
) -> rabe_bn::Gt
    decreases tags.len(),
{
    if tags.len() == 0 {
        ct.e1
    } else {
        gt_mul_of(
            recovered(dj, ct, tags.drop_last(), attrs.drop_last()),
            blind_factor(dj, ct, tags.last(), attrs[tags.len() - 1]),
        )
    }
}

/// Generates fresh public parameters and a master secret: `alpha1`,
/// `alpha2` and `b` random scalars, `g1`, `h1` random in G1 and `g2`, `h2`
/// random in G2; the public key holds `g1`, `g2`, `g1·b`, `g1·b²`, `h1·b` and
/// `e(g1, g2)` raised to `alpha1·alpha2`.
pub fn setup() -> (r: (KpAbePublicKey, KpAbeMasterKey))
    ensures
        r.0.g_g1_b == g1_mul_of(r.0.g_g1, fr_of(r.1.b.value())),
        r.0.g_g1_b2 == g1_mul_of(r.0.g_g1_b, fr_of(r.1.b.value())),
        r.0.h_g1_b == g1_mul_of(r.1.h_g1, fr_of(r.1.b.value())),
        r.0.e_gg_alpha == gt_pow_of(
            pair_of(r.0.g_g1, r.0.g_g2),
            fr_mul_of(fr_of(r.1.alpha1.value()), fr_of(r.1.alpha2.value())),
        ),
{
    let alpha1 = Scalar::random();
    let alpha2 = Scalar::random();
    let beta = Scalar::random();
    let alpha = fr_mul(alpha1.to_fr(), alpha2.to_fr());
    let g1 = g1_random();
    let g2 = g2_random();
    let h1 = g1_random();
    let h2 = g2_random();
    let g1_b = g1_mul(g1, beta.to_fr());
    let pk = KpAbePublicKey {
        g_g1: g1,
        g_g2: g2,
        g_g1_b: g1_b,
        g_g1_b2: g1_mul(g1_b, beta.to_fr()),
        h_g1_b: g1_mul(h1, beta.to_fr()),
        e_gg_alpha: gt_pow(pair(g1, g2), alpha),
    };
    let msk = KpAbeMasterKey { alpha1, alpha2, b: beta, h_g1: h1, h_g2: h2 };
    (pk, msk)
}

/// Generates a secret key for the policy given as JSON text. The master
/// scalar `alpha1` is shared over the policy's leaves; each leaf gets its tag,
/// its attribute, a fresh scalar `r` and the components
/// `g1·(alpha2·share) + H(attr)·r` and `g2·r`. Text that spells no policy, and
/// a policy with a negated leaf, are refused.
pub fn keygen(pk: &KpAbePublicKey, msk: &KpAbeMasterKey, policy: &String) -> (r: Option<
    KpAbeSecretKey,
>)
    ensures
        (forall|q: Policy| !spells(policy@, q)) ==> r is None,
        forall|q: Policy|
            #[trigger] spells(policy@, q) ==> (r is Some <==> !has_negation(q)),
        forall|q: Policy|
            #[trigger] spells(policy@, q) && r is Some ==> r->0.policy@ == policy@ && key_labels(
                r->0.dj@,
            ) == leaf_tags(q) && key_attrs(r->0.dj@) == leaf_labels(q) && key_shares_fit(
                *pk,
                *msk,
                q,
                r->0.dj@,
            ),
        r is Some ==> key_labels(r->0.dj@).no_duplicates(),
{
    let p = match parse_policy(policy.as_str()) {
        Some(p) => p,
        None => return None,
    };
    proof {
        assert forall|q: Policy| #[trigger] spells(policy@, q) implies leaf_labels(p) == leaf_labels(
            q,
        ) && leaf_tags(p) == leaf_tags(q) && has_negation(p) == has_negation(q) && (forall|
            x: int,
            s: Seq<int>,
        | #[trigger] shares_fit(p, x, s) ==> shares_fit(q, x, s)) by {
            lemma_tokens_same_policy(p, q);
            lemma_same_policy_alike(p, q, Seq::empty());
            assert forall|x: int, s: Seq<int>| #[trigger] shares_fit(p, x, s) implies shares_fit(
                q,
                x,
                s,
            ) by {
                lemma_same_policy_shares(p, q, s);
            }
        }
        assert(spells(policy@, p));
    }
    if p.contains_negation() {
        return None;
    }
    let shares = gen_shares(&msk.alpha1, &p);
    let attrs = p.labels();
    proof {
        lemma_tag_count(p);
        lemma_tags_distinct(p);
        assert(share_labels(shares@).len() == shares@.len());
        assert(names(attrs@).len() == attrs@.len());
    }
    let ghost lambdas = share_values(shares@);
    let ghost mut rs: Seq<int> = Seq::empty();
    let mut dj: Vec<KeyComponent> = Vec::new();
    let mut i: usize = 0;
    while i < shares.len()
        invariant
            i <= shares@.len(),
            shares@.len() == attrs@.len(),
            share_labels(shares@) == leaf_tags(p),
            names(attrs@) == leaf_labels(p),
            lambdas == share_values(shares@),
            dj@.len() == i,
            rs.len() == i,
            key_labels(dj@) == share_labels(shares@).take(i as int),
            key_attrs(dj@) == names(attrs@).take(i as int),
            forall|j: int| 0 <= j < i ==> key_component_fits(*pk, *msk, #[trigger] dj@[j], lambdas[j], rs[j]),
        decreases shares@.len() - i,
    {
        let label = shares[i].0.clone();
        let attr = attrs[i].clone();
        let share = shares[i].1;
        let rand = Scalar::random();
        let d1 = g1_add(
            g1_mul(pk.g_g1, fr_mul(msk.alpha2.to_fr(), share.to_fr())),
            g1_mul(blake2b_hash_g1(pk.g_g1, attr.as_str()), rand.to_fr()),
        );
        let d2 = g2_mul(pk.g_g2, rand.to_fr());
        let c = KeyComponent { label, attr, d1, d2 };
        proof {
            assert(lambdas[i as int] == share.value());
            assert(key_component_fits(*pk, *msk, c, lambdas[i as int], rand.value()));
            rs = rs.push(rand.value());
        }
        dj.push(c);
        assert(key_labels(dj@) =~= share_labels(shares@).take(i + 1));
        assert(key_attrs(dj@) =~= names(attrs@).take(i + 1));
        i += 1;
    }
    assert(share_labels(shares@).take(i as int) =~= share_labels(shares@));
    assert(names(attrs@).take(i as int) =~= names(attrs@));
    proof {
        assert(lambdas.len() == dj@.len());
        assert(shares_fit(p, msk.alpha1.value(), lambdas));
        assert(key_parts_fit(*pk, *msk, dj@, lambdas, rs));
        assert forall|q: Policy| #[trigger] spells(policy@, q) implies key_shares_fit(*pk, *msk, q, dj@) by {
            assert(shares_fit(q, msk.alpha1.value(), lambdas));
        }
    }
    Some(KpAbeSecretKey { policy: policy.clone(), dj })
}

/// Splits `s` into `n` scalars that add up to it modulo the group order: the
/// first `n - 1` drawn at random, the last their difference from `s`.
pub fn split_secret(s: &Scalar, n: usize) -> (r: Vec<Scalar>)
    requires
        n > 0,
    ensures
        r@.len() == n,
        scalar_sum(r@) % order() == s.value(),
{
    let mut parts: Vec<Scalar> = Vec::new();
    let mut rest = *s;
    s.known_reduced();
    proof {
        vstd::arithmetic::div_mod::lemma_small_mod(s.value() as nat, order() as nat);
    }
    while parts.len() + 1 < n
        invariant
            parts@.len() < n,
            (scalar_sum(parts@) + rest.value()) % order() == s.value(),
        decreases n - parts@.len(),
    {
        let x = Scalar::random();
        let ghost before = parts@;
        let next = rest.sub(&x);
        proof {
            assert(parts@.push(x).drop_last() =~= before);
            vstd::arithmetic::div_mod::lemma_add_mod_noop_right(
                scalar_sum(before) + x.value(),
                rest.value() - x.value(),
                order(),
            );
        }
        parts.push(x);
        rest = next;
    }
    let ghost before = parts@;
    parts.push(rest);
    proof {
        assert(parts@.drop_last() =~= before);
    }
    parts
}

/// Encrypts the plaintext under the attributes. A random `s` encapsulates
/// as `g2·s`; each attribute gets `H(attr)·s`, `g1·b·s_x` and
/// `g1·b²·(s_x·H(attr)) + h1·b·s_x`, with the `s_x` adding up to `s`; a random
/// target-group element `mu`, masked as `e(g1, g2)^(alpha·s)·mu`, keys the
/// symmetric envelope of the plaintext. An empty attribute list or plaintext
/// is refused.
pub fn encrypt(pk: &KpAbePublicKey, attributes: &Vec<String>, plaintext: &[u8]) -> (r: Option<
    KpAbeCiphertext,
>)
    ensures
        r is Some <==> attributes@.len() > 0 && plaintext@.len() > 0,
        r is Some ==> ct_attrs(r->0.ej@) == names(attributes@) && envelope_shaped(r->0.ct@)
            && r->0.ct@.len() == IV_LEN + pkcs7_pad(plaintext@).len(),
        r is Some ==> exists|s: Scalar, sx: Seq<Scalar>, mu: rabe_bn::Gt|
            #[trigger] ciphertext_fits(*pk, plaintext@, r->0, s, sx, mu),
{
    if attributes.len() == 0 || plaintext.len() == 0 {
        return None;
    }
    let s = Scalar::random();
    let sx = split_secret(&s, attributes.len());
    let mut ej: Vec<CiphertextComponent> = Vec::new();
    let mut i: usize = 0;
    while i < attributes.len()
        invariant
            i <= attributes@.len(),
            sx@.len() == attributes@.len(),
            ej@.len() == i,
            ct_attrs(ej@) == names(attributes@).take(i as int),
            forall|j: int| 0 <= j < i ==> ct_component_fits(*pk, #[trigger] ej@[j], s.value(), sx@[j].value()),
        decreases attributes@.len() - i,
    {
        let attr = attributes[i].clone();
        let part = sx[i].to_fr();
        let e3 = g1_mul(blake2b_hash_g1(pk.g_g1, attr.as_str()), s.to_fr());
        let e4 = g1_mul(pk.g_g1_b, part);
        let e5 = g1_add(
            g1_mul(pk.g_g1_b2, fr_mul(part, blake2b_hash_fr(attr.as_str()))),
            g1_mul(pk.h_g1_b, part),
        );
        let c = CiphertextComponent { attr, e3, e4, e5 };
        assert(ct_component_fits(*pk, c, s.value(), sx@[i as int].value()));
        ej.push(c);
        assert(ct_attrs(ej@) =~= names(attributes@).take(i + 1));
        i += 1;
    }
    assert(names(attributes@).take(i as int) =~= names(attributes@));
    let mu = pair(g1_random(), g2_random());
    let body = vstd::slice::slice_to_vec(plaintext);
    let ct = encrypt_symmetric(&mu, &body);
    let r = KpAbeCiphertext {
        e1: gt_mul(gt_pow(pk.e_gg_alpha, s.to_fr()), mu),
        e2: g2_mul(pk.g_g2, s.to_fr()),
        ej,
        ct,
    };
    proof {
        assert(r.ct@ == sealed(gt_bytes_of(mu), r.ct@.take(IV_LEN as int), plaintext@));
        lemma_ciphertext_witness(*pk, plaintext@, r, s, sx@, mu);
    }
    Some(r)
}

/// The attribute names of a ciphertext.
fn ciphertext_attributes(ct: &KpAbeCiphertext) -> (r: Vec<String>)
    ensures
        names(r@) == ct_attrs(ct.ej@),
{
    let mut r: Vec<String> = Vec::new();
    let mut i: usize = 0;
    while i < ct.ej.len()
        invariant
            i <= ct.ej@.len(),
            names(r@) == ct_attrs(ct.ej@).take(i as int),
        decreases ct.ej@.len() - i,
    {
        let a = ct.ej[i].attr.clone();
        let ghost before = r@;
        r.push(a);
        assert(names(r@) =~= names(before).push(a@));
        assert(ct_attrs(ct.ej@).take(i + 1) =~= ct_attrs(ct.ej@).take(i as int).push(a@));
        i += 1;
    }
    assert(ct_attrs(ct.ej@).take(i as int) =~= ct_attrs(ct.ej@));
    r
}

/// The position of the first key component with the tag.
fn find_key_component(dj: &Vec<KeyComponent>, label: &String) -> (r: Option<usize>)
    ensures
        r is Some ==> r->0 < dj@.len() && r->0 == first_index(key_labels(dj@), label@),
        r is None <==> !key_labels(dj@).contains(label@),
{
    let mut i: usize = 0;
    while i < dj.len()
        invariant
            i <= dj@.len(),
            forall|j: int| 0 <= j < i ==> dj@[j].label@ != label@,
        decreases dj@.len() - i,
    {
        if dj[i].label == *label {
            proof {
                assert forall|j: int| 0 <= j < i implies key_labels(dj@)[j] != label@ by {}
                lemma_first_index(key_labels(dj@), label@, i as int);
                assert(key_labels(dj@)[i as int] == label@);
            }
            return Some(i);
        }
        i += 1;
    }
    proof {
        if key_labels(dj@).contains(label@) {
            let k = choose|k: int| 0 <= k < key_labels(dj@).len() && key_labels(dj@)[k] == label@;
            assert(dj@[k].label@ == label@);
        }
    }
    None
}

/// The position of the first ciphertext component with the attribute.
fn find_ciphertext_component(ej: &Vec<CiphertextComponent>, attr: &String) -> (r: Option<usize>)
    ensures
        r is Some ==> r->0 < ej@.len() && r->0 == first_index(ct_attrs(ej@), attr@),
        r is None <==> !ct_attrs(ej@).contains(attr@),
{
    let mut i: usize = 0;
    while i < ej.len()
        invariant
            i <= ej@.len(),
            forall|j: int| 0 <= j < i ==> ej@[j].attr@ != attr@,
        decreases ej@.len() - i,
    {
        if ej[i].attr == *attr {
            proof {
                assert forall|j: int| 0 <= j < i implies ct_attrs(ej@)[j] != attr@ by {}
                lemma_first_index(ct_attrs(ej@), attr@, i as int);
                assert(ct_attrs(ej@)[i as int] == attr@);
            }
            return Some(i);
        }
        i += 1;
    }
    proof {
        if ct_attrs(ej@).contains(attr@) {
            let k = choose|k: int| 0 <= k < ct_attrs(ej@).len() && ct_attrs(ej@)[k] == attr@;
            assert(ej@[k].attr@ == attr@);
        }
    }
    None
}

/// The position of the first labelled scalar with the tag.
fn find_coefficient(coeffs: &Vec<(String, Scalar)>, label: &String) -> (r: Option<usize>)
    ensures
        r is Some ==> r->0 < coeffs@.len() && coeffs@[r->0 as int].0@ == label@,
        r is None ==> !share_labels(coeffs@).contains(label@),
{
    let mut i: usize = 0;
    while i < coeffs.len()
        invariant
            i <= coeffs@.len(),
            forall|j: int| 0 <= j < i ==> coeffs@[j].0@ != label@,
        decreases coeffs@.len() - i,
    {
        if coeffs[i].0 == *label {
            return Some(i);
        }
        i += 1;
    }
    proof {
        if share_labels(coeffs@).contains(label@) {
            let k = choose|k: int| 0 <= k < share_labels(coeffs@).len() && share_labels(coeffs@)[k]
                == label@;
            assert(coeffs@[k].0@ == label@);
        }
    }
    None
}

/// Pairs every key component with the ciphertext, as a recovery over all of
/// them would, so that an unsatisfied policy costs about the time of a
/// recovery.
fn pair_all_components(sk: &KpAbeSecretKey, ct: &KpAbeCiphertext) -> (r: rabe_bn::Gt) {
    let mut prod = ct.e1;
    let mut i: usize = 0;
    while i < sk.dj.len()
        decreases sk.dj@.len() - i,
    {
        let key = &sk.dj[i];
        prod = gt_mul(prod, gt_mul(pair(key.d1, ct.e2), pair(g1_neg(key.d1), key.d2)));
        i += 1;
    }
    prod
}

/// The target-group element that keys the ciphertext's envelope, as the
/// secret key recovers it. The key's policy is read again and pruned against
/// the ciphertext's attributes; for each leaf picked, the key component with
/// the leaf's tag and the ciphertext component of its attribute give
/// `e(D1, E2)·e(-E3, D2)`, raised to minus the leaf's coefficient; `E1` times
/// their product is the element. Refused: a policy text that spells no
/// policy, a policy with a negated leaf, attributes that do not satisfy the
/// policy (after pairing the key's components all the same, so that this
/// refusal takes about as long as a recovery), and a picked tag or attribute
/// missing from the key or the ciphertext, which cannot happen with a key whose tags are its policy's, as
/// keygen makes them.
pub fn decryption_element(sk: &KpAbeSecretKey, ct: &KpAbeCiphertext) -> (r: Option<rabe_bn::Gt>)
    ensures
        (forall|q: Policy| !spells(sk.policy@, q)) ==> r is None,
        forall|q: Policy|
            #[trigger] spells(sk.policy@, q) && (has_negation(q) || !holds(q, ct_attrs(ct.ej@)))
                ==> r is None,
        forall|q: Policy|
            #[trigger] spells(sk.policy@, q) && !has_negation(q) && holds(q, ct_attrs(ct.ej@))
                && key_labels(sk.dj@) == leaf_tags(q) ==> r is Some,
        forall|q: Policy|
            #[trigger] spells(sk.policy@, q) && r is Some ==> r->0 == recovered(
                sk.dj@,
                *ct,
                pruned_tags(q, ct_attrs(ct.ej@)),
                pruned(q, ct_attrs(ct.ej@)),
            ),
{
    let p = match parse_policy(sk.policy.as_str()) {
        Some(p) => p,
        None => return None,
    };
    let attrs = ciphertext_attributes(ct);
    let ghost set = ct_attrs(ct.ej@);
    proof {
        assert(spells(sk.policy@, p));
        assert forall|q: Policy| #[trigger] spells(sk.policy@, q) implies has_negation(p)
            == has_negation(q) && holds(p, set) == holds(q, set) && leaf_tags(p) == leaf_tags(q)
            && pruned(p, set) == pruned(q, set) && pruned_tags(p, set) == pruned_tags(q, set) by {
            lemma_tokens_same_policy(p, q);
            lemma_same_policy_alike(p, q, set);
        }
    }
    if p.contains_negation() {
        return None;
    }
    let (satisfied, list) = calc_pruned(&attrs, &p);
    if !satisfied {
        pair_all_components(sk, ct);
        return None;
    }
    let (_, tags) = calc_pruned_tags(&attrs, &p);
    let coeffs = calc_coefficients(&p);
    proof {
        lemma_pruned_tags_are_share_tags(p, set);
        lemma_pruned_labels_are_attributes(p, set);
        lemma_pruned_tag_count(p, set);
    }
    let ghost tl = names(tags@);
    let ghost nl = names(list@);
    let mut prod = ct.e1;
    let mut i: usize = 0;
    assert(tl.take(0) =~= Seq::<Seq<char>>::empty());
    while i < tags.len()
        invariant
            i <= tags@.len(),
            tags@.len() == list@.len(),
            tl == names(tags@),
            nl == names(list@),
            tl == pruned_tags(p, set),
            nl == pruned(p, set),
            set == ct_attrs(ct.ej@),
            share_labels(coeffs@) == leaf_tags(p),
            forall|j: int| 0 <= j < coeffs@.len() ==> (#[trigger] coeffs@[j]).1.value() == 1,
            forall|j: int| 0 <= j < tl.len() ==> leaf_tags(p).contains(#[trigger] tl[j]),
            forall|j: int| 0 <= j < nl.len() ==> set.contains(#[trigger] nl[j]),
            forall|q: Policy| #[trigger] spells(sk.policy@, q) ==> leaf_tags(p) == leaf_tags(q)
                && pruned(p, set) == pruned(q, set) && pruned_tags(p, set) == pruned_tags(q, set),
            prod == recovered(sk.dj@, *ct, tl.take(i as int), nl.take(i as int)),
        decreases tags@.len() - i,
    {
        let tag = &tags[i];
        let name = &list[i];
        assert(tl[i as int] == tag@ && nl[i as int] == name@);
        assert(leaf_tags(p).contains(tag@) && set.contains(name@));
        let k = match find_key_component(&sk.dj, tag) {
            Some(k) => k,
            None => {
                assert(key_labels(sk.dj@) != leaf_tags(p));
                return None;
            },
        };
        let c = match find_ciphertext_component(&ct.ej, name) {
            Some(c) => c,
            None => {
                return None;
            },
        };
        let w = match find_coefficient(&coeffs, tag) {
            Some(w) => w,
            None => {
                return None;
            },
        };
        let key = &sk.dj[k];
        let z = gt_mul(pair(key.d1, ct.e2), pair(g1_neg(ct.ej[c].e3), key.d2));
        let exponent = coeffs[w].1.neg();
        prod = gt_mul(prod, gt_pow(z, exponent.to_fr()));
        proof {
            assert(tl.take(i + 1).drop_last() =~= tl.take(i as int));
            assert(nl.take(i + 1).drop_last() =~= nl.take(i as int));
            assert(prod == gt_mul_of(
                recovered(sk.dj@, *ct, tl.take(i as int), nl.take(i as int)),
                blind_factor(sk.dj@, *ct, tag@, name@),
            ));
        }
        i += 1;
    }
    proof {
        assert(tl.take(i as int) =~= tl);
        assert(nl.take(i as int) =~= nl);
    }
    Some(prod)
}

/// Decrypts the ciphertext with the secret key: the element that
/// `decryption_element` recovers opens the symmetric envelope. Refused where
/// no element is recovered, and where the envelope is not an IV and whole
/// blocks or its padding is invalid. Where the key's tags are its policy's
/// and the attributes satisfy it, the result is exactly what the envelope
/// opens to under the recovered element; what is accepted is the sealing of
/// the plaintext returned under that element.
pub fn decrypt(sk: &KpAbeSecretKey, ct: &KpAbeCiphertext) -> (r: Option<Vec<u8>>)
    ensures
        (forall|q: Policy| !spells(sk.policy@, q)) ==> r is None,
        forall|q: Policy|
            #[trigger] spells(sk.policy@, q) && (has_negation(q) || !holds(q, ct_attrs(ct.ej@)))
                ==> r is None,
        !envelope_shaped(ct.ct@) ==> r is None,
        forall|q: Policy|
            #[trigger] spells(sk.policy@, q) && !has_negation(q) && holds(q, ct_attrs(ct.ej@))
                && key_labels(sk.dj@) == leaf_tags(q) ==> bytes_of(r) == envelope_plain(
                gt_bytes_of(
                    recovered(
                        sk.dj@,
                        *ct,
                        pruned_tags(q, ct_attrs(ct.ej@)),
                        pruned(q, ct_attrs(ct.ej@)),
                    ),
                ),
                ct.ct@,
            ),
        forall|q: Policy|
            #[trigger] spells(sk.policy@, q) && r is Some ==> ct.ct@ == sealed(
                gt_bytes_of(
                    recovered(
                        sk.dj@,
                        *ct,
                        pruned_tags(q, ct_attrs(ct.ej@)),
                        pruned(q, ct_attrs(ct.ej@)),
                    ),
                ),
                ct.ct@.take(IV_LEN as int),
                r->0@,
            ),
        forall|q: Policy, pt: Seq<u8>|
            spells(sk.policy@, q) && !has_negation(q) && holds(q, ct_attrs(ct.ej@)) && key_labels(
                sk.dj@,
            ) == leaf_tags(q) && envelope_shaped(ct.ct@) && ct.ct@ == #[trigger] sealed(
                gt_bytes_of(
                    recovered(
                        sk.dj@,
                        *ct,
                        pruned_tags(q, ct_attrs(ct.ej@)),
                        pruned(q, ct_attrs(ct.ej@)),
                    ),
                ),
                ct.ct@.take(IV_LEN as int),
                pt,
            ) ==> r is Some && r->0@ == pt,
{
    let mu = decryption_element(sk, ct)?;
    decrypt_symmetric(&mu, &ct.ct)
}

} // verus!
