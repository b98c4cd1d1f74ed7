//! The pairing groups of the Barreto-Naehrig curve, as the `rabe-bn` crate
//! provides them. Their elements are opaque here: the scheme carries them and
//! combines them through the operations below.

use vstd::prelude::*;
use rabe_bn::Group;

verus! {

#[verifier::external_type_specification]
#[verifier::external_body]
pub struct ExFr(rabe_bn::Fr);

#[verifier::external_type_specification]
#[verifier::external_body]
pub struct ExG1(rabe_bn::G1);

#[verifier::external_type_specification]
#[verifier::external_body]
pub struct ExG2(rabe_bn::G2);

#[verifier::external_type_specification]
#[verifier::external_body]
pub struct ExGt(rabe_bn::Gt);

/// The element of Fr that an integer below the order stands for.
pub uninterp spec fn fr_of(v: int) -> rabe_bn::Fr;

/// The product of two elements of Fr.
pub uninterp spec fn fr_mul_of(a: rabe_bn::Fr, b: rabe_bn::Fr) -> rabe_bn::Fr;

/// Whether an element of Fr is zero.
pub uninterp spec fn fr_is_zero_of(a: rabe_bn::Fr) -> bool;

/// 64 big-endian bytes reduced modulo the order of Fr.
pub uninterp spec fn fr_wide_of(bytes: Seq<u8>) -> rabe_bn::Fr;

/// The sum of two elements of G1.
pub uninterp spec fn g1_add_of(a: rabe_bn::G1, b: rabe_bn::G1) -> rabe_bn::G1;

/// The inverse of an element of G1.
pub uninterp spec fn g1_neg_of(a: rabe_bn::G1) -> rabe_bn::G1;

/// An element of G1 multiplied by a scalar.
pub uninterp spec fn g1_mul_of(a: rabe_bn::G1, k: rabe_bn::Fr) -> rabe_bn::G1;

/// An element of G2 multiplied by a scalar.
pub uninterp spec fn g2_mul_of(a: rabe_bn::G2, k: rabe_bn::Fr) -> rabe_bn::G2;

/// The pairing of an element of G1 with one of G2.
pub uninterp spec fn pair_of(p: rabe_bn::G1, q: rabe_bn::G2) -> rabe_bn::Gt;

/// The product of two elements of Gt.
pub uninterp spec fn gt_mul_of(a: rabe_bn::Gt, b: rabe_bn::Gt) -> rabe_bn::Gt;

/// An element of Gt raised to a scalar.
pub uninterp spec fn gt_pow_of(a: rabe_bn::Gt, k: rabe_bn::Fr) -> rabe_bn::Gt;

/// Relies on rabe_bn's `Mul` for Fr: the product in the scalar field.
#[verifier::external_body]
pub(crate) fn fr_mul(a: rabe_bn::Fr, b: rabe_bn::Fr) -> (r: rabe_bn::Fr)
    ensures
        r == fr_mul_of(a, b),
{
    a * b
}

/// Relies on rabe_bn::Fr::is_zero: whether the element is zero.
#[verifier::external_body]
pub(crate) fn fr_is_zero(a: &rabe_bn::Fr) -> (r: bool)
    ensures
        r == fr_is_zero_of(*a),
{
    a.is_zero()
}

/// Relies on rabe_bn::Fr::interpret: 64 big-endian bytes reduced modulo the
/// order of Fr.
#[verifier::external_body]
pub(crate) fn fr_from_wide_bytes(bytes: &Vec<u8>) -> (r: rabe_bn::Fr)
    requires
        bytes@.len() == 64,
    ensures
        r == fr_wide_of(bytes@),
{
    let mut buf = [0u8; 64];
    buf.copy_from_slice(bytes);
    rabe_bn::Fr::interpret(&buf)
}

/// Relies on rabe_bn's `Group::random` for G1, fed by the thread-local
/// random number generator.
#[verifier::external_body]
pub(crate) fn g1_random() -> (r: rabe_bn::G1) {
    rabe_bn::G1::random(&mut rand::thread_rng())
}

/// Relies on rabe_bn's `Group::random` for G2, fed by the thread-local
/// random number generator.
#[verifier::external_body]
pub(crate) fn g2_random() -> (r: rabe_bn::G2) {
    rabe_bn::G2::random(&mut rand::thread_rng())
}

/// Relies on rabe_bn's `Add` for G1: the group law.
#[verifier::external_body]
pub(crate) fn g1_add(a: rabe_bn::G1, b: rabe_bn::G1) -> (r: rabe_bn::G1)
    ensures
        r == g1_add_of(a, b),
{
    a + b
}

/// Relies on rabe_bn's `Neg` for G1: the inverse in the group.
#[verifier::external_body]
pub(crate) fn g1_neg(a: rabe_bn::G1) -> (r: rabe_bn::G1)
    ensures
        r == g1_neg_of(a),
{
    -a
}

/// Relies on rabe_bn's `Mul<Fr>` for G1: scalar multiplication.
#[verifier::external_body]
pub(crate) fn g1_mul(a: rabe_bn::G1, k: rabe_bn::Fr) -> (r: rabe_bn::G1)
    ensures
        r == g1_mul_of(a, k),
{
    a * k
}

/// Relies on rabe_bn's `Mul<Fr>` for G2: scalar multiplication.
#[verifier::external_body]
pub(crate) fn g2_mul(a: rabe_bn::G2, k: rabe_bn::Fr) -> (r: rabe_bn::G2)
    ensures
        r == g2_mul_of(a, k),
{
    a * k
}

/// Relies on rabe_bn::pairing: the bilinear map from G1 and G2 to Gt.
#[verifier::external_body]
pub(crate) fn pair(p: rabe_bn::G1, q: rabe_bn::G2) -> (r: rabe_bn::Gt)
    ensures
        r == pair_of(p, q),
{
    rabe_bn::pairing(p, q)
}

/// Relies on rabe_bn's `Mul` for Gt: the group law of the target group.
#[verifier::external_body]
pub(crate) fn gt_mul(a: rabe_bn::Gt, b: rabe_bn::Gt) -> (r: rabe_bn::Gt)
    ensures
        r == gt_mul_of(a, b),
{
    a * b
}

/// Relies on rabe_bn::Gt::pow: exponentiation by a scalar.
#[verifier::external_body]
pub(crate) fn gt_pow(a: rabe_bn::Gt, k: rabe_bn::Fr) -> (r: rabe_bn::Gt)
    ensures
        r == gt_pow_of(a, k),
{
    a.pow(k)
}

/// The serialization of a target-group element.
pub uninterp spec fn gt_bytes_of(a: rabe_bn::Gt) -> Seq<u8>;

/// Relies on rabe_bn::Gt::into_bytes: the element's fixed serialization,
/// which depends on the element alone.
#[verifier::external_body]
pub(crate) fn gt_bytes(a: &rabe_bn::Gt) -> (r: Vec<u8>)
    ensures
        r@ == gt_bytes_of(*a),
{
    a.into_bytes()
}

} // verus!
