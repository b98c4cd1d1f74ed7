//! Scalars of the pairing group's field, held as their canonical integer
//! below the group order, with the modular arithmetic the secret sharing needs.

use vstd::prelude::*;
use crate::entropy::random_below;
use crate::group::fr_of;

verus! {

/// 2^128, the weight of the high half of a scalar.
pub open spec fn half() -> int {
    u128::MAX as int + 1
}

/// High 128 bits of the order of the scalar field.
pub const ORDER_HI: u128 = 0x30644e72e131a029b85045b68181585d;

/// Low 128 bits of the order of the scalar field.
pub const ORDER_LO: u128 = 0x2833e84879b9709143e1f593f0000001;

/// Two-digit numerals in base 2^128: how sums, differences and comparisons
/// of the numerals follow from their digits.
proof fn lemma_digits(ah: int, al: int, bh: int, bl: int)
    requires
        0 <= al < half(),
        0 <= bl < half(),
    ensures
        (ah * half() + al) - (bh * half() + bl) == (ah - bh) * half() + (al - bl),
        (ah * half() + al) + (bh * half() + bl) == (ah + bh) * half() + (al + bl),
        ah > bh ==> ah * half() + al > bh * half() + bl,
        ah < bh ==> ah * half() + al < bh * half() + bl,
{
    let h = half();
    assert((ah * h + al) - (bh * h + bl) == (ah - bh) * h + (al - bl)) by (nonlinear_arith);
    assert((ah * h + al) + (bh * h + bl) == (ah + bh) * h + (al + bl)) by (nonlinear_arith);
    assert(ah > bh ==> ah * h + al > bh * h + bl) by (nonlinear_arith)
        requires
            0 <= al < h,
            0 <= bl < h,
    ;
    assert(ah < bh ==> ah * h + al < bh * h + bl) by (nonlinear_arith)
        requires
            0 <= al < h,
            0 <= bl < h,
    ;
}

/// The order of the scalar field Fr of the Barreto-Naehrig curve.
pub open spec fn order() -> int {
    ORDER_HI as int * half() + ORDER_LO as int
}

proof fn lemma_order_bounds()
    ensures
        0 < order(),
        2 * order() < half() * half(),
{
    let h = half();
    let oh = ORDER_HI as int;
    let ol = ORDER_LO as int;
    assert(2 * (oh * h + ol) < h * h) by (nonlinear_arith)
        requires
            0 <= ol < h,
            2 * oh + 2 < h,
    ;
    assert(0 < oh * h + ol) by (nonlinear_arith)
        requires
            0 <= ol,
            0 < oh,
            0 < h,
    ;
}

/// A sum of two reduced scalars, reduced once more when it reaches the order.
proof fn lemma_reduce_sum(x: int)
    requires
        0 <= x < 2 * order(),
    ensures
        x < order() ==> x % order() == x,
        x >= order() ==> x % order() == x - order(),
{
    lemma_order_bounds();
    if x < order() {
        vstd::arithmetic::div_mod::lemma_small_mod(x as nat, order() as nat);
    } else {
        vstd::arithmetic::div_mod::lemma_mod_add_multiples_vanish(x - order(), order());
        vstd::arithmetic::div_mod::lemma_small_mod((x - order()) as nat, order() as nat);
    }
}

/// A difference of two reduced scalars, lifted by the order when negative.
proof fn lemma_reduce_difference(x: int)
    requires
        -order() < x < order(),
    ensures
        x >= 0 ==> x % order() == x,
        x < 0 ==> x % order() == x + order(),
{
    lemma_order_bounds();
    if x >= 0 {
        vstd::arithmetic::div_mod::lemma_small_mod(x as nat, order() as nat);
    } else {
        vstd::arithmetic::div_mod::lemma_mod_add_multiples_vanish(x, order());
        vstd::arithmetic::div_mod::lemma_small_mod((x + order()) as nat, order() as nat);
    }
}

/// Draws of a scalar that fall at or above the order are drawn again, up to
/// this many times.
const DRAW_ATTEMPTS: u32 = 64;

/// A two-digit numeral in base 2^128, not necessarily reduced.
#[derive(Clone, Copy)]
struct Digits {
    hi: u128,
    lo: u128,
}

impl Digits {
    spec fn value(&self) -> int {
        self.hi as int * half() + self.lo as int
    }

    fn order_value() -> (r: Digits)
        ensures
            r.value() == order(),
    {
        Digits { hi: ORDER_HI, lo: ORDER_LO }
    }

    /// Whether this numeral is at least the other.
    fn at_least(&self, other: &Digits) -> (r: bool)
        ensures
            r == (self.value() >= other.value()),
    {
        proof {
            lemma_digits(self.hi as int, self.lo as int, other.hi as int, other.lo as int);
        }
        self.hi > other.hi || (self.hi == other.hi && self.lo >= other.lo)
    }

    /// Plain difference, without reduction.
    fn minus(&self, other: &Digits) -> (r: Digits)
        requires
            self.value() >= other.value(),
        ensures
            r.value() == self.value() - other.value(),
    {
        proof {
            lemma_digits(self.hi as int, self.lo as int, other.hi as int, other.lo as int);
        }
        if self.lo >= other.lo {
            Digits { hi: self.hi - other.hi, lo: self.lo - other.lo }
        } else {
            Digits { hi: self.hi - other.hi - 1, lo: (u128::MAX - other.lo) + self.lo + 1 }
        }
    }

    /// Plain sum, without reduction.
    fn plus(&self, other: &Digits) -> (r: Digits)
        requires
            self.value() + other.value() < half() * half(),
        ensures
            r.value() == self.value() + other.value(),
    {
        proof {
            lemma_digits(self.hi as int, self.lo as int, other.hi as int, other.lo as int);
            let h = half();
            assert((self.hi + other.hi) * h <= (h - 1) * h ==> self.hi + other.hi < h) by (nonlinear_arith)
                requires h > 0;
            assert(self.hi + other.hi >= h ==> (self.hi + other.hi) * h >= h * h) by (nonlinear_arith)
                requires h > 0;
            assert(self.hi + other.hi + 1 >= h ==> (self.hi + other.hi + 1) * h >= h * h) by (nonlinear_arith)
                requires h > 0;
        }
        if self.lo <= u128::MAX - other.lo {
            Digits { hi: self.hi + other.hi, lo: self.lo + other.lo }
        } else {
            Digits { hi: self.hi + other.hi + 1, lo: self.lo - (u128::MAX - other.lo) - 1 }
        }
    }
}

/// An integer modulo the group order, stored as two 128-bit halves and always
/// reduced below the order.
#[derive(Clone, Copy)]
pub struct Scalar {
    hi: u128,
    lo: u128,
}

impl Scalar {
    /// The integer that the two halves spell.
    pub closed spec fn value(&self) -> int {
        self.hi as int * half() + self.lo as int
    }

    #[verifier::type_invariant]
    spec fn reduced(&self) -> bool {
        self.value() < order()
    }

    /// Brings into view that the scalar is reduced below the group order;
    /// does nothing at run time.
    pub fn known_reduced(&self)
        ensures
            0 <= self.value() < order(),
    {
        proof {
            use_type_invariant(self);
            assert(0 <= self.hi as int * half()) by (nonlinear_arith)
                requires
                    self.hi >= 0,
                    half() > 0,
            ;
        }
    }

    fn to_digits(&self) -> (r: Digits)
        ensures
            r.value() == self.value(),
    {
        Digits { hi: self.hi, lo: self.lo }
    }

    fn from_digits(d: Digits) -> (r: Scalar)
        requires
            0 <= d.value() < order(),
        ensures
            r.value() == d.value(),
    {
        Scalar { hi: d.hi, lo: d.lo }
    }

    pub fn zero() -> (r: Scalar)
        ensures
            r.value() == 0,
    {
        proof {
            lemma_order_bounds();
        }
        Scalar { hi: 0, lo: 0 }
    }

    pub fn one() -> (r: Scalar)
        ensures
            r.value() == 1,
    {
        proof {
            lemma_order_bounds();
            lemma_digits(0, 1, ORDER_HI as int, ORDER_LO as int);
        }
        Scalar { hi: 0, lo: 1 }
    }

    pub fn from_u64(v: u64) -> (r: Scalar)
        ensures
            r.value() == v as int,
    {
        proof {
            lemma_digits(0, v as int, ORDER_HI as int, ORDER_LO as int);
        }
        Scalar { hi: 0, lo: v as u128 }
    }

    /// Builds a scalar from a high and a low half; refuses halves that spell
    /// an integer at or above the group order.
    pub fn from_halves(hi: u128, lo: u128) -> (r: Option<Scalar>)
        ensures
            r is Some <==> (hi as int) * half() + (lo as int) < order(),
            r is Some ==> (r->0).value() == hi as int * half() + lo as int,
    {
        proof {
            lemma_digits(hi as int, lo as int, ORDER_HI as int, ORDER_LO as int);
        }
        if hi < ORDER_HI || (hi == ORDER_HI && lo < ORDER_LO) {
            Some(Scalar { hi, lo })
        } else {
            None
        }
    }

    /// A scalar drawn uniformly below the group order: the high half below or
    /// at the order's high half, the low half freely, and the pair drawn again
    /// while it spells an integer at or above the order. After the last
    /// attempt the high half is drawn strictly below the order's.
    pub fn random() -> (r: Scalar) {
        let mut attempt: u32 = 0;
        while attempt < DRAW_ATTEMPTS
            decreases DRAW_ATTEMPTS - attempt,
        {
            let hi = random_below(ORDER_HI + 1);
            let lo: u128 = rand::random();
            if let Some(s) = Scalar::from_halves(hi, lo) {
                return s;
            }
            attempt += 1;
        }
        let hi = random_below(ORDER_HI);
        let lo: u128 = rand::random();
        proof {
            lemma_digits(hi as int, lo as int, ORDER_HI as int, ORDER_LO as int);
        }
        Scalar { hi, lo }
    }

    /// Addition modulo the group order.
    pub fn add(&self, other: &Scalar) -> (r: Scalar)
        ensures
            r.value() == (self.value() + other.value()) % order(),
    {
        self.known_reduced();
        other.known_reduced();
        proof {
            lemma_order_bounds();
            lemma_reduce_sum(self.value() + other.value());
        }
        let m = Digits::order_value();
        let s = self.to_digits().plus(&other.to_digits());
        if s.at_least(&m) {
            Scalar::from_digits(s.minus(&m))
        } else {
            Scalar::from_digits(s)
        }
    }

    /// Subtraction modulo the group order.
    pub fn sub(&self, other: &Scalar) -> (r: Scalar)
        ensures
            r.value() == (self.value() - other.value()) % order(),
    {
        self.known_reduced();
        other.known_reduced();
        proof {
            lemma_order_bounds();
            lemma_reduce_difference(self.value() - other.value());
        }
        let a = self.to_digits();
        let b = other.to_digits();
        if a.at_least(&b) {
            Scalar::from_digits(a.minus(&b))
        } else {
            let gap = Digits::order_value().minus(&b);
            Scalar::from_digits(gap.plus(&a))
        }
    }

    /// The additive inverse modulo the group order.
    pub fn neg(&self) -> (r: Scalar)
        ensures
            r.value() == (0 - self.value()) % order(),
    {
        Scalar::zero().sub(self)
    }

    /// The high and the low half of the scalar's integer.
    pub fn halves(&self) -> (r: (u128, u128))
        ensures
            r.0 as int * half() + r.1 as int == self.value(),
    {
        (self.hi, self.lo)
    }

    /// Whether two scalars are the same integer.
    pub fn equals(&self, other: &Scalar) -> (r: bool)
        ensures
            r == (self.value() == other.value()),
    {
        proof {
            lemma_digits(self.hi as int, self.lo as int, other.hi as int, other.lo as int);
        }
        self.hi == other.hi && self.lo == other.lo
    }

    /// Relies on rabe_bn::Fr::from_slice: the 32 big-endian bytes of the
    /// scalar's integer, which is below the field's modulus, read as an
    /// element of Fr.
    #[verifier::external_body]
    pub(crate) fn to_fr(&self) -> (r: rabe_bn::Fr)
        ensures
            r == fr_of(self.value()),
    {
        let bytes = [self.hi.to_be_bytes(), self.lo.to_be_bytes()].concat();
        rabe_bn::Fr::from_slice(&bytes).unwrap()
    }
}

} // verus!
