//! Elements of the Pallas base field, held as canonical integers.
//!
//! A [`FieldElement`] stores the integer in `0..p` that names the element, as
//! four little-endian 64-bit limbs. Its view is that integer. The arithmetic
//! itself is done by `ark-ff`; the contracts of the operations are stated over
//! integers modulo `p`.

use crate::modular::{add_mod, modulus, mul_mod, pow_mod};
use ark_ff::{BigInt, Field, PrimeField};
use ark_pallas::Fq;
use vstd::arithmetic::div_mod::lemma_fundamental_div_mod_converse;
use vstd::prelude::*;

verus! {

/// The integer whose little-endian base-`2^64` digits are the four limbs.
pub open spec fn limbs_value(l0: u64, l1: u64, l2: u64, l3: u64) -> nat {
    (l0 as nat) + (l1 as nat) * 0x1_0000_0000_0000_0000nat + (l2 as nat)
        * 0x1_0000_0000_0000_0000_0000_0000_0000_0000nat + (l3 as nat)
        * 0x1_0000_0000_0000_0000_0000_0000_0000_0000_0000_0000_0000_0000nat
}

/// The limbs of an integer are its digits: each is fixed by the integer.
proof fn lemma_limbs_determined(l0: u64, l1: u64, l2: u64, l3: u64, v: nat)
    requires
        v == limbs_value(l0, l1, l2, l3),
    ensures
        l0 == v % 0x1_0000_0000_0000_0000nat,
        l1 == (v / 0x1_0000_0000_0000_0000nat) % 0x1_0000_0000_0000_0000nat,
        l2 == (v / 0x1_0000_0000_0000_0000_0000_0000_0000_0000nat) % 0x1_0000_0000_0000_0000nat,
        l3 == v / 0x1_0000_0000_0000_0000_0000_0000_0000_0000_0000_0000_0000_0000nat,
{
    let b: int = 0x1_0000_0000_0000_0000;
    let q1: int = l1 + l2 * b + l3 * (b * b);
    let q2: int = l2 + l3 * b;
    let q3: int = l3 as int;
    assert(b * b == 0x1_0000_0000_0000_0000_0000_0000_0000_0000int);
    assert(b * b * b == 0x1_0000_0000_0000_0000_0000_0000_0000_0000_0000_0000_0000_0000int);
    lemma_fundamental_div_mod_converse(v as int, b, q1, l0 as int);
    lemma_fundamental_div_mod_converse(q1, b, q2, l1 as int);
    lemma_fundamental_div_mod_converse(v as int, b * b, q2, l0 + l1 * b);
    lemma_fundamental_div_mod_converse(q2, b, q3, l2 as int);
    lemma_fundamental_div_mod_converse(v as int, b * b * b, q3, l0 + l1 * b + l2 * (b * b));
}

/// The element of a small integer names that integer.
pub proof fn lemma_of_small(v: u64)
    ensures
        FieldElement::of(v as nat)@ == v,
        FieldElement::of(v as nat).wf(),
{
}

/// The limbs of `p`, least significant first.
const MODULUS_L0: u64 = 0x992d30ed00000001;

const MODULUS_L1: u64 = 0x224698fc094cf91b;

const MODULUS_L3: u64 = 0x4000000000000000;

/// An element of the field, as its canonical integer in four 64-bit limbs.
#[derive(Clone, Copy, Debug, PartialEq, Eq, Structural)]
pub struct FieldElement {
    l0: u64,
    l1: u64,
    l2: u64,
    l3: u64,
}

impl View for FieldElement {
    type V = nat;

    closed spec fn view(&self) -> nat {
        limbs_value(self.l0, self.l1, self.l2, self.l3)
    }
}

impl FieldElement {
    /// The stored integer is canonical: it lies below `p`.
    #[verifier::type_invariant]
    pub open spec fn wf(self) -> bool {
        self@ < modulus()
    }

    /// The element whose canonical integer is `v`, for `v` below `2^256`.
    pub closed spec fn of(v: nat) -> FieldElement {
        FieldElement {
            l0: (v % 0x1_0000_0000_0000_0000nat) as u64,
            l1: ((v / 0x1_0000_0000_0000_0000nat) % 0x1_0000_0000_0000_0000nat) as u64,
            l2: ((v / 0x1_0000_0000_0000_0000_0000_0000_0000_0000nat)
                % 0x1_0000_0000_0000_0000nat) as u64,
            l3: (v / 0x1_0000_0000_0000_0000_0000_0000_0000_0000_0000_0000_0000_0000nat) as u64,
        }
    }

    /// Every element is the element of its integer.
    pub proof fn lemma_of_view(self)
        ensures
            FieldElement::of(self@) == self,
    {
        lemma_limbs_determined(self.l0, self.l1, self.l2, self.l3, self@);
    }

    /// Two elements are the same value exactly when they name the same integer.
    pub proof fn lemma_view_injective(a: FieldElement, b: FieldElement)
        ensures
            (a@ == b@) <==> (a == b),
    {
        if a@ == b@ {
            lemma_limbs_determined(a.l0, a.l1, a.l2, a.l3, a@);
            lemma_limbs_determined(b.l0, b.l1, b.l2, b.l3, b@);
        }
    }

    /// The element zero.
    pub fn zero() -> (r: FieldElement)
        ensures
            r == FieldElement::of(0),
            r@ == 0,
            r.wf(),
    {
        let r = FieldElement { l0: 0, l1: 0, l2: 0, l3: 0 };
        proof {
            r.lemma_of_view();
        }
        r
    }

    /// The element one.
    pub fn one() -> (r: FieldElement)
        ensures
            r == FieldElement::of(1),
            r@ == 1,
            r.wf(),
    {
        let r = FieldElement { l0: 1, l1: 0, l2: 0, l3: 0 };
        proof {
            r.lemma_of_view();
        }
        r
    }

    /// The element named by a small integer.
    pub fn from_u64(value: u64) -> (r: FieldElement)
        ensures
            r == FieldElement::of(value as nat),
            r@ == value,
            r.wf(),
    {
        let r = FieldElement { l0: value, l1: 0, l2: 0, l3: 0 };
        proof {
            r.lemma_of_view();
        }
        r
    }

    /// The element whose canonical integer has these limbs, least significant
    /// first; `None` when that integer is not below `p`.
    pub fn from_limbs(limbs: [u64; 4]) -> (r: Option<FieldElement>)
        ensures
            r is Some <==> limbs_value(limbs[0], limbs[1], limbs[2], limbs[3]) < modulus(),
            r matches Some(e) ==> e@ == limbs_value(limbs[0], limbs[1], limbs[2], limbs[3])
                && e.wf(),
    {
        let l0: u64 = limbs[0];
        let l1: u64 = limbs[1];
        let l2: u64 = limbs[2];
        let l3: u64 = limbs[3];
        let below = l3 < MODULUS_L3 || (l3 == MODULUS_L3 && l2 == 0 && (l1 < MODULUS_L1 || (l1
            == MODULUS_L1 && l0 < MODULUS_L0)));
        if below {
            Some(FieldElement { l0, l1, l2, l3 })
        } else {
            None
        }
    }

    /// The element with these limbs, which are known to name an integer
    /// below `p`.
    pub(crate) fn from_canonical_limbs(limbs: [u64; 4]) -> (r: FieldElement)
        requires
            limbs_value(limbs[0], limbs[1], limbs[2], limbs[3]) < modulus(),
        ensures
            r@ == limbs_value(limbs[0], limbs[1], limbs[2], limbs[3]),
            r.wf(),
    {
        FieldElement { l0: limbs[0], l1: limbs[1], l2: limbs[2], l3: limbs[3] }
    }

    /// The limbs of the canonical integer, least significant first.
    pub fn to_limbs(&self) -> (r: [u64; 4])
        ensures
            limbs_value(r[0], r[1], r[2], r[3]) == self@,
    {
        [self.l0, self.l1, self.l2, self.l3]
    }

    /// The sum of two elements.
    pub fn add(&self, other: &FieldElement) -> (r: FieldElement)
        ensures
            r@ == add_mod(self@, other@),
            r.wf(),
    {
        proof {
            use_type_invariant(self);
            use_type_invariant(other);
        }
        ark_add(self, other)
    }

    /// The product of two elements.
    pub fn mul(&self, other: &FieldElement) -> (r: FieldElement)
        ensures
            r@ == mul_mod(self@, other@),
            r.wf(),
    {
        proof {
            use_type_invariant(self);
            use_type_invariant(other);
        }
        ark_mul(self, other)
    }

    /// The square of this element.
    pub fn square(&self) -> (r: FieldElement)
        ensures
            r@ == mul_mod(self@, self@),
            r.wf(),
    {
        proof {
            use_type_invariant(self);
        }
        ark_square(self)
    }

    /// This element raised to the power `exp`.
    pub fn pow(&self, exp: u64) -> (r: FieldElement)
        ensures
            r@ == pow_mod(self@, exp as nat),
            r.wf(),
    {
        proof {
            use_type_invariant(self);
        }
        ark_pow(self, exp)
    }
}

/// Addition of `ark-ff` on the elements that the limbs name: the result names
/// the sum of the two integers modulo `p`, and is canonical.
#[verifier::external_body]
fn ark_add(a: &FieldElement, b: &FieldElement) -> (r: FieldElement)
    requires
        a.wf(),
        b.wf(),
    ensures
        r.wf(),
        r@ == add_mod(a@, b@),
{
    let x = Fq::from(BigInt::new([a.l0, a.l1, a.l2, a.l3]));
    let y = Fq::from(BigInt::new([b.l0, b.l1, b.l2, b.l3]));
    let z = (x + y).into_bigint().0;
    FieldElement { l0: z[0], l1: z[1], l2: z[2], l3: z[3] }
}

/// Multiplication of `ark-ff` on the elements that the limbs name: the result
/// names the product of the two integers modulo `p`, and is canonical.
#[verifier::external_body]
fn ark_mul(a: &FieldElement, b: &FieldElement) -> (r: FieldElement)
    requires
        a.wf(),
        b.wf(),
    ensures
        r.wf(),
        r@ == mul_mod(a@, b@),
{
    let x = Fq::from(BigInt::new([a.l0, a.l1, a.l2, a.l3]));
    let y = Fq::from(BigInt::new([b.l0, b.l1, b.l2, b.l3]));
    let z = (x * y).into_bigint().0;
    FieldElement { l0: z[0], l1: z[1], l2: z[2], l3: z[3] }
}

/// `Field::square` of `ark-ff` on the element that the limbs name: the result
/// names the square of that integer modulo `p`, and is canonical.
#[verifier::external_body]
fn ark_square(a: &FieldElement) -> (r: FieldElement)
    requires
        a.wf(),
    ensures
        r.wf(),
        r@ == mul_mod(a@, a@),
{
    let x = Fq::from(BigInt::new([a.l0, a.l1, a.l2, a.l3]));
    let y = x.square().into_bigint().0;
    FieldElement { l0: y[0], l1: y[1], l2: y[2], l3: y[3] }
}

/// `Field::pow` of `ark-ff`, with a one-limb exponent, on the element that the
/// limbs name: the result names that integer raised to `exp` modulo `p` (one
/// for `exp == 0`), and is canonical.
#[verifier::external_body]
fn ark_pow(a: &FieldElement, exp: u64) -> (r: FieldElement)
    requires
        a.wf(),
    ensures
        r.wf(),
        r@ == pow_mod(a@, exp as nat),
{
    let x = Fq::from(BigInt::new([a.l0, a.l1, a.l2, a.l3]));
    let y = x.pow([exp]).into_bigint().0;
    FieldElement { l0: y[0], l1: y[1], l2: y[2], l3: y[3] }
}

} // verus!
