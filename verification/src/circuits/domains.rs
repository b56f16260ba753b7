//! The four nested evaluation domains of a circuit.
//!
//! A circuit with `n` rows is evaluated over the multiplicative subgroup of
//! order `n` (rounded up to a power of two), and, for products of polynomials,
//! over the subgroups of two, four and eight times that order. The generator of
//! each is the square of the generator of the next larger one.

use crate::circuits::roots::{
    lemma_log2_ceil_least, lemma_pow2_32, lemma_pow2_increases, lemma_root_of_unity_chain,
    lemma_root_of_unity_order, log2_ceil, root_of_unity, TWO_ADICITY,
};
use crate::error::{DomainCreationError, DomainCreationFailure};
use crate::field::FieldElement;
use crate::modular::{modulus, mul_mod, pow2, pow_mod};
use ark_ff::PrimeField;
use ark_pallas::Fq;
use ark_poly::{EvaluationDomain as ArkEvaluationDomain, Radix2EvaluationDomain};
use vstd::pervasive::runtime_assert;
use vstd::prelude::*;

verus! {

/// A multiplicative subgroup of the field whose order is a power of two.
#[derive(Clone, Copy, Debug, PartialEq, Eq)]
pub struct EvaluationDomain {
    /// The number of points of the domain.
    pub size: u64,
    /// The binary logarithm of `size`.
    pub log_size_of_group: u32,
    /// A generator of the subgroup.
    pub group_gen: FieldElement,
}

/// The field and the machine both have room for a domain of order `2^log_size`.
pub open spec fn domain_exists(log_size: nat) -> bool {
    log_size <= TWO_ADICITY && pow2(log_size) <= usize::MAX
}

impl EvaluationDomain {
    /// The domain is the subgroup of order `2^log_size_of_group` with the
    /// generator that the field fixes for it.
    pub open spec fn wf(self) -> bool {
        &&& self.log_size_of_group <= TWO_ADICITY
        &&& self.size == pow2(self.log_size_of_group as nat)
        &&& self.group_gen@ == root_of_unity(self.log_size_of_group as nat)
    }

    /// The domain is the well-formed one of order `2^log_size`.
    pub open spec fn has_log_size(self, log_size: nat) -> bool {
        self.wf() && self.log_size_of_group == log_size
    }
}

/// The domains of `n`, `2n`, `4n` and `8n` points over which a circuit of `n`
/// rows is evaluated.
#[derive(Clone, Copy, Debug, PartialEq, Eq)]
pub struct EvaluationDomains {
    /// The domain of `n` points.
    pub d1: EvaluationDomain,
    /// The domain of `2n` points.
    pub d2: EvaluationDomain,
    /// The domain of `4n` points.
    pub d4: EvaluationDomain,
    /// The domain of `8n` points.
    pub d8: EvaluationDomain,
}

/// `n` times `scale`, or the largest `usize` where the product does not fit.
pub open spec fn scaled_size(n: usize, scale: usize) -> usize {
    if n * scale <= usize::MAX {
        (n * scale) as usize
    } else {
        usize::MAX
    }
}

/// What [`EvaluationDomains::create`] answers when it does not succeed for a
/// request of `n` points: which step failed, and on what size.
pub open spec fn creation_failure(n: usize) -> DomainCreationFailure {
    let k = log2_ceil(n as nat);
    let size = pow2(k) as usize;
    if !domain_exists(k) {
        DomainCreationFailure::DomainSizeFailed(n as nat)
    } else if !domain_exists(k + 1) {
        DomainCreationFailure::DomainConstructionFailed("d2"@, scaled_size(size, 2) as nat)
    } else if !domain_exists(k + 2) {
        DomainCreationFailure::DomainConstructionFailed("d4"@, scaled_size(size, 4) as nat)
    } else {
        DomainCreationFailure::DomainConstructionFailed("d8"@, scaled_size(size, 8) as nat)
    }
}

/// What [`EvaluationDomains::create`] owes for a request of `n` points. It
/// succeeds exactly when the largest of the four domains exists, with `d1` the
/// domain of the least power of two that is at least `n`; otherwise it fails
/// as [`creation_failure`] says.
pub open spec fn is_creation_of(n: usize, r: Result<EvaluationDomains, DomainCreationError>)
    -> bool {
    match r {
        Ok(domains) => {
            &&& domain_exists(log2_ceil(n as nat) + 3)
            &&& domains.wf()
            &&& domains.d1.log_size_of_group == log2_ceil(n as nat)
        },
        Err(e) => {
            &&& !domain_exists(log2_ceil(n as nat) + 3)
            &&& e@ == creation_failure(n)
        },
    }
}

impl EvaluationDomains {
    /// The four domains are well formed and each is twice the one before.
    pub open spec fn wf(self) -> bool {
        &&& self.d1.wf()
        &&& self.d2.has_log_size(self.d1.log_size_of_group as nat + 1)
        &&& self.d4.has_log_size(self.d1.log_size_of_group as nat + 2)
        &&& self.d8.has_log_size(self.d1.log_size_of_group as nat + 3)
    }

    /// Creates the domains `d1` of the least power of two that is at least
    /// `n`, and `d2`, `d4`, `d8` of two, four and eight times that size.
    ///
    /// It succeeds exactly when the largest of the four exists. Otherwise the
    /// error names the first step that has no domain: the sizing of `n`
    /// itself, or the construction of `d2`, `d4` or `d8`.
    pub fn create(n: usize) -> (r: Result<EvaluationDomains, DomainCreationError>)
        ensures
            is_creation_of(n, r),
    {
        let ghost k = log2_ceil(n as nat);
        proof {
            lemma_pow2_increases(k, k + 1);
            lemma_pow2_increases(k + 1, k + 2);
            lemma_pow2_increases(k + 2, k + 3);
        }
        let n: usize = match compute_size_of_domain(n) {
            Some(size) => size,
            None => {
                return Err(DomainCreationError::DomainSizeFailed(n));
            },
        };
        proof {
            lemma_log2_of_pow2(k);
            lemma_log2_of_pow2(k + 1);
            lemma_log2_of_pow2(k + 2);
            lemma_log2_of_pow2(k + 3);
            lemma_scaled_sizes(k);
        }

        let d1 = match new_domain(n) {
            Some(d) => d,
            None => {
                return Err(DomainCreationError::DomainConstructionFailed("d1".to_string(), n));
            },
        };

        // The larger domains are there to operate on polynomials in
        // evaluation form: the domain has to grow with the degree.
        let n2: usize = scale(n, 2);
        let d2 = match new_domain(n2) {
            Some(d) => d,
            None => {
                return Err(DomainCreationError::DomainConstructionFailed("d2".to_string(), n2));
            },
        };
        let n4: usize = scale(n, 4);
        let d4 = match new_domain(n4) {
            Some(d) => d,
            None => {
                return Err(DomainCreationError::DomainConstructionFailed("d4".to_string(), n4));
            },
        };
        let n8: usize = scale(n, 8);
        let d8 = match new_domain(n8) {
            Some(d) => d,
            None => {
                return Err(DomainCreationError::DomainConstructionFailed("d8".to_string(), n8));
            },
        };

        // The generators are chained by squaring. This is proved of the
        // generators that the contracts name, and checked again on the values
        // that were computed.
        proof {
            lemma_root_of_unity_chain(k);
            lemma_root_of_unity_chain(k + 1);
            lemma_root_of_unity_chain(k + 2);
        }
        let g2 = d2.group_gen.square();
        let g4 = d4.group_gen.square();
        let g8 = d8.group_gen.square();
        proof {
            FieldElement::lemma_view_injective(g2, d1.group_gen);
            FieldElement::lemma_view_injective(g4, d2.group_gen);
            FieldElement::lemma_view_injective(g8, d4.group_gen);
        }
        runtime_assert(g2 == d1.group_gen);
        runtime_assert(g4 == d2.group_gen);
        runtime_assert(g8 == d4.group_gen);

        Ok(EvaluationDomains { d1, d2, d4, d8 })
    }

    /// In well-formed domains each generator is the square of the next, and
    /// each generator raised to the size of its domain is one.
    pub proof fn lemma_generator_chain(self)
        requires
            self.wf(),
        ensures
            mul_mod(self.d2.group_gen@, self.d2.group_gen@) == self.d1.group_gen@,
            mul_mod(self.d4.group_gen@, self.d4.group_gen@) == self.d2.group_gen@,
            mul_mod(self.d8.group_gen@, self.d8.group_gen@) == self.d4.group_gen@,
            pow_mod(self.d1.group_gen@, self.d1.size as nat) == 1,
            pow_mod(self.d2.group_gen@, self.d2.size as nat) == 1,
            pow_mod(self.d4.group_gen@, self.d4.size as nat) == 1,
            pow_mod(self.d8.group_gen@, self.d8.size as nat) == 1,
    {
        let k = self.d1.log_size_of_group as nat;
        lemma_root_of_unity_chain(k);
        lemma_root_of_unity_chain(k + 1);
        lemma_root_of_unity_chain(k + 2);
        lemma_root_of_unity_order(k);
        lemma_root_of_unity_order(k + 1);
        lemma_root_of_unity_order(k + 2);
        lemma_root_of_unity_order(k + 3);
    }

    /// In well-formed domains the sizes are one, two, four and eight times the
    /// size of `d1`.
    pub proof fn lemma_sizes(self)
        requires
            self.wf(),
        ensures
            self.d2.size == 2 * self.d1.size,
            self.d4.size == 4 * self.d1.size,
            self.d8.size == 8 * self.d1.size,
    {
        let k = self.d1.log_size_of_group as nat;
        assert(pow2(k + 1) == 2 * pow2(k));
        assert(pow2(k + 2) == 2 * pow2(k + 1));
        assert(pow2(k + 3) == 2 * pow2(k + 2));
    }

    /// The domains created for `n` points start at the least power of two
    /// that is at least `n`, and double from there.
    pub proof fn lemma_created_sizes(self, n: usize)
        requires
            is_creation_of(n, Ok(self)),
        ensures
            self.d1.size >= n,
            forall|j: nat| pow2(j) >= n ==> self.d1.size <= pow2(j),
            self.d2.size == 2 * self.d1.size,
            self.d4.size == 4 * self.d1.size,
            self.d8.size == 8 * self.d1.size,
    {
        lemma_log2_ceil_least(n as nat);
        self.lemma_sizes();
        assert forall|j: nat| pow2(j) >= n implies self.d1.size <= pow2(j) by {
            lemma_pow2_increases(log2_ceil(n as nat), j);
        }
    }

    /// Creation is a function of the request: two answers to the same `n`
    /// both succeed or both fail, with the same domains, generators and sizes,
    /// or with the same failure.
    pub proof fn lemma_creation_is_determined(
        n: usize,
        first: Result<EvaluationDomains, DomainCreationError>,
        second: Result<EvaluationDomains, DomainCreationError>,
    )
        requires
            is_creation_of(n, first),
            is_creation_of(n, second),
        ensures
            first is Ok <==> second is Ok,
            first matches Ok(a) ==> second matches Ok(b) && a == b,
            first matches Err(e) ==> second matches Err(f) && e@ == f@,
    {
        if let Ok(a) = first {
            if let Ok(b) = second {
                a.lemma_determined_by_size(b);
            }
        }
    }

    /// Well-formed domains are determined by the size of `d1`: two of them
    /// with the same `d1.size` are equal in every size and every generator.
    pub proof fn lemma_determined_by_size(self, other: EvaluationDomains)
        requires
            self.wf(),
            other.wf(),
            self.d1.size == other.d1.size,
        ensures
            self == other,
    {
        let j = self.d1.log_size_of_group as nat;
        let k = other.d1.log_size_of_group as nat;
        if j < k {
            lemma_pow2_strict(j, k);
        }
        if k < j {
            lemma_pow2_strict(k, j);
        }
        FieldElement::lemma_view_injective(self.d1.group_gen, other.d1.group_gen);
        FieldElement::lemma_view_injective(self.d2.group_gen, other.d2.group_gen);
        FieldElement::lemma_view_injective(self.d4.group_gen, other.d4.group_gen);
        FieldElement::lemma_view_injective(self.d8.group_gen, other.d8.group_gen);
    }
}

impl EvaluationDomain {
    /// The generator of a well-formed domain has exactly the order `size`: its
    /// `size`-th power is one, and, where the domain has more than one point,
    /// its `size/2`-th power is `-1`.
    pub proof fn lemma_generator_order(self)
        requires
            self.wf(),
        ensures
            self.group_gen@ < modulus(),
            pow_mod(self.group_gen@, self.size as nat) == 1,
            self.size > 1 ==> pow_mod(self.group_gen@, (self.size / 2) as nat) == (modulus()
                - 1) as nat,
    {
        let k = self.log_size_of_group as nat;
        lemma_root_of_unity_order(k);
        if k > 0 {
            assert(pow2(k) == 2 * pow2((k - 1) as nat));
        }
    }
}

/// Powers of two grow strictly with the exponent.
proof fn lemma_pow2_strict(j: nat, k: nat)
    requires
        j < k,
    ensures
        pow2(j) < pow2(k),
{
    lemma_pow2_increases(j + 1, k);
    lemma_pow2_increases(j, j);
    assert(pow2(j + 1) == 2 * pow2(j));
}

/// The least power of two that reaches `2^k` is `2^k` itself.
proof fn lemma_log2_of_pow2(k: nat)
    ensures
        log2_ceil(pow2(k)) == k,
{
    lemma_log2_ceil_least(pow2(k));
    let j = log2_ceil(pow2(k));
    if j < k {
        lemma_pow2_strict(j, k);
    }
}

/// Where the domain of order `2^k` exists, the scaled sizes are the next
/// powers of two as long as those exist, and past them they have no domain.
proof fn lemma_scaled_sizes(k: nat)
    requires
        domain_exists(k),
    ensures
        domain_exists(k + 1) ==> scaled_size(pow2(k) as usize, 2) == pow2(k + 1),
        domain_exists(k + 2) ==> scaled_size(pow2(k) as usize, 4) == pow2(k + 2),
        domain_exists(k + 3) ==> scaled_size(pow2(k) as usize, 8) == pow2(k + 3),
        !domain_exists(k + 1) ==> !domain_exists(log2_ceil(scaled_size(pow2(k) as usize, 2) as nat)),
        !domain_exists(k + 2) ==> !domain_exists(log2_ceil(scaled_size(pow2(k) as usize, 4) as nat)),
        !domain_exists(k + 3) ==> !domain_exists(log2_ceil(scaled_size(pow2(k) as usize, 8) as nat)),
{
    assert(pow2(k + 1) == 2 * pow2(k));
    assert(pow2(k + 2) == 2 * pow2(k + 1));
    assert(pow2(k + 3) == 2 * pow2(k + 2));
    lemma_log2_of_pow2(k + 1);
    lemma_log2_of_pow2(k + 2);
    lemma_log2_of_pow2(k + 3);
    reveal_with_fuel(pow2, 4);
    if !domain_exists(k + 1) {
        lemma_unreachable_size(k, 1);
    }
    if !domain_exists(k + 2) {
        lemma_unreachable_size(k, 2);
    }
    if !domain_exists(k + 3) {
        lemma_unreachable_size(k, 3);
    }
}

/// Where `2^(k+j)` has no domain, neither has the size that `2^k` scaled by
/// `2^j` comes to.
proof fn lemma_unreachable_size(k: nat, j: nat)
    requires
        domain_exists(k),
        1 <= j <= 3,
        !domain_exists(k + j),
    ensures
        !domain_exists(log2_ceil(scaled_size(pow2(k) as usize, pow2(j) as usize) as nat)),
{
    reveal_with_fuel(pow2, 4);
    lemma_pow2_32();
    lemma_pow2_add(k, j);
    let s = scaled_size(pow2(k) as usize, pow2(j) as usize);
    if pow2(k + j) <= usize::MAX {
        lemma_log2_of_pow2(k + j);
    } else {
        lemma_log2_ceil_least(usize::MAX as nat);
        let m = log2_ceil(usize::MAX as nat);
        if pow2(m) <= usize::MAX {
            lemma_usize_max_not_pow2(m);
        }
    }
}

/// `2^(j+k) = 2^j * 2^k`.
proof fn lemma_pow2_add(j: nat, k: nat)
    ensures
        pow2(j + k) == pow2(j) * pow2(k),
    decreases k,
{
    if k == 0 {
        assert(pow2(j) * 1 == pow2(j));
    } else {
        lemma_pow2_add(j, (k - 1) as nat);
        assert(pow2(j + k) == 2 * pow2((j + k - 1) as nat));
        assert(pow2(j) * (2 * pow2((k - 1) as nat)) == 2 * (pow2(j) * pow2((k - 1) as nat)))
            by (nonlinear_arith);
    }
}

/// The largest `usize` is odd and above one, so it is no power of two.
proof fn lemma_usize_max_not_pow2(m: nat)
    ensures
        pow2(m) != usize::MAX,
{
    if m > 0 {
        assert(pow2(m) == 2 * pow2((m - 1) as nat));
    }
    assert(usize::MAX == 0xffff_ffff || usize::MAX == 0xffff_ffff_ffff_ffff);
}

/// `n` times `scale`, or the largest `usize` where the product does not fit.
fn scale(n: usize, factor: usize) -> (r: usize)
    ensures
        r == scaled_size(n, factor),
{
    match n.checked_mul(factor) {
        Some(product) => product,
        None => usize::MAX,
    }
}

/// `Radix2EvaluationDomain::<Fq>::compute_size_of_domain` of `ark-poly`: the
/// least power of two that is at least `n`, where it fits a `usize` and the
/// field has a subgroup of that order (its binary logarithm is at most 32);
/// `None` otherwise.
#[verifier::external_body]
fn compute_size_of_domain(n: usize) -> (r: Option<usize>)
    ensures
        r is Some <==> domain_exists(log2_ceil(n as nat)),
        r matches Some(size) ==> size == pow2(log2_ceil(n as nat)),
{
    Radix2EvaluationDomain::<Fq>::compute_size_of_domain(n)
}

/// `Radix2EvaluationDomain::<Fq>::new` of `ark-poly`: the domain whose size is
/// the least power of two that is at least `n`, on the same condition as
/// `compute_size_of_domain`. Its generator is the root of unity of order
/// `2^32` that the field fixes, squared once for each power of two that the
/// size is below `2^32`; it is handed over as its canonical integer.
#[verifier::external_body]
fn new_domain(n: usize) -> (r: Option<EvaluationDomain>)
    ensures
        r is Some <==> domain_exists(log2_ceil(n as nat)),
        r matches Some(d) ==> d.has_log_size(log2_ceil(n as nat)) && d.group_gen.wf(),
{
    match Radix2EvaluationDomain::<Fq>::new(n) {
        Some(d) => Some(
            EvaluationDomain {
                size: d.size,
                log_size_of_group: d.log_size_of_group,
                group_gen: FieldElement::from_canonical_limbs(d.group_gen.into_bigint().0),
            },
        ),
        None => None,
    }
}

} // verus!
