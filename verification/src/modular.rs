//! Integers modulo the prime of the Pallas base field.
//!
//! Every contract of the library that speaks of a field operation does so
//! through the functions of this module.

use vstd::arithmetic::div_mod::{
    lemma_add_mod_noop, lemma_mod_bound, lemma_mul_mod_noop_general, lemma_small_mod,
};
use vstd::arithmetic::mul::{lemma_mul_is_associative, lemma_mul_is_commutative, lemma_mul_nonnegative};
use vstd::prelude::*;

verus! {

/// The prime `p` of the field.
pub open spec fn modulus() -> nat {
    0x40000000000000000000000000000000224698fc094cf91b992d30ed00000001nat
}

/// Sum of two integers, reduced modulo `p`.
pub open spec fn add_mod(a: nat, b: nat) -> nat {
    (a + b) % modulus()
}

/// Product of two integers, reduced modulo `p`.
pub open spec fn mul_mod(a: nat, b: nat) -> nat {
    (a * b) % modulus()
}

/// `base` raised to `exp`, reduced modulo `p`.
pub open spec fn pow_mod(base: nat, exp: nat) -> nat
    decreases exp,
{
    if exp == 0 {
        1
    } else {
        mul_mod(base, pow_mod(base, (exp - 1) as nat))
    }
}

/// `x` squared `k` times in a row, modulo `p`: `x^(2^k)`.
pub open spec fn repeated_square(x: nat, k: nat) -> nat
    decreases k,
{
    if k == 0 {
        x
    } else {
        repeated_square(mul_mod(x, x), (k - 1) as nat)
    }
}

/// Two to the power `k`.
pub open spec fn pow2(k: nat) -> nat
    decreases k,
{
    if k == 0 {
        1
    } else {
        2 * pow2((k - 1) as nat)
    }
}

/// Sums and products modulo `p` are reduced.
pub proof fn lemma_reduced(a: nat, b: nat)
    ensures
        add_mod(a, b) < modulus(),
        mul_mod(a, b) < modulus(),
{
    lemma_mul_nonnegative(a as int, b as int);
    lemma_mod_bound((a + b) as int, modulus() as int);
    lemma_mod_bound((a * b) as int, modulus() as int);
}

/// A factor may be reduced before the product is.
pub proof fn lemma_mul_mod_absorb(a: nat, b: nat)
    ensures
        mul_mod(a % modulus(), b) == mul_mod(a, b),
        mul_mod(a, b % modulus()) == mul_mod(a, b),
{
    lemma_mul_mod_noop_general(a as int, b as int, modulus() as int);
}

/// Multiplication modulo `p` is commutative and associative.
pub proof fn lemma_mul_mod_laws(a: nat, b: nat, c: nat)
    ensures
        mul_mod(a, b) == mul_mod(b, a),
        mul_mod(mul_mod(a, b), c) == mul_mod(a, mul_mod(b, c)),
{
    lemma_mul_is_commutative(a as int, b as int);
    lemma_mul_nonnegative(a as int, b as int);
    lemma_mul_nonnegative(b as int, c as int);
    lemma_mul_mod_absorb(a * b, c);
    lemma_mul_mod_absorb(a, b * c);
    lemma_mul_is_associative(a as int, b as int, c as int);
}

/// A summand may be reduced before the sum is.
pub proof fn lemma_add_mod_absorb(a: nat, b: nat)
    ensures
        add_mod(a % modulus(), b) == add_mod(a, b),
        add_mod(a, b % modulus()) == add_mod(a, b),
        add_mod(a % modulus(), b % modulus()) == add_mod(a, b),
{
    let m = modulus() as int;
    lemma_add_mod_noop(a as int, b as int, m);
    lemma_add_mod_noop(a as int % m, b as int, m);
    lemma_add_mod_noop(a as int, b as int % m, m);
    lemma_mod_bound(a as int, m);
    lemma_mod_bound(b as int, m);
    lemma_small_mod(a % modulus(), modulus());
    lemma_small_mod(b % modulus(), modulus());
}

/// The power of a product of exponents: `base^(2e) = (base^2)^e`.
pub proof fn lemma_pow_mod_double(base: nat, exp: nat)
    ensures
        pow_mod(base, 2 * exp) == pow_mod(mul_mod(base, base), exp),
    decreases exp,
{
    if exp > 0 {
        let e1 = (exp - 1) as nat;
        lemma_pow_mod_double(base, e1);
        let rest = pow_mod(base, 2 * e1);
        assert(pow_mod(base, 2 * exp) == mul_mod(base, pow_mod(base, (2 * exp - 1) as nat)));
        assert((2 * exp - 1) as nat - 1 == 2 * e1);
        assert(pow_mod(base, (2 * exp - 1) as nat) == mul_mod(base, rest));
        lemma_mul_mod_laws(base, base, rest);
    }
}

/// Squaring `k` times raises to the power `2^k`.
pub proof fn lemma_repeated_square_is_pow(x: nat, k: nat)
    requires
        x < modulus(),
    ensures
        repeated_square(x, k) == pow_mod(x, pow2(k)),
    decreases k,
{
    if k == 0 {
        assert(pow_mod(x, 1) == mul_mod(x, pow_mod(x, 0)));
        lemma_small_mod(x, modulus());
        assert(x * 1 == x);
    } else {
        lemma_reduced(x, x);
        lemma_repeated_square_is_pow(mul_mod(x, x), (k - 1) as nat);
        lemma_pow_mod_double(x, pow2((k - 1) as nat));
    }
}

/// Squaring `j` times and then `k` times squares `j + k` times.
pub proof fn lemma_repeated_square_adds(x: nat, j: nat, k: nat)
    ensures
        repeated_square(repeated_square(x, j), k) == repeated_square(x, j + k),
    decreases j,
{
    if j > 0 {
        lemma_repeated_square_adds(mul_mod(x, x), (j - 1) as nat, k);
        assert((j - 1) as nat + k == (j + k - 1) as nat);
    }
}

/// One more squaring at the end: `x^(2^(k+1)) = (x^(2^k))^2`.
pub proof fn lemma_repeated_square_last(x: nat, k: nat)
    ensures
        repeated_square(x, k + 1) == mul_mod(repeated_square(x, k), repeated_square(x, k)),
{
    lemma_repeated_square_adds(x, k, 1);
    let y = repeated_square(x, k);
    assert(repeated_square(y, 1) == repeated_square(mul_mod(y, y), 0));
}

} // verus!
