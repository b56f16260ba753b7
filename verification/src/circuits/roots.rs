//! The roots of unity that generate the radix-2 domains of the field.
//!
//! The multiplicative group of the field has order `p - 1 = 2^32 * t` with `t`
//! odd. `5` generates it, so `5^t` has order exactly `2^32`; the generator of
//! the subgroup of order `2^k` is that root squared `32 - k` times.

use crate::modular::{
    lemma_repeated_square_adds, lemma_repeated_square_is_pow, lemma_repeated_square_last, modulus,
    mul_mod, pow2, pow_mod, repeated_square,
};
use vstd::prelude::*;

verus! {

/// The largest `k` for which the field has a subgroup of order `2^k`.
pub const TWO_ADICITY: u32 = 32;

/// The root of unity of order `2^32` that the field fixes: `5^((p - 1) / 2^32)`.
pub open spec fn two_adic_root_of_unity() -> nat {
    0x2bce74deac30ebda362120830561f81aea322bf2b7bb7584bdad6fabd87ea32fnat
}

/// The generator of the subgroup of order `2^log_size`, for `log_size <= 32`.
pub open spec fn root_of_unity(log_size: nat) -> nat {
    repeated_square(two_adic_root_of_unity(), (TWO_ADICITY - log_size) as nat)
}

/// The least `k` with `2^k >= n`.
pub open spec fn log2_ceil(n: nat) -> nat
    decreases n,
{
    if n <= 1 {
        0
    } else {
        1 + log2_ceil((n + 1) / 2)
    }
}

/// `log2_ceil(n)` is the least exponent whose power of two reaches `n`.
pub proof fn lemma_log2_ceil_least(n: nat)
    ensures
        pow2(log2_ceil(n)) >= n,
        forall|j: nat| pow2(j) >= n ==> log2_ceil(n) <= j,
    decreases n,
{
    if n <= 1 {
    } else {
        let half = (n + 1) / 2;
        lemma_log2_ceil_least(half);
        assert forall|j: nat| pow2(j) >= n implies log2_ceil(n) <= j by {
            if j == 0 {
                assert(pow2(0) == 1);
            } else {
                assert(pow2(j) == 2 * pow2((j - 1) as nat));
                assert(pow2((j - 1) as nat) >= half);
            }
        }
    }
}

/// Powers of two grow with the exponent.
pub proof fn lemma_pow2_increases(j: nat, k: nat)
    requires
        j <= k,
    ensures
        0 < pow2(j) <= pow2(k),
    decreases k,
{
    if j < k {
        lemma_pow2_increases(j, (k - 1) as nat);
    } else if k > 0 {
        lemma_pow2_increases((j - 1) as nat, (k - 1) as nat);
    }
}

/// The value of `2^32`.
pub proof fn lemma_pow2_32()
    ensures
        pow2(32) == 0x1_0000_0000,
{
    reveal_with_fuel(pow2, 33);
}

/// The fixed root has order `2^32`: squared 31 times it is `-1`, squared once
/// more it is `1`.
pub proof fn lemma_two_adic_root_order()
    ensures
        repeated_square(two_adic_root_of_unity(), 31) == (modulus() - 1) as nat,
        repeated_square(two_adic_root_of_unity(), 32) == 1,
{
    let w = two_adic_root_of_unity();
    assert(repeated_square(w, 0) == w);
    lemma_square_step(w, 0, 0x2bce74deac30ebda362120830561f81aea322bf2b7bb7584bdad6fabd87ea32fnat, 0x2c4273e5d2eb1de98c9176cb401abf06c4938ab16ac69c2b9645ee87acea193bnat);
    lemma_square_step(w, 1, 0x2c4273e5d2eb1de98c9176cb401abf06c4938ab16ac69c2b9645ee87acea193bnat, 0x2e99e0eeba6afb04d748bb4c8f7746167a3163883882dd3401793e65f9e09bbdnat);
    lemma_square_step(w, 2, 0x2e99e0eeba6afb04d748bb4c8f7746167a3163883882dd3401793e65f9e09bbdnat, 0x223b10e2909d647727473e05119a70bf69fe5716194f8d1100e79397659a24ednat);
    lemma_square_step(w, 3, 0x223b10e2909d647727473e05119a70bf69fe5716194f8d1100e79397659a24ednat, 0x88ef444b9a63e67dce3f521ea318e20d55a3e3fa4f0d2de615bd0d717c62c05nat);
    lemma_square_step(w, 4, 0x88ef444b9a63e67dce3f521ea318e20d55a3e3fa4f0d2de615bd0d717c62c05nat, 0x38bbffdbaedf01944c6fb4257565f4a05376d4d8ce7e86f50d96bb7262957d3nat);
    lemma_square_step(w, 5, 0x38bbffdbaedf01944c6fb4257565f4a05376d4d8ce7e86f50d96bb7262957d3nat, 0x2b32b23c415d3e576c4d05c1b1d89d9ba57789d36d6a6e3726a28916f7e648e1nat);
    lemma_square_step(w, 6, 0x2b32b23c415d3e576c4d05c1b1d89d9ba57789d36d6a6e3726a28916f7e648e1nat, 0x365bd233e19a77476101c7698b1c063f5b7353922f426d682549375fb22e49d3nat);
    lemma_square_step(w, 7, 0x365bd233e19a77476101c7698b1c063f5b7353922f426d682549375fb22e49d3nat, 0x31951d72cbf5ee0d78d9867098e13b79fb81505e6db526ce5190e23731a54569nat);
    lemma_square_step(w, 8, 0x31951d72cbf5ee0d78d9867098e13b79fb81505e6db526ce5190e23731a54569nat, 0x1c6a098fa72833f405a8dc469477bbe65b995f8670713a0fc3831c6abcf38cb1nat);
    lemma_square_step(w, 9, 0x1c6a098fa72833f405a8dc469477bbe65b995f8670713a0fc3831c6abcf38cb1nat, 0xd8c20d3f81693b34d98347484bde7a92c9244a2a37a6ded9bfb7e07b75cb10cnat);
    lemma_square_step(w, 10, 0xd8c20d3f81693b34d98347484bde7a92c9244a2a37a6ded9bfb7e07b75cb10cnat, 0x44694ccde4116800af467b81f89c782f175600cc0aed539085db943eb10148enat);
    lemma_square_step(w, 11, 0x44694ccde4116800af467b81f89c782f175600cc0aed539085db943eb10148enat, 0x3a4a077c9c0654e7e98d9f1c0b146bf64171285db283f84b463f4019b18ed31bnat);
    lemma_square_step(w, 12, 0x3a4a077c9c0654e7e98d9f1c0b146bf64171285db283f84b463f4019b18ed31bnat, 0x1c6807d58325da33dfb456db63dcf180e1491c6808fe947b90d867fbd3e61b7fnat);
    lemma_square_step(w, 13, 0x1c6807d58325da33dfb456db63dcf180e1491c6808fe947b90d867fbd3e61b7fnat, 0x14078ea8cdee85a0950d9a272227e4f52c624e853d02ad879ec22f8bf80662c4nat);
    lemma_square_step(w, 14, 0x14078ea8cdee85a0950d9a272227e4f52c624e853d02ad879ec22f8bf80662c4nat, 0xf971f9f81878a727f025b2aca0774ead6d1be12fb8a867820245ff86e558730nat);
    lemma_square_step(w, 15, 0xf971f9f81878a727f025b2aca0774ead6d1be12fb8a867820245ff86e558730nat, 0x23222d06029d21a655392ad9dda387278c1c46359289a4d3d465aafc06d1cf1anat);
    lemma_roots_lower_half();
}

/// One squaring of a known power of the fixed root.
proof fn lemma_square_step(w: nat, k: nat, before: nat, after: nat)
    requires
        repeated_square(w, k) == before,
        mul_mod(before, before) == after,
    ensures
        repeated_square(w, k + 1) == after,
{
    lemma_repeated_square_last(w, k);
}

/// The second half of the squarings of the fixed root, down to `1`.
proof fn lemma_roots_lower_half()
    requires
        repeated_square(two_adic_root_of_unity(), 16)
            == 0x23222d06029d21a655392ad9dda387278c1c46359289a4d3d465aafc06d1cf1anat,
    ensures
        repeated_square(two_adic_root_of_unity(), 31) == (modulus() - 1) as nat,
        repeated_square(two_adic_root_of_unity(), 32) == 1,
{
    let w = two_adic_root_of_unity();
    lemma_square_step(w, 16, 0x23222d06029d21a655392ad9dda387278c1c46359289a4d3d465aafc06d1cf1anat, 0x2fd0767705fa5b03402039fc9e89ad1de3c85d25401fd8dd898dce603d1c0f3enat);
    lemma_square_step(w, 17, 0x2fd0767705fa5b03402039fc9e89ad1de3c85d25401fd8dd898dce603d1c0f3enat, 0x1aa07732b05972abcadc042243371883e38cca91106ecac1e26a77c64bc5bec4nat);
    lemma_square_step(w, 18, 0x1aa07732b05972abcadc042243371883e38cca91106ecac1e26a77c64bc5bec4nat, 0x3b402c2cbd0a0660626f1948867533cfd2a80abd33d0e808075a3efc92d52d2nat);
    lemma_square_step(w, 19, 0x3b402c2cbd0a0660626f1948867533cfd2a80abd33d0e808075a3efc92d52d2nat, 0x28961bbd9c63b7bd7c75f72e02a9727d14d99e7985184470d34cd1b8ef03001nat);
    lemma_square_step(w, 20, 0x28961bbd9c63b7bd7c75f72e02a9727d14d99e7985184470d34cd1b8ef03001nat, 0x181b50ad5f32119e31cbd395426d600b7a9b88bcaaa1c24eef28545aada17813nat);
    lemma_square_step(w, 21, 0x181b50ad5f32119e31cbd395426d600b7a9b88bcaaa1c24eef28545aada17813nat, 0x1421deb15f5ce205068512b010382353dc0aa1b40386a1c14774c65664bb8182nat);
    lemma_square_step(w, 22, 0x1421deb15f5ce205068512b010382353dc0aa1b40386a1c14774c65664bb8182nat, 0xcb8102d0128ebb25343154773101eaf1a9daef679667eb4bd1e06b973e985e4nat);
    lemma_square_step(w, 23, 0xcb8102d0128ebb25343154773101eaf1a9daef679667eb4bd1e06b973e985e4nat, 0x21d0b0a3be45b5ee2ff5140e6007a63bc5ac7dc51c50ed52ebf2f918f4d603c9nat);
    lemma_square_step(w, 24, 0x21d0b0a3be45b5ee2ff5140e6007a63bc5ac7dc51c50ed52ebf2f918f4d603c9nat, 0xa31cd9ef8679794deeb656fd6b01c97550149e556476b314244fb708d44fc3nat);
    lemma_square_step(w, 25, 0xa31cd9ef8679794deeb656fd6b01c97550149e556476b314244fb708d44fc3nat, 0x1868ca50534a180d97ff23a878e088b0b9569c85b0a15d666c23ded157fceebanat);
    lemma_square_step(w, 26, 0x1868ca50534a180d97ff23a878e088b0b9569c85b0a15d666c23ded157fceebanat, 0xcc3380dc616f2e1daf29ad1560833ed3baea3393eceb7bc8fa36376929b78ccnat);
    lemma_square_step(w, 27, 0xcc3380dc616f2e1daf29ad1560833ed3baea3393eceb7bc8fa36376929b78ccnat, 0x17e6c570737897f385e789dcbc7a09bd4f82ab3e1182aecd80ec9d0beefa6c6dnat);
    lemma_square_step(w, 28, 0x17e6c570737897f385e789dcbc7a09bd4f82ab3e1182aecd80ec9d0beefa6c6dnat, 0x3f8f1cc60c6da729d26301123de65ed9c73bfb511bf223ac1d15074e708ac5aenat);
    lemma_square_step(w, 29, 0x3f8f1cc60c6da729d26301123de65ed9c73bfb511bf223ac1d15074e708ac5aenat, 0x36bdcc7b0f28b5df31744fb72326829dff98203a45f8ebf0e047f48898cdb6dbnat);
    lemma_square_step(w, 30, 0x36bdcc7b0f28b5df31744fb72326829dff98203a45f8ebf0e047f48898cdb6dbnat, 0x40000000000000000000000000000000224698fc094cf91b992d30ed00000000nat);
    lemma_square_step(w, 31, 0x40000000000000000000000000000000224698fc094cf91b992d30ed00000000nat, 1);
}

/// Squaring the generator of the subgroup of order `2^(k+1)` gives the
/// generator of the subgroup of order `2^k`.
pub proof fn lemma_root_of_unity_chain(k: nat)
    requires
        k < TWO_ADICITY,
    ensures
        mul_mod(root_of_unity(k + 1), root_of_unity(k + 1)) == root_of_unity(k),
{
    lemma_repeated_square_last(two_adic_root_of_unity(), (TWO_ADICITY - (k + 1)) as nat);
}

/// The generator of the subgroup of order `2^k` has exactly that order: its
/// `2^k`-th power is `1`, and for `k > 0` its `2^(k-1)`-th power is `-1`.
pub proof fn lemma_root_of_unity_order(k: nat)
    requires
        k <= TWO_ADICITY,
    ensures
        root_of_unity(k) < modulus(),
        pow_mod(root_of_unity(k), pow2(k)) == 1,
        k > 0 ==> pow_mod(root_of_unity(k), pow2((k - 1) as nat)) == (modulus() - 1) as nat,
{
    let w = two_adic_root_of_unity();
    let up = (TWO_ADICITY - k) as nat;
    lemma_two_adic_root_order();
    lemma_repeated_square_reduced(w, up);
    lemma_repeated_square_is_pow(root_of_unity(k), k);
    lemma_repeated_square_adds(w, up, k);
    if k > 0 {
        lemma_repeated_square_is_pow(root_of_unity(k), (k - 1) as nat);
        lemma_repeated_square_adds(w, up, (k - 1) as nat);
    }
}

/// Repeated squares of a reduced integer are reduced.
proof fn lemma_repeated_square_reduced(x: nat, k: nat)
    requires
        x < modulus(),
    ensures
        repeated_square(x, k) < modulus(),
    decreases k,
{
    if k > 0 {
        crate::modular::lemma_reduced(x, x);
        lemma_repeated_square_reduced(mul_mod(x, x), (k - 1) as nat);
    }
}

} // verus!
