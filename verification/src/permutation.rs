//! The Poseidon permutation on concrete field elements.
//!
//! One round raises each of the three state elements to the S-box power,
//! multiplies the state by the MDS matrix and adds the constants of the round.
//! The number of rounds, the S-box power, the matrix and the constants belong
//! to the protocol that the hash is used in; they come in as
//! [`PoseidonParams`].

use crate::field::FieldElement;
use crate::modular::{add_mod, lemma_add_mod_absorb, modulus, pow_mod};
use vstd::prelude::*;

verus! {

/// The parameters of one instance of the permutation.
#[derive(Debug)]
pub struct PoseidonParams {
    /// The constants added at the end of each round: one row per round.
    pub round_constants: Vec<[FieldElement; 3]>,
    /// The matrix that mixes the state, by rows.
    pub mds: [[FieldElement; 3]; 3],
    /// The power that the S-box raises to.
    pub sbox_exponent: u64,
}

/// [`PoseidonParams`] as integers.
pub struct PoseidonParamsView {
    pub round_constants: Seq<Seq<nat>>,
    pub mds: Seq<Seq<nat>>,
    pub sbox_exponent: nat,
}

/// The integers that a sequence of field elements names.
pub open spec fn values(elements: Seq<FieldElement>) -> Seq<nat> {
    elements.map_values(|e: FieldElement| e@)
}

impl View for PoseidonParams {
    type V = PoseidonParamsView;

    open spec fn view(&self) -> PoseidonParamsView {
        PoseidonParamsView {
            round_constants: self.round_constants@.map_values(
                |row: [FieldElement; 3]| values(row@),
            ),
            mds: self.mds@.map_values(|row: [FieldElement; 3]| values(row@)),
            sbox_exponent: self.sbox_exponent as nat,
        }
    }
}

impl PoseidonParamsView {
    /// The number of rounds of the permutation.
    pub open spec fn rounds(self) -> nat {
        self.round_constants.len()
    }

    /// The S-box: `x` raised to the S-box power.
    pub open spec fn sbox(self, x: nat) -> nat {
        pow_mod(x, self.sbox_exponent)
    }

    /// Row `i` of the MDS matrix times the state.
    pub open spec fn mix(self, i: int, state: Seq<nat>) -> nat {
        (self.mds[i][0] * state[0] + self.mds[i][1] * state[1] + self.mds[i][2] * state[2])
            % modulus()
    }

    /// The state after round `r` is applied to `state`.
    pub open spec fn full_round(self, state: Seq<nat>, r: int) -> Seq<nat> {
        let boxed = seq![self.sbox(state[0]), self.sbox(state[1]), self.sbox(state[2])];
        seq![
            add_mod(self.mix(0, boxed), self.round_constants[r][0]),
            add_mod(self.mix(1, boxed), self.round_constants[r][1]),
            add_mod(self.mix(2, boxed), self.round_constants[r][2]),
        ]
    }

    /// The state after the first `n` rounds are applied to `state`.
    pub open spec fn state_after(self, state: Seq<nat>, n: nat) -> Seq<nat>
        decreases n,
    {
        if n == 0 {
            state
        } else {
            self.full_round(self.state_after(state, (n - 1) as nat), n - 1)
        }
    }

    /// The whole permutation of `state`.
    pub open spec fn permutation(self, state: Seq<nat>) -> Seq<nat> {
        self.state_after(state, self.rounds())
    }

    /// The hash of a pair: the first two elements of the permutation of the
    /// pair, with zero in the capacity.
    pub open spec fn hash(self, left: nat, right: nat) -> (nat, nat) {
        let out = self.permutation(seq![left, right, 0]);
        (out[0], out[1])
    }
}

impl PoseidonParams {
    /// The number of rounds of the permutation.
    pub fn rounds(&self) -> (r: usize)
        ensures
            r == self@.rounds(),
    {
        self.round_constants.len()
    }

    /// A copy of the parameters.
    pub fn duplicate(&self) -> (r: PoseidonParams)
        ensures
            r@ == self@,
            r.round_constants@ == self.round_constants@,
            r.mds == self.mds,
            r.sbox_exponent == self.sbox_exponent,
    {
        let mut round_constants: Vec<[FieldElement; 3]> = Vec::new();
        let mut i: usize = 0;
        while i < self.round_constants.len()
            invariant
                i <= self.round_constants.len(),
                round_constants@ == self.round_constants@.take(i as int),
            decreases self.round_constants.len() - i,
        {
            round_constants.push(self.round_constants[i]);
            i += 1;
        }
        assert(round_constants@ == self.round_constants@);
        PoseidonParams { round_constants, mds: self.mds, sbox_exponent: self.sbox_exponent }
    }
}

/// The product of one row of the matrix and the state.
fn mix_row(row: &[FieldElement; 3], state: &[FieldElement; 3]) -> (r: FieldElement)
    ensures
        r@ == (row@[0]@ * state@[0]@ + row@[1]@ * state@[1]@ + row@[2]@ * state@[2]@) % modulus(),
        r.wf(),
{
    let t0 = row[0].mul(&state[0]);
    let t1 = row[1].mul(&state[1]);
    let t2 = row[2].mul(&state[2]);
    let r = t0.add(&t1).add(&t2);
    proof {
        let a = row@[0]@ * state@[0]@;
        let b = row@[1]@ * state@[1]@;
        let c = row@[2]@ * state@[2]@;
        lemma_add_mod_absorb(a, b);
        lemma_add_mod_absorb(a + b, c);
    }
    r
}

/// Applies round `r` of the permutation to `state`.
pub fn full_round(
    params: &PoseidonParams,
    state: &[FieldElement; 3],
    r: usize,
) -> (out: [FieldElement; 3])
    requires
        r < params@.rounds(),
    ensures
        values(out@) == params@.full_round(values(state@), r as int),
{
    let e: u64 = params.sbox_exponent;
    let boxed = [state[0].pow(e), state[1].pow(e), state[2].pow(e)];
    let constants = &params.round_constants[r];
    let out = [
        mix_row(&params.mds[0], &boxed).add(&constants[0]),
        mix_row(&params.mds[1], &boxed).add(&constants[1]),
        mix_row(&params.mds[2], &boxed).add(&constants[2]),
    ];
    assert(values(out@) =~= params@.full_round(values(state@), r as int));
    out
}

} // verus!
