//! What the duplex sponge does.
//!
//! The sponge is described twice. [`DuplexStateView`] is the sponge as it
//! stands in a circuit: its state and its queue are values of the circuit, and
//! each of its steps says which cells and which constraint the circuit gains.
//! [`SpongeValues`] is the sponge on integers that those values stand for
//! under the witness: the same steps, with the permutation in place of the
//! hash in the circuit. The first refines the second.

use crate::circuits::polynomials::poseidon::SPONGE_WIDTH;
use crate::field::lemma_of_small;
use crate::modular::add_mod;
use crate::permutation::PoseidonParamsView;
use crate::snarky::cvar::{all_allocated, evals, extends, lemma_evals_extend, FieldVar};
use crate::snarky::poseidon::{
    after_poseidon, initial_state, lemma_after_poseidon, lemma_trace_values_len, poseidon_hash,
};
use crate::snarky::runner::RunStateView;
use vstd::prelude::*;

verus! {

/// The rate of the sponge: the part that absorbing changes and squeezing
/// hands out. The rest is the capacity, which neither touches.
pub const RATE_SIZE: usize = 2;

/// A duplex sponge in a circuit, as sequences of values of the circuit.
pub struct DuplexStateView {
    /// The values that wait to be absorbed, the latest first.
    pub rev_queue: Seq<FieldVar>,
    /// Whether the sponge takes values in; otherwise it hands values out.
    pub absorbing: bool,
    /// The second value of the last hash, where it has not been handed out.
    pub squeezed: Option<FieldVar>,
    /// The state: two elements of rate, one of capacity.
    pub state: Seq<FieldVar>,
}

/// A duplex sponge on integers.
pub struct SpongeValues {
    /// The integers that wait to be absorbed, the latest first.
    pub waiting: Seq<nat>,
    /// Whether the sponge takes integers in; otherwise it hands them out.
    pub absorbing: bool,
    /// The second integer of the last permutation, where it has not been
    /// handed out.
    pub squeezed: Option<nat>,
    /// The state: two elements of rate, one of capacity.
    pub state: Seq<nat>,
}

impl SpongeValues {
    /// The sponge once it is told to absorb.
    pub open spec fn absorbing_mode(self) -> SpongeValues {
        if self.absorbing {
            self
        } else {
            SpongeValues { absorbing: true, squeezed: None, ..self }
        }
    }

    /// The sponge after one integer is absorbed.
    pub open spec fn absorb_one(self, params: PoseidonParamsView, input: nat) -> SpongeValues {
        if self.waiting.len() == 2 {
            let loaded = SpongeValues {
                state: seq![
                    add_mod(self.state[0], self.waiting[1]),
                    add_mod(self.state[1], self.waiting[0]),
                    self.state[2],
                ],
                ..self
            };
            SpongeValues { waiting: seq![input], ..loaded.permute(params).0 }
        } else {
            SpongeValues { waiting: seq![input] + self.waiting, ..self }
        }
    }

    /// The sponge after the integers are absorbed in order.
    pub open spec fn absorb_all(self, params: PoseidonParamsView, inputs: Seq<nat>) -> SpongeValues
        decreases inputs.len(),
    {
        if inputs.len() == 0 {
            self
        } else {
            self.absorb_all(params, inputs.drop_last()).absorb_one(params, inputs.last())
        }
    }

    /// The sponge after a call to absorb `inputs`.
    pub open spec fn absorb(self, params: PoseidonParamsView, inputs: Seq<nat>) -> SpongeValues {
        self.absorbing_mode().absorb_all(params, inputs)
    }

    /// The sponge once it is told to squeeze: the integers that wait are added
    /// to the rate, the oldest to the first element.
    pub open spec fn squeezing_mode(self) -> SpongeValues {
        if !self.absorbing {
            self
        } else {
            let waiting = self.waiting.len();
            let first = if waiting >= 1 {
                add_mod(self.state[0], self.waiting[waiting - 1])
            } else {
                self.state[0]
            };
            let second = if waiting >= 2 {
                add_mod(self.state[1], self.waiting[waiting - 2])
            } else {
                self.state[1]
            };
            SpongeValues {
                state: seq![first, second, self.state[2]],
                waiting: Seq::empty(),
                absorbing: false,
                squeezed: self.squeezed,
            }
        }
    }

    /// The sponge after its rate is permuted, and the hash: the rate is
    /// hashed and the hash is the new rate.
    pub open spec fn permute(self, params: PoseidonParamsView) -> (SpongeValues, (nat, nat)) {
        let hash = params.hash(self.state[0], self.state[1]);
        (SpongeValues { state: seq![hash.0, hash.1, self.state[2]], ..self }, hash)
    }

    /// The sponge and the integer handed out after a call to squeeze. Where
    /// the second integer of a hash still waits, it is handed out. Otherwise
    /// the rate is permuted: the first integer of the hash is handed out and
    /// the second waits.
    pub open spec fn squeeze(self, params: PoseidonParamsView) -> (SpongeValues, nat) {
        let sponge = self.squeezing_mode();
        match sponge.squeezed {
            Some(value) => (SpongeValues { squeezed: None, ..sponge }, value),
            None => {
                let (permuted, hash) = sponge.permute(params);
                (SpongeValues { squeezed: Some(hash.1), ..permuted }, hash.0)
            },
        }
    }
}

impl DuplexStateView {
    /// The sponge is in one of its two modes: while it absorbs, nothing
    /// waits to be handed out, and at most two values wait to be absorbed;
    /// while it squeezes, nothing waits to be absorbed.
    pub open spec fn wf(self) -> bool {
        &&& self.state.len() == SPONGE_WIDTH
        &&& self.rev_queue.len() <= RATE_SIZE
        &&& self.absorbing ==> self.squeezed is None
        &&& !self.absorbing ==> self.rev_queue.len() == 0
    }

    /// The sponge mentions only the first `cells` cells.
    pub open spec fn allocated(self, cells: nat) -> bool {
        &&& all_allocated(self.state, cells)
        &&& all_allocated(self.rev_queue, cells)
        &&& self.squeezed matches Some(v) ==> v.allocated(cells)
    }

    /// The sponge that nothing has been absorbed into.
    pub open spec fn fresh() -> DuplexStateView {
        DuplexStateView {
            rev_queue: Seq::empty(),
            absorbing: true,
            squeezed: None,
            state: seq![
                FieldVar::zero_constant(),
                FieldVar::zero_constant(),
                FieldVar::zero_constant(),
            ],
        }
    }

    /// The sponge on integers that this sponge stands for under a witness.
    pub open spec fn values(self, witness: Seq<nat>) -> SpongeValues {
        SpongeValues {
            waiting: evals(self.rev_queue, witness),
            absorbing: self.absorbing,
            squeezed: match self.squeezed {
                Some(value) => Some(value.eval(witness)),
                None => None,
            },
            state: evals(self.state, witness),
        }
    }

    /// The sponge once it is told to absorb: what waited to be handed out is
    /// dropped.
    pub open spec fn absorbing_mode(self) -> DuplexStateView {
        if self.absorbing {
            self
        } else {
            DuplexStateView { absorbing: true, squeezed: None, ..self }
        }
    }

    /// The sponge and the circuit after the rate of the sponge is permuted,
    /// and the hash: the rate is hashed in the circuit, and the hash is the
    /// new rate. The capacity, the queue and the mode stay.
    pub open spec fn permute(self, sys: RunStateView, loc: Seq<char>) -> (
        DuplexStateView,
        RunStateView,
        (FieldVar, FieldVar),
    ) {
        let pair = (self.state[0], self.state[1]);
        let hash = poseidon_hash(sys, pair);
        (
            DuplexStateView { state: seq![hash.0, hash.1, self.state[2]], ..self },
            after_poseidon(sys, loc, pair),
            hash,
        )
    }

    /// The sponge with the two values that wait added to its rate, the older
    /// one to the first element.
    pub open spec fn loaded(self) -> DuplexStateView {
        DuplexStateView {
            state: seq![
                FieldVar::sum(self.state[0], self.rev_queue[1]),
                FieldVar::sum(self.state[1], self.rev_queue[0]),
                self.state[2],
            ],
            ..self
        }
    }

    /// The sponge and the circuit after one value is absorbed. The value
    /// joins the queue; where two values wait already, they are first added
    /// to the rate and the rate is permuted.
    pub open spec fn absorb_one(self, sys: RunStateView, loc: Seq<char>, input: FieldVar) -> (
        DuplexStateView,
        RunStateView,
    ) {
        if self.rev_queue.len() == 2 {
            let (permuted, circuit, _) = self.loaded().permute(sys, loc);
            (DuplexStateView { rev_queue: seq![input], ..permuted }, circuit)
        } else {
            (DuplexStateView { rev_queue: seq![input] + self.rev_queue, ..self }, sys)
        }
    }

    /// The sponge and the circuit after the values are absorbed in order.
    pub open spec fn absorb_all(self, sys: RunStateView, loc: Seq<char>, inputs: Seq<FieldVar>)
        -> (DuplexStateView, RunStateView)
        decreases inputs.len(),
    {
        if inputs.len() == 0 {
            (self, sys)
        } else {
            let (sponge, circuit) = self.absorb_all(sys, loc, inputs.drop_last());
            sponge.absorb_one(circuit, loc, inputs.last())
        }
    }

    /// The sponge and the circuit after a call to absorb `inputs`.
    pub open spec fn absorb(self, sys: RunStateView, loc: Seq<char>, inputs: Seq<FieldVar>) -> (
        DuplexStateView,
        RunStateView,
    ) {
        self.absorbing_mode().absorb_all(sys, loc, inputs)
    }

    /// The sponge once it is told to squeeze: the values that wait are added
    /// to the rate, the oldest to the first element.
    pub open spec fn squeezing_mode(self) -> DuplexStateView {
        if !self.absorbing {
            self
        } else {
            let waiting = self.rev_queue.len();
            let first = if waiting >= 1 {
                FieldVar::sum(self.state[0], self.rev_queue[waiting - 1])
            } else {
                self.state[0]
            };
            let second = if waiting >= 2 {
                FieldVar::sum(self.state[1], self.rev_queue[waiting - 2])
            } else {
                self.state[1]
            };
            DuplexStateView {
                state: seq![first, second, self.state[2]],
                rev_queue: Seq::empty(),
                absorbing: false,
                squeezed: self.squeezed,
            }
        }
    }

    /// The sponge, the circuit and the value handed out after a call to
    /// squeeze. Where the second value of a hash still waits, it is handed
    /// out and the circuit is left alone. Otherwise the rate is permuted: the
    /// first value of the hash is handed out and the second waits.
    pub open spec fn squeeze(self, sys: RunStateView, loc: Seq<char>) -> (
        DuplexStateView,
        RunStateView,
        FieldVar,
    ) {
        let sponge = self.squeezing_mode();
        match sponge.squeezed {
            Some(value) => (DuplexStateView { squeezed: None, ..sponge }, sys, value),
            None => {
                let (permuted, circuit, hash) = sponge.permute(sys, loc);
                (DuplexStateView { squeezed: Some(hash.1), ..permuted }, circuit, hash.0)
            },
        }
    }
}

/// The number of hashes that are made when `count` values are absorbed by a
/// sponge in which `waiting` values wait: one for every second value from the
/// third on.
pub open spec fn absorb_hashes(waiting: nat, count: nat) -> nat {
    if waiting + count <= 2 {
        0
    } else {
        ((waiting + count - 1) / 2) as nat
    }
}

/// The number of values that wait in a sponge once `count` values are absorbed
/// by it, where `waiting` values waited before.
pub open spec fn waiting_after(waiting: nat, count: nat) -> nat {
    if waiting + count <= 2 {
        waiting + count
    } else {
        (2 - (waiting + count) % 2) as nat
    }
}

impl DuplexStateView {
    /// Absorbing is lazy. A sponge that absorbs `inputs` makes the number of
    /// hashes that [`absorb_hashes`] gives, each of them one constraint of the
    /// circuit. It stays well formed and absorbing, it keeps its capacity,
    /// and the circuit keeps its parameters.
    pub proof fn lemma_absorb_all(self, sys: RunStateView, loc: Seq<char>, inputs: Seq<FieldVar>)
        requires
            self.wf(),
            self.absorbing,
        ensures
            ({
                let (sponge, circuit) = self.absorb_all(sys, loc, inputs);
                &&& sponge.wf()
                &&& sponge.absorbing
                &&& sponge.state[2] == self.state[2]
                &&& sponge.rev_queue.len() == waiting_after(self.rev_queue.len(), inputs.len())
                &&& circuit.params == sys.params
                &&& circuit.constraints.len() == sys.constraints.len() + absorb_hashes(
                    self.rev_queue.len(),
                    inputs.len(),
                )
            }),
        decreases inputs.len(),
    {
        if inputs.len() > 0 {
            self.lemma_absorb_all(sys, loc, inputs.drop_last());
        }
    }

    /// Neither absorbing nor squeezing writes to the capacity.
    pub proof fn lemma_capacity_is_kept(
        self,
        sys: RunStateView,
        loc: Seq<char>,
        inputs: Seq<FieldVar>,
    )
        requires
            self.wf(),
        ensures
            self.absorb(sys, loc, inputs).0.state[2] == self.state[2],
            self.squeeze(sys, loc).0.state[2] == self.state[2],
    {
        self.absorbing_mode().lemma_absorb_all(sys, loc, inputs);
    }

    /// A fresh sponge that absorbs at most two values and is squeezed once
    /// makes exactly one hash; one that absorbs three makes exactly two, one
    /// when the third value arrives and one when it is squeezed. In general
    /// the squeeze adds one hash to those of the absorbing.
    pub proof fn lemma_absorb_then_squeeze(
        sys: RunStateView,
        loc: Seq<char>,
        inputs: Seq<FieldVar>,
    )
        ensures
            ({
                let (sponge, circuit) = DuplexStateView::fresh().absorb(sys, loc, inputs);
                let (_, after, _) = sponge.squeeze(circuit, loc);
                &&& after.constraints.len() == sys.constraints.len() + absorb_hashes(
                    0,
                    inputs.len(),
                ) + 1
                &&& inputs.len() <= 2 ==> after.constraints.len() == sys.constraints.len() + 1
                &&& inputs.len() == 3 ==> after.constraints.len() == sys.constraints.len() + 2
            }),
    {
        DuplexStateView::fresh().lemma_absorb_all(sys, loc, inputs);
    }

    /// A squeeze that makes a hash is followed by one that makes none: the
    /// two hand out the two values of that hash, in order, and the second
    /// leaves the circuit as it is. The hash is the new rate, so the squeeze
    /// after those, which makes exactly one more hash, hashes those two
    /// values.
    pub proof fn lemma_squeeze_alternates(self, sys: RunStateView, loc: Seq<char>)
        requires
            self.wf(),
            self.absorbing || self.squeezed is None,
        ensures
            ({
                let rate = (self.squeezing_mode().state[0], self.squeezing_mode().state[1]);
                let (sponge1, circuit1, first) = self.squeeze(sys, loc);
                let (sponge2, circuit2, second) = sponge1.squeeze(circuit1, loc);
                let (sponge3, circuit3, third) = sponge2.squeeze(circuit2, loc);
                &&& circuit1 == after_poseidon(sys, loc, rate)
                &&& (first, second) == poseidon_hash(sys, rate)
                &&& sponge1.state == seq![first, second, self.state[2]]
                &&& circuit2 == circuit1
                &&& sponge2.state == sponge1.state
                &&& circuit1.constraints.len() == sys.constraints.len() + 1
                &&& circuit3 == after_poseidon(circuit2, loc, (first, second))
                &&& circuit3.constraints.len() == circuit2.constraints.len() + 1
                &&& third == poseidon_hash(circuit2, (first, second)).0
            }),
    {
    }
}

impl DuplexStateView {
    /// A permutation in the circuit is a permutation on integers: the sponge
    /// stays allocated, the circuit keeps its cells and its parameters, and
    /// the hash stands for the hash of the integers behind the rate.
    pub proof fn lemma_permute_values(self, sys: RunStateView, loc: Seq<char>)
        requires
            self.state.len() == SPONGE_WIDTH,
            self.allocated(sys.witness.len()),
            self.permute(sys, loc).1.witness.len() <= usize::MAX,
        ensures
            ({
                let (sponge, circuit, hash) = self.permute(sys, loc);
                let (integers, pair) = self.values(sys.witness).permute(sys.params);
                &&& sponge.allocated(circuit.witness.len())
                &&& circuit.params == sys.params
                &&& extends(circuit.witness, sys.witness)
                &&& circuit.constraints.len() == sys.constraints.len() + 1
                &&& sponge.values(circuit.witness) == integers
                &&& (hash.0.eval(circuit.witness), hash.1.eval(circuit.witness)) == pair
            }),
    {
        let (sponge, circuit, hash) = self.permute(sys, loc);
        lemma_after_poseidon(sys, loc, (self.state[0], self.state[1]));
        lemma_evals_extend(self.state, sys.witness, circuit.witness);
        lemma_evals_extend(self.rev_queue, sys.witness, circuit.witness);
        if let Some(value) = self.squeezed {
            value.lemma_eval_extends(sys.witness, circuit.witness);
        }
        assert(evals(sponge.state, circuit.witness) =~= self.values(sys.witness).permute(
            sys.params,
        ).0.state);
    }

    /// One value absorbed in the circuit is one integer absorbed: the sponge
    /// stays well formed and allocated, the circuit keeps its cells and its
    /// parameters, and the integers behind the sponge make the same step.
    pub proof fn lemma_absorb_one_values(self, sys: RunStateView, loc: Seq<char>, input: FieldVar)
        requires
            self.wf(),
            self.absorbing,
            self.allocated(sys.witness.len()),
            input.allocated(sys.witness.len()),
            self.absorb_one(sys, loc, input).1.witness.len() <= usize::MAX,
        ensures
            ({
                let (sponge, circuit) = self.absorb_one(sys, loc, input);
                &&& sponge.wf()
                &&& sponge.absorbing
                &&& sponge.allocated(circuit.witness.len())
                &&& circuit.params == sys.params
                &&& extends(circuit.witness, sys.witness)
                &&& sponge.values(circuit.witness) == self.values(sys.witness).absorb_one(
                    sys.params,
                    input.eval(sys.witness),
                )
            }),
    {
        let (sponge, circuit) = self.absorb_one(sys, loc, input);
        if self.rev_queue.len() == 2 {
            let loaded = self.loaded();
            let integers = self.values(sys.witness);
            assert(evals(loaded.state, sys.witness) =~= seq![
                add_mod(integers.state[0], integers.waiting[1]),
                add_mod(integers.state[1], integers.waiting[0]),
                integers.state[2],
            ]);
            assert(loaded.allocated(sys.witness.len()));
            loaded.lemma_permute_values(sys, loc);
            input.lemma_eval_extends(sys.witness, circuit.witness);
            assert(evals(sponge.rev_queue, circuit.witness) =~= seq![input.eval(sys.witness)]);
        } else {
            assert(evals(sponge.rev_queue, circuit.witness) =~= seq![input.eval(sys.witness)]
                + evals(self.rev_queue, sys.witness));
        }
    }

    /// Absorbing in the circuit is absorbing on integers: after the values
    /// are absorbed, the sponge stands for the sponge on integers that has
    /// absorbed the integers behind them.
    pub proof fn lemma_absorb_values(self, sys: RunStateView, loc: Seq<char>, inputs: Seq<FieldVar>)
        requires
            self.wf(),
            self.allocated(sys.witness.len()),
            all_allocated(inputs, sys.witness.len()),
            self.absorb(sys, loc, inputs).1.witness.len() <= usize::MAX,
        ensures
            ({
                let (sponge, circuit) = self.absorb(sys, loc, inputs);
                &&& sponge.wf()
                &&& sponge.absorbing
                &&& sponge.allocated(circuit.witness.len())
                &&& circuit.params == sys.params
                &&& extends(circuit.witness, sys.witness)
                &&& sponge.values(circuit.witness) == self.values(sys.witness).absorb(
                    sys.params,
                    evals(inputs, sys.witness),
                )
            }),
    {
        let start = self.absorbing_mode();
        assert(start.values(sys.witness) == self.values(sys.witness).absorbing_mode());
        start.lemma_absorb_all_values(sys, loc, inputs);
    }

    /// [`Self::lemma_absorb_values`] for a sponge that absorbs already.
    proof fn lemma_absorb_all_values(self, sys: RunStateView, loc: Seq<char>, inputs: Seq<FieldVar>)
        requires
            self.wf(),
            self.absorbing,
            self.allocated(sys.witness.len()),
            all_allocated(inputs, sys.witness.len()),
            self.absorb_all(sys, loc, inputs).1.witness.len() <= usize::MAX,
        ensures
            ({
                let (sponge, circuit) = self.absorb_all(sys, loc, inputs);
                &&& sponge.wf()
                &&& sponge.absorbing
                &&& sponge.allocated(circuit.witness.len())
                &&& circuit.params == sys.params
                &&& extends(circuit.witness, sys.witness)
                &&& sponge.values(circuit.witness) == self.values(sys.witness).absorb_all(
                    sys.params,
                    evals(inputs, sys.witness),
                )
            }),
        decreases inputs.len(),
    {
        if inputs.len() > 0 {
            let earlier = inputs.drop_last();
            let input = inputs.last();
            let (sponge, circuit) = self.absorb_all(sys, loc, earlier);
            // The witness only grows, so what fits at the end fits before.
            assert(circuit.witness.len() <= sponge.absorb_one(circuit, loc, input).1.witness.len());
            self.lemma_absorb_all_values(sys, loc, earlier);
            input.lemma_allocated_grows(sys.witness.len(), circuit.witness.len());
            input.lemma_eval_extends(sys.witness, circuit.witness);
            sponge.lemma_absorb_one_values(circuit, loc, input);
            assert(evals(inputs, sys.witness).drop_last() =~= evals(earlier, sys.witness));
        }
    }

    /// Squeezing in the circuit is squeezing on integers: the sponge stands
    /// for the sponge on integers after its squeeze, and the value handed out
    /// for the integer that it hands out.
    pub proof fn lemma_squeeze_values(self, sys: RunStateView, loc: Seq<char>)
        requires
            self.wf(),
            self.allocated(sys.witness.len()),
            self.squeeze(sys, loc).1.witness.len() <= usize::MAX,
        ensures
            ({
                let (sponge, circuit, out) = self.squeeze(sys, loc);
                let (integers, integer) = self.values(sys.witness).squeeze(sys.params);
                &&& sponge.wf()
                &&& !sponge.absorbing
                &&& sponge.allocated(circuit.witness.len())
                &&& out.allocated(circuit.witness.len())
                &&& circuit.params == sys.params
                &&& extends(circuit.witness, sys.witness)
                &&& sponge.values(circuit.witness) == integers
                &&& out.eval(circuit.witness) == integer
            }),
    {
        let (sponge, circuit, out) = self.squeeze(sys, loc);
        let drained = self.squeezing_mode();
        assert(drained.values(sys.witness).state =~= self.values(sys.witness).squeezing_mode().state);
        assert(drained.values(sys.witness).waiting =~= self.values(
            sys.witness,
        ).squeezing_mode().waiting);
        assert(drained.values(sys.witness) == self.values(sys.witness).squeezing_mode());
        assert(drained.allocated(sys.witness.len()));
        if drained.squeezed is None {
            drained.lemma_permute_values(sys, loc);
            let permuted = drained.permute(sys, loc).0;
            assert(evals(sponge.state, circuit.witness) == evals(permuted.state, circuit.witness));
            assert(evals(sponge.rev_queue, circuit.witness) == evals(
                permuted.rev_queue,
                circuit.witness,
            ));
        }
    }
}

/// A fresh sponge that absorbs a pair and is squeezed hands out a value that
/// stands for the first element of the permutation of that pair, with zero
/// in the capacity.
pub proof fn lemma_squeeze_of_pair(
    sys: RunStateView,
    loc: Seq<char>,
    left: FieldVar,
    right: FieldVar,
)
    requires
        sys.witness.len() + 3 * sys.params.rounds() <= usize::MAX,
        left.allocated(sys.witness.len()),
        right.allocated(sys.witness.len()),
    ensures
        ({
            let (sponge, circuit) = DuplexStateView::fresh().absorb(sys, loc, seq![left, right]);
            let (_, after, out) = sponge.squeeze(circuit, loc);
            &&& circuit == sys
            &&& out.eval(after.witness) == sys.params.hash(
                add_mod(0, left.eval(sys.witness)),
                add_mod(0, right.eval(sys.witness)),
            ).0
        }),
{
    let fresh = DuplexStateView::fresh();
    let inputs = seq![left, right];
    let one = inputs.drop_last();
    assert(one =~= seq![left]);
    assert(one.drop_last() =~= Seq::<FieldVar>::empty());
    assert(fresh.absorb_all(sys, loc, one.drop_last()) == (fresh, sys));
    let (first, _) = fresh.absorb_all(sys, loc, one);
    assert(first.rev_queue =~= seq![left]);
    assert(first == DuplexStateView { rev_queue: seq![left], ..fresh });
    let (sponge, circuit) = fresh.absorb_all(sys, loc, inputs);
    assert(inputs.last() == right);
    assert((sponge, circuit) == first.absorb_one(sys, loc, right));
    assert(sponge.rev_queue =~= seq![right, left]);
    assert(sponge.state == fresh.state);
    let zero = FieldVar::zero_constant();
    let rate = (FieldVar::sum(zero, left), FieldVar::sum(zero, right));
    assert(sponge.squeezing_mode().state[0] == rate.0);
    assert(sponge.squeezing_mode().state[1] == rate.1);
    lemma_of_small(0);
    reveal_with_fuel(FieldVar::eval, 2);
    reveal_with_fuel(FieldVar::allocated, 2);
    assert(rate.0.eval(sys.witness) == add_mod(0, left.eval(sys.witness)));
    assert(rate.1.eval(sys.witness) == add_mod(0, right.eval(sys.witness)));
    assert(rate.0.allocated(sys.witness.len()));
    assert(rate.1.allocated(sys.witness.len()));
    lemma_trace_values_len(
        sys.params,
        evals(initial_state(rate), sys.witness),
        sys.params.rounds(),
    );
    lemma_after_poseidon(sys, loc, rate);
}

} // verus!
