//! The Poseidon gadgets: the hash of a pair of values, and the duplex sponge
//! that is built on it.
//!
//! What the sponge does is laid down in [`crate::snarky::duplex`], as a state
//! machine on the values of the circuit and as a sponge on integers.

use crate::circuits::polynomials::poseidon::{
    arranged, fills_rows, lemma_positions, round_at_position, ROUNDS_PER_ROW,
};
use crate::field::lemma_of_small;
use crate::permutation::{full_round, values, PoseidonParams, PoseidonParamsView};
use crate::snarky::constraint_system::{
    AnnotatedConstraintView, Constraint, ConstraintView, PoseidonInput, PoseidonInputView,
};
use crate::snarky::cvar::{
    all_allocated, cells_from, evals, extends, lemma_all_allocated_grows, lemma_evals_extend,
    FieldVar,
};
use crate::snarky::duplex::{DuplexStateView, RATE_SIZE};
use crate::snarky::runner::{RunState, RunStateView};
use vstd::prelude::*;

verus! {

/// The state that a hash of `preimage` starts from: the pair, and zero in the
/// capacity.
pub open spec fn initial_state(preimage: (FieldVar, FieldVar)) -> Seq<FieldVar> {
    seq![preimage.0, preimage.1, FieldVar::zero_constant()]
}

/// The state that enters round `i` of a hash, or leaves its last round: the
/// initial state for `i == 0`, and after that the three cells that round
/// `i - 1` filled, where the cells of the hash start at `first_cell`.
pub open spec fn trace_state(initial: Seq<FieldVar>, first_cell: nat, i: int) -> Seq<FieldVar> {
    if i == 0 {
        initial
    } else {
        cells_from((first_cell + 3 * (i - 1)) as nat)
    }
}

/// The integers that the first `n` rounds of a hash put into its cells: the
/// states after round one, two, and so on, three integers each.
pub open spec fn trace_values(params: PoseidonParamsView, initial: Seq<nat>, n: nat) -> Seq<nat>
    decreases n,
{
    if n == 0 {
        Seq::empty()
    } else {
        trace_values(params, initial, (n - 1) as nat) + params.state_after(initial, n)
    }
}

/// The trace that a hash hands to the circuit: the states that enter its
/// rounds, in the order of the rows, and the state that leaves the last round.
pub open spec fn poseidon_input(rounds: nat, initial: Seq<FieldVar>, first_cell: nat)
    -> PoseidonInputView {
    PoseidonInputView {
        states: Seq::new(
            rounds,
            |k: int| trace_state(initial, first_cell, round_at_position(k)),
        ),
        last: trace_state(initial, first_cell, rounds as int),
    }
}

/// The pair that the hash of `preimage` returns in the circuit `sys`: the
/// first two values of the state that leaves the last round.
pub open spec fn poseidon_hash(sys: RunStateView, preimage: (FieldVar, FieldVar)) -> (
    FieldVar,
    FieldVar,
) {
    let last = trace_state(initial_state(preimage), sys.witness.len(), sys.params.rounds() as int);
    (last[0], last[1])
}

/// The circuit `sys` after the hash of `preimage`, asked for at `loc`: the
/// witness has the states of the rounds in new cells, and the trace is one
/// more constraint.
pub open spec fn after_poseidon(sys: RunStateView, loc: Seq<char>, preimage: (FieldVar, FieldVar))
    -> RunStateView {
    let initial = initial_state(preimage);
    let rounds = sys.params.rounds();
    RunStateView {
        params: sys.params,
        witness: sys.witness + trace_values(sys.params, evals(initial, sys.witness), rounds),
        constraints: sys.constraints.push(
            AnnotatedConstraintView {
                constraint: ConstraintView::PoseidonPermutation(
                    poseidon_input(rounds, initial, sys.witness.len()),
                ),
                label: Some("Poseidon"@),
                loc,
            },
        ),
    }
}

/// The first `n` rounds of a hash fill `3 * n` cells.
pub proof fn lemma_trace_values_len(params: PoseidonParamsView, initial: Seq<nat>, n: nat)
    requires
        initial.len() == 3,
    ensures
        trace_values(params, initial, n).len() == 3 * n,
        params.state_after(initial, n).len() == 3,
    decreases n,
{
    if n > 0 {
        lemma_trace_values_len(params, initial, (n - 1) as nat);
    }
}

/// The values of one state as a vector.
fn state_to_vec(state: &[FieldVar; 3]) -> (r: Vec<FieldVar>)
    ensures
        r@ == state@,
{
    let mut r: Vec<FieldVar> = Vec::new();
    r.push(state[0].clone());
    r.push(state[1].clone());
    r.push(state[2].clone());
    assert(r@ =~= state@);
    r
}

/// Puts the states of the rounds, which come in the order of the rounds, into
/// the order of the rows: in each row of five, the last state moves to the
/// second place.
pub fn arrange_rows(states: &Vec<[FieldVar; 3]>) -> (r: Vec<Vec<FieldVar>>)
    requires
        fills_rows(states.len() as nat),
    ensures
        r@.map_values(|s: Vec<FieldVar>| s@) == arranged(
            states@.map_values(|s: [FieldVar; 3]| s@),
        ),
{
    let ghost wanted = arranged(states@.map_values(|s: [FieldVar; 3]| s@));
    let mut r: Vec<Vec<FieldVar>> = Vec::new();
    let rows: usize = states.len() / ROUNDS_PER_ROW;
    let mut row: usize = 0;
    while row < rows
        invariant
            fills_rows(states.len() as nat),
            rows == states.len() / 5,
            row <= rows,
            wanted == arranged(states@.map_values(|s: [FieldVar; 3]| s@)),
            r@.len() == 5 * row,
            forall|k: int| 0 <= k < r@.len() ==> (#[trigger] r@[k])@ == wanted[k],
        decreases rows - row,
    {
        let first: usize = row * ROUNDS_PER_ROW;
        r.push(state_to_vec(&states[first]));
        r.push(state_to_vec(&states[first + 4]));
        r.push(state_to_vec(&states[first + 1]));
        r.push(state_to_vec(&states[first + 2]));
        r.push(state_to_vec(&states[first + 3]));
        row += 1;
    }
    assert(r@.map_values(|s: Vec<FieldVar>| s@) =~= wanted);
    r
}

/// One round of the permutation in the circuit: reads the integers behind
/// `elements`, applies round `index` to them, and puts the result into three
/// fresh cells.
fn round(
    runner: &mut RunState,
    elements: &[FieldVar; 3],
    index: usize,
    params: &PoseidonParams,
) -> (r: [FieldVar; 3])
    requires
        all_allocated(elements@, old(runner)@.witness.len()),
        index < params@.rounds(),
    ensures
        r@ == cells_from(old(runner)@.witness.len()),
        final(runner)@.witness == old(runner)@.witness + params@.full_round(
            evals(elements@, old(runner)@.witness),
            index as int,
        ),
        final(runner)@.witness.len() <= usize::MAX,
        old(runner)@.extended_by(final(runner)@),
        old(runner).wf() ==> final(runner).wf(),
{
    let ghost before = runner@;
    let state = [
        runner.read_var(&elements[0]),
        runner.read_var(&elements[1]),
        runner.read_var(&elements[2]),
    ];
    assert(values(state@) =~= evals(elements@, before.witness));
    let next = full_round(params, &state, index);
    let ghost integers = params@.full_round(evals(elements@, before.witness), index as int);
    assert(values(next@) == integers);
    assert(integers.len() == 3);
    assert(values(next@)[0] == next@[0]@ && values(next@)[1] == next@[1]@ && values(next@)[2]
        == next@[2]@);
    let a = runner.store_field_elt(next[0]);
    let b = runner.store_field_elt(next[1]);
    let c = runner.store_field_elt(next[2]);
    assert(runner@.witness =~= before.witness + integers);
    let r = [a, b, c];
    assert(r@ =~= cells_from(before.witness.len()));
    r
}

/// Hashes the pair `preimage` in the circuit.
///
/// The integers of all the states of the permutation go into fresh cells of
/// the witness, the trace goes to the circuit as one constraint under the
/// label `"Poseidon"`, and the pair returned is the first two values of the
/// last state.
pub fn poseidon(
    runner: &mut RunState,
    loc: &str,
    preimage: (FieldVar, FieldVar),
) -> (hash: (FieldVar, FieldVar))
    requires
        old(runner).wf(),
        preimage.0.allocated(old(runner)@.witness.len()),
        preimage.1.allocated(old(runner)@.witness.len()),
    ensures
        final(runner)@ == after_poseidon(old(runner)@, loc@, preimage),
        hash == poseidon_hash(old(runner)@, preimage),
        (hash.0.eval(final(runner)@.witness), hash.1.eval(final(runner)@.witness)) == old(
            runner,
        )@.params.hash(
            preimage.0.eval(old(runner)@.witness),
            preimage.1.eval(old(runner)@.witness),
        ),
        final(runner).wf(),
        hash.0.allocated(final(runner)@.witness.len()),
        hash.1.allocated(final(runner)@.witness.len()),
        extends(final(runner)@.witness, old(runner)@.witness),
{
    let ghost before = runner@;
    let ghost first = before.witness.len();
    let ghost initial = initial_state(preimage);
    let ghost integers = evals(initial, before.witness);
    let initial_state = [preimage.0, preimage.1, FieldVar::zero()];
    assert(initial_state@ =~= initial);
    let params = runner.poseidon_params();
    let rounds: usize = params.rounds();
    let mut trace: Vec<[FieldVar; 3]> = Vec::new();
    let mut current = initial_state;
    let mut i: usize = 0;
    while i < rounds
        invariant
            i <= rounds,
            rounds == params@.rounds(),
            params@ == before.params,
            before.wf(),
            runner.wf(),
            integers.len() == 3,
            integers == evals(initial, before.witness),
            first == before.witness.len(),
            runner@.params == before.params,
            runner@.constraints == before.constraints,
            runner@.witness == before.witness + trace_values(params@, integers, i as nat),
            trace@.len() == i,
            current@ == trace_state(initial, first, i as int),
            forall|j: int| 0 <= j < i ==> (#[trigger] trace@[j])@ == trace_state(initial, first, j),
            forall|j: int|
                0 <= j <= i ==> all_allocated(
                    #[trigger] trace_state(initial, first, j),
                    runner@.witness.len(),
                ) && evals(trace_state(initial, first, j), runner@.witness) == params@.state_after(
                    integers,
                    j as nat,
                ),
        decreases rounds - i,
    {
        let ghost earlier = runner@.witness;
        proof {
            lemma_trace_values_len(params@, integers, i as nat);
        }
        let next = round(runner, &current, i, &params);
        proof {
            let added = params@.full_round(evals(current@, earlier), i as int);
            assert(added == params@.state_after(integers, (i + 1) as nat));
            assert forall|j: int| 0 <= j <= i + 1 implies all_allocated(
                #[trigger] trace_state(initial, first, j),
                runner@.witness.len(),
            ) && evals(trace_state(initial, first, j), runner@.witness) == params@.state_after(
                integers,
                j as nat,
            ) by {
                if j <= i {
                    lemma_evals_extend(trace_state(initial, first, j), earlier, runner@.witness);
                } else {
                    let cells = trace_state(initial, first, j);
                    assert(cells == cells_from(earlier.len()));
                    assert(evals(cells, runner@.witness) =~= added);
                }
            }
            assert(runner@.witness =~= before.witness + trace_values(
                params@,
                integers,
                (i + 1) as nat,
            ));
        }
        trace.push(current);
        current = next;
        i += 1;
    }
    let states = arrange_rows(&trace);
    let last = current;
    let hash = (last[0].clone(), last[1].clone());
    let input = PoseidonInput { states, last: state_to_vec(&last) };
    proof {
        let wanted = poseidon_input(rounds as nat, initial, first);
        let in_order = trace@.map_values(|s: [FieldVar; 3]| s@);
        assert(input@.states =~= wanted.states) by {
            assert forall|k: int| 0 <= k < rounds implies input@.states[k] == wanted.states[k] by {
                lemma_positions(k, rounds as int);
                assert(arranged(in_order)[k] == in_order[round_at_position(k)]);
            }
        }
        assert(input@ == wanted);
        assert forall|k: int| 0 <= k < input@.states.len() implies (
        #[trigger] input@.states[k]).len() == 3 && all_allocated(
            input@.states[k],
            runner@.witness.len(),
        ) by {
            lemma_positions(k, rounds as int);
            let j = round_at_position(k);
            assert(all_allocated(trace_state(initial, first, j), runner@.witness.len()));
        }
        assert(all_allocated(trace_state(initial, first, rounds as int), runner@.witness.len()));
        assert forall|j: int| 0 <= j < input@.states.len() implies evals(
            #[trigger] input@.round_state(j + 1),
            runner@.witness,
        ) == params@.full_round(evals(input@.round_state(j), runner@.witness), j) by {
            lemma_positions(j, rounds as int);
            assert(input@.round_state(j) == trace_state(initial, first, j));
            if j + 1 < rounds {
                lemma_positions(j + 1, rounds as int);
            }
            assert(input@.round_state(j + 1) == trace_state(initial, first, j + 1));
            assert(all_allocated(trace_state(initial, first, j), runner@.witness.len()));
            assert(all_allocated(trace_state(initial, first, j + 1), runner@.witness.len()));
        }
    }
    runner.add_constraint(Constraint::PoseidonPermutation(input), Some("Poseidon"), loc);
    proof {
        runner.lemma_witness_fits();
        lemma_after_poseidon(before, loc@, preimage);
    }
    hash
}

/// What a hash does to a circuit: the parameters stay, the witness is longer
/// by three cells for each round and keeps its cells, and there is one more
/// constraint. The pair returned is allocated in the circuit, and stands for
/// the first two elements of the permutation of the pair that went in, with
/// zero in the capacity.
pub proof fn lemma_after_poseidon(sys: RunStateView, loc: Seq<char>, preimage: (FieldVar, FieldVar))
    requires
        after_poseidon(sys, loc, preimage).witness.len() <= usize::MAX,
        preimage.0.allocated(sys.witness.len()),
        preimage.1.allocated(sys.witness.len()),
    ensures
        ({
            let after = after_poseidon(sys, loc, preimage);
            let hash = poseidon_hash(sys, preimage);
            &&& after.params == sys.params
            &&& extends(after.witness, sys.witness)
            &&& after.witness.len() == sys.witness.len() + 3 * sys.params.rounds()
            &&& after.constraints.len() == sys.constraints.len() + 1
            &&& hash.0.allocated(after.witness.len())
            &&& hash.1.allocated(after.witness.len())
            &&& (hash.0.eval(after.witness), hash.1.eval(after.witness)) == sys.params.hash(
                preimage.0.eval(sys.witness),
                preimage.1.eval(sys.witness),
            )
        }),
{
    let after = after_poseidon(sys, loc, preimage);
    let rounds = sys.params.rounds();
    let initial = initial_state(preimage);
    let integers = evals(initial, sys.witness);
    lemma_of_small(0);
    assert(integers =~= seq![preimage.0.eval(sys.witness), preimage.1.eval(sys.witness), 0]);
    lemma_trace_values_len(sys.params, integers, rounds);
    if rounds == 0 {
        preimage.0.lemma_eval_extends(sys.witness, after.witness);
        preimage.1.lemma_eval_extends(sys.witness, after.witness);
    } else {
        lemma_trace_values_len(sys.params, integers, (rounds - 1) as nat);
        let last = sys.params.state_after(integers, rounds);
        assert(after.witness[sys.witness.len() + 3 * (rounds - 1)] == last[0]);
        assert(after.witness[sys.witness.len() + 3 * (rounds - 1) + 1] == last[1]);
    }
}

/// A duplex sponge in a circuit: values can be absorbed into it and squeezed
/// out of it in any order.
#[derive(Debug)]
pub struct DuplexState {
    rev_queue: Vec<FieldVar>,
    absorbing: bool,
    squeezed: Option<FieldVar>,
    state: [FieldVar; 3],
}

impl View for DuplexState {
    type V = DuplexStateView;

    closed spec fn view(&self) -> DuplexStateView {
        DuplexStateView {
            rev_queue: self.rev_queue@,
            absorbing: self.absorbing,
            squeezed: self.squeezed,
            state: self.state@,
        }
    }
}

impl Default for DuplexState {
    fn default() -> (r: DuplexState)
        ensures
            r@ == DuplexStateView::fresh(),
    {
        let zero = FieldVar::zero();
        let state = [zero.clone(), zero.clone(), zero];
        let r = DuplexState { rev_queue: Vec::new(), absorbing: true, squeezed: None, state };
        assert(r@.state =~= DuplexStateView::fresh().state);
        assert(r@.rev_queue =~= DuplexStateView::fresh().rev_queue);
        r
    }
}

impl DuplexState {
    /// The sponge is well formed.
    pub open spec fn wf(&self) -> bool {
        self@.wf()
    }

    /// Creates a new sponge.
    pub fn new() -> (r: DuplexState)
        ensures
            r@ == DuplexStateView::fresh(),
            r.wf(),
            r@.allocated(0),
    {
        DuplexState::default()
    }

    /// Absorbs the values, in order.
    ///
    /// A hash is made only when a value arrives while two others wait.
    pub fn absorb(&mut self, sys: &mut RunState, loc: &str, inputs: &[FieldVar])
        requires
            old(self).wf(),
            old(sys).wf(),
            old(self)@.allocated(old(sys)@.witness.len()),
            all_allocated(inputs@, old(sys)@.witness.len()),
        ensures
            (final(self)@, final(sys)@) == old(self)@.absorb(old(sys)@, loc@, inputs@),
            final(self)@.values(final(sys)@.witness) == old(self)@.values(
                old(sys)@.witness,
            ).absorb(old(sys)@.params, evals(inputs@, old(sys)@.witness)),
            final(self).wf(),
            final(sys).wf(),
            final(self)@.allocated(final(sys)@.witness.len()),
            extends(final(sys)@.witness, old(sys)@.witness),
    {
        // switching to absorbing takes no hash
        if !self.absorbing {
            self.squeezed = None;
            self.absorbing = true;
        }
        let ghost start = self@;

        let mut i: usize = 0;
        while i < inputs.len()
            invariant
                i <= inputs.len(),
                self.wf(),
                sys.wf(),
                self@.absorbing,
                self@.allocated(sys@.witness.len()),
                all_allocated(inputs@, sys@.witness.len()),
                (self@, sys@) == start.absorb_all(old(sys)@, loc@, inputs@.take(i as int)),
            decreases inputs.len() - i,
        {
            let ghost sponge = self@;
            let ghost circuit = sys@;
            let input = &inputs[i];
            // a hash is due only when a third value arrives
            if self.rev_queue.len() == RATE_SIZE {
                let left = self.rev_queue.pop().unwrap();
                let right = self.rev_queue.pop().unwrap();
                self.state[0] = self.state[0].add(&left);
                self.state[1] = self.state[1].add(&right);
                proof {
                    assert(self@.state =~= sponge.loaded().state);
                }
                self.permute(sys, loc);
                proof {
                    lemma_all_allocated_grows(inputs@, circuit.witness.len(), sys@.witness.len());
                }
            }
            self.rev_queue.insert(0, input.clone());
            i += 1;
            proof {
                let taken = inputs@.take(i as int);
                assert(taken.drop_last() =~= inputs@.take(i - 1));
                assert(taken.last() == inputs@[i - 1]);
                let after = sponge.absorb_one(circuit, loc@, inputs@[i - 1]);
                assert(self@.rev_queue =~= after.0.rev_queue);
                assert(self@.state =~= after.0.state);
            }
        }
        assert(inputs@.take(i as int) =~= inputs@);
        proof {
            sys.lemma_witness_fits();
            old(self)@.lemma_absorb_values(old(sys)@, loc@, inputs@);
        }
    }

    /// Permutes the rate of the sponge: hashes it in the circuit, makes the
    /// hash the new rate, and returns the hash.
    fn permute(&mut self, sys: &mut RunState, loc: &str) -> (hash: (FieldVar, FieldVar))
        requires
            old(sys).wf(),
            old(self)@.state.len() == 3,
            old(self)@.allocated(old(sys)@.witness.len()),
        ensures
            (final(self)@, final(sys)@, hash) == old(self)@.permute(old(sys)@, loc@),
            final(sys).wf(),
            final(self)@.allocated(final(sys)@.witness.len()),
            extends(final(sys)@.witness, old(sys)@.witness),
    {
        let left = self.state[0].clone();
        let right = self.state[1].clone();
        let hash = poseidon(sys, loc, (left, right));
        self.state[0] = hash.0.clone();
        self.state[1] = hash.1.clone();
        proof {
            sys.lemma_witness_fits();
            old(self)@.lemma_permute_values(old(sys)@, loc@);
            assert(self@.state =~= old(self)@.permute(old(sys)@, loc@).0.state);
        }
        hash
    }

    /// Squeezes one value out of the sponge.
    ///
    /// Every hash gives two values: the first is returned at once, the second
    /// by the next call, unless values are absorbed in between.
    pub fn squeeze(&mut self, sys: &mut RunState, loc: &str) -> (r: FieldVar)
        requires
            old(self).wf(),
            old(sys).wf(),
            old(self)@.allocated(old(sys)@.witness.len()),
        ensures
            (final(self)@, final(sys)@, r) == old(self)@.squeeze(old(sys)@, loc@),
            (final(self)@.values(final(sys)@.witness), r.eval(final(sys)@.witness)) == old(
                self,
            )@.values(old(sys)@.witness).squeeze(old(sys)@.params),
            final(self).wf(),
            final(sys).wf(),
            final(self)@.allocated(final(sys)@.witness.len()),
            r.allocated(final(sys)@.witness.len()),
            extends(final(sys)@.witness, old(sys)@.witness),
    {
        proof {
            sys.lemma_witness_fits();
        }
        // on the switch to squeezing, the values that wait go into the rate
        if self.absorbing {
            if let Some(left) = self.rev_queue.pop() {
                self.state[0] = self.state[0].add(&left);
            }
            if let Some(right) = self.rev_queue.pop() {
                self.state[1] = self.state[1].add(&right);
            }
            self.absorbing = false;
        }
        proof {
            let drained = old(self)@.squeezing_mode();
            assert(self@.state =~= drained.state);
            assert(self@.rev_queue =~= drained.rev_queue);
        }

        // the second value of the last hash goes out first
        if let Some(squeezed) = self.squeezed.take() {
            proof {
                old(self)@.lemma_squeeze_values(old(sys)@, loc@);
            }
            return squeezed;
        }
        // otherwise the rate is hashed
        let (left, right) = self.permute(sys, loc);
        proof {
            sys.lemma_witness_fits();
            old(self)@.lemma_squeeze_values(old(sys)@, loc@);
        }

        // the second value waits, the first goes out
        self.squeezed = Some(right);
        left
    }
}

impl RunState {
    /// Whether the sponge mentions only cells of this circuit: what
    /// [`DuplexState::absorb`] and [`DuplexState::squeeze`] ask of a sponge
    /// and a circuit that are used together.
    pub fn holds(&self, sponge: &DuplexState) -> (r: bool)
        ensures
            r == sponge@.allocated(self@.witness.len()),
    {
        let pending = match &sponge.squeezed {
            Some(value) => self.is_allocated(value),
            None => true,
        };
        pending && self.are_allocated(sponge.state.as_slice()) && self.are_allocated(
            sponge.rev_queue.as_slice(),
        )
    }
}

/// What a duplex sponge can absorb.
pub trait CircuitAbsorb {
    /// The values that stand for `self` in a sponge, in the order in which
    /// they are absorbed.
    spec fn absorbed(&self) -> Seq<FieldVar>;

    /// Absorbs `self` into the sponge: the sponge and the circuit are left as
    /// by one call that absorbs the values of `self`.
    fn absorb(&self, duplex: &mut DuplexState, sys: &mut RunState)
        requires
            old(duplex).wf(),
            old(sys).wf(),
            old(duplex)@.allocated(old(sys)@.witness.len()),
            all_allocated(self.absorbed(), old(sys)@.witness.len()),
        ensures
            exists|loc: Seq<char>|
                (final(duplex)@, final(sys)@) == #[trigger] old(duplex)@.absorb(
                    old(sys)@,
                    loc,
                    self.absorbed(),
                ),
            final(duplex).wf(),
            final(sys).wf(),
            final(duplex)@.allocated(final(sys)@.witness.len()),
    ;
}

impl CircuitAbsorb for FieldVar {
    open spec fn absorbed(&self) -> Seq<FieldVar> {
        seq![*self]
    }

    fn absorb(&self, duplex: &mut DuplexState, sys: &mut RunState) {
        let inputs = [self.clone()];
        assert(inputs@ =~= self.absorbed());
        duplex.absorb(sys, "FieldVar::absorb", inputs.as_slice());
    }
}

} // verus!
