//! The state of a circuit that is being written.
//!
//! A [`RunState`] keeps the witness of the circuit, cell by cell, and the
//! constraints that the gadgets have handed in so far. The gadgets work on
//! values of the circuit; only where a gadget has to compute does it read the
//! integers behind them, and what it computes goes into fresh cells.

use crate::circuits::polynomials::poseidon::{
    fills_rows, lemma_positions, row_position, ROUNDS_PER_ROW,
};
use crate::field::FieldElement;
use crate::permutation::{full_round, values, PoseidonParams, PoseidonParamsView};
use crate::snarky::constraint_system::{
    AnnotatedConstraint, AnnotatedConstraintView, Constraint, ConstraintView,
};
use crate::snarky::cvar::{all_allocated, evals, extends, FieldVar};
use vstd::prelude::*;

verus! {

/// The state of a circuit that is being written.
#[derive(Debug)]
pub struct RunState {
    params: PoseidonParams,
    witness: Vec<FieldElement>,
    constraints: Vec<AnnotatedConstraint>,
}

/// [`RunState`] as integers and sequences.
pub struct RunStateView {
    /// The parameters of the Poseidon permutation of the circuit.
    pub params: PoseidonParamsView,
    /// The integers in the cells of the witness.
    pub witness: Seq<nat>,
    /// The constraints, in the order in which they were handed in.
    pub constraints: Seq<AnnotatedConstraintView>,
}

impl RunStateView {
    /// The rounds of the permutation fill whole rows of five, and every
    /// constraint is well formed and met by the witness.
    pub open spec fn wf(self) -> bool {
        &&& fills_rows(self.params.rounds())
        &&& forall|c: int|
            0 <= c < self.constraints.len() ==> (#[trigger] self.constraints[c]).constraint.wf(
                self.params,
                self.witness.len(),
            ) && self.constraints[c].constraint.satisfied(self.params, self.witness)
    }

    /// The circuit with these parameters that has no cell and no constraint.
    pub open spec fn empty(params: PoseidonParamsView) -> RunStateView {
        RunStateView { params, witness: Seq::empty(), constraints: Seq::empty() }
    }

    /// This circuit with one more constraint.
    pub open spec fn with_constraint(self, constraint: AnnotatedConstraintView) -> RunStateView {
        RunStateView { constraints: self.constraints.push(constraint), ..self }
    }

    /// `other` is this state with more cells at the end of the witness.
    pub open spec fn extended_by(self, other: RunStateView) -> bool {
        &&& other.params == self.params
        &&& other.constraints == self.constraints
        &&& extends(other.witness, self.witness)
    }

    /// A well-formed state stays so when cells are added to its witness.
    pub proof fn lemma_extension_wf(self, other: RunStateView)
        requires
            self.wf(),
            self.extended_by(other),
        ensures
            other.wf(),
    {
        assert forall|c: int| 0 <= c < other.constraints.len() implies (
        #[trigger] other.constraints[c]).constraint.wf(other.params, other.witness.len())
            && other.constraints[c].constraint.satisfied(other.params, other.witness) by {
            self.constraints[c].constraint.lemma_satisfied_extends(
                self.params,
                self.witness,
                other.witness,
            );
        }
    }
}

/// A constraint with its label and the place that asked for it.
pub open spec fn annotated(constraint: ConstraintView, label: Option<&str>, loc: Seq<char>)
    -> AnnotatedConstraintView {
    AnnotatedConstraintView {
        constraint,
        label: match label {
            Some(text) => Some(text@),
            None => None,
        },
        loc,
    }
}

impl View for RunState {
    type V = RunStateView;

    closed spec fn view(&self) -> RunStateView {
        RunStateView {
            params: self.params@,
            witness: values(self.witness@),
            constraints: self.constraints@.map_values(|c: AnnotatedConstraint| c@),
        }
    }
}

impl RunState {
    /// The state is well formed.
    pub open spec fn wf(&self) -> bool {
        self@.wf()
    }

    /// The witness of a circuit fits the machine.
    pub proof fn lemma_witness_fits(&self)
        ensures
            self@.witness.len() <= usize::MAX,
    {
        let cells: usize = self.witness.len();
        assert(cells == self.witness@.len());
    }

    /// An empty circuit for a permutation with these parameters; `None` where
    /// the rounds of the permutation do not fill whole rows of five.
    pub fn new(params: PoseidonParams) -> (r: Option<RunState>)
        ensures
            r is Some <==> fills_rows(params@.rounds()),
            r matches Some(state) ==> state@ == RunStateView::empty(params@) && state.wf(),
    {
        if params.rounds() % ROUNDS_PER_ROW != 0 {
            return None;
        }
        let state = RunState { params, witness: Vec::new(), constraints: Vec::new() };
        assert(state@.witness =~= Seq::<nat>::empty());
        assert(state@.constraints =~= Seq::<AnnotatedConstraintView>::empty());
        Some(state)
    }

    /// The parameters of the permutation, copied.
    pub fn poseidon_params(&self) -> (r: PoseidonParams)
        ensures
            r@ == self@.params,
    {
        self.params.duplicate()
    }

    /// The number of cells of the witness.
    pub fn witness_len(&self) -> (r: usize)
        ensures
            r == self@.witness.len(),
    {
        self.witness.len()
    }

    /// The constraints, in the order in which they were handed in.
    pub fn constraints(&self) -> (r: &Vec<AnnotatedConstraint>)
        ensures
            r@.map_values(|c: AnnotatedConstraint| c@) == self@.constraints,
    {
        &self.constraints
    }

    /// Whether every cell that the value mentions is a cell of this circuit.
    pub fn is_allocated(&self, var: &FieldVar) -> (r: bool)
        ensures
            r == var.allocated(self@.witness.len()),
        decreases var,
    {
        match var {
            FieldVar::Constant(_) => true,
            FieldVar::Var(i) => *i < self.witness.len(),
            FieldVar::Add(a, b) => self.is_allocated(a) && self.is_allocated(b),
        }
    }

    /// Whether every value of the sequence mentions only cells of this
    /// circuit.
    pub fn are_allocated(&self, vars: &[FieldVar]) -> (r: bool)
        ensures
            r == all_allocated(vars@, self@.witness.len()),
    {
        let mut j: usize = 0;
        while j < vars.len()
            invariant
                j <= vars.len(),
                forall|k: int| 0 <= k < j ==> (#[trigger] vars@[k]).allocated(self@.witness.len()),
            decreases vars.len() - j,
        {
            if !self.is_allocated(&vars[j]) {
                return false;
            }
            j += 1;
        }
        true
    }

    /// The field elements that the three values of a state take under the
    /// witness.
    fn read_state(&self, state: &Vec<FieldVar>) -> (r: [FieldElement; 3])
        requires
            state@.len() == 3,
            all_allocated(state@, self@.witness.len()),
        ensures
            values(r@) == evals(state@, self@.witness),
    {
        let r = [self.read_var(&state[0]), self.read_var(&state[1]), self.read_var(&state[2])];
        assert(values(r@) =~= evals(state@, self@.witness));
        r
    }

    /// Whether the constraint is well formed for this circuit and met by its
    /// witness: what [`Self::add_constraint`] asks of a constraint.
    pub fn meets(&self, constraint: &Constraint) -> (r: bool)
        ensures
            r == (constraint@.wf(self@.params, self@.witness.len()) && constraint@.satisfied(
                self@.params,
                self@.witness,
            )),
    {
        match constraint {
            Constraint::PoseidonPermutation(input) => {
                let rounds: usize = self.params.rounds();
                if rounds % ROUNDS_PER_ROW != 0 || input.states.len() != rounds {
                    return false;
                }
                if input.last.len() != 3 || !self.are_allocated(input.last.as_slice()) {
                    return false;
                }
                let mut k: usize = 0;
                while k < rounds
                    invariant
                        k <= rounds,
                        rounds == input.states@.len(),
                        rounds == self@.params.rounds(),
                        fills_rows(rounds as nat),
                        input@.last.len() == 3,
                        all_allocated(input@.last, self@.witness.len()),
                        constraint@ == ConstraintView::PoseidonPermutation(input@),
                        forall|j: int|
                            0 <= j < k ==> (#[trigger] input@.states[j]).len() == 3
                                && all_allocated(input@.states[j], self@.witness.len()),
                    decreases rounds - k,
                {
                    let state = &input.states[k];
                    assert(state@ == input@.states[k as int]);
                    if state.len() != 3 || !self.are_allocated(state.as_slice()) {
                        assert(!input@.wf(rounds as nat, self@.witness.len())) by {
                            let found = input@.states[k as int];
                            assert(found.len() != 3 || !all_allocated(found, self@.witness.len()));
                        }
                        return false;
                    }
                    k += 1;
                }
                assert(constraint@.wf(self@.params, self@.witness.len()));
                let mut i: usize = 0;
                while i < rounds
                    invariant
                        i <= rounds,
                        rounds == input.states@.len(),
                        rounds == self@.params.rounds(),
                        fills_rows(rounds as nat),
                        constraint@.wf(self@.params, self@.witness.len()),
                        constraint@ == ConstraintView::PoseidonPermutation(input@),
                        forall|j: int|
                            0 <= j < i ==> evals(
                                #[trigger] input@.round_state(j + 1),
                                self@.witness,
                            ) == self@.params.full_round(
                                evals(input@.round_state(j), self@.witness),
                                j,
                            ),
                    decreases rounds - i,
                {
                    proof {
                        lemma_positions(i as int, rounds as int);
                        if i + 1 < rounds {
                            lemma_positions(i + 1, rounds as int);
                        }
                    }
                    let current = &input.states[row_position(i)];
                    let next = if i + 1 == rounds {
                        &input.last
                    } else {
                        &input.states[row_position(i + 1)]
                    };
                    assert(current@ == input@.round_state(i as int));
                    assert(next@ == input@.round_state(i + 1));
                    let before = self.read_state(current);
                    let expected = full_round(&self.params, &before, i);
                    let after = self.read_state(next);
                    proof {
                        FieldElement::lemma_view_injective(after[0], expected[0]);
                        FieldElement::lemma_view_injective(after[1], expected[1]);
                        FieldElement::lemma_view_injective(after[2], expected[2]);
                        assert(values(after@)[0] == after@[0]@ && values(after@)[1] == after@[1]@
                            && values(after@)[2] == after@[2]@);
                        assert(values(expected@)[0] == expected@[0]@ && values(expected@)[1]
                            == expected@[1]@ && values(expected@)[2] == expected@[2]@);
                    }
                    if !(after[0] == expected[0] && after[1] == expected[1] && after[2]
                        == expected[2]) {
                        assert(evals(input@.round_state(i + 1), self@.witness)
                            != self@.params.full_round(
                            evals(input@.round_state(i as int), self@.witness),
                            i as int,
                        ));
                        return false;
                    }
                    assert(values(after@) =~= values(expected@));
                    i += 1;
                }
                true
            },
        }
    }

    /// The field element that a value of the circuit takes under the witness.
    pub fn read_var(&self, var: &FieldVar) -> (r: FieldElement)
        requires
            var.allocated(self@.witness.len()),
        ensures
            r@ == var.eval(self@.witness),
            r.wf(),
        decreases var,
    {
        match var {
            FieldVar::Constant(c) => {
                proof {
                    use_type_invariant(c);
                }
                *c
            },
            FieldVar::Var(i) => {
                let value = self.witness[*i];
                proof {
                    use_type_invariant(&value);
                }
                value
            },
            FieldVar::Add(a, b) => {
                let left = self.read_var(a);
                let right = self.read_var(b);
                left.add(&right)
            },
        }
    }

    /// Puts `value` into a fresh cell at the end of the witness.
    pub fn store_field_elt(&mut self, value: FieldElement) -> (r: FieldVar)
        ensures
            r == FieldVar::Var(old(self)@.witness.len() as usize),
            final(self)@.witness == old(self)@.witness.push(value@),
            final(self)@.params == old(self)@.params,
            final(self)@.constraints == old(self)@.constraints,
            final(self)@.witness.len() <= usize::MAX,
            old(self)@.extended_by(final(self)@),
            old(self).wf() ==> final(self).wf(),
    {
        let index: usize = self.witness.len();
        self.witness.push(value);
        let cells: usize = self.witness.len();
        proof {
            assert(self@.witness =~= old(self)@.witness.push(value@));
            if old(self).wf() {
                old(self)@.lemma_extension_wf(self@);
            }
        }
        FieldVar::Var(index)
    }

    /// Takes in a constraint that the witness meets.
    pub fn add_constraint(&mut self, constraint: Constraint, label: Option<&str>, loc: &str)
        requires
            old(self).wf(),
            constraint@.wf(old(self)@.params, old(self)@.witness.len()),
            constraint@.satisfied(old(self)@.params, old(self)@.witness),
        ensures
            final(self).wf(),
            final(self)@ == old(self)@.with_constraint(annotated(constraint@, label, loc@)),
    {
        let label = match label {
            Some(text) => Some(text.to_string()),
            None => None,
        };
        let annotated = AnnotatedConstraint { constraint, label, loc: loc.to_string() };
        self.constraints.push(annotated);
        proof {
            assert(self@.constraints =~= old(self)@.constraints.push(annotated@));
        }
    }
}

} // verus!
