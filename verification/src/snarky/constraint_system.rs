//! The constraints that the gadgets hand to the circuit.

use crate::circuits::polynomials::poseidon::{
    fills_rows, lemma_positions, position_of_round, SPONGE_WIDTH,
};
use crate::permutation::PoseidonParamsView;
use crate::snarky::cvar::{all_allocated, evals, extends, lemma_evals_extend, FieldVar};
use vstd::prelude::*;

verus! {

/// The trace of one Poseidon permutation: the states that enter its rounds,
/// in the order of the rows of the proof, and the state that leaves the
/// last round.
#[derive(Debug, PartialEq, Eq)]
pub struct PoseidonInput {
    /// The states that enter the rounds, three values each.
    pub states: Vec<Vec<FieldVar>>,
    /// The state after the last round.
    pub last: Vec<FieldVar>,
}

/// A constraint of the circuit, by its kind.
#[derive(Debug, PartialEq, Eq)]
pub enum Constraint {
    /// A whole Poseidon permutation.
    PoseidonPermutation(PoseidonInput),
}

/// A constraint with the label of its gadget and the place in the circuit's
/// source that asked for it.
#[derive(Debug, PartialEq, Eq)]
pub struct AnnotatedConstraint {
    pub constraint: Constraint,
    pub label: Option<String>,
    pub loc: String,
}

/// [`PoseidonInput`] as sequences.
pub struct PoseidonInputView {
    pub states: Seq<Seq<FieldVar>>,
    pub last: Seq<FieldVar>,
}

/// [`Constraint`] as sequences.
pub enum ConstraintView {
    PoseidonPermutation(PoseidonInputView),
}

/// [`AnnotatedConstraint`] as sequences.
pub struct AnnotatedConstraintView {
    pub constraint: ConstraintView,
    pub label: Option<Seq<char>>,
    pub loc: Seq<char>,
}

impl View for PoseidonInput {
    type V = PoseidonInputView;

    open spec fn view(&self) -> PoseidonInputView {
        PoseidonInputView {
            states: self.states@.map_values(|state: Vec<FieldVar>| state@),
            last: self.last@,
        }
    }
}

impl View for Constraint {
    type V = ConstraintView;

    open spec fn view(&self) -> ConstraintView {
        match self {
            Constraint::PoseidonPermutation(input) => ConstraintView::PoseidonPermutation(input@),
        }
    }
}

impl View for AnnotatedConstraint {
    type V = AnnotatedConstraintView;

    open spec fn view(&self) -> AnnotatedConstraintView {
        AnnotatedConstraintView {
            constraint: self.constraint@,
            label: match self.label {
                Some(label) => Some(label@),
                None => None,
            },
            loc: self.loc@,
        }
    }
}

impl PoseidonInputView {
    /// The state that enters round `i`, or, for `i` the number of rounds, the
    /// state that leaves the last one.
    pub open spec fn round_state(self, i: int) -> Seq<FieldVar> {
        if i == self.states.len() {
            self.last
        } else {
            self.states[position_of_round(i)]
        }
    }

    /// The trace has one state of three values for each of the `rounds`
    /// rounds and one more at the end, and mentions only the first `cells`
    /// cells.
    pub open spec fn wf(self, rounds: nat, cells: nat) -> bool {
        &&& self.states.len() == rounds
        &&& self.last.len() == SPONGE_WIDTH
        &&& all_allocated(self.last, cells)
        &&& forall|k: int|
            0 <= k < self.states.len() ==> (#[trigger] self.states[k]).len() == SPONGE_WIDTH
                && all_allocated(
                self.states[k],
                cells,
            )
    }

    /// Under the witness, each round takes its state to the next.
    pub open spec fn satisfied(self, params: PoseidonParamsView, witness: Seq<nat>) -> bool {
        forall|i: int|
            0 <= i < self.states.len() ==> evals(#[trigger] self.round_state(i + 1), witness)
                == params.full_round(evals(self.round_state(i), witness), i)
    }
}

impl ConstraintView {
    /// The constraint has the shape of its kind, and mentions only
    /// the first `cells` cells.
    pub open spec fn wf(self, params: PoseidonParamsView, cells: nat) -> bool {
        match self {
            ConstraintView::PoseidonPermutation(input) => fills_rows(params.rounds()) && input.wf(
                params.rounds(),
                cells,
            ),
        }
    }

    /// The witness meets the constraint.
    pub open spec fn satisfied(self, params: PoseidonParamsView, witness: Seq<nat>) -> bool {
        match self {
            ConstraintView::PoseidonPermutation(input) => input.satisfied(params, witness),
        }
    }

    /// A constraint that a witness meets is met by every witness that extends
    /// it.
    pub proof fn lemma_satisfied_extends(
        self,
        params: PoseidonParamsView,
        witness: Seq<nat>,
        longer: Seq<nat>,
    )
        requires
            self.wf(params, witness.len()),
            self.satisfied(params, witness),
            extends(longer, witness),
        ensures
            self.wf(params, longer.len()),
            self.satisfied(params, longer),
    {
        let input = self->PoseidonPermutation_0;
        let rounds = input.states.len() as int;
        lemma_evals_extend(input.last, witness, longer);
        assert forall|k: int| 0 <= k < rounds implies all_allocated(
            #[trigger] input.states[k],
            longer.len(),
        ) && evals(input.states[k], longer) == evals(input.states[k], witness) by {
            lemma_evals_extend(input.states[k], witness, longer);
        }
        assert forall|i: int| 0 <= i <= rounds implies evals(
            #[trigger] input.round_state(i),
            longer,
        ) == evals(input.round_state(i), witness) by {
            if i < rounds {
                lemma_positions(i, rounds);
            }
        }
        assert forall|i: int| 0 <= i < rounds implies evals(
            #[trigger] input.round_state(i + 1),
            longer,
        ) == params.full_round(evals(input.round_state(i), longer), i) by {
            assert(evals(input.round_state(i), longer) == evals(input.round_state(i), witness));
        }
    }
}

} // verus!
