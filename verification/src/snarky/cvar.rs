//! The variables of a circuit.

use crate::field::FieldElement;
use crate::modular::add_mod;
use vstd::prelude::*;

verus! {

/// A value in a circuit: a constant, a cell of the witness, or a sum of two
/// such values that is not yet laid down in a cell.
#[derive(Debug, PartialEq, Eq)]
pub enum FieldVar {
    /// A constant of the circuit.
    Constant(FieldElement),
    /// The cell of the witness with this index.
    Var(usize),
    /// The sum of two values.
    Add(Box<FieldVar>, Box<FieldVar>),
}

impl Clone for FieldVar {
    fn clone(&self) -> (r: Self)
        ensures
            r == *self,
        decreases self,
    {
        match self {
            FieldVar::Constant(c) => FieldVar::Constant(*c),
            FieldVar::Var(i) => FieldVar::Var(*i),
            FieldVar::Add(a, b) => FieldVar::Add(
                Box::new((&**a).clone()),
                Box::new((&**b).clone()),
            ),
        }
    }
}

impl FieldVar {
    /// Every cell that the value mentions is among the first `cells` cells.
    pub open spec fn allocated(self, cells: nat) -> bool
        decreases self,
    {
        match self {
            FieldVar::Constant(_) => true,
            FieldVar::Var(i) => i < cells,
            FieldVar::Add(a, b) => a.allocated(cells) && b.allocated(cells),
        }
    }

    /// The integer that the value takes under a witness.
    pub open spec fn eval(self, witness: Seq<nat>) -> nat
        decreases self,
    {
        match self {
            FieldVar::Constant(c) => c@,
            FieldVar::Var(i) => witness[i as int],
            FieldVar::Add(a, b) => add_mod(a.eval(witness), b.eval(witness)),
        }
    }

    /// The sum of `left` and `right`, as a value of the circuit.
    pub open spec fn sum(left: FieldVar, right: FieldVar) -> FieldVar {
        FieldVar::Add(Box::new(left), Box::new(right))
    }

    /// The constant zero, as a value of the circuit.
    pub open spec fn zero_constant() -> FieldVar {
        FieldVar::Constant(FieldElement::of(0))
    }

    /// The constant zero.
    pub fn zero() -> (r: FieldVar)
        ensures
            r == FieldVar::zero_constant(),
    {
        FieldVar::Constant(FieldElement::zero())
    }

    /// The constant `value`.
    pub fn constant(value: FieldElement) -> (r: FieldVar)
        ensures
            r == FieldVar::Constant(value),
    {
        FieldVar::Constant(value)
    }

    /// The sum of this value and `other`. No cell is used for it: it is
    /// worked out when it is read.
    pub fn add(&self, other: &FieldVar) -> (r: FieldVar)
        ensures
            r == FieldVar::sum(*self, *other),
    {
        FieldVar::Add(Box::new(self.clone()), Box::new(other.clone()))
    }

    /// A value that mentions only the first `cells` cells mentions only the
    /// first `more` cells, for `more` at least `cells`.
    pub proof fn lemma_allocated_grows(self, cells: nat, more: nat)
        requires
            self.allocated(cells),
            cells <= more,
        ensures
            self.allocated(more),
        decreases self,
    {
        match self {
            FieldVar::Constant(_) => {},
            FieldVar::Var(_) => {},
            FieldVar::Add(a, b) => {
                a.lemma_allocated_grows(cells, more);
                b.lemma_allocated_grows(cells, more);
            },
        }
    }

    /// A value reads only the cells that it mentions: it takes the same
    /// integer under two witnesses that agree on its cells.
    pub proof fn lemma_eval_extends(self, witness: Seq<nat>, longer: Seq<nat>)
        requires
            self.allocated(witness.len()),
            extends(longer, witness),
        ensures
            self.eval(longer) == self.eval(witness),
            self.allocated(longer.len()),
        decreases self,
    {
        match self {
            FieldVar::Constant(_) => {},
            FieldVar::Var(_) => {},
            FieldVar::Add(a, b) => {
                a.lemma_eval_extends(witness, longer);
                b.lemma_eval_extends(witness, longer);
            },
        }
    }
}

/// The witness `longer` has the cells of `witness`, and maybe more after them.
pub open spec fn extends(longer: Seq<nat>, witness: Seq<nat>) -> bool {
    &&& witness.len() <= longer.len()
    &&& forall|i: int| 0 <= i < witness.len() ==> witness[i] == longer[i]
}

/// Every value of the sequence mentions only the first `cells` cells.
pub open spec fn all_allocated(vars: Seq<FieldVar>, cells: nat) -> bool {
    forall|j: int| 0 <= j < vars.len() ==> (#[trigger] vars[j]).allocated(cells)
}

/// The integers that the values of the sequence take under a witness.
pub open spec fn evals(vars: Seq<FieldVar>, witness: Seq<nat>) -> Seq<nat> {
    vars.map_values(|v: FieldVar| v.eval(witness))
}

/// The three cells that start at `first`, as values of the circuit.
pub open spec fn cells_from(first: nat) -> Seq<FieldVar> {
    seq![
        FieldVar::Var(first as usize),
        FieldVar::Var((first + 1) as usize),
        FieldVar::Var((first + 2) as usize),
    ]
}

/// Values that mention only the first `cells` cells mention only the first
/// `more` cells, for `more` at least `cells`.
pub proof fn lemma_all_allocated_grows(vars: Seq<FieldVar>, cells: nat, more: nat)
    requires
        all_allocated(vars, cells),
        cells <= more,
    ensures
        all_allocated(vars, more),
{
    assert forall|j: int| 0 <= j < vars.len() implies (#[trigger] vars[j]).allocated(more) by {
        vars[j].lemma_allocated_grows(cells, more);
    }
}

/// Values that are allocated read the same under a longer witness.
pub proof fn lemma_evals_extend(vars: Seq<FieldVar>, witness: Seq<nat>, longer: Seq<nat>)
    requires
        all_allocated(vars, witness.len()),
        extends(longer, witness),
    ensures
        evals(vars, longer) == evals(vars, witness),
        all_allocated(vars, longer.len()),
{
    assert forall|j: int| 0 <= j < vars.len() implies vars[j].eval(longer) == vars[j].eval(
        witness,
    ) && (#[trigger] vars[j]).allocated(longer.len()) by {
        vars[j].lemma_eval_extends(witness, longer);
    }
    assert(evals(vars, longer) =~= evals(vars, witness));
}

} // verus!
