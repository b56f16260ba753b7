use arithmetization::circuits::polynomials::poseidon::{
    row_position, ROUNDS_PER_ROW, SPONGE_WIDTH,
};
use arithmetization::field::FieldElement;
use arithmetization::permutation::{full_round, PoseidonParams};
use arithmetization::snarky::constraint_system::{Constraint, PoseidonInput};
use arithmetization::snarky::cvar::FieldVar;
use arithmetization::snarky::poseidon::{arrange_rows, poseidon, CircuitAbsorb, DuplexState};
use arithmetization::snarky::runner::RunState;
use ark_ff::{BigInt, Field, PrimeField};
use ark_pallas::Fq;

fn fe(value: u64) -> FieldElement {
    FieldElement::from_u64(value)
}

fn constant(value: u64) -> FieldVar {
    FieldVar::constant(fe(value))
}

fn ark(e: &FieldElement) -> Fq {
    Fq::from_bigint(BigInt::new(e.to_limbs())).unwrap()
}

fn from_ark(x: Fq) -> FieldElement {
    FieldElement::from_limbs(x.into_bigint().0).unwrap()
}

/// Parameters for the tests: a matrix of small integers and constants that
/// grow with the round.
fn test_params(rounds: usize) -> PoseidonParams {
    let round_constants = (0..rounds as u64)
        .map(|r| [fe(1000 * r + 11), fe(1000 * r + 12), fe(1000 * r + 13)])
        .collect();
    PoseidonParams {
        round_constants,
        mds: [[fe(1), fe(2), fe(3)], [fe(4), fe(5), fe(6)], [fe(7), fe(8), fe(10)]],
        sbox_exponent: 7,
    }
}

/// One round, worked out with the arithmetic of `ark-ff` alone.
fn reference_round(params: &PoseidonParams, state: [Fq; 3], r: usize) -> [Fq; 3] {
    let boxed = state.map(|x| x.pow([params.sbox_exponent]));
    let mut next = [Fq::from(0u64); 3];
    for i in 0..3 {
        for j in 0..3 {
            next[i] += ark(&params.mds[i][j]) * boxed[j];
        }
        next[i] += ark(&params.round_constants[r][i]);
    }
    next
}

/// All the states of a permutation: the one that goes in and the one after
/// each round.
fn reference_trace(params: &PoseidonParams, state: [Fq; 3]) -> Vec<[Fq; 3]> {
    let mut trace = vec![state];
    for r in 0..params.round_constants.len() {
        let next = reference_round(params, trace[r], r);
        trace.push(next);
    }
    trace
}

fn reference_hash(params: &PoseidonParams, left: Fq, right: Fq) -> (Fq, Fq) {
    let trace = reference_trace(params, [left, right, Fq::from(0u64)]);
    let last = trace[trace.len() - 1];
    (last[0], last[1])
}

fn read_state(sys: &RunState, state: &[FieldVar]) -> [Fq; 3] {
    assert_eq!(state.len(), 3);
    [ark(&sys.read_var(&state[0])), ark(&sys.read_var(&state[1])), ark(&sys.read_var(&state[2]))]
}

fn poseidon_input(sys: &RunState, index: usize) -> &PoseidonInput {
    match &sys.constraints()[index].constraint {
        Constraint::PoseidonPermutation(input) => input,
    }
}

#[test]
fn the_layout_has_rows_of_five_states_of_three() {
    assert_eq!(SPONGE_WIDTH, 3);
    assert_eq!(ROUNDS_PER_ROW, 5);
}

#[test]
fn one_round_on_small_integers() {
    let params = test_params(5);
    let out = full_round(&params, &[fe(1), fe(2), fe(3)], 0);
    // The S-box gives 1, 128, 2187.
    assert_eq!(out, [fe(6818 + 11), fe(13766 + 12), fe(22901 + 13)]);
    let out = full_round(&params, &[fe(1), fe(2), fe(3)], 4);
    assert_eq!(out, [fe(6818 + 4011), fe(13766 + 4012), fe(22901 + 4013)]);
    let out = full_round(&params, &[fe(0), fe(0), fe(0)], 2);
    assert_eq!(out, [fe(2011), fe(2012), fe(2013)]);
    let out = full_round(&params, &[fe(0), fe(1), fe(0)], 0);
    assert_eq!(out, [fe(2 + 11), fe(5 + 12), fe(8 + 13)]);
}

#[test]
fn one_round_uses_the_exponent_of_the_parameters() {
    let mut params = test_params(5);
    params.sbox_exponent = 5;
    let out = full_round(&params, &[fe(1), fe(2), fe(3)], 0);
    // The S-box gives 1, 32, 243.
    assert_eq!(out, [fe(1 + 64 + 729 + 11), fe(4 + 160 + 1458 + 12), fe(7 + 256 + 2430 + 13)]);
    params.sbox_exponent = 1;
    let out = full_round(&params, &[fe(1), fe(2), fe(3)], 1);
    assert_eq!(out, [fe(14 + 1011), fe(32 + 1012), fe(53 + 1013)]);
}

#[test]
fn one_round_reduces_modulo_the_prime() {
    let params = test_params(5);
    let minus_one = from_ark(-Fq::from(1u64));
    // The S-box keeps -1, so the first row gives -1 - 2 - 3 + 11.
    let out = full_round(&params, &[minus_one, minus_one, minus_one], 0);
    assert_eq!(out, [fe(5), from_ark(-Fq::from(3u64)), from_ark(-Fq::from(12u64))]);
}

#[test]
fn rounds_agree_with_the_arithmetic_of_ark_ff() {
    let params = test_params(55);
    let mut state = [fe(3), fe(5), fe(0)];
    let mut reference = [Fq::from(3u64), Fq::from(5u64), Fq::from(0u64)];
    for r in 0..55 {
        state = full_round(&params, &state, r);
        reference = reference_round(&params, reference, r);
        assert_eq!([ark(&state[0]), ark(&state[1]), ark(&state[2])], reference);
    }
    assert_ne!(state[0], fe(3));
}

#[test]
fn rows_move_their_last_state_to_the_second_place() {
    let states: Vec<[FieldVar; 3]> =
        (0..10u64).map(|i| [constant(10 * i), constant(10 * i + 1), constant(10 * i + 2)]).collect();
    let arranged = arrange_rows(&states);
    let order = [0usize, 4, 1, 2, 3, 5, 9, 6, 7, 8];
    assert_eq!(arranged.len(), 10);
    for (position, round) in order.iter().enumerate() {
        assert_eq!(arranged[position], states[*round].to_vec());
    }
}

#[test]
fn rows_of_an_empty_trace_are_empty() {
    assert_eq!(arrange_rows(&Vec::new()), Vec::<Vec<FieldVar>>::new());
}

#[test]
fn a_circuit_takes_only_whole_rows_of_rounds() {
    for rounds in [0usize, 5, 10, 55] {
        let sys = RunState::new(test_params(rounds)).unwrap();
        assert_eq!(sys.witness_len(), 0);
        assert!(sys.constraints().is_empty());
        assert_eq!(sys.poseidon_params().round_constants.len(), rounds);
    }
    for rounds in [1usize, 4, 6, 54, 56] {
        assert!(RunState::new(test_params(rounds)).is_none());
    }
}

#[test]
fn values_are_read_under_the_witness() {
    let mut sys = RunState::new(test_params(5)).unwrap();
    let a = sys.store_field_elt(fe(40));
    let b = sys.store_field_elt(fe(2));
    assert_eq!(a, FieldVar::Var(0));
    assert_eq!(b, FieldVar::Var(1));
    assert_eq!(sys.witness_len(), 2);
    assert_eq!(sys.read_var(&a), fe(40));
    assert_eq!(sys.read_var(&b), fe(2));
    assert_eq!(sys.read_var(&constant(9)), fe(9));
    let sum = a.add(&b);
    assert_eq!(sum, FieldVar::Add(Box::new(FieldVar::Var(0)), Box::new(FieldVar::Var(1))));
    assert_eq!(sys.read_var(&sum), fe(42));
    assert_eq!(sys.read_var(&sum.add(&constant(8))), fe(50));
    assert_eq!(sys.witness_len(), 2);
    assert_eq!(sys.read_var(&FieldVar::zero()), fe(0));
}

#[test]
fn a_value_is_allocated_when_its_cells_are() {
    let mut sys = RunState::new(test_params(5)).unwrap();
    assert!(sys.is_allocated(&constant(1)));
    assert!(!sys.is_allocated(&FieldVar::Var(0)));
    let a = sys.store_field_elt(fe(1));
    assert!(sys.is_allocated(&a));
    assert!(!sys.is_allocated(&FieldVar::Var(1)));
    assert!(sys.is_allocated(&a.add(&constant(2))));
    assert!(!sys.is_allocated(&a.add(&FieldVar::Var(1))));
    assert!(!sys.is_allocated(&FieldVar::Var(7).add(&a)));
    poseidon(&mut sys, "here", (a.clone(), a));
    assert!(sys.is_allocated(&FieldVar::Var(15)));
    assert!(!sys.is_allocated(&FieldVar::Var(16)));
}

#[test]
fn the_trace_of_ten_rounds_is_laid_out_in_two_rows() {
    let params = test_params(10);
    let mut sys = RunState::new(test_params(10)).unwrap();
    let left = sys.store_field_elt(fe(3));
    let right = sys.store_field_elt(fe(5));
    let hash = poseidon(&mut sys, "here", (left.clone(), right.clone()));

    let reference = reference_trace(&params, [Fq::from(3u64), Fq::from(5u64), Fq::from(0u64)]);
    assert_eq!(reference.len(), 11);
    assert_eq!(sys.witness_len(), 2 + 3 * 10);
    assert_eq!(sys.constraints().len(), 1);
    assert_eq!(sys.constraints()[0].label, Some("Poseidon".to_string()));
    assert_eq!(sys.constraints()[0].loc, "here".to_string());

    let input = poseidon_input(&sys, 0);
    assert_eq!(input.states.len(), 10);
    let order = [0usize, 4, 1, 2, 3, 5, 9, 6, 7, 8];
    for (position, round) in order.iter().enumerate() {
        assert_eq!(read_state(&sys, &input.states[position]), reference[*round]);
    }
    assert_eq!(read_state(&sys, &input.last), reference[10]);

    // The first state is the pair itself with a zero; the others are cells.
    assert_eq!(input.states[0], vec![left, right, FieldVar::zero()]);
    assert_eq!(input.states[1], vec![FieldVar::Var(11), FieldVar::Var(12), FieldVar::Var(13)]);
    assert_eq!(input.states[2], vec![FieldVar::Var(2), FieldVar::Var(3), FieldVar::Var(4)]);
    assert_eq!(input.states[5], vec![FieldVar::Var(14), FieldVar::Var(15), FieldVar::Var(16)]);
    assert_eq!(input.states[6], vec![FieldVar::Var(26), FieldVar::Var(27), FieldVar::Var(28)]);
    assert_eq!(input.last, vec![FieldVar::Var(29), FieldVar::Var(30), FieldVar::Var(31)]);
    assert_eq!(hash, (FieldVar::Var(29), FieldVar::Var(30)));
}

#[test]
fn a_hash_returns_the_first_two_elements_of_the_permutation() {
    let params = test_params(55);
    let mut sys = RunState::new(test_params(55)).unwrap();
    let (a, b) = poseidon(&mut sys, "first", (constant(3), constant(5)));
    let expected = reference_hash(&params, Fq::from(3u64), Fq::from(5u64));
    assert_eq!((ark(&sys.read_var(&a)), ark(&sys.read_var(&b))), expected);
    assert_eq!(sys.witness_len(), 3 * 55);
    assert_eq!(poseidon_input(&sys, 0).states.len(), 55);

    // A hash of values that are sums reads the sums.
    let sum = a.add(&constant(1));
    let (c, d) = poseidon(&mut sys, "second", (sum, b.clone()));
    let expected = reference_hash(&params, expected.0 + Fq::from(1u64), expected.1);
    assert_eq!((ark(&sys.read_var(&c)), ark(&sys.read_var(&d))), expected);
    assert_eq!(sys.constraints().len(), 2);
    assert_eq!(sys.constraints()[1].loc, "second".to_string());
    // The cells of the first hash are as they were.
    assert_eq!(ark(&sys.read_var(&a)) + Fq::from(1u64), ark(&sys.read_var(&poseidon_input(&sys, 1).states[0][0])));
}

#[test]
fn a_hash_without_rounds_returns_its_pair() {
    let mut sys = RunState::new(test_params(0)).unwrap();
    let hash = poseidon(&mut sys, "nowhere", (constant(3), constant(5)));
    assert_eq!(hash, (constant(3), constant(5)));
    assert_eq!(sys.witness_len(), 0);
    let input = poseidon_input(&sys, 0);
    assert!(input.states.is_empty());
    assert_eq!(input.last, vec![constant(3), constant(5), FieldVar::zero()]);
}

#[test]
fn absorbing_up_to_two_values_and_squeezing_makes_one_hash() {
    for count in 0..=2u64 {
        let mut sys = RunState::new(test_params(10)).unwrap();
        let mut sponge = DuplexState::new();
        let inputs: Vec<FieldVar> = (0..count).map(|i| constant(i + 1)).collect();
        sponge.absorb(&mut sys, "absorb", &inputs);
        assert_eq!(sys.constraints().len(), 0);
        sponge.squeeze(&mut sys, "squeeze");
        assert_eq!(sys.constraints().len(), 1);
    }
}

#[test]
fn absorbing_three_values_and_squeezing_makes_two_hashes() {
    let mut sys = RunState::new(test_params(10)).unwrap();
    let mut sponge = DuplexState::new();
    sponge.absorb(&mut sys, "absorb", &[constant(1), constant(2)]);
    assert_eq!(sys.constraints().len(), 0);
    sponge.absorb(&mut sys, "absorb", &[constant(3)]);
    assert_eq!(sys.constraints().len(), 1);
    assert_eq!(sys.constraints()[0].loc, "absorb".to_string());
    sponge.squeeze(&mut sys, "squeeze");
    assert_eq!(sys.constraints().len(), 2);
    assert_eq!(sys.constraints()[1].loc, "squeeze".to_string());
}

#[test]
fn absorbing_makes_a_hash_for_every_second_value_from_the_third_on() {
    for (count, hashes) in [(0usize, 0usize), (1, 0), (2, 0), (3, 1), (4, 1), (5, 2), (6, 2), (7, 3), (20, 9)] {
        let mut sys = RunState::new(test_params(5)).unwrap();
        let mut sponge = DuplexState::new();
        let inputs: Vec<FieldVar> = (0..count as u64).map(constant).collect();
        sponge.absorb(&mut sys, "absorb", &inputs);
        assert_eq!(sys.constraints().len(), hashes);

        // One value at a time makes the same hashes.
        let mut one_by_one = RunState::new(test_params(5)).unwrap();
        let mut sponge = DuplexState::new();
        for input in &inputs {
            sponge.absorb(&mut one_by_one, "absorb", std::slice::from_ref(input));
        }
        assert_eq!(one_by_one.constraints(), sys.constraints());
    }
}

#[test]
fn squeezing_hands_out_both_values_of_a_hash() {
    let params = test_params(10);
    let mut sys = RunState::new(test_params(10)).unwrap();
    let mut sponge = DuplexState::new();
    sponge.absorb(&mut sys, "absorb", &[constant(3), constant(5)]);

    let first = sponge.squeeze(&mut sys, "squeeze");
    assert_eq!(sys.constraints().len(), 1);
    let cells = sys.witness_len();
    let second = sponge.squeeze(&mut sys, "squeeze");
    assert_eq!(sys.constraints().len(), 1);
    assert_eq!(sys.witness_len(), cells);

    let expected = reference_hash(&params, Fq::from(3u64), Fq::from(5u64));
    assert_eq!(ark(&sys.read_var(&first)), expected.0);
    assert_eq!(ark(&sys.read_var(&second)), expected.1);
    let last = &poseidon_input(&sys, 0).last;
    assert_eq!((&first, &second), (&last[0], &last[1]));

    let third = sponge.squeeze(&mut sys, "squeeze");
    assert_eq!(sys.constraints().len(), 2);
    let fourth = sponge.squeeze(&mut sys, "squeeze");
    assert_eq!(sys.constraints().len(), 2);
    // The first hash is the new rate, so the second hash is the hash of it.
    let again = reference_hash(&params, expected.0, expected.1);
    assert_eq!(ark(&sys.read_var(&third)), again.0);
    assert_eq!(ark(&sys.read_var(&fourth)), again.1);
    assert_ne!(again, expected);
    let hashed = &poseidon_input(&sys, 1).states[0];
    assert_eq!(hashed, &vec![first, second, FieldVar::zero()]);
}

#[test]
fn a_hash_while_squeezing_becomes_the_rate() {
    let params = test_params(10);
    let mut sys = RunState::new(test_params(10)).unwrap();
    let mut sponge = DuplexState::new();
    sponge.absorb(&mut sys, "absorb", &[constant(3), constant(5)]);
    let first = sponge.squeeze(&mut sys, "squeeze");
    let second = sponge.squeeze(&mut sys, "squeeze");

    // What is absorbed next is added to the hash, not to the pair before it.
    sponge.absorb(&mut sys, "absorb", &[constant(7), constant(8), constant(9)]);
    assert_eq!(sys.constraints().len(), 2);
    let overflow = poseidon_input(&sys, 1);
    assert_eq!(overflow.states[0][0], first.add(&constant(7)));
    assert_eq!(overflow.states[0][1], second.add(&constant(8)));
    assert_eq!(overflow.states[0][2], FieldVar::zero());

    let out = sponge.squeeze(&mut sys, "squeeze");
    let one = reference_hash(&params, Fq::from(3u64), Fq::from(5u64));
    let two = reference_hash(&params, one.0 + Fq::from(7u64), one.1 + Fq::from(8u64));
    let three = reference_hash(&params, two.0 + Fq::from(9u64), two.1);
    assert_eq!(ark(&sys.read_var(&out)), three.0);
}

#[test]
fn absorbing_three_and_five_is_repeatable() {
    let run = || {
        let mut sys = RunState::new(test_params(55)).unwrap();
        let mut sponge = DuplexState::new();
        sponge.absorb(&mut sys, "absorb", &[constant(3), constant(5)]);
        let out = sponge.squeeze(&mut sys, "squeeze");
        (sys.read_var(&out), out, sys.witness_len())
    };
    let first = run();
    let second = run();
    assert_eq!(first, second);
    assert_eq!(first.1, FieldVar::Var(3 * 54));
    let expected = reference_hash(&test_params(55), Fq::from(3u64), Fq::from(5u64));
    assert_eq!(ark(&first.0), expected.0);
}

#[test]
fn a_single_value_is_added_to_the_first_element_only() {
    let params = test_params(10);
    let mut sys = RunState::new(test_params(10)).unwrap();
    let mut sponge = DuplexState::new();
    sponge.absorb(&mut sys, "absorb", &[constant(9)]);
    let out = sponge.squeeze(&mut sys, "squeeze");
    let expected = reference_hash(&params, Fq::from(9u64), Fq::from(0u64));
    assert_eq!(ark(&sys.read_var(&out)), expected.0);
    let hashed = &poseidon_input(&sys, 0).states[0];
    assert_eq!(hashed[0], FieldVar::zero().add(&constant(9)));
    assert_eq!(hashed[1], FieldVar::zero());
    assert_eq!(hashed[2], FieldVar::zero());
}

#[test]
fn the_older_of_two_values_goes_to_the_first_element() {
    let mut sys = RunState::new(test_params(10)).unwrap();
    let mut sponge = DuplexState::new();
    sponge.absorb(&mut sys, "absorb", &[constant(1)]);
    sponge.absorb(&mut sys, "absorb", &[constant(2)]);
    sponge.squeeze(&mut sys, "squeeze");
    let hashed = &poseidon_input(&sys, 0).states[0];
    assert_eq!(hashed[0], FieldVar::zero().add(&constant(1)));
    assert_eq!(hashed[1], FieldVar::zero().add(&constant(2)));
}

#[test]
fn a_hash_while_absorbing_becomes_the_rate() {
    let params = test_params(10);
    let mut sys = RunState::new(test_params(10)).unwrap();
    let mut sponge = DuplexState::new();
    sponge.absorb(&mut sys, "absorb", &[constant(1), constant(2), constant(3)]);
    let out = sponge.squeeze(&mut sys, "squeeze");

    let first = reference_hash(&params, Fq::from(1u64), Fq::from(2u64));
    let second = reference_hash(&params, first.0 + Fq::from(3u64), first.1);
    assert_eq!(ark(&sys.read_var(&out)), second.0);

    let overflow = poseidon_input(&sys, 0);
    assert_eq!(overflow.states[0][0], FieldVar::zero().add(&constant(1)));
    assert_eq!(overflow.states[0][1], FieldVar::zero().add(&constant(2)));
    let drained = poseidon_input(&sys, 1);
    assert_eq!(drained.states[0][0], overflow.last[0].add(&constant(3)));
    assert_eq!(drained.states[0][1], overflow.last[1]);
    assert_eq!(drained.states[0][2], FieldVar::zero());
}

#[test]
fn absorbing_again_drops_the_value_that_waits() {
    let params = test_params(10);
    let mut sys = RunState::new(test_params(10)).unwrap();
    let mut sponge = DuplexState::new();
    sponge.absorb(&mut sys, "absorb", &[constant(3), constant(5)]);
    let first = sponge.squeeze(&mut sys, "squeeze");
    assert_eq!(sys.constraints().len(), 1);

    // Without this, the next squeeze would hand out the second value.
    sponge.absorb(&mut sys, "absorb", &[]);
    let next = sponge.squeeze(&mut sys, "squeeze");
    assert_eq!(sys.constraints().len(), 2);
    let one = reference_hash(&params, Fq::from(3u64), Fq::from(5u64));
    let two = reference_hash(&params, one.0, one.1);
    assert_eq!(ark(&sys.read_var(&first)), one.0);
    assert_eq!(ark(&sys.read_var(&next)), two.0);

    sponge.absorb(&mut sys, "absorb", &[constant(7)]);
    assert_eq!(sys.constraints().len(), 2);
    let last = sponge.squeeze(&mut sys, "squeeze");
    assert_eq!(sys.constraints().len(), 3);
    let three = reference_hash(&params, two.0 + Fq::from(7u64), two.1);
    assert_eq!(ark(&sys.read_var(&last)), three.0);
}

#[test]
fn a_fresh_sponge_can_be_squeezed() {
    let params = test_params(10);
    let mut sys = RunState::new(test_params(10)).unwrap();
    let mut sponge = DuplexState::default();
    let out = sponge.squeeze(&mut sys, "squeeze");
    let expected = reference_hash(&params, Fq::from(0u64), Fq::from(0u64));
    assert_eq!(ark(&sys.read_var(&out)), expected.0);
    assert_eq!(poseidon_input(&sys, 0).states[0], vec![FieldVar::zero(); 3]);
}

#[test]
fn the_trace_of_a_hash_meets_its_circuit() {
    let mut sys = RunState::new(test_params(10)).unwrap();
    let left = sys.store_field_elt(fe(3));
    poseidon(&mut sys, "here", (left, constant(5)));
    let input = poseidon_input(&sys, 0);
    let rebuilt = |states: Vec<Vec<FieldVar>>, last: Vec<FieldVar>| {
        Constraint::PoseidonPermutation(PoseidonInput { states, last })
    };
    assert!(sys.meets(&sys.constraints()[0].constraint));
    assert!(sys.meets(&rebuilt(input.states.clone(), input.last.clone())));

    // Two states in the order of the rounds instead of the order of the rows.
    let mut states = input.states.clone();
    states.swap(1, 4);
    assert!(!sys.meets(&rebuilt(states, input.last.clone())));
    // A last state that the last round does not give.
    let mut last = input.last.clone();
    last[2] = constant(1);
    assert!(!sys.meets(&rebuilt(input.states.clone(), last)));
    // A first state with another capacity.
    let mut states = input.states.clone();
    states[0][2] = constant(1);
    assert!(!sys.meets(&rebuilt(states, input.last.clone())));
    // A state too few, a value too few, a value too many.
    let mut states = input.states.clone();
    states.pop();
    assert!(!sys.meets(&rebuilt(states, input.last.clone())));
    let mut states = input.states.clone();
    states[3].pop();
    assert!(!sys.meets(&rebuilt(states, input.last.clone())));
    let mut last = input.last.clone();
    last.push(constant(0));
    assert!(!sys.meets(&rebuilt(input.states.clone(), last)));
    // A cell that the circuit does not have.
    let mut states = input.states.clone();
    states[7][1] = FieldVar::Var(1000);
    assert!(!sys.meets(&rebuilt(states, input.last.clone())));

    // The same trace in a circuit with other cells.
    let mut other = RunState::new(test_params(10)).unwrap();
    assert!(!other.meets(&sys.constraints()[0].constraint));
    for cell in 0..sys.witness_len() as u64 {
        other.store_field_elt(fe(cell));
    }
    assert!(!other.meets(&sys.constraints()[0].constraint));
}

#[test]
fn a_trace_without_rounds_meets_a_circuit_without_rounds() {
    let sys = RunState::new(test_params(0)).unwrap();
    let state = vec![constant(1), constant(2), constant(3)];
    let good = Constraint::PoseidonPermutation(PoseidonInput { states: vec![], last: state.clone() });
    assert!(sys.meets(&good));
    let long = Constraint::PoseidonPermutation(PoseidonInput { states: vec![state.clone()], last: state });
    assert!(!sys.meets(&long));
}

#[test]
fn a_constraint_that_meets_the_circuit_can_be_added() {
    let mut sys = RunState::new(test_params(5)).unwrap();
    poseidon(&mut sys, "here", (constant(3), constant(5)));
    let input = poseidon_input(&sys, 0);
    let copy = Constraint::PoseidonPermutation(PoseidonInput {
        states: input.states.clone(),
        last: input.last.clone(),
    });
    assert!(sys.meets(&copy));
    sys.add_constraint(copy, None, "there");
    assert_eq!(sys.constraints().len(), 2);
    assert_eq!(sys.constraints()[1].label, None);
    assert_eq!(sys.constraints()[1].loc, "there".to_string());
    assert_eq!(sys.constraints()[1].constraint, sys.constraints()[0].constraint);
    assert_eq!(sys.witness_len(), 15);
}

#[test]
fn a_sponge_holds_in_the_circuit_that_it_was_used_with() {
    let mut sys = RunState::new(test_params(5)).unwrap();
    let other = RunState::new(test_params(5)).unwrap();
    let mut sponge = DuplexState::new();
    assert!(sys.holds(&sponge));
    assert!(other.holds(&sponge));

    // A cell that waits in the queue.
    let cell = sys.store_field_elt(fe(4));
    sponge.absorb(&mut sys, "absorb", &[cell]);
    assert!(sys.holds(&sponge));
    assert!(!other.holds(&sponge));

    // Cells in the rate and a cell that waits to be handed out.
    let mut sponge = DuplexState::new();
    sponge.squeeze(&mut sys, "squeeze");
    assert!(sys.holds(&sponge));
    assert!(!other.holds(&sponge));
    // The sponge mentions the first two cells of the last state; the third
    // is the last cell of the circuit.
    let mut short = RunState::new(test_params(5)).unwrap();
    for _ in 0..sys.witness_len() - 2 {
        short.store_field_elt(fe(0));
    }
    assert!(!short.holds(&sponge));
    short.store_field_elt(fe(0));
    assert!(short.holds(&sponge));
}

#[test]
fn sequences_are_allocated_when_all_their_values_are() {
    let mut sys = RunState::new(test_params(5)).unwrap();
    let a = sys.store_field_elt(fe(1));
    assert!(sys.are_allocated(&[]));
    assert!(sys.are_allocated(&[a.clone(), constant(3)]));
    assert!(!sys.are_allocated(&[a.clone(), FieldVar::Var(1)]));
    assert!(!sys.are_allocated(&[FieldVar::Var(1), a]));
}

#[test]
fn rounds_stand_in_the_rows_with_the_last_in_second_place() {
    let positions: Vec<usize> = (0..10).map(row_position).collect();
    assert_eq!(positions, vec![0, 2, 3, 4, 1, 5, 7, 8, 9, 6]);
    assert_eq!(row_position(14), 11);
    assert_eq!(row_position(50), 50);
}

#[test]
fn a_value_absorbs_itself() {
    let mut sys = RunState::new(test_params(10)).unwrap();
    let mut sponge = DuplexState::new();
    let cell = sys.store_field_elt(fe(21));
    cell.absorb(&mut sponge, &mut sys);
    constant(4).absorb(&mut sponge, &mut sys);
    assert_eq!(sys.constraints().len(), 0);
    constant(5).absorb(&mut sponge, &mut sys);
    assert_eq!(sys.constraints().len(), 1);
    let hashed = &poseidon_input(&sys, 0).states[0];
    assert_eq!(hashed[0], FieldVar::zero().add(&cell));
    assert_eq!(hashed[1], FieldVar::zero().add(&constant(4)));

    let mut other = RunState::new(test_params(10)).unwrap();
    let mut sponge = DuplexState::new();
    let cell = other.store_field_elt(fe(21));
    sponge.absorb(&mut other, "FieldVar::absorb", &[cell, constant(4), constant(5)]);
    assert_eq!(other.constraints(), sys.constraints());
}
