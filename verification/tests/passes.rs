use quantum_transpiler::{
    Angle, Gate, GateCancellationPass, OptimizationPass, Pass, QuantumCircuit,
    RotationMergingPass,
};

type Summary = Vec<(String, Vec<usize>, Vec<i64>)>;

fn summary_of(gates: &[Gate]) -> Summary {
    gates
        .iter()
        .map(|g| {
            (g.name.clone(), g.qubits.clone(), g.params.iter().map(|a| a.femtoradians).collect())
        })
        .collect()
}

fn gate(name: &str, qubits: &[usize], params: &[i64]) -> Gate {
    Gate {
        name: name.to_string(),
        qubits: qubits.to_vec(),
        params: params.iter().map(|&femtoradians| Angle { femtoradians }).collect(),
    }
}

fn rz(qubit: usize, femtoradians: i64) -> Gate {
    gate("rz", &[qubit], &[femtoradians])
}

fn circuit(gates: Vec<Gate>) -> QuantumCircuit {
    QuantumCircuit { num_qubits: 4, num_clbits: 2, gates }
}

fn cancel(gates: Vec<Gate>) -> Summary {
    summary_of(&GateCancellationPass.optimize(&circuit(gates)).gates)
}

fn merge(gates: Vec<Gate>) -> Summary {
    summary_of(&RotationMergingPass.optimize(&circuit(gates)).gates)
}

const RADIAN: i64 = 1_000_000_000_000_000;

#[test]
fn two_adjacent_identical_gates_cancel() {
    assert!(cancel(vec![gate("h", &[0], &[]), gate("h", &[0], &[])]).is_empty());
    assert!(cancel(vec![gate("cx", &[0, 1], &[]), gate("cx", &[0, 1], &[])]).is_empty());
    assert!(cancel(vec![gate("t", &[2], &[]), gate("t", &[2], &[])]).is_empty());
}

#[test]
fn gates_that_differ_in_name_or_qubits_stay() {
    let gates = vec![
        gate("h", &[0], &[]),
        gate("x", &[0], &[]),
        gate("x", &[1], &[]),
        gate("cx", &[0, 1], &[]),
        gate("cx", &[1, 0], &[]),
        gate("cx", &[1], &[]),
    ];
    assert_eq!(cancel(gates.clone()), summary_of(&gates));
}

#[test]
fn parameters_do_not_keep_gates_from_cancelling() {
    assert!(cancel(vec![rz(0, RADIAN), rz(0, 2 * RADIAN)]).is_empty());
    assert!(cancel(vec![gate("rz", &[0], &[]), rz(0, 5)]).is_empty());
}

#[test]
fn only_directly_adjacent_gates_cancel() {
    let gates = vec![gate("h", &[0], &[]), gate("x", &[1], &[]), gate("h", &[0], &[])];
    assert_eq!(cancel(gates.clone()), summary_of(&gates));
}

#[test]
fn of_three_identical_gates_the_third_stays() {
    let h = gate("h", &[0], &[]);
    assert_eq!(cancel(vec![h.clone(), h.clone(), h.clone()]), summary_of(&[h.clone()]));
    assert!(cancel(vec![h.clone(), h.clone(), h.clone(), h.clone()]).is_empty());
}

#[test]
fn the_sweep_resumes_behind_a_pair() {
    let (h, x) = (gate("h", &[0], &[]), gate("x", &[0], &[]));
    assert_eq!(
        cancel(vec![x.clone(), h.clone(), h.clone(), h.clone(), x.clone()]),
        summary_of(&[x.clone(), h.clone(), x.clone()])
    );
}

#[test]
fn a_sweep_can_leave_a_pair_for_the_next_sweep() {
    let (a, b) = (gate("x", &[0], &[]), gate("h", &[0], &[]));
    let once =
        GateCancellationPass.optimize(&circuit(vec![a.clone(), b.clone(), b.clone(), a.clone()]));
    assert_eq!(summary_of(&once.gates), summary_of(&[a.clone(), a.clone()]));
    let twice = GateCancellationPass.optimize(&once);
    assert!(twice.gates.is_empty());
}

#[test]
fn a_second_sweep_changes_nothing_where_the_first_left_no_pair() {
    let gates = vec![
        gate("h", &[0], &[]),
        gate("h", &[0], &[]),
        gate("x", &[1], &[]),
        gate("cx", &[0, 1], &[]),
        gate("cx", &[0, 1], &[]),
        gate("cx", &[0, 1], &[]),
        gate("h", &[1], &[]),
    ];
    let once = GateCancellationPass.optimize(&circuit(gates));
    assert_eq!(
        summary_of(&once.gates),
        summary_of(&[gate("x", &[1], &[]), gate("cx", &[0, 1], &[]), gate("h", &[1], &[])])
    );
    let twice = GateCancellationPass.optimize(&once);
    assert_eq!(summary_of(&twice.gates), summary_of(&once.gates));
}

#[test]
fn cancellation_keeps_the_registers_and_its_argument() {
    let input = circuit(vec![gate("h", &[0], &[]), gate("h", &[0], &[])]);
    let output = GateCancellationPass.optimize(&input);
    assert_eq!((output.num_qubits, output.num_clbits), (4, 2));
    assert_eq!(input.gates.len(), 2);
    assert!(cancel(vec![]).is_empty());
    assert_eq!(cancel(vec![gate("h", &[0], &[])]), summary_of(&[gate("h", &[0], &[])]));
}

#[test]
fn opposite_rotations_are_dropped() {
    assert!(merge(vec![rz(0, RADIAN), rz(0, -RADIAN)]).is_empty());
    assert!(merge(vec![rz(3, -1_570_800_000_000_000), rz(3, 1_570_800_000_000_000)]).is_empty());
    assert!(merge(vec![rz(0, i64::MAX), rz(0, -i64::MAX)]).is_empty());
    assert_eq!(
        merge(vec![gate("h", &[0], &[]), rz(0, 7), rz(0, -7), gate("x", &[0], &[])]),
        summary_of(&[gate("h", &[0], &[]), gate("x", &[0], &[])])
    );
}

#[test]
fn consecutive_rotations_of_one_qubit_add_up() {
    assert_eq!(
        merge(vec![rz(2, 1_570_800_000_000_000), rz(2, 1_570_800_000_000_000)]),
        summary_of(&[rz(2, 3_141_600_000_000_000)])
    );
    assert_eq!(
        merge(vec![rz(1, RADIAN), rz(1, 2 * RADIAN), rz(1, -RADIAN / 2), rz(1, 5)]),
        summary_of(&[rz(1, 2 * RADIAN + RADIAN / 2 + 5)])
    );
}

#[test]
fn a_sum_within_a_tenth_of_a_nanoradian_is_dropped() {
    assert!(merge(vec![rz(0, 60_000), rz(0, 40_000)]).is_empty());
    assert!(merge(vec![rz(0, -60_000), rz(0, -40_000)]).is_empty());
    assert_eq!(merge(vec![rz(0, 60_000), rz(0, 40_001)]), summary_of(&[rz(0, 100_001)]));
    assert_eq!(merge(vec![rz(0, -60_000), rz(0, -40_001)]), summary_of(&[rz(0, -100_001)]));
}

#[test]
fn a_single_rotation_is_a_run_too() {
    assert_eq!(merge(vec![rz(0, RADIAN)]), summary_of(&[rz(0, RADIAN)]));
    assert!(merge(vec![rz(0, 0)]).is_empty());
    assert!(merge(vec![rz(0, 100_000)]).is_empty());
    assert_eq!(
        merge(vec![gate("rz", &[1], &[RADIAN, 5, 6])]),
        summary_of(&[gate("rz", &[1], &[RADIAN])])
    );
}

#[test]
fn any_other_gate_ends_a_run() {
    let gates = vec![rz(0, RADIAN), gate("h", &[3], &[]), rz(0, RADIAN)];
    assert_eq!(merge(gates.clone()), summary_of(&gates));
    let gates = vec![rz(0, RADIAN), rz(1, RADIAN), rz(0, RADIAN)];
    assert_eq!(merge(gates.clone()), summary_of(&gates));
    assert_eq!(
        merge(vec![rz(0, RADIAN), rz(0, RADIAN), rz(1, 3), rz(1, -3), rz(0, RADIAN)]),
        summary_of(&[rz(0, 2 * RADIAN), rz(0, RADIAN)])
    );
}

#[test]
fn only_rz_on_one_qubit_with_an_angle_is_a_rotation() {
    let gates = vec![
        gate("rz", &[0], &[]),
        gate("rz", &[0], &[]),
        gate("rz", &[0, 1], &[RADIAN]),
        gate("rz", &[0, 1], &[RADIAN]),
        gate("rx", &[0], &[RADIAN]),
        gate("rx", &[0], &[RADIAN]),
        gate("RZ", &[0], &[RADIAN]),
        gate("rz", &[], &[RADIAN]),
        gate("h", &[0], &[]),
        gate("h", &[0], &[]),
    ];
    assert_eq!(merge(gates.clone()), summary_of(&gates));
    assert_eq!(
        merge(vec![rz(0, RADIAN), gate("rz", &[0], &[]), rz(0, RADIAN)]),
        summary_of(&[rz(0, RADIAN), gate("rz", &[0], &[]), rz(0, RADIAN)])
    );
}

#[test]
fn a_run_takes_the_first_parameter_of_each_gate() {
    assert_eq!(
        merge(vec![gate("rz", &[0], &[RADIAN, 9]), gate("rz", &[0], &[RADIAN, 8, 7])]),
        summary_of(&[rz(0, 2 * RADIAN)])
    );
}

#[test]
fn a_sum_beyond_the_range_is_held_at_its_end() {
    assert_eq!(merge(vec![rz(0, i64::MAX), rz(0, i64::MAX)]), summary_of(&[rz(0, i64::MAX)]));
    assert_eq!(merge(vec![rz(0, i64::MIN), rz(0, i64::MIN)]), summary_of(&[rz(0, i64::MIN)]));
    assert_eq!(
        merge(vec![rz(0, i64::MAX), rz(0, i64::MAX), rz(0, i64::MIN), rz(0, -200_000)]),
        summary_of(&[rz(0, i64::MAX - 200_001)])
    );
    assert!(merge(vec![rz(0, i64::MAX), rz(0, i64::MAX), rz(0, i64::MIN), rz(0, i64::MIN)])
        .is_empty());
    assert_eq!(
        merge(vec![rz(0, i64::MAX), rz(0, i64::MAX), rz(0, -i64::MAX)]),
        summary_of(&[rz(0, i64::MAX)])
    );
}

#[test]
fn merging_keeps_the_registers_and_its_argument() {
    let input = circuit(vec![rz(0, 5), rz(0, -5)]);
    let output = RotationMergingPass.optimize(&input);
    assert_eq!((output.num_qubits, output.num_clbits), (4, 2));
    assert_eq!(input.gates.len(), 2);
    assert!(merge(vec![]).is_empty());
}

#[test]
fn the_order_of_the_passes_matters() {
    let gates = vec![rz(0, RADIAN), rz(0, RADIAN)];
    let cancelled_first =
        RotationMergingPass.optimize(&GateCancellationPass.optimize(&circuit(gates.clone())));
    let merged_first =
        GateCancellationPass.optimize(&RotationMergingPass.optimize(&circuit(gates)));
    assert!(cancelled_first.gates.is_empty());
    assert_eq!(summary_of(&merged_first.gates), summary_of(&[rz(0, 2 * RADIAN)]));
}

fn run_all(passes: &[&dyn OptimizationPass], start: QuantumCircuit) -> QuantumCircuit {
    let mut current = start;
    for pass in passes {
        current = pass.optimize(&current);
    }
    current
}

#[test]
fn passes_can_be_held_in_a_list() {
    let gates = vec![rz(1, 4), gate("h", &[0], &[]), gate("h", &[0], &[]), rz(1, RADIAN)];
    let done = run_all(&[&GateCancellationPass, &RotationMergingPass], circuit(gates));
    assert_eq!(summary_of(&done.gates), summary_of(&[rz(1, RADIAN + 4)]));
}

#[test]
fn a_pass_held_by_a_transpiler_does_what_the_pass_does() {
    let gates =
        vec![rz(1, 2 * RADIAN), gate("h", &[0], &[]), gate("h", &[0], &[]), rz(1, RADIAN)];
    let swept = Pass::Cancellation(GateCancellationPass).optimize(&circuit(gates.clone()));
    assert_eq!(summary_of(&swept.gates), summary_of(&[rz(1, 2 * RADIAN), rz(1, RADIAN)]));
    let merged = Pass::RotationMerging(RotationMergingPass).optimize(&swept);
    assert_eq!(summary_of(&merged.gates), summary_of(&[rz(1, 3 * RADIAN)]));
    let unswept = Pass::RotationMerging(RotationMergingPass).optimize(&circuit(gates.clone()));
    assert_eq!(summary_of(&unswept.gates), summary_of(&gates));
}
