//! Merging of consecutive `rz` rotations on one qubit.

use crate::angle::Angle;
use crate::circuit::{gate_views, gate_views_push, CircuitView, Gate, GateView, QuantumCircuit};
use crate::pass::OptimizationPass;
use vstd::prelude::*;

verus! {

/// Whether `gate` is an `rz` on a single qubit that carries an angle.
pub open spec fn is_rotation(gate: GateView) -> bool {
    gate.name == "rz"@ && gate.qubits.len() == 1 && gate.params.len() > 0
}

/// Whether `gate` is an `rz` on exactly the qubit `qubit` that carries an
/// angle.
pub open spec fn rotates(gate: GateView, qubit: usize) -> bool {
    gate.name == "rz"@ && gate.qubits == seq![qubit] && gate.params.len() > 0
}

/// The number of gates at the front of `gates` that rotate `qubit`.
pub open spec fn run_length(gates: Seq<GateView>, qubit: usize) -> nat
    decreases gates.len(),
{
    if gates.len() > 0 && rotates(gates[0], qubit) {
        1 + run_length(gates.skip(1), qubit)
    } else {
        0
    }
}

/// The exact sum, in femtoradians, of the first parameters of `gates`.
pub open spec fn total_angle(gates: Seq<GateView>) -> int
    decreases gates.len(),
{
    if gates.len() == 0 {
        0
    } else {
        total_angle(gates.drop_last()) + gates.last().params[0].femtoradians
    }
}

/// The `rz` gate that turns `qubit` by `angle`.
pub open spec fn rotation(qubit: usize, angle: Angle) -> GateView {
    GateView { name: "rz"@, qubits: seq![qubit], params: seq![angle] }
}

/// What rotation merging makes of `gates`: every maximal run of
/// consecutive rotations of one qubit is replaced by a single rotation by
/// the sum of their angles, or by nothing where that sum is negligible.
/// Every other gate stays where it was.
pub open spec fn merge_rotations(gates: Seq<GateView>) -> Seq<GateView>
    decreases gates.len(),
{
    if gates.len() == 0 {
        gates
    } else if is_rotation(gates[0]) {
        let qubit = gates[0].qubits[0];
        let run = run_length(gates, qubit);
        let angle = Angle::clamp(total_angle(gates.take(run as int)));
        proof {
            run_length_bounded(gates, qubit);
            assert(gates[0].qubits =~= seq![qubit]);
        }
        let rest = merge_rotations(gates.skip(run as int));
        if angle.is_negligible() {
            rest
        } else {
            seq![rotation(qubit, angle)] + rest
        }
    } else {
        seq![gates[0]] + merge_rotations(gates.skip(1))
    }
}

/// Merges consecutive `rz` rotations on one qubit into a single rotation.
#[derive(Debug, Clone, Copy)]
pub struct RotationMergingPass;

impl RotationMergingPass {
    /// Tells whether `gate` is an `rz` on a single qubit that carries an
    /// angle.
    fn starts_run(gate: &Gate, rz: &String) -> (starts: bool)
        requires
            rz@ == "rz"@,
        ensures
            starts == is_rotation(gate@),
    {
        gate.name == *rz && gate.qubits.len() == 1 && !gate.params.is_empty()
    }

    /// Tells whether `gate` is an `rz` on exactly `qubit` that carries an
    /// angle.
    fn continues_run(gate: &Gate, qubit: usize, rz: &String) -> (continues: bool)
        requires
            rz@ == "rz"@,
        ensures
            continues == rotates(gate@, qubit),
    {
        let found = gate.name == *rz && gate.qubits.len() == 1 && gate.qubits[0] == qubit
            && !gate.params.is_empty();
        proof {
            if found {
                assert(gate@.qubits =~= seq![qubit]);
            }
        }
        found
    }

    /// Finds where the run of rotations that starts at `start` ends, and
    /// sums its angles.
    fn absorb_run(gates: &Vec<Gate>, start: usize, rz: &String) -> (run: (usize, Angle))
        requires
            rz@ == "rz"@,
            start < gates.len(),
            is_rotation(gates[start as int]@),
        ensures
            start < run.0 <= gates.len(),
            run.0 - start == run_length(
                gate_views(gates@).skip(start as int),
                gates[start as int]@.qubits[0],
            ),
            run.1 == Angle::clamp(
                total_angle(gate_views(gates@).subrange(start as int, run.0 as int)),
            ),
    {
        let ghost views = gate_views(gates@);
        let qubit = gates[start].qubits[0];
        let mut total: i128 = gates[start].params[0].femtoradians as i128;
        let mut end: usize = start + 1;
        let mut open = true;
        proof {
            assert(views[start as int].qubits =~= seq![qubit]);
            total_angle_extends(views, start as int, start as int);
        }
        while open && end < gates.len()
            invariant
                rz@ == "rz"@,
                views == gate_views(gates@),
                start < end <= gates.len(),
                forall|k: int| start <= k < end ==> rotates(#[trigger] views[k], qubit),
                !open ==> end < gates.len() && !rotates(views[end as int], qubit),
                total == total_angle(views.subrange(start as int, end as int)),
                -(end - start) * 0x8000_0000_0000_0000 <= total <= (end - start)
                    * 0x8000_0000_0000_0000,
            decreases gates.len() - end + if open { 1int } else { 0int },
        {
            if Self::continues_run(&gates[end], qubit, rz) {
                proof {
                    total_angle_extends(views, start as int, end as int);
                }
                total = total + gates[end].params[0].femtoradians as i128;
                end = end + 1;
            } else {
                open = false;
            }
        }
        proof {
            let tail = views.skip(start as int);
            assert forall|k: int| 0 <= k < end - start implies rotates(
                #[trigger] tail[k],
                qubit,
            ) by {
                assert(tail[k] == views[start + k]);
            }
            run_length_is(tail, qubit, end - start);
        }
        (end, Angle::nearest(total))
    }
}

impl OptimizationPass for RotationMergingPass {
    open spec fn optimized(&self, circuit: CircuitView) -> CircuitView {
        CircuitView {
            num_qubits: circuit.num_qubits,
            num_clbits: circuit.num_clbits,
            gates: merge_rotations(circuit.gates),
        }
    }

    fn optimize(&self, circuit: &QuantumCircuit) -> (result: QuantumCircuit) {
        let ghost views = gate_views(circuit.gates@);
        let rz = String::from_str("rz");
        let mut out: Vec<Gate> = Vec::new();
        let mut i: usize = 0;
        assert(views.skip(0) =~= views);
        while i < circuit.gates.len()
            invariant
                rz@ == "rz"@,
                views == gate_views(circuit.gates@),
                i <= circuit.gates.len(),
                gate_views(out@) + merge_rotations(views.skip(i as int)) == merge_rotations(views),
            decreases circuit.gates.len() - i,
        {
            let ghost tail = views.skip(i as int);
            let gate = &circuit.gates[i];
            if Self::starts_run(gate, &rz) {
                let qubit = gate.qubits[0];
                let (end, angle) = Self::absorb_run(&circuit.gates, i, &rz);
                proof {
                    assert(tail.take(end - i) =~= views.subrange(i as int, end as int));
                    assert(tail.skip(end - i) =~= views.skip(end as int));
                }
                if !angle.negligible() {
                    let merged = Gate {
                        name: rz.clone(),
                        qubits: vec![qubit],
                        params: vec![angle],
                    };
                    proof {
                        assert(merged@.qubits =~= seq![qubit]);
                        assert(merged@.params =~= seq![angle]);
                        gate_views_push(out@, merged);
                    }
                    out.push(merged);
                }
                i = end;
            } else {
                let copy = gate.clone();
                proof {
                    gate_views_push(out@, copy);
                    assert(tail.skip(1) =~= views.skip(i + 1));
                }
                out.push(copy);
                i = i + 1;
            }
        }
        QuantumCircuit {
            num_qubits: circuit.num_qubits,
            num_clbits: circuit.num_clbits,
            gates: out,
        }
    }
}

/// A run is never longer than the sequence it is counted in.
pub proof fn run_length_bounded(gates: Seq<GateView>, qubit: usize)
    ensures
        run_length(gates, qubit) <= gates.len(),
        gates.len() > 0 && rotates(gates[0], qubit) ==> run_length(gates, qubit) >= 1,
    decreases gates.len(),
{
    if gates.len() > 0 && rotates(gates[0], qubit) {
        run_length_bounded(gates.skip(1), qubit);
    }
}

/// A run ends at the first gate that does not rotate the qubit, or where
/// the sequence ends.
pub proof fn run_length_is(gates: Seq<GateView>, qubit: usize, run: int)
    requires
        0 <= run <= gates.len(),
        forall|k: int| 0 <= k < run ==> rotates(#[trigger] gates[k], qubit),
        run == gates.len() || !rotates(gates[run], qubit),
    ensures
        run_length(gates, qubit) == run,
    decreases run,
{
    if run > 0 {
        let rest = gates.skip(1);
        assert forall|k: int| 0 <= k < run - 1 implies rotates(#[trigger] rest[k], qubit) by {
            assert(rest[k] == gates[k + 1]);
        }
        run_length_is(rest, qubit, run - 1);
    }
}

/// The total over a range grows by the angle of each gate that is added at
/// its end.
proof fn total_angle_extends(gates: Seq<GateView>, from: int, to: int)
    requires
        0 <= from <= to < gates.len(),
    ensures
        total_angle(gates.subrange(from, to + 1)) == total_angle(gates.subrange(from, to))
            + gates[to].params[0].femtoradians,
{
    assert(gates.subrange(from, to + 1).drop_last() =~= gates.subrange(from, to));
}

/// Merging never lengthens a sequence.
pub proof fn merge_rotations_shrinks(gates: Seq<GateView>)
    ensures
        merge_rotations(gates).len() <= gates.len(),
    decreases gates.len(),
{
    if gates.len() == 0 {
    } else if is_rotation(gates[0]) {
        let qubit = gates[0].qubits[0];
        assert(gates[0].qubits =~= seq![qubit]);
        run_length_bounded(gates, qubit);
        merge_rotations_shrinks(gates.skip(run_length(gates, qubit) as int));
    } else {
        merge_rotations_shrinks(gates.skip(1));
    }
}

/// Two consecutive rotations of one qubit whose angles add up to no more
/// than a negligible angle are dropped altogether, whatever follows them,
/// as long as that is no further rotation of the same qubit.
pub proof fn opposite_rotations_vanish(
    first: GateView,
    second: GateView,
    qubit: usize,
    rest: Seq<GateView>,
)
    requires
        rotates(first, qubit),
        rotates(second, qubit),
        Angle::clamp(first.params[0].femtoradians + second.params[0].femtoradians).is_negligible(),
        rest.len() == 0 || !rotates(rest[0], qubit),
    ensures
        merge_rotations(seq![first, second] + rest) == merge_rotations(rest),
{
    let gates = seq![first, second] + rest;
    run_length_is(gates, qubit, 2);
    let run = gates.take(2);
    assert(total_angle(run.drop_last().drop_last()) == 0);
    assert(total_angle(run.drop_last()) == first.params[0].femtoradians);
    assert(total_angle(run) == first.params[0].femtoradians + second.params[0].femtoradians);
    assert(gates.skip(2) =~= rest);
}

} // verus!
