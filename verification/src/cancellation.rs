//! Cancellation of adjacent identical gates.

use crate::circuit::{gate_views, gate_views_push, CircuitView, Gate, GateView, QuantumCircuit};
use crate::pass::OptimizationPass;
use vstd::prelude::*;

verus! {

/// Whether two gates cancel when one directly follows the other: they have
/// the same name and act on the same qubits in the same order.
pub open spec fn cancels(first: GateView, second: GateView) -> bool {
    first.name == second.name && first.qubits == second.qubits
}

/// What is left of `gates` after one left-to-right sweep that drops each
/// pair of adjacent gates that cancel and resumes behind the pair.
pub open spec fn cancel_pairs(gates: Seq<GateView>) -> Seq<GateView>
    decreases gates.len(),
{
    if gates.len() == 0 {
        gates
    } else if gates.len() >= 2 && cancels(gates[0], gates[1]) {
        cancel_pairs(gates.skip(2))
    } else {
        seq![gates[0]] + cancel_pairs(gates.skip(1))
    }
}

/// Whether some gate of `gates` is directly followed by one it cancels with.
pub open spec fn has_adjacent_pair(gates: Seq<GateView>) -> bool {
    exists|i: int| 0 <= i < gates.len() - 1 && cancels(#[trigger] gates[i], gates[i + 1])
}

/// Cancels back-to-back identical gates.
#[derive(Debug, Clone, Copy)]
pub struct GateCancellationPass;

impl GateCancellationPass {
    /// Tells whether two gates cancel when adjacent.
    fn cancel(first: &Gate, second: &Gate) -> (same: bool)
        ensures
            same == cancels(first@, second@),
    {
        let same_qubits = first.qubits == second.qubits;
        proof {
            if same_qubits {
                assert(first.qubits@ =~= second.qubits@);
            }
        }
        first.name == second.name && same_qubits
    }
}

impl OptimizationPass for GateCancellationPass {
    open spec fn optimized(&self, circuit: CircuitView) -> CircuitView {
        CircuitView {
            num_qubits: circuit.num_qubits,
            num_clbits: circuit.num_clbits,
            gates: cancel_pairs(circuit.gates),
        }
    }

    fn optimize(&self, circuit: &QuantumCircuit) -> (result: QuantumCircuit) {
        let ghost views = gate_views(circuit.gates@);
        let mut out: Vec<Gate> = Vec::new();
        let mut i: usize = 0;
        assert(views.skip(0) =~= views);
        while i < circuit.gates.len()
            invariant
                views == gate_views(circuit.gates@),
                i <= circuit.gates.len(),
                gate_views(out@) + cancel_pairs(views.skip(i as int)) == cancel_pairs(views),
            decreases circuit.gates.len() - i,
        {
            let ghost tail = views.skip(i as int);
            if i + 1 < circuit.gates.len() && Self::cancel(
                &circuit.gates[i],
                &circuit.gates[i + 1],
            ) {
                assert(tail.skip(2) =~= views.skip(i + 2));
                i = i + 2;
            } else {
                let copy = circuit.gates[i].clone();
                proof {
                    gate_views_push(out@, copy);
                    assert(tail.skip(1) =~= views.skip(i + 1));
                }
                out.push(copy);
                i = i + 1;
            }
        }
        QuantumCircuit {
            num_qubits: circuit.num_qubits,
            num_clbits: circuit.num_clbits,
            gates: out,
        }
    }
}

/// A sweep never lengthens a sequence, and shortens every sequence that
/// holds two adjacent gates that cancel.
pub proof fn cancel_pairs_shrinks(gates: Seq<GateView>)
    ensures
        cancel_pairs(gates).len() <= gates.len(),
        has_adjacent_pair(gates) ==> cancel_pairs(gates).len() < gates.len(),
    decreases gates.len(),
{
    if gates.len() == 0 {
    } else if gates.len() >= 2 && cancels(gates[0], gates[1]) {
        cancel_pairs_shrinks(gates.skip(2));
    } else {
        let rest = gates.skip(1);
        cancel_pairs_shrinks(rest);
        if has_adjacent_pair(gates) {
            let i = choose|i: int|
                0 <= i < gates.len() - 1 && cancels(#[trigger] gates[i], gates[i + 1]);
            assert(rest[i - 1] == gates[i] && rest[i] == gates[i + 1]);
        }
    }
}

/// A sweep leaves a sequence unchanged exactly when no gate in it is
/// directly followed by one it cancels with.
pub proof fn cancel_pairs_fixed_point(gates: Seq<GateView>)
    ensures
        cancel_pairs(gates) == gates <==> !has_adjacent_pair(gates),
    decreases gates.len(),
{
    cancel_pairs_shrinks(gates);
    if gates.len() == 0 {
    } else if gates.len() >= 2 && cancels(gates[0], gates[1]) {
        assert(has_adjacent_pair(gates));
    } else if !has_adjacent_pair(gates) {
        let rest = gates.skip(1);
        cancel_pairs_fixed_point(rest);
        if has_adjacent_pair(rest) {
            let i = choose|i: int|
                0 <= i < rest.len() - 1 && cancels(#[trigger] rest[i], rest[i + 1]);
            assert(cancels(gates[i + 1], gates[i + 1 + 1]));
        }
        assert(seq![gates[0]] + rest =~= gates);
    }
}

/// A second sweep over the result of a first changes nothing, provided the
/// first sweep left no two adjacent gates that cancel. (It can leave such a
/// pair: the sweep of `a b b a` is `a a`.)
pub proof fn cancellation_is_idempotent(gates: Seq<GateView>)
    requires
        !has_adjacent_pair(cancel_pairs(gates)),
    ensures
        cancel_pairs(cancel_pairs(gates)) == cancel_pairs(gates),
{
    cancel_pairs_fixed_point(cancel_pairs(gates));
}

/// Where a first sweep does leave two adjacent gates that cancel, a second
/// sweep shortens its result.
pub proof fn cancellation_goes_on_over_a_left_pair(gates: Seq<GateView>)
    requires
        has_adjacent_pair(cancel_pairs(gates)),
    ensures
        cancel_pairs(cancel_pairs(gates)).len() < cancel_pairs(gates).len(),
{
    cancel_pairs_shrinks(cancel_pairs(gates));
}

} // verus!
