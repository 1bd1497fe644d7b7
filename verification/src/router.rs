//! Routing of two-qubit gates against the connectivity of a device.

use crate::circuit::{
    gate_views, gate_views_push, BackendSpec, CircuitView, Gate, GateView, QuantumCircuit,
};
use vstd::prelude::*;

verus! {

/// Whether the device lets `a` and `b` interact directly: the pair is an
/// edge, in either order.
pub open spec fn connected(edges: Seq<(usize, usize)>, a: usize, b: usize) -> bool {
    edges.contains((a, b)) || edges.contains((b, a))
}

/// The placeholder `swap` gate on `a` and `b`.
pub open spec fn swap_gate(a: usize, b: usize) -> GateView {
    GateView { name: "swap"@, qubits: seq![a, b], params: Seq::empty() }
}

/// Whether routing puts a swap in front of `gate`: it acts on exactly two
/// qubits, and the device does not connect them.
pub open spec fn needs_swap(gate: GateView, edges: Seq<(usize, usize)>) -> bool {
    gate.qubits.len() == 2 && !connected(edges, gate.qubits[0], gate.qubits[1])
}

/// What routing emits for one gate: that gate, preceded by a swap on
/// its two qubits where it needs one.
pub open spec fn route_gate(gate: GateView, edges: Seq<(usize, usize)>) -> Seq<GateView> {
    if needs_swap(gate, edges) {
        seq![swap_gate(gate.qubits[0], gate.qubits[1]), gate]
    } else {
        seq![gate]
    }
}

/// What routing emits for a gate sequence: what it emits for each gate, in
/// order.
pub open spec fn route_gates(gates: Seq<GateView>, edges: Seq<(usize, usize)>) -> Seq<GateView>
    decreases gates.len(),
{
    if gates.len() == 0 {
        Seq::empty()
    } else {
        route_gates(gates.drop_last(), edges) + route_gate(gates.last(), edges)
    }
}

/// The circuit that routing against `edges` makes of `circuit`.
pub open spec fn routed(circuit: CircuitView, edges: Seq<(usize, usize)>) -> CircuitView {
    CircuitView {
        num_qubits: circuit.num_qubits,
        num_clbits: circuit.num_clbits,
        gates: route_gates(circuit.gates, edges),
    }
}

/// Routing leaves a sequence as it is where no gate in it needs a swap.
pub proof fn routing_keeps_connected_gates(gates: Seq<GateView>, edges: Seq<(usize, usize)>)
    requires
        forall|i: int| 0 <= i < gates.len() ==> !needs_swap(#[trigger] gates[i], edges),
    ensures
        route_gates(gates, edges) == gates,
    decreases gates.len(),
{
    if gates.len() > 0 {
        let front = gates.drop_last();
        assert forall|i: int| 0 <= i < front.len() implies !needs_swap(
            #[trigger] front[i],
            edges,
        ) by {
            assert(front[i] == gates[i]);
        }
        routing_keeps_connected_gates(front, edges);
        assert(!needs_swap(gates.last(), edges));
        assert(front + seq![gates.last()] =~= gates);
    }
}

/// Routing drops no gate and adds at most one swap for each.
pub proof fn routing_at_most_doubles(gates: Seq<GateView>, edges: Seq<(usize, usize)>)
    ensures
        gates.len() <= route_gates(gates, edges).len() <= 2 * gates.len(),
    decreases gates.len(),
{
    if gates.len() > 0 {
        routing_at_most_doubles(gates.drop_last(), edges);
    }
}

/// Inserts a swap in front of every two-qubit gate whose qubits the device
/// does not connect. It keeps no record of where a swap moves a qubit: the
/// gates that follow are left as they were.
#[derive(Debug, Clone, Copy)]
pub struct SimpleRouter;

impl SimpleRouter {
    /// Tells whether `edges` holds the pair `(a, b)`, in this order.
    fn has_edge(edges: &Vec<(usize, usize)>, a: usize, b: usize) -> (found: bool)
        ensures
            found == edges@.contains((a, b)),
    {
        let mut i: usize = 0;
        while i < edges.len()
            invariant
                i <= edges.len(),
                forall|k: int| 0 <= k < i ==> edges@[k] != (a, b),
            decreases edges.len() - i,
        {
            if edges[i].0 == a && edges[i].1 == b {
                return true;
            }
            i = i + 1;
        }
        false
    }

    /// Rewrites `circuit` for the device `backend`; the argument is left as
    /// it was.
    pub fn route(&self, circuit: &QuantumCircuit, backend: &BackendSpec) -> (result:
        QuantumCircuit)
        ensures
            result@ == routed(circuit@, backend.coupling_map@),
    {
        let ghost views = gate_views(circuit.gates@);
        let ghost edges = backend.coupling_map@;
        let mut out: Vec<Gate> = Vec::new();
        let mut i: usize = 0;
        while i < circuit.gates.len()
            invariant
                views == gate_views(circuit.gates@),
                edges == backend.coupling_map@,
                i <= circuit.gates.len(),
                gate_views(out@) == route_gates(views.take(i as int), edges),
            decreases circuit.gates.len() - i,
        {
            let gate = &circuit.gates[i];
            proof {
                assert(views.take(i + 1).drop_last() =~= views.take(i as int));
            }
            if gate.qubits.len() == 2 {
                let a = gate.qubits[0];
                let b = gate.qubits[1];
                let edge_ok = Self::has_edge(&backend.coupling_map, a, b) || Self::has_edge(
                    &backend.coupling_map,
                    b,
                    a,
                );
                if !edge_ok {
                    let swap = Gate {
                        name: String::from_str("swap"),
                        qubits: vec![a, b],
                        params: Vec::new(),
                    };
                    proof {
                        gate_views_push(out@, swap);
                    }
                    out.push(swap);
                }
            }
            let copy = gate.clone();
            proof {
                gate_views_push(out@, copy);
            }
            out.push(copy);
            i = i + 1;
        }
        assert(views.take(i as int) =~= views);
        QuantumCircuit {
            num_qubits: circuit.num_qubits,
            num_clbits: circuit.num_clbits,
            gates: out,
        }
    }
}

} // verus!
