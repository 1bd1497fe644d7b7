//! The circuit model: gates, circuits and the device they are routed for.

use crate::angle::Angle;
use std::collections::HashSet;
use vstd::prelude::*;

verus! {

/// One operation of a circuit: a name, the qubits it acts on, in order, and
/// its parameters.
#[derive(Debug)]
pub struct Gate {
    pub name: String,
    pub qubits: Vec<usize>,
    pub params: Vec<Angle>,
}

/// The mathematical value of a [`Gate`].
pub struct GateView {
    pub name: Seq<char>,
    pub qubits: Seq<usize>,
    pub params: Seq<Angle>,
}

impl View for Gate {
    type V = GateView;

    open spec fn view(&self) -> GateView {
        GateView { name: self.name@, qubits: self.qubits@, params: self.params@ }
    }
}

impl Clone for Gate {
    fn clone(&self) -> (copy: Self)
        ensures
            copy@ == self@,
    {
        Gate { name: self.name.clone(), qubits: self.qubits.clone(), params: self.params.clone() }
    }
}

/// The values of a sequence of gates, in the same order.
pub open spec fn gate_views(gates: Seq<Gate>) -> Seq<GateView> {
    gates.map_values(|g: Gate| g@)
}

/// Appending a gate appends its value.
pub proof fn gate_views_push(gates: Seq<Gate>, gate: Gate)
    ensures
        gate_views(gates.push(gate)) == gate_views(gates).push(gate@),
{
}

/// A gate sequence over a fixed number of qubits and classical bits.
#[derive(Debug)]
pub struct QuantumCircuit {
    pub num_qubits: usize,
    pub num_clbits: usize,
    pub gates: Vec<Gate>,
}

/// The mathematical value of a [`QuantumCircuit`].
pub struct CircuitView {
    pub num_qubits: nat,
    pub num_clbits: nat,
    pub gates: Seq<GateView>,
}

impl View for QuantumCircuit {
    type V = CircuitView;

    open spec fn view(&self) -> CircuitView {
        CircuitView {
            num_qubits: self.num_qubits as nat,
            num_clbits: self.num_clbits as nat,
            gates: gate_views(self.gates@),
        }
    }
}

impl Clone for QuantumCircuit {
    fn clone(&self) -> (copy: Self)
        ensures
            copy@ == self@,
    {
        let mut gates: Vec<Gate> = Vec::new();
        let mut i: usize = 0;
        while i < self.gates.len()
            invariant
                i <= self.gates.len(),
                gate_views(gates@) == gate_views(self.gates@).take(i as int),
            decreases self.gates.len() - i,
        {
            let gate = self.gates[i].clone();
            proof {
                gate_views_push(gates@, gate);
            }
            gates.push(gate);
            i += 1;
        }
        assert(gate_views(self.gates@).take(i as int) =~= gate_views(self.gates@));
        QuantumCircuit { num_qubits: self.num_qubits, num_clbits: self.num_clbits, gates }
    }
}

/// The device a circuit is routed for: its name, its size, the pairs of
/// qubits that may interact directly, and the gates it runs natively.
#[derive(Debug)]
pub struct BackendSpec {
    pub name: String,
    pub num_qubits: usize,
    pub coupling_map: Vec<(usize, usize)>,
    pub native_gates: HashSet<String>,
}

/// `HashSet::clone` from the standard library: the copy holds exactly the
/// names of the set that it was made from.
#[verifier::external_body]
fn clone_names(names: &HashSet<String>) -> (copy: HashSet<String>)
    ensures
        copy@ == names@,
{
    names.clone()
}

impl Clone for BackendSpec {
    fn clone(&self) -> (copy: Self)
        ensures
            copy.name@ == self.name@,
            copy.num_qubits == self.num_qubits,
            copy.coupling_map@ == self.coupling_map@,
            copy.native_gates@ == self.native_gates@,
    {
        let mut coupling_map: Vec<(usize, usize)> = Vec::new();
        let mut i: usize = 0;
        while i < self.coupling_map.len()
            invariant
                i <= self.coupling_map.len(),
                coupling_map@ == self.coupling_map@.take(i as int),
            decreases self.coupling_map.len() - i,
        {
            coupling_map.push(self.coupling_map[i]);
            i += 1;
        }
        BackendSpec {
            name: self.name.clone(),
            num_qubits: self.num_qubits,
            coupling_map,
            native_gates: clone_names(&self.native_gates),
        }
    }
}

} // verus!
