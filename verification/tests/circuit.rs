use quantum_transpiler::{Angle, BackendSpec, Gate, QuantumCircuit};
use std::collections::HashSet;

#[test]
fn a_gate_clones_into_an_equal_gate() {
    let gate = Gate {
        name: "rz".to_string(),
        qubits: vec![2, 0],
        params: vec![Angle { femtoradians: 5 }, Angle { femtoradians: -7 }],
    };
    let copy = gate.clone();
    assert_eq!(copy.name, "rz");
    assert_eq!(copy.qubits, vec![2, 0]);
    assert_eq!(copy.params, vec![Angle { femtoradians: 5 }, Angle { femtoradians: -7 }]);
}

#[test]
fn a_circuit_clones_into_an_equal_circuit() {
    let circuit = QuantumCircuit {
        num_qubits: 3,
        num_clbits: 1,
        gates: vec![
            Gate { name: "h".to_string(), qubits: vec![0], params: vec![] },
            Gate { name: "cx".to_string(), qubits: vec![0, 1], params: vec![] },
        ],
    };
    let copy = circuit.clone();
    assert_eq!((copy.num_qubits, copy.num_clbits, copy.gates.len()), (3, 1, 2));
    assert_eq!(copy.gates[0].name, "h");
    assert_eq!(copy.gates[1].name, "cx");
    assert_eq!(copy.gates[1].qubits, vec![0, 1]);
}

#[test]
fn a_backend_clones_with_its_edges_and_native_gates() {
    let native_gates: HashSet<String> =
        ["x", "h", "cx", "rz"].iter().map(|name| name.to_string()).collect();
    let backend = BackendSpec {
        name: "ibm_demo".to_string(),
        num_qubits: 5,
        coupling_map: vec![(0, 1), (1, 2), (2, 3), (3, 4)],
        native_gates: native_gates.clone(),
    };
    let copy = backend.clone();
    assert_eq!(copy.name, "ibm_demo");
    assert_eq!(copy.num_qubits, 5);
    assert_eq!(copy.coupling_map, vec![(0, 1), (1, 2), (2, 3), (3, 4)]);
    assert_eq!(copy.native_gates, native_gates);
    assert_eq!(copy.native_gates.len(), 4);
}

#[test]
fn types_can_be_printed_for_debugging() {
    let gate = Gate { name: "h".to_string(), qubits: vec![0], params: vec![] };
    assert!(format!("{gate:?}").contains("\"h\""));
    assert!(format!("{:?}", Angle { femtoradians: 12 }).contains("12"));
}
