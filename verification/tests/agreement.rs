//! The library reads text character by character. These tests hold what it
//! reads against the same reading done with the string methods of the
//! standard library.

use quantum_transpiler::text::{parse_unsigned, starts_with, trim};
use quantum_transpiler::{
    Angle, BackendSpec, Gate, GateCancellationPass, OptimizationPass, QASMParser, QuantumCircuit,
    RotationMergingPass, SimpleRouter, UniversalTranspiler,
};
use std::collections::HashSet;

/// A small generator of repeatable pseudo-random numbers.
struct Numbers(u64);

impl Numbers {
    fn next(&mut self) -> u64 {
        self.0 = self.0.wrapping_mul(6364136223846793005).wrapping_add(1442695040888963407);
        self.0 >> 33
    }

    fn below(&mut self, bound: usize) -> usize {
        (self.next() % bound as u64) as usize
    }

    fn text(&mut self, alphabet: &[&str], longest: usize) -> String {
        let length = self.below(longest + 1);
        (0..length).map(|_| alphabet[self.below(alphabet.len())]).collect()
    }
}

fn chars(text: &str) -> Vec<char> {
    text.chars().collect()
}

struct Read {
    num_qubits: usize,
    num_clbits: usize,
    gates: Vec<(String, Vec<usize>, usize)>,
}

fn read_gate_with_std(line: &str) -> Result<(String, Vec<usize>, usize), String> {
    let first = line.split_whitespace().next().unwrap_or("").trim_end_matches(';');
    let (name, params) = match first.find('(') {
        Some(at) => (&first[..at], 1),
        None => (first, 0),
    };
    let rest = line.split_whitespace().skip(1).collect::<Vec<_>>().join(" ");
    let qubits: Vec<usize> = rest
        .split(|c| c == '[' || c == ']' || c == ' ' || c == ';' || c == ',')
        .filter_map(|part| part.parse::<usize>().ok())
        .collect();
    if qubits.is_empty() {
        return Err(format!("Failed to parse qubits from line: {line}"));
    }
    Ok((name.to_string(), qubits, params))
}

fn read_with_std(input: &str) -> Result<Read, String> {
    let mut read = Read { num_qubits: 0, num_clbits: 0, gates: Vec::new() };
    for line in input.lines() {
        let line = line.trim();
        if line.is_empty() || line.starts_with("//") {
            continue;
        }
        if line.starts_with("qreg") {
            let parts: Vec<&str> = line.split(&['[', ']'][..]).collect();
            if parts.len() >= 2 {
                read.num_qubits = parts[1].parse().unwrap_or(0);
            }
        } else if line.starts_with("creg") {
            let parts: Vec<&str> = line.split(&['[', ']'][..]).collect();
            if parts.len() >= 2 {
                read.num_clbits = parts[1].parse().unwrap_or(0);
            }
        } else if line.starts_with("cx")
            || line.starts_with("h")
            || line.starts_with("x")
            || line.starts_with("rz")
        {
            read.gates.push(read_gate_with_std(line)?);
        }
    }
    Ok(read)
}

fn agree_on(input: &str) {
    match (QASMParser.parse(input), read_with_std(input)) {
        (Ok(circuit), Ok(read)) => {
            assert_eq!(circuit.num_qubits, read.num_qubits, "{input:?}");
            assert_eq!(circuit.num_clbits, read.num_clbits, "{input:?}");
            let gates: Vec<(String, Vec<usize>, usize)> = circuit
                .gates
                .iter()
                .map(|g| (g.name.clone(), g.qubits.clone(), g.params.len()))
                .collect();
            assert_eq!(gates, read.gates, "{input:?}");
        }
        (Err(report), Err(expected)) => assert_eq!(report, expected, "{input:?}"),
        (Ok(_), Err(expected)) => panic!("{input:?} was read, but should fail with {expected:?}"),
        (Err(report), Ok(_)) => panic!("{input:?} should be read, but failed with {report:?}"),
    }
}

const PIECES: [&str; 40] = [
    "h", "x", "cx", "rz", "qreg", "creg", "//", "q", "c", "r", "z", "0", "1", "2", "7", "19",
    "+", "-", ".", "e", "(", ")", "[", "]", ";", ",", " ", " ", "\t", "\r", "\n", "\n", "\n",
    "\u{a0}", "\u{3000}", "\u{85}", "\u{b}", "5e-1", "q[0]", "q[1]",
];

#[test]
fn circuits_are_read_as_with_the_string_methods_of_the_standard_library() {
    let mut numbers = Numbers(7);
    for _ in 0..20_000 {
        let input = numbers.text(&PIECES, 24);
        agree_on(&input);
    }
}

#[test]
fn chosen_circuits_are_read_as_with_the_standard_library() {
    for input in [
        "",
        "\n",
        "\r\n",
        "h q[0];",
        "h q[0];\n",
        "h q[0];\r\n",
        "h q[0];\rx q[1];",
        "h q[0];\n\nx q[1];\n\n",
        "qreg q[3];\ncreg c[3];\nh q[0];\ncx q[0], q[1];\nrz(1.5708) q[2];",
        "qreg q[3]\nqreg q\nqreg q[\nqreg q]\nqreg q[]\nqreg q[+2]\ncreg c[2][3]",
        "  qreg   q [ 3 ] ; ",
        "cx q[0],q[1];;\nx\tq[0]\u{a0}1\u{3000}2",
        "rz(0.5))) 3;\nrz(((0.5 4;\nh; 5\nh;;; 6;\nx(1)(2) 7",
        "h",
        "cx q[a]",
        "h q[0];\nh q;\nh r;",
        "// h q;\n//h q;\n / h\nh //",
        "hh 1\nxx 2\ncxx 3\nrzz 4\nhx 5\nxc 6",
        "h q[18446744073709551615] q[18446744073709551616] 3",
        "h -1 +1 ++1 +-1 1+ 1- 01 1_0 1.0 1e0",
    ] {
        agree_on(input);
    }
}

const NUMBER_PIECES: [&str; 16] = [
    "0", "1", "2", "5", "9", "+", "-", " ", "a", "_", ".", "18446744073709551615", "00", "3", "7",
    "8",
];

#[test]
fn unsigned_numbers_are_read_as_by_the_standard_library() {
    let mut numbers = Numbers(11);
    for _ in 0..20_000 {
        let text = numbers.text(&NUMBER_PIECES, 5);
        assert_eq!(parse_unsigned(&chars(&text)), text.parse::<usize>().ok(), "{text:?}");
    }
}

const SPACE_PIECES: [&str; 12] = [
    " ", "\t", "\n", "\r", "\u{a0}", "\u{3000}", "\u{2028}", "a", ";", "\u{200b}", "h",
    "\u{feff}",
];

#[test]
fn text_is_trimmed_as_by_the_standard_library() {
    let mut numbers = Numbers(13);
    for _ in 0..20_000 {
        let text = numbers.text(&SPACE_PIECES, 8);
        let trimmed: String = trim(&chars(&text)).iter().collect();
        assert_eq!(trimmed, text.trim(), "{text:?}");
    }
}

#[test]
fn prefixes_are_found_as_by_the_standard_library() {
    let mut numbers = Numbers(17);
    for _ in 0..20_000 {
        let text = numbers.text(&["c", "x", "r", "z", "h", "q", "e", "g", "/"], 6);
        for prefix in ["cx", "h", "x", "rz", "qreg", "creg", "//", ""] {
            assert_eq!(starts_with(&chars(&text), prefix), text.starts_with(prefix), "{text:?}");
        }
    }
}

const LITERAL_PIECES: [&str; 18] =
    ["0", "1", "2", "5", "9", "+", "-", ".", "e", "E", " ", "_", "x", "00", "15", "3", "7", "e-"];

fn is_special(text: &str) -> bool {
    let lower = text.trim_start_matches(['+', '-']).to_ascii_lowercase();
    lower == "inf" || lower == "infinity" || lower == "nan"
}

#[test]
fn the_same_text_is_a_literal_as_for_the_standard_library() {
    let mut numbers = Numbers(19);
    for _ in 0..50_000 {
        let text = numbers.text(&LITERAL_PIECES, 7);
        assert_eq!(Angle::parse(&text).is_some(), text.parse::<f64>().is_ok(), "{text:?}");
    }
    for text in ["1.", ".1", ".", "", "+", "-", "+.5", "-5.e3", "1e", "e1", "1e+", "1E5", "1e-5",
        " 1", "1 ", "1_0", "0x1", "1f", "1d", "\u{661}", "1e5e5", "1.2.3", "++1", "1e++1", "١"]
    {
        assert_eq!(Angle::parse(text).is_some(), text.parse::<f64>().is_ok(), "{text:?}");
    }
    for text in ["inf", "+inf", "-inf", "infinity", "Infinity", "nan", "NaN", "-nan"] {
        assert!(is_special(text));
        assert!(text.parse::<f64>().is_ok());
        assert_eq!(Angle::parse(text), None, "{text:?}");
    }
}

#[test]
fn a_literal_within_range_is_read_to_within_a_femtoradian() {
    let mut numbers = Numbers(23);
    let mut compared = 0;
    for _ in 0..50_000 {
        let text = numbers.text(&LITERAL_PIECES, 7);
        let (Some(angle), Ok(value)) = (Angle::parse(&text), text.parse::<f64>()) else {
            continue;
        };
        if value.abs() >= 9000.0 {
            assert!(angle.femtoradians.unsigned_abs() >= 9_000_000_000_000_000_000, "{text:?}");
            continue;
        }
        let radians = angle.femtoradians as f64 / 1e15;
        let allowed = 1e-15 + value.abs() * 1e-15;
        assert!((radians - value).abs() <= allowed, "{text:?}: {radians} and {value}");
        compared += 1;
    }
    assert!(compared > 1000);
}

type Summary = Vec<(String, Vec<usize>, Vec<i64>)>;

fn summary_of(gates: &[Gate]) -> Summary {
    gates
        .iter()
        .map(|g| {
            (g.name.clone(), g.qubits.clone(), g.params.iter().map(|a| a.femtoradians).collect())
        })
        .collect()
}

fn some_gate(numbers: &mut Numbers) -> Gate {
    let name = ["h", "x", "cx", "rz", "rz", "rz", "swap"][numbers.below(7)];
    let qubits = (0..[0, 1, 1, 1, 2, 2, 3][numbers.below(7)]).map(|_| numbers.below(6)).collect();
    let angles: [i64; 8] =
        [0, 1, -1, 60_000, -60_000, 500_000_000_000_000, i64::MAX, i64::MIN];
    let params = (0..[0, 1, 1, 1, 2][numbers.below(5)])
        .map(|_| Angle { femtoradians: angles[numbers.below(8)] })
        .collect();
    Gate { name: name.to_string(), qubits, params }
}

fn some_circuit(numbers: &mut Numbers) -> QuantumCircuit {
    let count = numbers.below(12);
    QuantumCircuit {
        num_qubits: numbers.below(5),
        num_clbits: numbers.below(3),
        gates: (0..count).map(|_| some_gate(numbers)).collect(),
    }
}

fn depth_by_hand(circuit: &QuantumCircuit) -> usize {
    let mut clocks = vec![0usize; circuit.num_qubits];
    for gate in &circuit.gates {
        let start =
            gate.qubits.iter().filter_map(|&q| clocks.get(q).copied()).max().unwrap_or(0);
        for &q in &gate.qubits {
            if q < clocks.len() {
                clocks[q] = start + 1;
            }
        }
    }
    clocks.into_iter().max().unwrap_or(0)
}

#[test]
fn depth_is_the_latest_of_clocks_kept_by_hand() {
    let mut numbers = Numbers(29);
    for _ in 0..5_000 {
        let circuit = some_circuit(&mut numbers);
        assert_eq!(
            UniversalTranspiler::calculate_depth(&circuit),
            depth_by_hand(&circuit),
            "{circuit:?}"
        );
    }
}

fn swept_by_hand(gates: &[Gate]) -> Summary {
    let mut kept = Vec::new();
    let mut i = 0;
    while i < gates.len() {
        if i + 1 < gates.len()
            && gates[i].name == gates[i + 1].name
            && gates[i].qubits == gates[i + 1].qubits
        {
            i += 2;
        } else {
            kept.push(gates[i].clone());
            i += 1;
        }
    }
    summary_of(&kept)
}

#[test]
fn cancellation_sweeps_as_a_sweep_by_hand() {
    let mut numbers = Numbers(31);
    for _ in 0..5_000 {
        let circuit = some_circuit(&mut numbers);
        let swept = GateCancellationPass.optimize(&circuit);
        assert_eq!(summary_of(&swept.gates), swept_by_hand(&circuit.gates), "{circuit:?}");
        assert!(swept.gates.len() <= circuit.gates.len());
        assert_eq!((swept.num_qubits, swept.num_clbits), (circuit.num_qubits, circuit.num_clbits));
    }
}

fn merged_by_hand(gates: &[Gate]) -> Summary {
    let is_run = |g: &Gate, q: Option<usize>| {
        g.name == "rz"
            && g.qubits.len() == 1
            && !g.params.is_empty()
            && q.map_or(true, |q| g.qubits[0] == q)
    };
    let mut kept = Vec::new();
    let mut i = 0;
    while i < gates.len() {
        if is_run(&gates[i], None) {
            let q = gates[i].qubits[0];
            let mut total: i128 = 0;
            while i < gates.len() && is_run(&gates[i], Some(q)) {
                total += gates[i].params[0].femtoradians as i128;
                i += 1;
            }
            let held = total.clamp(i64::MIN as i128, i64::MAX as i128) as i64;
            if !(-100_000..=100_000).contains(&held) {
                kept.push(("rz".to_string(), vec![q], vec![held]));
            }
        } else {
            kept.extend(summary_of(&gates[i..i + 1]));
            i += 1;
        }
    }
    kept
}

#[test]
fn rotations_merge_as_runs_summed_by_hand() {
    let mut numbers = Numbers(37);
    for _ in 0..5_000 {
        let circuit = some_circuit(&mut numbers);
        let merged = RotationMergingPass.optimize(&circuit);
        assert_eq!(summary_of(&merged.gates), merged_by_hand(&circuit.gates), "{circuit:?}");
        assert!(merged.gates.len() <= circuit.gates.len());
        assert_eq!(
            (merged.num_qubits, merged.num_clbits),
            (circuit.num_qubits, circuit.num_clbits)
        );
    }
}

fn routed_by_hand(gates: &[Gate], edges: &[(usize, usize)]) -> Summary {
    let mut routed = Vec::new();
    for gate in gates {
        if let [a, b] = gate.qubits[..] {
            if !edges.contains(&(a, b)) && !edges.contains(&(b, a)) {
                routed.push(("swap".to_string(), vec![a, b], vec![]));
            }
        }
        routed.extend(summary_of(std::slice::from_ref(gate)));
    }
    routed
}

#[test]
fn routing_inserts_swaps_as_by_hand() {
    let mut numbers = Numbers(41);
    for _ in 0..5_000 {
        let circuit = some_circuit(&mut numbers);
        let edges: Vec<(usize, usize)> =
            (0..numbers.below(8)).map(|_| (numbers.below(6), numbers.below(6))).collect();
        let backend = BackendSpec {
            name: "any".to_string(),
            num_qubits: 6,
            coupling_map: edges.clone(),
            native_gates: HashSet::new(),
        };
        let routed = SimpleRouter.route(&circuit, &backend);
        assert_eq!(
            summary_of(&routed.gates),
            routed_by_hand(&circuit.gates, &edges),
            "{circuit:?}"
        );
        assert!(routed.gates.len() >= circuit.gates.len());
        assert!(routed.gates.len() <= 2 * circuit.gates.len());
    }
}

fn longest_chain(circuit: &QuantumCircuit) -> usize {
    let on_circuit = |gate: &Gate| -> Vec<usize> {
        gate.qubits.iter().copied().filter(|&q| q < circuit.num_qubits).collect()
    };
    let mut longest_ending_at = vec![0usize; circuit.gates.len()];
    for later in 0..circuit.gates.len() {
        let qubits = on_circuit(&circuit.gates[later]);
        if qubits.is_empty() {
            continue;
        }
        let mut longest = 1;
        for earlier in 0..later {
            let shared = on_circuit(&circuit.gates[earlier]).iter().any(|q| qubits.contains(q));
            if shared && longest_ending_at[earlier] > 0 {
                longest = longest.max(longest_ending_at[earlier] + 1);
            }
        }
        longest_ending_at[later] = longest;
    }
    longest_ending_at.into_iter().max().unwrap_or(0)
}

#[test]
fn depth_is_the_length_of_the_longest_chain_of_gates_that_wait_for_each_other() {
    let mut numbers = Numbers(43);
    for _ in 0..5_000 {
        let circuit = some_circuit(&mut numbers);
        assert_eq!(
            UniversalTranspiler::calculate_depth(&circuit),
            longest_chain(&circuit),
            "{circuit:?}"
        );
    }
}

#[test]
fn merged_rotations_agree_with_sums_in_floating_point() {
    let mut numbers = Numbers(47);
    let literals = [
        "0", "0.5", "-0.5", "1.5708", "-1.5708", "3.1416", "0.25", "-0.75", "1e-3", "-1e-3",
        "0.0000000001", "-0.0000000001", "0.00000000005", "2", "-2", "0.1", "0.2", "-0.3",
    ];
    let mut merged_runs = 0;
    for _ in 0..5_000 {
        let run: Vec<&str> =
            (0..1 + numbers.below(5)).map(|_| literals[numbers.below(literals.len())]).collect();
        let text: String = run.iter().map(|angle| format!("rz({angle}) q[0];\n")).collect();
        let parsed = QASMParser.parse(&text).unwrap();
        let merged = RotationMergingPass.optimize(&parsed);
        let sum: f64 = run.iter().map(|angle| angle.parse::<f64>().unwrap()).sum();
        let near_the_limit = (sum.abs() - 1e-10).abs() < 1e-12;
        if near_the_limit {
            continue;
        }
        if sum.abs() > 1e-10 {
            assert_eq!(merged.gates.len(), 1, "{text:?}");
            assert_eq!(merged.gates[0].name, "rz");
            assert_eq!(merged.gates[0].qubits, vec![0]);
            assert_eq!(merged.gates[0].params.len(), 1);
            let radians = merged.gates[0].params[0].femtoradians as f64 / 1e15;
            assert!((radians - sum).abs() < 1e-12, "{text:?}: {radians} and {sum}");
            merged_runs += 1;
        } else {
            assert!(merged.gates.is_empty(), "{text:?}");
        }
    }
    assert!(merged_runs > 1000);
}
