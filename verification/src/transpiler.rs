//! The pipeline: parse, measure, route, optimize, measure again.

use crate::cancellation::{cancel_pairs, GateCancellationPass};
use crate::circuit::{BackendSpec, CircuitView, QuantumCircuit};
use crate::depth::depth;
use crate::parser::{read_circuit, QASMParser};
use crate::pass::OptimizationPass;
use crate::rotation::{merge_rotations, RotationMergingPass};
use crate::router::{route_gates, routed, SimpleRouter};
use vstd::prelude::*;

verus! {

/// A share of a whole, held exactly: `100 * part / whole` percent.
#[derive(Debug, Clone, Copy, PartialEq, Eq, Structural)]
pub struct Percentage {
    pub part: usize,
    pub whole: usize,
}

impl Percentage {
    /// By how much `remaining` falls short of `original`, as a share of
    /// `original`: nothing where it does not fall short, and nothing of
    /// nothing.
    pub open spec fn reduction(original: usize, remaining: usize) -> Percentage {
        if original == 0 {
            Percentage { part: 0, whole: 1 }
        } else if remaining >= original {
            Percentage { part: 0, whole: original }
        } else {
            Percentage { part: (original - remaining) as usize, whole: original }
        }
    }

    /// Whether the share lies between 0 and 100 percent.
    pub open spec fn in_range(self) -> bool {
        self.part <= self.whole && self.whole > 0
    }

    /// Computes by how much `remaining` falls short of `original`.
    pub fn reduction_of(original: usize, remaining: usize) -> (share: Percentage)
        ensures
            share == Percentage::reduction(original, remaining),
            share.in_range(),
            original == 0 ==> share.part == 0,
    {
        if original == 0 {
            Percentage { part: 0, whole: 1 }
        } else if remaining >= original {
            Percentage { part: 0, whole: original }
        } else {
            Percentage { part: original - remaining, whole: original }
        }
    }
}

/// A reduction is never below 0 percent nor above 100, and it is 0 percent
/// of an original of 0.
pub proof fn reduction_in_range(original: usize, remaining: usize)
    ensures
        Percentage::reduction(original, remaining).in_range(),
        original == 0 ==> Percentage::reduction(original, remaining).part == 0,
{
}

/// What a run of the pipeline changed: depth and gate count before and
/// after, and the reductions in percent.
#[derive(Debug, Clone, Copy, PartialEq, Eq, Structural)]
pub struct TranspilationStats {
    pub original_depth: usize,
    pub final_depth: usize,
    pub original_gate_count: usize,
    pub final_gate_count: usize,
    pub depth_reduction: Percentage,
    pub gate_reduction: Percentage,
}

impl TranspilationStats {
    /// Whether these are the figures of a run that made `last` of
    /// `original`.
    pub open spec fn compares(self, original: CircuitView, last: CircuitView) -> bool {
        &&& self.original_depth == depth(original)
        &&& self.final_depth == depth(last)
        &&& self.original_gate_count == original.gates.len()
        &&& self.final_gate_count == last.gates.len()
        &&& self.depth_reduction == Percentage::reduction(self.original_depth, self.final_depth)
        &&& self.gate_reduction == Percentage::reduction(
            self.original_gate_count,
            self.final_gate_count,
        )
    }
}

/// The final circuit of a run, with its figures.
#[derive(Debug)]
pub struct TranspilationResult {
    pub circuit: QuantumCircuit,
    pub stats: TranspilationStats,
}

/// A pass that a transpiler can hold.
#[derive(Debug, Clone, Copy)]
pub enum Pass {
    /// Cancellation of adjacent identical gates.
    Cancellation(GateCancellationPass),
    /// Merging of consecutive rotations of one qubit.
    RotationMerging(RotationMergingPass),
}

impl OptimizationPass for Pass {
    open spec fn optimized(&self, circuit: CircuitView) -> CircuitView {
        match self {
            Pass::Cancellation(pass) => pass.optimized(circuit),
            Pass::RotationMerging(pass) => pass.optimized(circuit),
        }
    }

    fn optimize(&self, circuit: &QuantumCircuit) -> (result: QuantumCircuit) {
        match self {
            Pass::Cancellation(pass) => pass.optimize(circuit),
            Pass::RotationMerging(pass) => pass.optimize(circuit),
        }
    }
}

/// What `passes`, run one after another, make of `circuit`.
pub open spec fn run_passes(passes: Seq<Pass>, circuit: CircuitView) -> CircuitView
    decreases passes.len(),
{
    if passes.len() == 0 {
        circuit
    } else {
        passes.last().optimized(run_passes(passes.drop_last(), circuit))
    }
}

/// The passes of every new transpiler: cancellation, then rotation merging.
pub open spec fn standard_passes() -> Seq<Pass> {
    seq![Pass::Cancellation(GateCancellationPass), Pass::RotationMerging(RotationMergingPass)]
}

/// The circuit that the pipeline makes of the parsed circuit `parsed` for a
/// device with the connectivity `edges`: routed, then swept for adjacent
/// pairs that cancel, then with its rotations merged.
pub open spec fn transpiled(parsed: CircuitView, edges: Seq<(usize, usize)>) -> CircuitView {
    CircuitView {
        num_qubits: parsed.num_qubits,
        num_clbits: parsed.num_clbits,
        gates: merge_rotations(cancel_pairs(route_gates(parsed.gates, edges))),
    }
}

/// The standard passes sweep a routed circuit for pairs that cancel and then
/// merge its rotations.
pub proof fn standard_passes_sweep_then_merge(parsed: CircuitView, edges: Seq<(usize, usize)>)
    ensures
        run_passes(standard_passes(), routed(parsed, edges)) == transpiled(parsed, edges),
{
    let start = routed(parsed, edges);
    let passes = standard_passes();
    let first = passes.drop_last();
    assert(run_passes(first.drop_last(), start) == start);
    assert(run_passes(first, start) == GateCancellationPass.optimized(start));
}

/// Runs a circuit description through the whole pipeline.
#[derive(Debug)]
pub struct UniversalTranspiler {
    parser: QASMParser,
    router: SimpleRouter,
    passes: Vec<Pass>,
}

impl UniversalTranspiler {
    /// The passes that the transpiler runs, in their order.
    pub closed spec fn passes(&self) -> Seq<Pass> {
        self.passes@
    }

    /// A transpiler with the standard passes.
    pub fn new() -> (transpiler: Self)
        ensures
            transpiler.passes() == standard_passes(),
    {
        let mut passes: Vec<Pass> = Vec::new();
        passes.push(Pass::Cancellation(GateCancellationPass));
        passes.push(Pass::RotationMerging(RotationMergingPass));
        UniversalTranspiler { parser: QASMParser, router: SimpleRouter, passes }
    }

    /// Reads the circuit that `input` describes, routes it for `backend`,
    /// runs the passes over it in their order, and reports the final circuit
    /// with the figures before and after. Fails where reading fails, with
    /// the same report, and only there.
    pub fn transpile(&self, input: &str, backend: &BackendSpec) -> (result: Result<
        TranspilationResult,
        String,
    >)
        ensures
            result is Ok <==> read_circuit(input@) is Ok,
            result is Err ==> result->Err_0@ == read_circuit(input@)->Err_0,
            result is Ok ==> ({
                let parsed = read_circuit(input@)->Ok_0;
                let edges = backend.coupling_map@;
                let circuit = result->Ok_0.circuit@;
                let stats = result->Ok_0.stats;
                &&& circuit == run_passes(self.passes(), routed(parsed, edges))
                &&& self.passes() == standard_passes() ==> circuit == transpiled(parsed, edges)
                &&& stats.compares(parsed, circuit)
                &&& stats.depth_reduction.in_range()
                &&& stats.gate_reduction.in_range()
                &&& parsed.gates.len() == 0 ==> stats.gate_reduction.part == 0
            }),
    {
        let parsed = match self.parser.parse(input) {
            Ok(parsed) => parsed,
            Err(report) => {
                return Err(report);
            },
        };
        let original_depth = Self::calculate_depth(&parsed);
        let original_gate_count = parsed.gates.len();
        let mut circuit = self.router.route(&parsed, backend);
        let ghost start = circuit@;
        let mut i: usize = 0;
        while i < self.passes.len()
            invariant
                i <= self.passes.len(),
                circuit@ == run_passes(self.passes@.take(i as int), start),
            decreases self.passes.len() - i,
        {
            assert(self.passes@.take(i + 1).drop_last() =~= self.passes@.take(i as int));
            circuit = self.passes[i].optimize(&circuit);
            i = i + 1;
        }
        proof {
            assert(self.passes@.take(i as int) =~= self.passes@);
            standard_passes_sweep_then_merge(parsed@, backend.coupling_map@);
        }
        let final_depth = Self::calculate_depth(&circuit);
        let final_gate_count = circuit.gates.len();
        let stats = TranspilationStats {
            original_depth,
            final_depth,
            original_gate_count,
            final_gate_count,
            depth_reduction: Percentage::reduction_of(original_depth, final_depth),
            gate_reduction: Percentage::reduction_of(original_gate_count, final_gate_count),
        };
        Ok(TranspilationResult { circuit, stats })
    }
}

} // verus!
