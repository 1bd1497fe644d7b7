//! What every optimization pass has in common.

use crate::circuit::{CircuitView, QuantumCircuit};
use vstd::prelude::*;

verus! {

/// A rewrite of one circuit into another.
pub trait OptimizationPass {
    /// The circuit that the pass makes of `circuit`.
    spec fn optimized(&self, circuit: CircuitView) -> CircuitView;

    /// Rewrites `circuit`; the argument is left as it was.
    fn optimize(&self, circuit: &QuantumCircuit) -> (result: QuantumCircuit)
        ensures
            result@ == self.optimized(circuit@),
    ;
}

} // verus!
