//! A small transpiler for quantum gate circuits.
//!
//! [`UniversalTranspiler::transpile`] reads a circuit from text
//! ([`QASMParser`]), routes it for the connectivity of a device
//! ([`SimpleRouter`]), runs the optimization passes over it
//! ([`GateCancellationPass`], then [`RotationMergingPass`]), and reports the
//! final circuit with depth and gate count before and after. Each stage
//! takes a circuit and makes a new one; none changes its argument.
//!
//! What each stage computes is stated as a function on the values of
//! circuits ([`circuit::CircuitView`]), and every executable function is
//! proved to compute just that. Numbers are exact throughout: angles are
//! whole femtoradians ([`Angle`]) and reductions are shares of a whole
//! ([`Percentage`]).

pub mod angle;
pub mod cancellation;
pub mod circuit;
pub mod depth;
pub mod parser;
pub mod pass;
pub mod rotation;
pub mod router;
pub mod text;
pub mod transpiler;

pub use angle::Angle;
pub use cancellation::GateCancellationPass;
pub use circuit::{BackendSpec, Gate, QuantumCircuit};
pub use parser::QASMParser;
pub use pass::OptimizationPass;
pub use rotation::RotationMergingPass;
pub use router::SimpleRouter;
pub use transpiler::{
    Pass, Percentage, TranspilationResult, TranspilationStats, UniversalTranspiler,
};
