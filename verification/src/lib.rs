//! Core of a compile-select-execute-decode harness for arithmetic circuits.
//!
//! Given one exported function's compiled circuit and a mapping from
//! parameter names to typed values, the library encodes the values into an
//! initial witness as the function's ABI dictates, solves the circuit over
//! the bn254 field through acvm, and decodes the return slots back into a
//! structured value.  Selection helpers pick the library package of a
//! workspace and the requested function out of the exported set; every
//! failure is reported through a tagged error that carries the underlying
//! diagnostic text unchanged.

pub mod abi;
pub mod decode;
pub mod encode;
pub mod errors;
pub mod harness;
pub mod select;
pub mod solve;
