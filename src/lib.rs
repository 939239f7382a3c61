//! A passive linear network of resistors, capacitors and inductors nested in
//! series and parallel, driven by a bank of sinusoidal sources, with exact
//! rational impedance arithmetic.
//!
//! Impedances are taken at an angular frequency `ω`; the generator records
//! each source by its linear frequency `f`, and `ω = 2πf` is left to the
//! caller, since `π` has no exact rational value.
pub mod circuit;
pub mod error;
pub mod generator;
pub mod impedance;
pub mod number;
pub mod response;
pub mod tree;
