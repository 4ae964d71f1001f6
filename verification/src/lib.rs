//! A one-pass translator for an eight-symbol tape language.
//!
//! The stream of operations is laid out as numbered blocks of steps
//! ([`translate`]), which a small machine can run ([`runner`]). The stream
//! itself has a meaning, given by an interpreter ([`interp`]), and the
//! translated program is proved to mean the same ([`laws`]). The same pass,
//! driving a Cranelift `FunctionBuilder`, writes the program as Cranelift IR
//! ([`emit`]).
//!
//! Two policies hold throughout. A stream whose brackets do not match has
//! no translation: it is refused with the position of the offending
//! bracket, and nothing is emitted for it. The pointer is not checked
//! against the tape: no bounds check is emitted, and a run of the model
//! that touches a cell outside the tape ends in a fault, which marks the
//! runs of which nothing is promised.

pub mod ops;
pub mod tape;
pub mod brackets;
pub mod ir;
pub mod translate;
pub mod layout;
pub mod runner;
pub mod interp;
pub mod clif;
pub mod emit;
pub mod laws;
pub mod nesting;
