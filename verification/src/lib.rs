//! Core of an arithmetic-logic virtual machine: a bit-packed bytecode codec
//! over a 16-bit-addressable byte string, a typed instruction set, a register
//! file, and the per-instruction execution step model.

pub mod data;
pub mod num;
pub mod regid;
pub mod cursor;
pub mod instr;
pub mod codec;
pub mod registers;
pub mod exec;
