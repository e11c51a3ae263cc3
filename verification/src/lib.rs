//! Storage-layout resolution for contract state variables.
//!
//! Given the declaration tree of a contract's state variables, the library
//! computes, for every variable and every nested element, the 256-bit storage
//! slot and the bit offset inside that slot that the variable occupies,
//! following the sequential slot-packing rules of the target virtual machine.
//! Out-of-line content (mappings, dynamically sized arrays) is addressed
//! through a pointer slot whose content address is derived with Keccak-256.

pub mod text;
pub mod types;
pub mod tree;
pub mod layout;
pub mod codec;
pub mod laws;
