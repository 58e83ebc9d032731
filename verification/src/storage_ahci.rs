//! The command-execution engine of an AHCI (SATA) host controller driver.
//!
//! The engine decides and the caller acts: every function here takes the
//! values that were read from the adapter and hands back what to write to it.
//! No function touches a register or blocks.

pub mod controller;
pub mod error;
pub mod fis;
pub mod hw;
pub mod identify;
pub mod layout;
pub mod port;
pub mod prdt;
pub mod slots;
