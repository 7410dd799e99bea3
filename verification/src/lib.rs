//! A verified LC-3 virtual machine: instruction decoding and execution,
//! memory with its memory-mapped device registers, and the register file.

pub mod hardware;
