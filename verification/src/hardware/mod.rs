pub mod instruction;
pub mod register;
pub mod vm;
pub mod laws;
