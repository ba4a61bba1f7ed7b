//! The in-process LLVM backend's decisions, apart from the LLVM calls they
//! steer.
pub mod optimize_emit;
