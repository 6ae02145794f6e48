use vstd::prelude::*;

pub mod ir;
pub mod text;
pub mod chars;
pub mod interpreter;
pub mod validator;
pub mod passes;
pub mod module_builders;
pub mod ir_generator;
pub mod profiler;
pub mod engine;
pub mod llvm_frontend;
pub mod experience;
pub mod demo;
pub mod blueprint_archive;
pub mod builder_laws;
pub mod opcode_laws;
pub mod evolution;

verus! {

} // verus!
