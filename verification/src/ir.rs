pub mod basic_block;
pub mod function;
pub mod module;
pub mod value;
