//! Backend of a small compiler for the SysY language: it lowers a
//! control-flow-graph intermediate representation (IR) to RISC-V32IM
//! assembly text, together with the frontend data types that feed it.

pub mod ast;
pub mod backend;
pub mod func_meta;
pub mod num_text;
pub mod ir;
pub mod reg_manager;
pub mod riscv;
pub mod symtab;
pub mod token_generator;
pub mod riscv_builder;
pub mod riscv_text_builder;

pub use riscv::Reg;
