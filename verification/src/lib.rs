pub mod cfg;
pub mod cl_backend;
pub mod codegen;
pub mod common;
pub mod core_ir;
pub mod mir;
pub mod error;
pub mod flatten;
pub mod mod_tree;
pub mod parser;
pub mod resolve;
pub mod symtable;
pub mod tp;
pub mod typecheck;
