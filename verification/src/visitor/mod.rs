pub mod code_item;
pub mod ignore;
pub mod noqa;
pub mod python_ast;
pub mod utils;
pub mod uses;
pub mod dead_code_visitor;
pub mod walk;
