pub mod actions;
pub mod cli;
pub mod constants;
pub mod data_types;
pub mod utils;
pub mod visitor;
