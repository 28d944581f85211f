pub mod commands;
pub mod common;
pub mod def;
pub mod repo;
pub mod completion;
