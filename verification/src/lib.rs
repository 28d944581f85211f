pub mod base;
pub mod cli;
pub mod git;
pub mod model;
pub mod spl;
pub mod text;
