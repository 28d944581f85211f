pub mod conflict;
pub mod error;
pub mod interface;
