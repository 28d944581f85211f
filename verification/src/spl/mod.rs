pub mod derivation;
pub mod error;
pub mod inspection;
