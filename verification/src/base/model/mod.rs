pub mod def;
pub mod path;

pub use path::normalized_path::{NormalizedPath, ToNormalizedPath, ToNormalizedPaths};
