pub mod normalized_path;
