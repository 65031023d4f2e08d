//! How fuzzing inputs are turned into paths.
pub mod detect_format;
pub mod safe_join;
