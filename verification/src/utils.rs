//! Small utilities: a plain grid and the update-if-better helpers.
pub mod grid;
pub mod macros;
