//! Recursive search of a directory tree by name pattern and entry type.
pub mod filter;
pub mod finder;
pub mod laws;
pub mod pattern;
pub mod text;
pub mod walk;
