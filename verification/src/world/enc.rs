//! Words as sets of tags, and an encyclopedia that keeps them by name.
pub mod word;
pub mod encyclopedia;
