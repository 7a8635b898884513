//! The lexicographical features of the encyclopedia.
pub mod error;
pub mod grammeme;
pub mod tag;
