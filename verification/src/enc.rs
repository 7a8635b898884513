//! The encyclopedia of a language: words with lexicographical tags, and
//! grammatical categories.
pub mod encyclopedia;
pub mod ling;
pub mod word;
