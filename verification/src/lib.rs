//! An encyclopedia of words: an in-memory store that maps named entries to
//! the tags describing them, with reusable named groups of tags.
//!
//! The store of [`encyclopedia`] keeps each word under an id. A word is a
//! name with tags ([`word`], [`tag`]). The store is made of three parts:
//! the registry of the names and their ids ([`registry`]), the columns of
//! tags, one for each tag name ([`columns`]), and the registry of the tag
//! groups ([`groups`]). What the store is, and what each of its operations
//! does to it, is stated over the model of [`model`], and what holds of
//! every store is proved in [`laws`].
//!
//! Beside it stand an entity manager that keeps entities in the same way
//! ([`ecs`]), a word manager for words without names ([`word_manager`]),
//! and encyclopedias that keep words as sets of tags by their names, with
//! the grammatical categories of a language ([`world`], [`enc`]).
//!
//! Names, tags and data are values of any type that can be compared and
//! copied ([`util::EncSysType`]). Maps and sets of such values are kept in
//! vectors ([`collections`], [`assoc`]).
pub mod util;
pub mod assoc;
pub mod collections;
pub mod tag;
pub mod word;
pub mod model;
pub mod registry;
pub mod columns;
pub mod groups;
pub mod encyclopedia;
pub mod laws;
pub mod world;
pub mod enc;
pub mod ecs;
pub mod word_manager;
pub mod encling;
