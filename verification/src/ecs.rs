//! Entities derived from words, the components that describe them, and
//! the manager that keeps them.
pub mod component;
pub mod entity;
pub mod entity_manager;
