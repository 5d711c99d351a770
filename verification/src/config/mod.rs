//! Operator configuration: defaults, the document that overlays them, and
//! what the two resolve to.
pub mod backup;
pub mod emitter;
pub mod fragments;
pub mod laws;
pub mod settings;
pub mod tables;
pub mod tree;
