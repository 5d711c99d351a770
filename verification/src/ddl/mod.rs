//! Schema changes on the destination.
pub mod apply;
pub mod config;
pub mod render;
pub mod session;
pub mod snowflake;
pub mod table_laws;
pub mod defaults;
pub mod predict;
pub mod laws;
