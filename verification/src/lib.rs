//! The emitting side of walshadow: from committed transactions to durable rows
//! in their destination tables.
pub mod columns;
pub mod config;
pub mod conn;
pub mod ddl;
pub mod decimal;
pub mod decimal_laws;
pub mod encoder;
pub mod errors;
pub mod mapping;
pub mod oracle;
pub mod pipeline;
pub mod plan;
pub mod retry;
pub mod route;
pub mod row_laws;
pub mod schema;
pub mod server_laws;
pub mod text;
pub mod text_laws;
pub mod tuples;
pub mod types;
pub mod u256;
pub mod value_laws;
pub mod values;
pub mod wire;
