//! A small verified bridge between a dynamically typed boundary value model
//! and a relational engine's native column values, together with a statement
//! executor that binds bridged parameters and materializes bridged rows.

pub mod bridge;
pub mod codec;
pub mod sql;
pub mod store;
pub mod text;
pub mod unique;
pub mod value;
