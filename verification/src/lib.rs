//! Synthesizes plausible SQL statements from a minimal table schema.
//!
//! The schema parser turns a single `create table` string into a structured
//! [`Table`] model; the statement generator renders that model back into
//! randomized SQL text for seven statement kinds.

pub mod text;
pub mod numfmt;
pub mod schema;
pub mod dates;
pub mod render;
pub mod ddl;

pub use schema::{Column, SqlType, Table};
pub use dates::Date;
pub use ddl::DdlError;
pub use render::Draw;
