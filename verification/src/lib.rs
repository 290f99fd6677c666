//! Generation of CQL table definitions and CRUD statement templates
//! from a declarative table schema.
//!
//! A `TableMeta` describes one table of a wide-column store: its name,
//! keyspace, options, columns, primary keys and clustering keys. From
//! that description the library derives the DDL strings and the
//! parameterized CRUD statement templates, together with the ordered
//! value-binding lists that match each template's placeholders.

pub mod names;
pub mod queries;
pub mod schema;
pub mod statements;
pub mod text;
