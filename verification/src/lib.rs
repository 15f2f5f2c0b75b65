//! Planning of relational schema migrations.
//!
//! A schema snapshot describes the tables of a database. Two snapshots are
//! compared into an ordered list of migration steps, and the list is then
//! rewritten for engines whose `ALTER TABLE` cannot drop or change a column.
//! The functions of this crate are verified against contracts over the
//! mathematical views of the data types. The one exception is the call of
//! the URL parser in `connection`, whose result is taken as it comes.

pub mod connection;
pub mod database;
pub mod differ;
pub mod directive;
pub mod inferrer;
pub mod inspector;
pub mod rows;
pub mod schema;
pub mod sequences;
pub mod sqlite_inspector;
pub mod steps;
pub mod structure;
pub mod text;
