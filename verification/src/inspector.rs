//! Introspection: reading the catalog of a live database into a snapshot.

use crate::schema::DatabaseSchema;
use vstd::prelude::*;

verus! {

/// Why an introspection failed. Each variant names what was read when it
/// failed, with the raw value of the database where there is one.
#[derive(Debug, PartialEq, Eq)]
pub enum IntrospectionError {
    /// The connection or a query on it failed.
    QueryFailed { reason: String },
    /// A row of a catalog query lacks a field, or holds a value of another
    /// kind than the catalog is known to report.
    MalformedResult { table: String, field: String },
    /// A column has a declared type that maps to no column type.
    UnsupportedType { table: String, column: String, tpe: String },
}

pub enum IntrospectionErrorView {
    QueryFailed { reason: Seq<char> },
    MalformedResult { table: Seq<char>, field: Seq<char> },
    UnsupportedType { table: Seq<char>, column: Seq<char>, tpe: Seq<char> },
}

impl View for IntrospectionError {
    type V = IntrospectionErrorView;

    open spec fn view(&self) -> IntrospectionErrorView {
        match *self {
            IntrospectionError::QueryFailed { reason } => IntrospectionErrorView::QueryFailed {
                reason: reason@,
            },
            IntrospectionError::MalformedResult {
                table,
                field,
            } => IntrospectionErrorView::MalformedResult { table: table@, field: field@ },
            IntrospectionError::UnsupportedType {
                table,
                column,
                tpe,
            } => IntrospectionErrorView::UnsupportedType {
                table: table@,
                column: column@,
                tpe: tpe@,
            },
        }
    }
}

/// Reads the structure of one namespace of a database. There is one
/// implementation for each engine.
pub trait DatabaseInspector {
    fn introspect(&self, schema: &String) -> Result<DatabaseSchema, IntrospectionError>;
}

/// The inspector of a database that has no tables.
#[derive(Debug, PartialEq, Eq)]
pub struct EmptyDatabaseInspectorImpl {}

impl DatabaseInspector for EmptyDatabaseInspectorImpl {
    fn introspect(&self, schema: &String) -> (snapshot: Result<DatabaseSchema, IntrospectionError>)
        ensures
            snapshot is Ok,
            snapshot->Ok_0@.tables.len() == 0,
    {
        Ok(DatabaseSchema { tables: Vec::new() })
    }
}

impl dyn DatabaseInspector {
    /// The inspector that reports a database without tables.
    pub fn empty() -> (inspector: EmptyDatabaseInspectorImpl)
        ensures
            inspector == (EmptyDatabaseInspectorImpl {  }),
    {
        EmptyDatabaseInspectorImpl {  }
    }
}

} // verus!
