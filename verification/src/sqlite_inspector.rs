//! Introspection of SQLite: the catalog queries, and the reading of their
//! rows into a snapshot.
//!
//! A snapshot takes one query for the table names and two for each table:
//! one for its columns and one for its foreign keys. Indexes are not read:
//! the tables of a snapshot from here have none.

use crate::inspector::{IntrospectionError, IntrospectionErrorView};
use crate::rows::{flag_in, optional_text_in, ordinal_in, rows_of, text_in, FieldView, ResultRow};
use crate::schema::{
    columns_of, foreign_keys_of, tables_of, Column, ColumnType, ColumnView, DatabaseSchema,
    ForeignKey, ForeignKeyView, IndexView, SchemaView, Table, TableView,
};
use crate::sequences::{
    all_or_first_error, lemma_all_succeeded, lemma_attempt_step, lemma_error_stays,
    lemma_filter_step, lemma_insert_sorted,
};
use crate::text::{clone_text, has_no_duplicates, names_of, starts_with, str_eq, text_of};
use vstd::prelude::*;
use vstd::relations::{sorted_by, total_ordering};
use vstd::seq_lib::{lemma_sorted_unique, to_multiset_build};
use vstd::string::*;

verus! {

/// A column as the catalog reports it: the declared type as text, and the
/// place of the column in the primary key (0 for none).
#[derive(Debug, PartialEq, Eq)]
pub struct IntrospectedColumn {
    pub name: String,
    pub table: String,
    pub tpe: String,
    pub is_required: bool,
    pub default: Option<String>,
    pub pk: u32,
}

pub struct IntrospectedColumnView {
    pub name: Seq<char>,
    pub table: Seq<char>,
    pub tpe: Seq<char>,
    pub is_required: bool,
    pub default: Option<Seq<char>>,
    pub pk: nat,
}

impl View for IntrospectedColumn {
    type V = IntrospectedColumnView;

    open spec fn view(&self) -> IntrospectedColumnView {
        IntrospectedColumnView {
            name: self.name@,
            table: self.table@,
            tpe: self.tpe@,
            is_required: self.is_required,
            default: text_of(self.default),
            pk: self.pk as nat,
        }
    }
}

/// The reported columns that a list holds, as mathematical values.
pub open spec fn introspected_of(columns: Seq<IntrospectedColumn>) -> Seq<IntrospectedColumnView> {
    columns.map_values(|c: IntrospectedColumn| c@)
}

/// The rows that were read for one table.
#[derive(Debug, PartialEq, Eq)]
pub struct TableRows {
    pub name: String,
    pub columns: Vec<ResultRow>,
    pub foreign_keys: Vec<ResultRow>,
}

pub struct TableRowsView {
    pub name: Seq<char>,
    pub columns: Seq<Seq<FieldView>>,
    pub foreign_keys: Seq<Seq<FieldView>>,
}

impl View for TableRows {
    type V = TableRowsView;

    open spec fn view(&self) -> TableRowsView {
        TableRowsView {
            name: self.name@,
            columns: rows_of(self.columns@),
            foreign_keys: rows_of(self.foreign_keys@),
        }
    }
}

/// The table rows that a list holds, as mathematical values.
pub open spec fn table_rows_of(tables: Seq<TableRows>) -> Seq<TableRowsView> {
    tables.map_values(|t: TableRows| t@)
}

/// The error for a row of `table` whose `field` cannot be read.
pub open spec fn malformed(table: Seq<char>, field: Seq<char>) -> IntrospectionErrorView {
    IntrospectionErrorView::MalformedResult { table, field }
}

/// The column type that a declared type of SQLite maps to.
pub open spec fn native_type(tpe: Seq<char>) -> Option<ColumnType> {
    if tpe == "INTEGER"@ {
        Some(ColumnType::Int)
    } else if tpe == "REAL"@ {
        Some(ColumnType::Float)
    } else if tpe == "BOOLEAN"@ {
        Some(ColumnType::Boolean)
    } else if tpe == "TEXT"@ {
        Some(ColumnType::String)
    } else if "VARCHAR"@.is_prefix_of(tpe) {
        Some(ColumnType::String)
    } else if tpe == "DATE"@ {
        Some(ColumnType::DateTime)
    } else {
        None
    }
}

/// The error for a column whose declared type maps to no column type.
pub open spec fn unsupported_type(column: IntrospectedColumnView) -> IntrospectionErrorView {
    IntrospectionErrorView::UnsupportedType {
        table: column.table,
        column: column.name,
        tpe: column.tpe,
    }
}

/// The column type of a reported column. A declared type outside the fixed
/// table is an error that names the table, the column and the declared type.
pub fn column_type(column: &IntrospectedColumn) -> (tpe: Result<ColumnType, IntrospectionError>)
    ensures
        match native_type(column.tpe@) {
            Some(t) => tpe == Ok::<ColumnType, IntrospectionError>(t),
            None => tpe is Err && tpe->Err_0@ == unsupported_type(column@),
        },
{
    let declared = column.tpe.as_str();
    if str_eq(declared, "INTEGER") {
        Ok(ColumnType::Int)
    } else if str_eq(declared, "REAL") {
        Ok(ColumnType::Float)
    } else if str_eq(declared, "BOOLEAN") {
        Ok(ColumnType::Boolean)
    } else if str_eq(declared, "TEXT") {
        Ok(ColumnType::String)
    } else if starts_with(declared, "VARCHAR") {
        Ok(ColumnType::String)
    } else if str_eq(declared, "DATE") {
        Ok(ColumnType::DateTime)
    } else {
        Err(
            IntrospectionError::UnsupportedType {
                table: column.table.clone(),
                column: column.name.clone(),
                tpe: column.tpe.clone(),
            },
        )
    }
}

/// What a row of the table list says: the name of a table.
pub open spec fn parsed_name(row: Seq<FieldView>) -> Result<Seq<char>, IntrospectionErrorView> {
    match text_in(row, "name"@) {
        Some(name) => Ok(name),
        None => Err(malformed("sqlite_master"@, "name"@)),
    }
}

pub open spec fn parse_name() -> spec_fn(Seq<FieldView>) -> Result<
    Seq<char>,
    IntrospectionErrorView,
> {
    |row: Seq<FieldView>| parsed_name(row)
}

/// Whether a table belongs to the user: SQLite's own table of sequences
/// does not.
pub open spec fn user_table() -> spec_fn(Seq<char>) -> bool {
    |name: Seq<char>| name != "sqlite_sequence"@
}

/// What the rows of the table list say: the names of the user's tables, in
/// the order of the rows.
pub open spec fn parsed_table_names(rows: Seq<Seq<FieldView>>) -> Result<
    Seq<Seq<char>>,
    IntrospectionErrorView,
> {
    match all_or_first_error(rows.map_values(parse_name())) {
        Ok(names) => Ok(names.filter(user_table())),
        Err(e) => Err(e),
    }
}

/// What a row of `table_info` says about a column of `table`. The fields are
/// read in this order, and the first that cannot be read is the error:
/// `dflt_value`, `name`, `type`, `notnull`, `pk`.
pub open spec fn parsed_column(table: Seq<char>, row: Seq<FieldView>) -> Result<
    IntrospectedColumnView,
    IntrospectionErrorView,
> {
    if optional_text_in(row, "dflt_value"@) is None {
        Err(malformed(table, "dflt_value"@))
    } else if text_in(row, "name"@) is None {
        Err(malformed(table, "name"@))
    } else if text_in(row, "type"@) is None {
        Err(malformed(table, "type"@))
    } else if flag_in(row, "notnull"@) is None {
        Err(malformed(table, "notnull"@))
    } else if ordinal_in(row, "pk"@) is None {
        Err(malformed(table, "pk"@))
    } else {
        Ok(
            IntrospectedColumnView {
                name: text_in(row, "name"@)->0,
                table,
                tpe: text_in(row, "type"@)->0,
                is_required: flag_in(row, "notnull"@)->0,
                default: optional_text_in(row, "dflt_value"@)->0,
                pk: ordinal_in(row, "pk"@)->0,
            },
        )
    }
}

pub open spec fn parse_column(table: Seq<char>) -> spec_fn(Seq<FieldView>) -> Result<
    IntrospectedColumnView,
    IntrospectionErrorView,
> {
    |row: Seq<FieldView>| parsed_column(table, row)
}

/// What the rows of `table_info` say about the columns of `table`.
pub open spec fn parsed_columns(table: Seq<char>, rows: Seq<Seq<FieldView>>) -> Result<
    Seq<IntrospectedColumnView>,
    IntrospectionErrorView,
> {
    all_or_first_error(rows.map_values(parse_column(table)))
}

/// What a row of `foreign_key_list` says about a foreign key of `table`.
/// SQLite reports no name: it stays empty. The fields are read in this
/// order: `from`, `table`, `to`.
pub open spec fn parsed_foreign_key(table: Seq<char>, row: Seq<FieldView>) -> Result<
    ForeignKeyView,
    IntrospectionErrorView,
> {
    if text_in(row, "from"@) is None {
        Err(malformed(table, "from"@))
    } else if text_in(row, "table"@) is None {
        Err(malformed(table, "table"@))
    } else if text_in(row, "to"@) is None {
        Err(malformed(table, "to"@))
    } else {
        Ok(
            ForeignKeyView {
                name: Seq::empty(),
                table,
                column: text_in(row, "from"@)->0,
                referenced_table: text_in(row, "table"@)->0,
                referenced_column: text_in(row, "to"@)->0,
            },
        )
    }
}

pub open spec fn parse_foreign_key(table: Seq<char>) -> spec_fn(Seq<FieldView>) -> Result<
    ForeignKeyView,
    IntrospectionErrorView,
> {
    |row: Seq<FieldView>| parsed_foreign_key(table, row)
}

/// What the rows of `foreign_key_list` say about the foreign keys of `table`.
pub open spec fn parsed_foreign_keys(table: Seq<char>, rows: Seq<Seq<FieldView>>) -> Result<
    Seq<ForeignKeyView>,
    IntrospectionErrorView,
> {
    all_or_first_error(rows.map_values(parse_foreign_key(table)))
}

/// A key entry: the ordinal of a column in the primary key, and the place
/// of the column in its table.
pub open spec fn key_entry(columns: Seq<IntrospectedColumnView>) -> spec_fn(int) -> (nat, int) {
    |i: int| (columns[i].pk, i)
}

pub open spec fn in_key() -> spec_fn((nat, int)) -> bool {
    |e: (nat, int)| e.0 > 0
}

/// The order of key entries: by ordinal, and by place among equal ordinals.
pub open spec fn entry_le(a: (nat, int), b: (nat, int)) -> bool {
    a.0 < b.0 || (a.0 == b.0 && a.1 <= b.1)
}

pub open spec fn entry_order() -> spec_fn((nat, int), (nat, int)) -> bool {
    |a: (nat, int), b: (nat, int)| entry_le(a, b)
}

/// The entries of the columns that are part of the primary key, ascending.
pub open spec fn key_entries(columns: Seq<IntrospectedColumnView>) -> Seq<(nat, int)> {
    Seq::new(columns.len(), key_entry(columns)).filter(in_key()).sort_by(entry_order())
}

pub open spec fn entry_name(columns: Seq<IntrospectedColumnView>) -> spec_fn((nat, int)) -> Seq<
    char,
> {
    |e: (nat, int)| columns[e.1].name
}

/// The primary key of a table: the names of the columns whose ordinal is
/// greater than zero, in the ascending order of the ordinals. The ordinal is
/// not the place of the column in the table.
pub open spec fn primary_key_of(columns: Seq<IntrospectedColumnView>) -> Seq<Seq<char>> {
    key_entries(columns).map_values(entry_name(columns))
}

/// What a reported column becomes in a snapshot.
pub open spec fn converted_column(column: IntrospectedColumnView) -> Result<
    ColumnView,
    IntrospectionErrorView,
> {
    match native_type(column.tpe) {
        Some(tpe) => Ok(
            ColumnView {
                name: column.name,
                tpe,
                is_required: column.is_required,
                default: column.default,
                key_ordinal: column.pk,
            },
        ),
        None => Err(unsupported_type(column)),
    }
}

pub open spec fn convert_column() -> spec_fn(IntrospectedColumnView) -> Result<
    ColumnView,
    IntrospectionErrorView,
> {
    |c: IntrospectedColumnView| converted_column(c)
}

/// What the reported columns become in a snapshot: the columns in the same
/// order, or the error of the first whose type is not supported.
pub open spec fn converted_columns(columns: Seq<IntrospectedColumnView>) -> Result<
    Seq<ColumnView>,
    IntrospectionErrorView,
> {
    all_or_first_error(columns.map_values(convert_column()))
}

/// The table that is made of what was reported for it. Indexes are not
/// read. A table that is not well formed is an error: the catalog has
/// reported a column name twice.
pub open spec fn assembled_table(
    name: Seq<char>,
    columns: Seq<IntrospectedColumnView>,
    foreign_keys: Seq<ForeignKeyView>,
) -> Result<TableView, IntrospectionErrorView> {
    match converted_columns(columns) {
        Ok(converted) => {
            let table = TableView {
                name,
                columns: converted,
                primary_key: if primary_key_of(columns).len() == 0 {
                    None
                } else {
                    Some(primary_key_of(columns))
                },
                foreign_keys,
                indexes: Seq::empty(),
            };
            if table.well_formed() {
                Ok(table)
            } else {
                Err(malformed(name, "name"@))
            }
        },
        Err(e) => Err(e),
    }
}

/// The table that the rows read for it describe: the columns are read
/// first, then the foreign keys, then the table is assembled.
pub open spec fn introspected_table(rows: TableRowsView) -> Result<
    TableView,
    IntrospectionErrorView,
> {
    match parsed_columns(rows.name, rows.columns) {
        Err(e) => Err(e),
        Ok(columns) => match parsed_foreign_keys(rows.name, rows.foreign_keys) {
            Err(e) => Err(e),
            Ok(foreign_keys) => assembled_table(rows.name, columns, foreign_keys),
        },
    }
}

pub open spec fn introspect_table() -> spec_fn(TableRowsView) -> Result<
    TableView,
    IntrospectionErrorView,
> {
    |rows: TableRowsView| introspected_table(rows)
}

/// The snapshot that the rows read for all tables describe. A snapshot
/// with a table name twice is an error.
pub open spec fn introspected_schema(tables: Seq<TableRowsView>) -> Result<
    SchemaView,
    IntrospectionErrorView,
> {
    match all_or_first_error(tables.map_values(introspect_table())) {
        Ok(tables) => if (SchemaView { tables }).table_names().no_duplicates() {
            Ok(SchemaView { tables })
        } else {
            Err(malformed("sqlite_master"@, "name"@))
        },
        Err(e) => Err(e),
    }
}

/// A snapshot that introspection yields is well formed.
pub proof fn lemma_introspected_schema_is_well_formed(tables: Seq<TableRowsView>)
    requires
        introspected_schema(tables) is Ok,
    ensures
        introspected_schema(tables)->Ok_0.well_formed(),
{
    let attempts = tables.map_values(introspect_table());
    lemma_all_succeeded(attempts);
    let schema = introspected_schema(tables)->Ok_0;
    assert forall|i: int| 0 <= i < schema.tables.len() implies (#[trigger] schema.tables[i]).well_formed() by {
        assert(attempts[i] == Ok::<TableView, IntrospectionErrorView>(schema.tables[i]));
        assert(introspected_table(tables[i]) is Ok);
    }
}

/// Key entries are totally ordered.
pub proof fn lemma_entry_order_total()
    ensures
        total_ordering(entry_order()),
{
    let r = entry_order();
    assert forall|a: (nat, int), b: (nat, int)| #[trigger] r(a, b) && #[trigger] r(b, a) implies a
        == b by {}
}

/// The entries that a list holds, as mathematical values.
pub open spec fn entries_of(entries: Seq<(u32, usize)>) -> Seq<(nat, int)> {
    entries.map_values(|e: (u32, usize)| (e.0 as nat, e.1 as int))
}

fn malformed_row(table: &str, field: &str) -> (error: IntrospectionError)
    ensures
        error@ == malformed(table@, field@),
{
    IntrospectionError::MalformedResult {
        table: String::from_str(table),
        field: String::from_str(field),
    }
}

/// The SQLite inspector: it says which queries to run, and reads what they
/// return. Running them is left to the owner of the connection.
#[derive(Debug, PartialEq, Eq)]
pub struct Sqlite {}

impl Sqlite {
    pub fn new() -> (inspector: Sqlite)
        ensures
            inspector == (Sqlite {  }),
    {
        Sqlite {  }
    }

    /// The query for the names of the tables of a namespace.
    pub fn table_names_query(&self, schema: &str) -> (sql: String)
        ensures
            sql@ == "SELECT name FROM "@ + schema@ + ".sqlite_master WHERE type='table'"@,
    {
        let mut sql = String::from_str("SELECT name FROM ");
        sql.append(schema);
        sql.append(".sqlite_master WHERE type='table'");
        sql
    }

    /// The query for the columns of a table.
    pub fn columns_query(&self, schema: &str, table: &str) -> (sql: String)
        ensures
            sql@ == "Pragma \""@ + schema@ + "\".table_info (\""@ + table@ + "\")"@,
    {
        let mut sql = String::from_str("Pragma \"");
        sql.append(schema);
        sql.append("\".table_info (\"");
        sql.append(table);
        sql.append("\")");
        sql
    }

    /// The query for the foreign keys of a table.
    pub fn foreign_constraints_query(&self, schema: &str, table: &str) -> (sql: String)
        ensures
            sql@ == "Pragma \""@ + schema@ + "\".foreign_key_list(\""@ + table@ + "\");"@,
    {
        let mut sql = String::from_str("Pragma \"");
        sql.append(schema);
        sql.append("\".foreign_key_list(\"");
        sql.append(table);
        sql.append("\");");
        sql
    }

    /// Reads the names of the user's tables from the rows of the table list.
    pub fn get_table_names(&self, rows: &Vec<ResultRow>) -> (names: Result<
        Vec<String>,
        IntrospectionError,
    >)
        ensures
            match parsed_table_names(rows_of(rows@)) {
                Ok(parsed) => names is Ok && names_of(names->Ok_0@) == parsed,
                Err(e) => names is Err && names->Err_0@ == e,
            },
    {
        let ghost attempts = rows_of(rows@).map_values(parse_name());
        let ghost mut all: Seq<Seq<char>> = Seq::empty();
        let mut out: Vec<String> = Vec::new();
        let mut i: usize = 0;
        while i < rows.len()
            invariant
                i <= rows.len(),
                attempts == rows_of(rows@).map_values(parse_name()),
                all_or_first_error(attempts.take(i as int)) == Ok::<
                    Seq<Seq<char>>,
                    IntrospectionErrorView,
                >(all),
                all.len() == i,
                names_of(out@) == all.filter(user_table()),
            decreases rows.len() - i,
        {
            proof {
                lemma_attempt_step(attempts, i as int);
            }
            match rows[i].text("name") {
                Some(name) => {
                    let ghost before = names_of(out@);
                    proof {
                        all.lemma_filter_push(name@, user_table());
                        all = all.push(name@);
                    }
                    if !str_eq(name.as_str(), "sqlite_sequence") {
                        out.push(name);
                        proof {
                            assert(names_of(out@) =~= before.push(name@));
                        }
                    }
                },
                None => {
                    proof {
                        lemma_error_stays(attempts, i + 1);
                    }
                    return Err(malformed_row("sqlite_master", "name"));
                },
            }
            i = i + 1;
        }
        proof {
            assert(attempts.take(i as int) =~= attempts);
        }
        Ok(out)
    }

    fn column_from_row(table: &str, row: &ResultRow) -> (column: Result<
        IntrospectedColumn,
        IntrospectionError,
    >)
        ensures
            match parsed_column(table@, row@) {
                Ok(parsed) => column is Ok && column->Ok_0@ == parsed,
                Err(e) => column is Err && column->Err_0@ == e,
            },
    {
        let default = match row.optional_text("dflt_value") {
            Some(d) => d,
            None => { return Err(malformed_row(table, "dflt_value")); },
        };
        let name = match row.text("name") {
            Some(n) => n,
            None => { return Err(malformed_row(table, "name")); },
        };
        let tpe = match row.text("type") {
            Some(t) => t,
            None => { return Err(malformed_row(table, "type")); },
        };
        let is_required = match row.flag("notnull") {
            Some(f) => f,
            None => { return Err(malformed_row(table, "notnull")); },
        };
        let pk = match row.ordinal("pk") {
            Some(o) => o,
            None => { return Err(malformed_row(table, "pk")); },
        };
        Ok(IntrospectedColumn { name, table: String::from_str(table), tpe, is_required, default, pk })
    }

    /// Reads the columns of `table` from the rows of `table_info`.
    pub fn get_columns(&self, table: &str, rows: &Vec<ResultRow>) -> (columns: Result<
        Vec<IntrospectedColumn>,
        IntrospectionError,
    >)
        ensures
            match parsed_columns(table@, rows_of(rows@)) {
                Ok(parsed) => columns is Ok && introspected_of(columns->Ok_0@) == parsed,
                Err(e) => columns is Err && columns->Err_0@ == e,
            },
    {
        let ghost attempts = rows_of(rows@).map_values(parse_column(table@));
        let mut out: Vec<IntrospectedColumn> = Vec::new();
        let mut i: usize = 0;
        proof {
            assert(introspected_of(out@) =~= Seq::empty());
        }
        while i < rows.len()
            invariant
                i <= rows.len(),
                attempts == rows_of(rows@).map_values(parse_column(table@)),
                all_or_first_error(attempts.take(i as int)) == Ok::<
                    Seq<IntrospectedColumnView>,
                    IntrospectionErrorView,
                >(introspected_of(out@)),
            decreases rows.len() - i,
        {
            let ghost before = introspected_of(out@);
            proof {
                lemma_attempt_step(attempts, i as int);
            }
            match Self::column_from_row(table, &rows[i]) {
                Ok(column) => {
                    out.push(column);
                    proof {
                        assert(introspected_of(out@) =~= before.push(attempts[i as int]->Ok_0));
                    }
                },
                Err(error) => {
                    proof {
                        lemma_error_stays(attempts, i + 1);
                    }
                    return Err(error);
                },
            }
            i = i + 1;
        }
        proof {
            assert(attempts.take(i as int) =~= attempts);
        }
        Ok(out)
    }

    fn foreign_key_from_row(table: &str, row: &ResultRow) -> (key: Result<
        ForeignKey,
        IntrospectionError,
    >)
        ensures
            match parsed_foreign_key(table@, row@) {
                Ok(parsed) => key is Ok && key->Ok_0@ == parsed,
                Err(e) => key is Err && key->Err_0@ == e,
            },
    {
        let column = match row.text("from") {
            Some(c) => c,
            None => { return Err(malformed_row(table, "from")); },
        };
        let referenced_table = match row.text("table") {
            Some(t) => t,
            None => { return Err(malformed_row(table, "table")); },
        };
        let referenced_column = match row.text("to") {
            Some(c) => c,
            None => { return Err(malformed_row(table, "to")); },
        };
        Ok(
            ForeignKey {
                name: String::new(),
                table: String::from_str(table),
                column,
                referenced_table,
                referenced_column,
            },
        )
    }

    /// Reads the foreign keys of `table` from the rows of `foreign_key_list`.
    pub fn get_foreign_constraints(&self, table: &str, rows: &Vec<ResultRow>) -> (keys: Result<
        Vec<ForeignKey>,
        IntrospectionError,
    >)
        ensures
            match parsed_foreign_keys(table@, rows_of(rows@)) {
                Ok(parsed) => keys is Ok && foreign_keys_of(keys->Ok_0@) == parsed,
                Err(e) => keys is Err && keys->Err_0@ == e,
            },
    {
        let ghost attempts = rows_of(rows@).map_values(parse_foreign_key(table@));
        let mut out: Vec<ForeignKey> = Vec::new();
        let mut i: usize = 0;
        proof {
            assert(foreign_keys_of(out@) =~= Seq::empty());
        }
        while i < rows.len()
            invariant
                i <= rows.len(),
                attempts == rows_of(rows@).map_values(parse_foreign_key(table@)),
                all_or_first_error(attempts.take(i as int)) == Ok::<
                    Seq<ForeignKeyView>,
                    IntrospectionErrorView,
                >(foreign_keys_of(out@)),
            decreases rows.len() - i,
        {
            let ghost before = foreign_keys_of(out@);
            proof {
                lemma_attempt_step(attempts, i as int);
            }
            match Self::foreign_key_from_row(table, &rows[i]) {
                Ok(key) => {
                    out.push(key);
                    proof {
                        assert(foreign_keys_of(out@) =~= before.push(attempts[i as int]->Ok_0));
                    }
                },
                Err(error) => {
                    proof {
                        lemma_error_stays(attempts, i + 1);
                    }
                    return Err(error);
                },
            }
            i = i + 1;
        }
        proof {
            assert(attempts.take(i as int) =~= attempts);
        }
        Ok(out)
    }

    /// The names of the columns of the primary key, in the order of the key.
    pub fn primary_key_columns(columns: &Vec<IntrospectedColumn>) -> (key: Vec<String>)
        ensures
            names_of(key@) == primary_key_of(introspected_of(columns@)),
    {
        let ghost views = introspected_of(columns@);
        let ghost all = Seq::new(views.len(), key_entry(views));
        let mut entries: Vec<(u32, usize)> = Vec::new();
        let mut i: usize = 0;
        proof {
            lemma_entry_order_total();
            assert(all.take(0).filter(in_key()) =~= Seq::<(nat, int)>::empty()) by {
                reveal(Seq::filter);
            }
            assert(entries_of(entries@) =~= Seq::<(nat, int)>::empty());
        }
        while i < columns.len()
            invariant
                i <= columns.len(),
                views == introspected_of(columns@),
                all == Seq::new(views.len(), key_entry(views)),
                total_ordering(entry_order()),
                sorted_by(entries_of(entries@), entry_order()),
                entries_of(entries@).to_multiset() == all.take(i as int).filter(
                    in_key(),
                ).to_multiset(),
                forall|k: int| 0 <= k < entries@.len() ==> (#[trigger] entries@[k]).1 < columns.len(),
            decreases columns.len() - i,
        {
            proof {
                lemma_filter_step(all, in_key(), i as int);
            }
            let pk: u32 = columns[i].pk;
            if pk > 0 {
                let mut p: usize = 0;
                while p < entries.len() && (entries[p].0 < pk || (entries[p].0 == pk && entries[p].1
                    <= i))
                    invariant
                        p <= entries.len(),
                        forall|k: int|
                            0 <= k < p ==> entry_le(
                                #[trigger] entries_of(entries@)[k],
                                (pk as nat, i as int),
                            ),
                    decreases entries.len() - p,
                {
                    p = p + 1;
                }
                let ghost before = entries_of(entries@);
                entries.insert(p, (pk, i));
                proof {
                    let x = (pk as nat, i as int);
                    assert(entries_of(entries@) =~= before.insert(p as int, x));
                    lemma_insert_sorted(before, x, p as int, entry_order());
                    to_multiset_build(all.take(i as int).filter(in_key()), x);
                }
            }
            i = i + 1;
        }
        proof {
            assert(all.take(i as int) =~= all);
            all.filter(in_key()).lemma_sort_by_ensures(entry_order());
            lemma_sorted_unique(entries_of(entries@), key_entries(views), entry_order());
        }
        let mut key: Vec<String> = Vec::new();
        let mut k: usize = 0;
        while k < entries.len()
            invariant
                k <= entries.len(),
                views == introspected_of(columns@),
                forall|j: int| 0 <= j < entries@.len() ==> (#[trigger] entries@[j]).1 < columns.len(),
                names_of(key@) == entries_of(entries@).take(k as int).map_values(entry_name(views)),
            decreases entries.len() - k,
        {
            let ghost before = names_of(key@);
            let place: usize = entries[k].1;
            key.push(columns[place].name.clone());
            proof {
                let sorted = entries_of(entries@);
                assert(names_of(key@) =~= before.push(entry_name(views)(sorted[k as int])));
                assert(sorted.take(k + 1) =~= sorted.take(k as int).push(sorted[k as int]));
            }
            k = k + 1;
        }
        proof {
            assert(entries_of(entries@).take(k as int) =~= entries_of(entries@));
        }
        key
    }

    /// Turns the reported columns into columns of a snapshot.
    pub fn convert_introspected_columns(columns: &Vec<IntrospectedColumn>) -> (converted: Result<
        Vec<Column>,
        IntrospectionError,
    >)
        ensures
            match converted_columns(introspected_of(columns@)) {
                Ok(all) => converted is Ok && columns_of(converted->Ok_0@) == all,
                Err(e) => converted is Err && converted->Err_0@ == e,
            },
    {
        let ghost attempts = introspected_of(columns@).map_values(convert_column());
        let mut out: Vec<Column> = Vec::new();
        let mut i: usize = 0;
        proof {
            assert(columns_of(out@) =~= Seq::empty());
        }
        while i < columns.len()
            invariant
                i <= columns.len(),
                attempts == introspected_of(columns@).map_values(convert_column()),
                all_or_first_error(attempts.take(i as int)) == Ok::<
                    Seq<ColumnView>,
                    IntrospectionErrorView,
                >(columns_of(out@)),
            decreases columns.len() - i,
        {
            let ghost before = columns_of(out@);
            proof {
                lemma_attempt_step(attempts, i as int);
            }
            let column = &columns[i];
            match column_type(column) {
                Ok(tpe) => {
                    out.push(
                        Column {
                            name: column.name.clone(),
                            tpe,
                            is_required: column.is_required,
                            default: clone_text(&column.default),
                            key_ordinal: column.pk,
                        },
                    );
                    proof {
                        assert(columns_of(out@) =~= before.push(attempts[i as int]->Ok_0));
                    }
                },
                Err(error) => {
                    proof {
                        lemma_error_stays(attempts, i + 1);
                    }
                    return Err(error);
                },
            }
            i = i + 1;
        }
        proof {
            assert(attempts.take(i as int) =~= attempts);
        }
        Ok(out)
    }

    /// Assembles a table from what was reported for it.
    pub fn get_table(
        &self,
        table: &str,
        introspected_columns: &Vec<IntrospectedColumn>,
        introspected_foreign_keys: Vec<ForeignKey>,
    ) -> (assembled: Result<Table, IntrospectionError>)
        ensures
            match assembled_table(
                table@,
                introspected_of(introspected_columns@),
                foreign_keys_of(introspected_foreign_keys@),
            ) {
                Ok(t) => assembled is Ok && assembled->Ok_0@ == t,
                Err(e) => assembled is Err && assembled->Err_0@ == e,
            },
    {
        let pk_columns = Self::primary_key_columns(introspected_columns);
        let columns = match Self::convert_introspected_columns(introspected_columns) {
            Ok(columns) => columns,
            Err(error) => { return Err(error); },
        };
        let primary_key = if pk_columns.len() == 0 {
            None
        } else {
            Some(pk_columns)
        };
        let assembled = Table {
            name: String::from_str(table),
            columns,
            primary_key,
            foreign_keys: introspected_foreign_keys,
            indexes: Vec::new(),
        };
        proof {
            assert(assembled@.indexes =~= Seq::<IndexView>::empty());
        }
        if !assembled.is_well_formed() {
            return Err(malformed_row(table, "name"));
        }
        Ok(assembled)
    }

    fn table_from_rows(&self, rows: &TableRows) -> (table: Result<Table, IntrospectionError>)
        ensures
            match introspected_table(rows@) {
                Ok(t) => table is Ok && table->Ok_0@ == t,
                Err(e) => table is Err && table->Err_0@ == e,
            },
    {
        let columns = match self.get_columns(rows.name.as_str(), &rows.columns) {
            Ok(columns) => columns,
            Err(error) => { return Err(error); },
        };
        let foreign_keys = match self.get_foreign_constraints(
            rows.name.as_str(),
            &rows.foreign_keys,
        ) {
            Ok(keys) => keys,
            Err(error) => { return Err(error); },
        };
        self.get_table(rows.name.as_str(), &columns, foreign_keys)
    }

    /// Assembles the snapshot from the rows that were read for each table.
    /// Fails only where a row has an unexpected shape, a column an
    /// unsupported type, or a name stands twice, with the error of the first
    /// table, in order, that has one. A snapshot from here is well formed.
    pub fn introspect(&self, tables: &Vec<TableRows>) -> (snapshot: Result<
        DatabaseSchema,
        IntrospectionError,
    >)
        ensures
            match introspected_schema(table_rows_of(tables@)) {
                Ok(s) => snapshot is Ok && snapshot->Ok_0@ == s,
                Err(e) => snapshot is Err && snapshot->Err_0@ == e,
            },
            snapshot is Ok ==> snapshot->Ok_0.well_formed(),
    {
        let ghost attempts = table_rows_of(tables@).map_values(introspect_table());
        let mut out: Vec<Table> = Vec::new();
        let mut i: usize = 0;
        proof {
            assert(tables_of(out@) =~= Seq::empty());
        }
        while i < tables.len()
            invariant
                i <= tables.len(),
                attempts == table_rows_of(tables@).map_values(introspect_table()),
                all_or_first_error(attempts.take(i as int)) == Ok::<
                    Seq<TableView>,
                    IntrospectionErrorView,
                >(tables_of(out@)),
            decreases tables.len() - i,
        {
            let ghost before = tables_of(out@);
            proof {
                lemma_attempt_step(attempts, i as int);
            }
            match self.table_from_rows(&tables[i]) {
                Ok(table) => {
                    out.push(table);
                    proof {
                        assert(tables_of(out@) =~= before.push(attempts[i as int]->Ok_0));
                    }
                },
                Err(error) => {
                    proof {
                        lemma_error_stays(attempts, i + 1);
                    }
                    return Err(error);
                },
            }
            i = i + 1;
        }
        proof {
            assert(attempts.take(i as int) =~= attempts);
        }
        let schema = DatabaseSchema { tables: out };
        if !has_no_duplicates(&schema.table_names()) {
            return Err(malformed_row("sqlite_master", "name"));
        }
        proof {
            lemma_introspected_schema_is_well_formed(table_rows_of(tables@));
        }
        Ok(schema)
    }
}

} // verus!
