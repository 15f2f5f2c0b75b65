//! The schema snapshot: tables, columns, keys and indexes of a database at one
//! point in time, with lookups by name.

use crate::text::{
    clone_names, clone_text, find_name, has_no_duplicates, lemma_first_occurrence,
    lemma_no_occurrence, names_of, str_eq, text_of,
};
use vstd::prelude::*;

verus! {

/// The closed set of column types that a snapshot knows.
#[derive(Clone, Copy, Debug, PartialEq, Eq, Structural)]
pub enum ColumnType {
    Int,
    Float,
    Boolean,
    String,
    DateTime,
}

/// A foreign key of a table. `name` is empty where the engine exposes none.
#[derive(Debug, PartialEq, Eq)]
pub struct ForeignKey {
    pub name: String,
    pub table: String,
    pub column: String,
    pub referenced_table: String,
    pub referenced_column: String,
}

pub struct ForeignKeyView {
    pub name: Seq<char>,
    pub table: Seq<char>,
    pub column: Seq<char>,
    pub referenced_table: Seq<char>,
    pub referenced_column: Seq<char>,
}

impl View for ForeignKey {
    type V = ForeignKeyView;

    open spec fn view(&self) -> ForeignKeyView {
        ForeignKeyView {
            name: self.name@,
            table: self.table@,
            column: self.column@,
            referenced_table: self.referenced_table@,
            referenced_column: self.referenced_column@,
        }
    }
}

impl Clone for ForeignKey {
    fn clone(&self) -> (copy: Self)
        ensures
            copy == *self,
    {
        ForeignKey {
            name: self.name.clone(),
            table: self.table.clone(),
            column: self.column.clone(),
            referenced_table: self.referenced_table.clone(),
            referenced_column: self.referenced_column.clone(),
        }
    }
}

/// A column of a table. `key_ordinal` is set by introspection only: 0 where
/// the column is no part of the primary key, else its position in the key.
#[derive(Debug, PartialEq, Eq)]
pub struct Column {
    pub name: String,
    pub tpe: ColumnType,
    pub is_required: bool,
    pub default: Option<String>,
    pub key_ordinal: u32,
}

pub struct ColumnView {
    pub name: Seq<char>,
    pub tpe: ColumnType,
    pub is_required: bool,
    pub default: Option<Seq<char>>,
    pub key_ordinal: nat,
}

impl View for Column {
    type V = ColumnView;

    open spec fn view(&self) -> ColumnView {
        ColumnView {
            name: self.name@,
            tpe: self.tpe,
            is_required: self.is_required,
            default: text_of(self.default),
            key_ordinal: self.key_ordinal as nat,
        }
    }
}

impl Clone for Column {
    fn clone(&self) -> (copy: Self)
        ensures
            copy == *self,
    {
        Column {
            name: self.name.clone(),
            tpe: self.tpe,
            is_required: self.is_required,
            default: clone_text(&self.default),
            key_ordinal: self.key_ordinal,
        }
    }
}

/// An index of a table. Engines whose introspection does not read indexes
/// leave the list of a table empty.
#[derive(Debug, PartialEq, Eq)]
pub struct Index {
    pub name: String,
    pub columns: Vec<String>,
    pub unique: bool,
}

pub struct IndexView {
    pub name: Seq<char>,
    pub columns: Seq<Seq<char>>,
    pub unique: bool,
}

impl View for Index {
    type V = IndexView;

    open spec fn view(&self) -> IndexView {
        IndexView { name: self.name@, columns: names_of(self.columns@), unique: self.unique }
    }
}

impl Clone for Index {
    fn clone(&self) -> (copy: Self)
        ensures
            copy@ == self@,
    {
        Index {
            name: self.name.clone(),
            columns: clone_names(&self.columns),
            unique: self.unique,
        }
    }
}

/// The columns that a list holds, as mathematical values.
pub open spec fn columns_of(columns: Seq<Column>) -> Seq<ColumnView> {
    columns.map_values(|c: Column| c@)
}

/// The foreign keys that a list holds, as mathematical values.
pub open spec fn foreign_keys_of(keys: Seq<ForeignKey>) -> Seq<ForeignKeyView> {
    keys.map_values(|k: ForeignKey| k@)
}

/// The indexes that a list holds, as mathematical values.
pub open spec fn indexes_of(indexes: Seq<Index>) -> Seq<IndexView> {
    indexes.map_values(|x: Index| x@)
}

/// The names of a primary key that may be absent.
pub open spec fn key_of(key: Option<Vec<String>>) -> Option<Seq<Seq<char>>> {
    match key {
        Some(k) => Some(names_of(k@)),
        None => None,
    }
}

/// A table: its columns in order, its primary key if it has one, its
/// foreign keys and its indexes.
#[derive(Debug, PartialEq, Eq)]
pub struct Table {
    pub name: String,
    pub columns: Vec<Column>,
    pub primary_key: Option<Vec<String>>,
    pub foreign_keys: Vec<ForeignKey>,
    pub indexes: Vec<Index>,
}

pub struct TableView {
    pub name: Seq<char>,
    pub columns: Seq<ColumnView>,
    pub primary_key: Option<Seq<Seq<char>>>,
    pub foreign_keys: Seq<ForeignKeyView>,
    pub indexes: Seq<IndexView>,
}

impl TableView {
    /// The names of the columns, in the table's order.
    pub open spec fn column_names(self) -> Seq<Seq<char>> {
        self.columns.map_values(|c: ColumnView| c.name)
    }

    pub open spec fn has_column(self, name: Seq<char>) -> bool {
        self.column_names().contains(name)
    }

    /// The first column of that name.
    pub open spec fn column(self, name: Seq<char>) -> Option<ColumnView> {
        match self.column_names().index_of_first(name) {
            Some(i) => Some(self.columns[i]),
            None => None,
        }
    }

    /// The names of the primary key; none where the table has no key.
    pub open spec fn key_names(self) -> Seq<Seq<char>> {
        match self.primary_key {
            Some(k) => k,
            None => Seq::empty(),
        }
    }

    /// Column names are unique, and the primary key names columns of the
    /// table, each once.
    pub open spec fn well_formed(self) -> bool {
        &&& self.column_names().no_duplicates()
        &&& self.key_names().no_duplicates()
        &&& forall|i: int|
            0 <= i < self.key_names().len() ==> self.has_column(#[trigger] self.key_names()[i])
    }
}

/// In a table with unique column names, looking a column up by its name finds
/// that column.
pub proof fn lemma_column_found(table: TableView, i: int)
    requires
        table.column_names().no_duplicates(),
        0 <= i < table.columns.len(),
    ensures
        table.column(table.columns[i].name) == Some(table.columns[i]),
        table.has_column(table.columns[i].name),
{
    let names = table.column_names();
    names.index_of_first_ensures(names[i]);
}

/// A column that a lookup finds is one of the table's columns, under the
/// name that was asked for.
pub proof fn lemma_column_lookup(table: TableView, name: Seq<char>)
    ensures
        table.has_column(name) <==> table.column(name) is Some,
        table.column(name) matches Some(c) ==> c.name == name && table.columns.contains(c),
{
    let names = table.column_names();
    names.index_of_first_ensures(name);
    if let Some(i) = names.index_of_first(name) {
        assert(table.columns[i].name == names[i]);
    }
}

impl View for Table {
    type V = TableView;

    open spec fn view(&self) -> TableView {
        TableView {
            name: self.name@,
            columns: columns_of(self.columns@),
            primary_key: key_of(self.primary_key),
            foreign_keys: foreign_keys_of(self.foreign_keys@),
            indexes: indexes_of(self.indexes@),
        }
    }
}

/// A copy of a list of columns.
pub fn clone_columns(columns: &Vec<Column>) -> (copy: Vec<Column>)
    ensures
        copy@ == columns@,
{
    let mut out: Vec<Column> = Vec::new();
    let mut i: usize = 0;
    while i < columns.len()
        invariant
            i <= columns.len(),
            out@ == columns@.take(i as int),
        decreases columns.len() - i,
    {
        out.push(columns[i].clone());
        proof {
            assert(columns@.take(i + 1) =~= columns@.take(i as int).push(columns@[i as int]));
        }
        i = i + 1;
    }
    proof {
        assert(columns@.take(i as int) =~= columns@);
    }
    out
}

/// A copy of a list of foreign keys.
pub fn clone_foreign_keys(keys: &Vec<ForeignKey>) -> (copy: Vec<ForeignKey>)
    ensures
        copy@ == keys@,
{
    let mut out: Vec<ForeignKey> = Vec::new();
    let mut i: usize = 0;
    while i < keys.len()
        invariant
            i <= keys.len(),
            out@ == keys@.take(i as int),
        decreases keys.len() - i,
    {
        out.push(keys[i].clone());
        proof {
            assert(keys@.take(i + 1) =~= keys@.take(i as int).push(keys@[i as int]));
        }
        i = i + 1;
    }
    proof {
        assert(keys@.take(i as int) =~= keys@);
    }
    out
}

/// A copy of a list of indexes.
pub fn clone_indexes(indexes: &Vec<Index>) -> (copy: Vec<Index>)
    ensures
        indexes_of(copy@) == indexes_of(indexes@),
{
    let mut out: Vec<Index> = Vec::new();
    let mut i: usize = 0;
    while i < indexes.len()
        invariant
            i <= indexes.len(),
            indexes_of(out@) == indexes_of(indexes@).take(i as int),
        decreases indexes.len() - i,
    {
        out.push(indexes[i].clone());
        proof {
            assert(indexes_of(out@) =~= indexes_of(indexes@).take(i as int).push(
                indexes@[i as int]@,
            ));
            assert(indexes_of(indexes@).take(i + 1) =~= indexes_of(indexes@).take(i as int).push(
                indexes@[i as int]@,
            ));
        }
        i = i + 1;
    }
    proof {
        assert(indexes_of(indexes@).take(i as int) =~= indexes_of(indexes@));
    }
    out
}

impl Clone for Table {
    fn clone(&self) -> (copy: Self)
        ensures
            copy@ == self@,
    {
        let primary_key = match &self.primary_key {
            Some(k) => Some(clone_names(k)),
            None => None,
        };
        Table {
            name: self.name.clone(),
            columns: clone_columns(&self.columns),
            primary_key,
            foreign_keys: clone_foreign_keys(&self.foreign_keys),
            indexes: clone_indexes(&self.indexes),
        }
    }
}

impl Table {
    pub open spec fn well_formed(&self) -> bool {
        self@.well_formed()
    }

    /// The names of the columns, in the table's order.
    pub fn column_names(&self) -> (names: Vec<String>)
        ensures
            names_of(names@) == self@.column_names(),
    {
        let mut out: Vec<String> = Vec::new();
        let mut i: usize = 0;
        while i < self.columns.len()
            invariant
                i <= self.columns.len(),
                names_of(out@) == self@.column_names().take(i as int),
            decreases self.columns.len() - i,
        {
            let ghost before = names_of(out@);
            out.push(self.columns[i].name.clone());
            proof {
                assert(names_of(out@) =~= before.push(self@.column_names()[i as int]));
                assert(self@.column_names().take(i + 1) =~= self@.column_names().take(
                    i as int,
                ).push(self@.column_names()[i as int]));
            }
            i = i + 1;
        }
        proof {
            assert(self@.column_names().take(i as int) =~= self@.column_names());
        }
        out
    }

    /// Whether the table is well formed.
    pub fn is_well_formed(&self) -> (valid: bool)
        ensures
            valid == self.well_formed(),
    {
        let names = self.column_names();
        if !has_no_duplicates(&names) {
            return false;
        }
        match &self.primary_key {
            None => true,
            Some(key) => {
                if !has_no_duplicates(key) {
                    return false;
                }
                let mut i: usize = 0;
                while i < key.len()
                    invariant
                        i <= key.len(),
                        names_of(key@) == self@.key_names(),
                        names_of(names@) == self@.column_names(),
                        forall|k: int|
                            0 <= k < i ==> self@.has_column(#[trigger] self@.key_names()[k]),
                    decreases key.len() - i,
                {
                    if find_name(&names, key[i].as_str()).is_none() {
                        assert(!self@.has_column(self@.key_names()[i as int]));
                        return false;
                    }
                    i = i + 1;
                }
                true
            },
        }
    }

    /// The first column of that name, if the table has one.
    pub fn column(&self, name: &str) -> (found: Option<&Column>)
        ensures
            match found {
                Some(c) => self@.column(name@) == Some(c@),
                None => self@.column(name@) is None,
            },
            found is Some <==> self@.has_column(name@),
    {
        let mut i: usize = 0;
        while i < self.columns.len()
            invariant
                i <= self.columns.len(),
                forall|j: int| 0 <= j < i ==> self@.column_names()[j] != name@,
            decreases self.columns.len() - i,
        {
            if str_eq(self.columns[i].name.as_str(), name) {
                proof {
                    lemma_first_occurrence(self@.column_names(), name@, i as int);
                }
                return Some(&self.columns[i]);
            }
            i = i + 1;
        }
        proof {
            lemma_no_occurrence(self@.column_names(), name@);
        }
        None
    }

    /// Whether the table has a column of that name.
    pub fn has_column(&self, name: &str) -> (has: bool)
        ensures
            has == self@.has_column(name@),
    {
        self.column(name).is_some()
    }
}

/// The tables that a list holds, as mathematical values.
pub open spec fn tables_of(tables: Seq<Table>) -> Seq<TableView> {
    tables.map_values(|t: Table| t@)
}

/// A schema snapshot: the tables of one namespace.
#[derive(Debug, PartialEq, Eq)]
pub struct DatabaseSchema {
    pub tables: Vec<Table>,
}

pub struct SchemaView {
    pub tables: Seq<TableView>,
}

impl SchemaView {
    /// The names of the tables, in the snapshot's order.
    pub open spec fn table_names(self) -> Seq<Seq<char>> {
        self.tables.map_values(|t: TableView| t.name)
    }

    pub open spec fn has_table(self, name: Seq<char>) -> bool {
        self.table_names().contains(name)
    }

    /// The first table of that name.
    pub open spec fn table(self, name: Seq<char>) -> Option<TableView> {
        match self.table_names().index_of_first(name) {
            Some(i) => Some(self.tables[i]),
            None => None,
        }
    }

    /// Table names are unique, and every table is well formed.
    pub open spec fn well_formed(self) -> bool {
        &&& self.table_names().no_duplicates()
        &&& forall|i: int| 0 <= i < self.tables.len() ==> (#[trigger] self.tables[i]).well_formed()
    }
}

/// A table that a lookup finds is one of the snapshot's tables, under the
/// name that was asked for.
pub proof fn lemma_table_lookup(schema: SchemaView, name: Seq<char>)
    ensures
        schema.has_table(name) <==> schema.table(name) is Some,
        schema.table(name) matches Some(t) ==> t.name == name && schema.tables.contains(t),
{
    let names = schema.table_names();
    names.index_of_first_ensures(name);
    if let Some(i) = names.index_of_first(name) {
        assert(schema.tables[i].name == names[i]);
    }
}

impl View for DatabaseSchema {
    type V = SchemaView;

    open spec fn view(&self) -> SchemaView {
        SchemaView { tables: tables_of(self.tables@) }
    }
}

impl DatabaseSchema {
    pub open spec fn well_formed(&self) -> bool {
        self@.well_formed()
    }

    /// The names of the tables, in the snapshot's order.
    pub fn table_names(&self) -> (names: Vec<String>)
        ensures
            names_of(names@) == self@.table_names(),
    {
        let mut out: Vec<String> = Vec::new();
        let mut i: usize = 0;
        while i < self.tables.len()
            invariant
                i <= self.tables.len(),
                names_of(out@) == self@.table_names().take(i as int),
            decreases self.tables.len() - i,
        {
            let ghost before = names_of(out@);
            out.push(self.tables[i].name.clone());
            proof {
                assert(names_of(out@) =~= before.push(self@.table_names()[i as int]));
                assert(self@.table_names().take(i + 1) =~= self@.table_names().take(i as int).push(
                    self@.table_names()[i as int],
                ));
            }
            i = i + 1;
        }
        proof {
            assert(self@.table_names().take(i as int) =~= self@.table_names());
        }
        out
    }

    /// Whether the snapshot is well formed.
    pub fn is_well_formed(&self) -> (valid: bool)
        ensures
            valid == self.well_formed(),
    {
        let names = self.table_names();
        if !has_no_duplicates(&names) {
            return false;
        }
        let mut i: usize = 0;
        while i < self.tables.len()
            invariant
                i <= self.tables.len(),
                forall|k: int| 0 <= k < i ==> (#[trigger] self@.tables[k]).well_formed(),
            decreases self.tables.len() - i,
        {
            if !self.tables[i].is_well_formed() {
                assert(!self@.tables[i as int].well_formed());
                return false;
            }
            i = i + 1;
        }
        true
    }

    /// The first table of that name, if the snapshot has one.
    pub fn table(&self, name: &str) -> (found: Option<&Table>)
        ensures
            match found {
                Some(t) => self@.table(name@) == Some(t@),
                None => self@.table(name@) is None,
            },
            found is Some <==> self@.has_table(name@),
    {
        let mut i: usize = 0;
        while i < self.tables.len()
            invariant
                i <= self.tables.len(),
                forall|j: int| 0 <= j < i ==> self@.table_names()[j] != name@,
            decreases self.tables.len() - i,
        {
            if str_eq(self.tables[i].name.as_str(), name) {
                proof {
                    lemma_first_occurrence(self@.table_names(), name@, i as int);
                }
                return Some(&self.tables[i]);
            }
            i = i + 1;
        }
        proof {
            lemma_no_occurrence(self@.table_names(), name@);
        }
        None
    }

    /// Whether the snapshot has a table of that name.
    pub fn has_table(&self, name: &str) -> (has: bool)
        ensures
            has == self@.has_table(name@),
    {
        self.table(name).is_some()
    }
}

} // verus!
