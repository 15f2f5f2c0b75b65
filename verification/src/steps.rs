//! Migration steps: the units of schema change that a plan is made of. The
//! order of a list of steps is significant.

use crate::schema::ColumnType;
use crate::text::{clone_names, clone_text, names_of, str_eq, text_of};
use vstd::prelude::*;

verus! {

/// The column that a foreign key points to.
#[derive(Debug, PartialEq, Eq)]
pub struct Reference {
    pub table: String,
    pub column: String,
}

pub struct ReferenceView {
    pub table: Seq<char>,
    pub column: Seq<char>,
}

impl View for Reference {
    type V = ReferenceView;

    open spec fn view(&self) -> ReferenceView {
        ReferenceView { table: self.table@, column: self.column@ }
    }
}

impl Clone for Reference {
    fn clone(&self) -> (copy: Self)
        ensures
            copy == *self,
    {
        Reference { table: self.table.clone(), column: self.column.clone() }
    }
}

/// The reference that an optional value holds.
pub open spec fn reference_of(reference: Option<Reference>) -> Option<ReferenceView> {
    match reference {
        Some(r) => Some(r@),
        None => None,
    }
}

/// A column as a step creates or changes it.
#[derive(Debug, PartialEq, Eq)]
pub struct ColumnDescription {
    pub name: String,
    pub tpe: ColumnType,
    pub required: bool,
    pub default: Option<String>,
    pub foreign_key: Option<Reference>,
}

pub struct ColumnDescriptionView {
    pub name: Seq<char>,
    pub tpe: ColumnType,
    pub required: bool,
    pub default: Option<Seq<char>>,
    pub foreign_key: Option<ReferenceView>,
}

impl View for ColumnDescription {
    type V = ColumnDescriptionView;

    open spec fn view(&self) -> ColumnDescriptionView {
        ColumnDescriptionView {
            name: self.name@,
            tpe: self.tpe,
            required: self.required,
            default: text_of(self.default),
            foreign_key: reference_of(self.foreign_key),
        }
    }
}

impl Clone for ColumnDescription {
    fn clone(&self) -> (copy: Self)
        ensures
            copy == *self,
    {
        let foreign_key = match &self.foreign_key {
            Some(r) => Some(r.clone()),
            None => None,
        };
        ColumnDescription {
            name: self.name.clone(),
            tpe: self.tpe,
            required: self.required,
            default: clone_text(&self.default),
            foreign_key,
        }
    }
}

impl ColumnDescription {
    /// Whether two descriptions describe the same column in the same way.
    pub fn same_as(&self, other: &ColumnDescription) -> (same: bool)
        ensures
            same == (self@ == other@),
    {
        let same_default = match (&self.default, &other.default) {
            (Some(a), Some(b)) => str_eq(a.as_str(), b.as_str()),
            (None, None) => true,
            _ => false,
        };
        let same_key = match (&self.foreign_key, &other.foreign_key) {
            (Some(a), Some(b)) => str_eq(a.table.as_str(), b.table.as_str()) && str_eq(
                a.column.as_str(),
                b.column.as_str(),
            ),
            (None, None) => true,
            _ => false,
        };
        str_eq(self.name.as_str(), other.name.as_str()) && self.tpe == other.tpe && self.required
            == other.required && same_default && same_key
    }
}

/// The descriptions that a list holds, as mathematical values.
pub open spec fn descriptions_of(columns: Seq<ColumnDescription>) -> Seq<ColumnDescriptionView> {
    columns.map_values(|c: ColumnDescription| c@)
}

/// A copy of a list of descriptions.
pub fn clone_descriptions(columns: &Vec<ColumnDescription>) -> (copy: Vec<ColumnDescription>)
    ensures
        copy@ == columns@,
{
    let mut out: Vec<ColumnDescription> = Vec::new();
    let mut i: usize = 0;
    while i < columns.len()
        invariant
            i <= columns.len(),
            out@ == columns@.take(i as int),
        decreases columns.len() - i,
    {
        out.push(columns[i].clone());
        proof {
            assert(columns@.take(i + 1) =~= columns@.take(i as int).push(columns@[i as int]));
        }
        i = i + 1;
    }
    proof {
        assert(columns@.take(i as int) =~= columns@);
    }
    out
}

/// Creates a table with these columns and this primary key.
#[derive(Debug, PartialEq, Eq)]
pub struct CreateTable {
    pub name: String,
    pub columns: Vec<ColumnDescription>,
    pub primary_columns: Vec<String>,
}

pub struct CreateTableView {
    pub name: Seq<char>,
    pub columns: Seq<ColumnDescriptionView>,
    pub primary_columns: Seq<Seq<char>>,
}

impl View for CreateTable {
    type V = CreateTableView;

    open spec fn view(&self) -> CreateTableView {
        CreateTableView {
            name: self.name@,
            columns: descriptions_of(self.columns@),
            primary_columns: names_of(self.primary_columns@),
        }
    }
}

impl Clone for CreateTable {
    fn clone(&self) -> (copy: Self)
        ensures
            copy@ == self@,
    {
        CreateTable {
            name: self.name.clone(),
            columns: clone_descriptions(&self.columns),
            primary_columns: clone_names(&self.primary_columns),
        }
    }
}

/// Drops a table.
#[derive(Debug, PartialEq, Eq)]
pub struct DropTable {
    pub name: String,
}

impl Clone for DropTable {
    fn clone(&self) -> (copy: Self)
        ensures
            copy == *self,
    {
        DropTable { name: self.name.clone() }
    }
}

/// One change to the columns of a table.
#[derive(Debug, PartialEq, Eq)]
pub enum TableChange {
    AddColumn { column: ColumnDescription },
    DropColumn { name: String },
    AlterColumn { name: String, column: ColumnDescription },
}

pub enum TableChangeView {
    AddColumn { column: ColumnDescriptionView },
    DropColumn { name: Seq<char> },
    AlterColumn { name: Seq<char>, column: ColumnDescriptionView },
}

impl View for TableChange {
    type V = TableChangeView;

    open spec fn view(&self) -> TableChangeView {
        match *self {
            TableChange::AddColumn { column } => TableChangeView::AddColumn { column: column@ },
            TableChange::DropColumn { name } => TableChangeView::DropColumn { name: name@ },
            TableChange::AlterColumn { name, column } => TableChangeView::AlterColumn {
                name: name@,
                column: column@,
            },
        }
    }
}

impl Clone for TableChange {
    fn clone(&self) -> (copy: Self)
        ensures
            copy == *self,
    {
        match self {
            TableChange::AddColumn { column } => TableChange::AddColumn { column: column.clone() },
            TableChange::DropColumn { name } => TableChange::DropColumn { name: name.clone() },
            TableChange::AlterColumn { name, column } => TableChange::AlterColumn {
                name: name.clone(),
                column: column.clone(),
            },
        }
    }
}

/// The changes that a list holds, as mathematical values.
pub open spec fn changes_of(changes: Seq<TableChange>) -> Seq<TableChangeView> {
    changes.map_values(|c: TableChange| c@)
}

/// A copy of a list of changes.
pub fn clone_changes(changes: &Vec<TableChange>) -> (copy: Vec<TableChange>)
    ensures
        copy@ == changes@,
{
    let mut out: Vec<TableChange> = Vec::new();
    let mut i: usize = 0;
    while i < changes.len()
        invariant
            i <= changes.len(),
            out@ == changes@.take(i as int),
        decreases changes.len() - i,
    {
        out.push(changes[i].clone());
        proof {
            assert(changes@.take(i + 1) =~= changes@.take(i as int).push(changes@[i as int]));
        }
        i = i + 1;
    }
    proof {
        assert(changes@.take(i as int) =~= changes@);
    }
    out
}

/// Changes the columns of one table; all changes to the table stand in one
/// step, in order.
#[derive(Debug, PartialEq, Eq)]
pub struct AlterTable {
    pub table: String,
    pub changes: Vec<TableChange>,
}

pub struct AlterTableView {
    pub table: Seq<char>,
    pub changes: Seq<TableChangeView>,
}

impl View for AlterTable {
    type V = AlterTableView;

    open spec fn view(&self) -> AlterTableView {
        AlterTableView { table: self.table@, changes: changes_of(self.changes@) }
    }
}

impl Clone for AlterTable {
    fn clone(&self) -> (copy: Self)
        ensures
            copy@ == self@,
    {
        AlterTable { table: self.table.clone(), changes: clone_changes(&self.changes) }
    }
}

/// One step of a migration plan.
#[derive(Debug, PartialEq, Eq)]
pub enum SqlMigrationStep {
    CreateTable(CreateTable),
    AlterTable(AlterTable),
    DropTable(DropTable),
    RenameTable { name: String, new_name: String },
    RawSql(String),
}

pub enum StepView {
    CreateTable(CreateTableView),
    AlterTable(AlterTableView),
    DropTable { name: Seq<char> },
    RenameTable { name: Seq<char>, new_name: Seq<char> },
    RawSql(Seq<char>),
}

impl View for SqlMigrationStep {
    type V = StepView;

    open spec fn view(&self) -> StepView {
        match *self {
            SqlMigrationStep::CreateTable(c) => StepView::CreateTable(c@),
            SqlMigrationStep::AlterTable(a) => StepView::AlterTable(a@),
            SqlMigrationStep::DropTable(d) => StepView::DropTable { name: d.name@ },
            SqlMigrationStep::RenameTable { name, new_name } => StepView::RenameTable {
                name: name@,
                new_name: new_name@,
            },
            SqlMigrationStep::RawSql(sql) => StepView::RawSql(sql@),
        }
    }
}

impl Clone for SqlMigrationStep {
    fn clone(&self) -> (copy: Self)
        ensures
            copy@ == self@,
    {
        match self {
            SqlMigrationStep::CreateTable(c) => SqlMigrationStep::CreateTable(c.clone()),
            SqlMigrationStep::AlterTable(a) => SqlMigrationStep::AlterTable(a.clone()),
            SqlMigrationStep::DropTable(d) => SqlMigrationStep::DropTable(d.clone()),
            SqlMigrationStep::RenameTable { name, new_name } => SqlMigrationStep::RenameTable {
                name: name.clone(),
                new_name: new_name.clone(),
            },
            SqlMigrationStep::RawSql(sql) => SqlMigrationStep::RawSql(sql.clone()),
        }
    }
}

/// The steps that a list holds, as mathematical values.
pub open spec fn steps_of(steps: Seq<SqlMigrationStep>) -> Seq<StepView> {
    steps.map_values(|s: SqlMigrationStep| s@)
}

/// Turns each item of a list into a step, keeping the order. The function is
/// called on the items from the first to the last.
pub fn wrap_as_step<T, F>(steps: Vec<T>, wrap_fn: F) -> (wrapped: Vec<SqlMigrationStep>) where
    F: Fn(T) -> SqlMigrationStep,

    requires
        forall|i: int| 0 <= i < steps@.len() ==> call_requires(wrap_fn, (#[trigger] steps@[i],)),
    ensures
        wrapped@.len() == steps@.len(),
        forall|i: int|
            0 <= i < steps@.len() ==> call_ensures(wrap_fn, (steps@[i],), #[trigger] wrapped@[i]),
{
    let ghost items = steps@;
    let mut rest = steps;
    let mut reversed: Vec<T> = Vec::new();
    while rest.len() > 0
        invariant
            rest@.len() + reversed@.len() == items.len(),
            forall|k: int| 0 <= k < rest@.len() ==> rest@[k] == items[k],
            forall|k: int|
                0 <= k < reversed@.len() ==> reversed@[k] == items[items.len() - 1 - k],
        decreases rest@.len(),
    {
        let item = rest.pop().unwrap();
        reversed.push(item);
    }
    let mut out: Vec<SqlMigrationStep> = Vec::new();
    while reversed.len() > 0
        invariant
            out@.len() + reversed@.len() == items.len(),
            forall|k: int|
                0 <= k < reversed@.len() ==> reversed@[k] == items[items.len() - 1 - k],
            forall|k: int| 0 <= k < items.len() ==> call_requires(wrap_fn, (#[trigger] items[k],)),
            forall|k: int|
                0 <= k < out@.len() ==> call_ensures(wrap_fn, (items[k],), #[trigger] out@[k]),
        decreases reversed@.len(),
    {
        let item = reversed.pop().unwrap();
        assert(item == items[out@.len() as int]);
        let step = wrap_fn(item);
        out.push(step);
    }
    out
}

} // verus!
