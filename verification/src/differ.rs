//! The differ: compares the current snapshot of a database with the
//! expected one and yields the steps that lead from the first to the second.
//!
//! Tables only in the expected snapshot are created, tables in both are
//! altered where their columns differ, tables only in the current snapshot
//! are dropped. The steps come in that order, and within each class in the
//! ascending order of the table names.

use crate::schema::{
    lemma_column_found, lemma_table_lookup, Column, ColumnView, DatabaseSchema, ForeignKeyView,
    SchemaView, Table, TableView,
};
use crate::sequences::{
    lemma_filter_keeps_order, lemma_filter_none, lemma_filter_step, lemma_sorted_selection,
    stands_before,
};
use crate::steps::{
    changes_of, descriptions_of, steps_of, wrap_as_step, AlterTable, AlterTableView,
    ColumnDescription, ColumnDescriptionView, CreateTable, CreateTableView, DropTable, Reference,
    ReferenceView, SqlMigrationStep, StepView, TableChange, TableChangeView,
};
use crate::text::{
    clone_names, clone_text, lemma_first_occurrence, lemma_no_occurrence, name_le, name_order,
    names_of, sort_names, str_eq,
};
use vstd::prelude::*;

verus! {

/// The columns that the foreign keys of a table stand on, in the order of
/// the keys.
pub open spec fn owning_columns(table: TableView) -> Seq<Seq<char>> {
    table.foreign_keys.map_values(|k: ForeignKeyView| k.column)
}

/// What a column of a table refers to: the target of the table's first
/// foreign key on that column.
pub open spec fn reference_for(table: TableView, column: Seq<char>) -> Option<ReferenceView> {
    match owning_columns(table).index_of_first(column) {
        Some(i) => Some(
            ReferenceView {
                table: table.foreign_keys[i].referenced_table,
                column: table.foreign_keys[i].referenced_column,
            },
        ),
        None => None,
    }
}

/// A column of a table as a step renders it: type, nullability, default and
/// the foreign key on it.
pub open spec fn describe(table: TableView, column: ColumnView) -> ColumnDescriptionView {
    ColumnDescriptionView {
        name: column.name,
        tpe: column.tpe,
        required: column.is_required,
        default: column.default,
        foreign_key: reference_for(table, column.name),
    }
}

pub open spec fn describe_in(table: TableView) -> spec_fn(ColumnView) -> ColumnDescriptionView {
    |c: ColumnView| describe(table, c)
}

/// All columns of a table as a step renders them.
pub open spec fn descriptions(table: TableView) -> Seq<ColumnDescriptionView> {
    table.columns.map_values(describe_in(table))
}

/// The step that creates a table from scratch.
pub open spec fn create_table(table: TableView) -> CreateTableView {
    CreateTableView {
        name: table.name,
        columns: descriptions(table),
        primary_columns: table.key_names(),
    }
}

pub open spec fn missing_in(table: TableView) -> spec_fn(ColumnView) -> bool {
    |c: ColumnView| !table.has_column(c.name)
}

/// Whether a column of the expected table stands in the current table with
/// another type, nullability, default or foreign key.
pub open spec fn column_differs(current: TableView, expected: TableView, column: ColumnView)
    -> bool {
    current.column(column.name) matches Some(p) && describe(current, p) != describe(
        expected,
        column,
    )
}

pub open spec fn differs_from(current: TableView, expected: TableView) -> spec_fn(
    ColumnView,
) -> bool {
    |c: ColumnView| column_differs(current, expected, c)
}

pub open spec fn drop_change() -> spec_fn(ColumnView) -> TableChangeView {
    |c: ColumnView| TableChangeView::DropColumn { name: c.name }
}

pub open spec fn add_change(expected: TableView) -> spec_fn(ColumnView) -> TableChangeView {
    |c: ColumnView| TableChangeView::AddColumn { column: describe(expected, c) }
}

pub open spec fn alter_change(expected: TableView) -> spec_fn(ColumnView) -> TableChangeView {
    |c: ColumnView| TableChangeView::AlterColumn { name: c.name, column: describe(expected, c) }
}

/// One drop for each column of the current table that the expected table
/// lacks, in the current table's order.
pub open spec fn dropped_columns(current: TableView, expected: TableView) -> Seq<
    TableChangeView,
> {
    current.columns.filter(missing_in(expected)).map_values(drop_change())
}

/// One addition for each column of the expected table that the current
/// table lacks, in the expected table's order.
pub open spec fn added_columns(current: TableView, expected: TableView) -> Seq<TableChangeView> {
    expected.columns.filter(missing_in(current)).map_values(add_change(expected))
}

/// One alteration for each column of the expected table that differs from
/// the current table's column of that name, in the expected table's order.
pub open spec fn altered_columns(current: TableView, expected: TableView) -> Seq<
    TableChangeView,
> {
    expected.columns.filter(differs_from(current, expected)).map_values(alter_change(expected))
}

/// All changes that lead from the current table to the expected one: drops,
/// then additions, then alterations.
pub open spec fn table_changes(current: TableView, expected: TableView) -> Seq<TableChangeView> {
    dropped_columns(current, expected) + added_columns(current, expected) + altered_columns(
        current,
        expected,
    )
}

/// The condition on a name that a snapshot has a table of it, or has none.
pub open spec fn membership(schema: SchemaView, present: bool) -> spec_fn(Seq<char>) -> bool {
    |n: Seq<char>| schema.has_table(n) == present
}

/// The names of the tables of `schema` that `other` has (or lacks), ascending.
pub open spec fn selected_names(schema: SchemaView, other: SchemaView, present: bool) -> Seq<
    Seq<char>,
> {
    schema.table_names().filter(membership(other, present)).sort_by(name_order())
}

pub open spec fn create_for(expected: SchemaView) -> spec_fn(Seq<char>) -> CreateTableView {
    |n: Seq<char>| create_table(expected.table(n)->0)
}

/// The tables to create: those that only the expected snapshot has.
pub open spec fn created_tables(current: SchemaView, expected: SchemaView) -> Seq<
    CreateTableView,
> {
    selected_names(expected, current, false).map_values(create_for(expected))
}

/// Whether the table of that name differs between the snapshots.
pub open spec fn changed(current: SchemaView, expected: SchemaView) -> spec_fn(Seq<char>) -> bool {
    |n: Seq<char>| table_changes(current.table(n)->0, expected.table(n)->0).len() > 0
}

pub open spec fn alter_for(current: SchemaView, expected: SchemaView) -> spec_fn(
    Seq<char>,
) -> AlterTableView {
    |n: Seq<char>|
        AlterTableView {
            table: n,
            changes: table_changes(current.table(n)->0, expected.table(n)->0),
        }
}

/// The tables to alter: those that both snapshots have and whose columns
/// differ, each with all its changes in one step.
pub open spec fn altered_tables(current: SchemaView, expected: SchemaView) -> Seq<AlterTableView> {
    selected_names(current, expected, true).filter(changed(current, expected)).map_values(
        alter_for(current, expected),
    )
}

/// The tables to drop: those that only the current snapshot has.
pub open spec fn dropped_tables(current: SchemaView, expected: SchemaView) -> Seq<Seq<char>> {
    selected_names(current, expected, false)
}

/// The whole plan: creations, then alterations, then drops.
pub open spec fn diff_steps(current: SchemaView, expected: SchemaView) -> Seq<StepView> {
    created_tables(current, expected).map_values(|c: CreateTableView| StepView::CreateTable(c))
        + altered_tables(current, expected).map_values(|a: AlterTableView| StepView::AlterTable(a))
        + dropped_tables(current, expected).map_values(
        |n: Seq<char>| StepView::DropTable { name: n },
    )
}

/// The class of a step in a plan: creations come first, then alterations,
/// then drops.
pub open spec fn step_class(step: StepView) -> int {
    match step {
        StepView::CreateTable(_) => 0,
        StepView::AlterTable(_) => 1,
        StepView::DropTable { .. } => 2,
        StepView::RenameTable { .. } => 3,
        StepView::RawSql(_) => 4,
    }
}

/// The table that a step of the differ is about.
pub open spec fn step_table(step: StepView) -> Seq<char> {
    match step {
        StepView::CreateTable(c) => c.name,
        StepView::AlterTable(a) => a.table,
        StepView::DropTable { name } => name,
        StepView::RenameTable { name, .. } => name,
        StepView::RawSql(_) => Seq::empty(),
    }
}

/// Step order: in the plan of the differ no step of a later class comes
/// before one of an earlier class, the steps of one class come in the
/// ascending order of their table names, and no step renames a table or
/// holds raw SQL.
pub proof fn lemma_diff_is_ordered(current: SchemaView, expected: SchemaView)
    ensures
        forall|i: int|
            0 <= i < diff_steps(current, expected).len() ==> 0 <= step_class(
                #[trigger] diff_steps(current, expected)[i],
            ) <= 2,
        forall|i: int, j: int|
            0 <= i < j < diff_steps(current, expected).len() ==> step_class(
                #[trigger] diff_steps(current, expected)[i],
            ) <= step_class(#[trigger] diff_steps(current, expected)[j]),
        forall|i: int, j: int|
            0 <= i < j < diff_steps(current, expected).len() && step_class(
                #[trigger] diff_steps(current, expected)[i],
            ) == step_class(#[trigger] diff_steps(current, expected)[j]) ==> name_le(
                step_table(diff_steps(current, expected)[i]),
                step_table(diff_steps(current, expected)[j]),
            ),
{
    let steps = diff_steps(current, expected);
    let created = selected_names(expected, current, false);
    let common = selected_names(current, expected, true);
    let kept = common.filter(changed(current, expected));
    let dropped = selected_names(current, expected, false);
    lemma_sorted_selection(expected.table_names(), membership(current, false));
    lemma_sorted_selection(current.table_names(), membership(expected, true));
    lemma_sorted_selection(current.table_names(), membership(expected, false));
    lemma_filter_keeps_order(common, changed(current, expected));
    assert(created_tables(current, expected).len() == created.len());
    assert(altered_tables(current, expected).len() == kept.len());
    assert forall|i: int| 0 <= i < created.len() implies (#[trigger] create_for(expected)(
        created[i],
    )).name == created[i] by {
        assert(created.contains(created[i]));
        lemma_table_lookup(expected, created[i]);
    }
    assert forall|i: int, j: int|
        0 <= i < j < steps.len() && step_class(#[trigger] steps[i]) == step_class(
            #[trigger] steps[j],
        ) implies name_le(step_table(steps[i]), step_table(steps[j])) by {
        let first = created.len() as int;
        let second = first + kept.len();
        if j < first {
            assert(name_order()(created[i], created[j]));
        } else if first <= i && j < second {
            assert(stands_before(common, kept[i - first], kept[j - first]));
            let (a, b) = choose|a: int, b: int|
                0 <= a < b < common.len() && common[a] == kept[i - first] && common[b] == kept[j
                    - first];
            assert(name_order()(common[a], common[b]));
        } else if second <= i {
            assert(name_order()(dropped[i - second], dropped[j - second]));
        }
    }
}

/// A well-formed table needs no change to become itself.
pub proof fn lemma_no_changes_to_same_table(table: TableView)
    requires
        table.well_formed(),
    ensures
        table_changes(table, table).len() == 0,
{
    assert forall|i: int| 0 <= i < table.columns.len() implies !missing_in(table)(
        #[trigger] table.columns[i],
    ) by {
        lemma_column_found(table, i);
    }
    lemma_filter_none(table.columns, missing_in(table));
    assert forall|i: int| 0 <= i < table.columns.len() implies !differs_from(table, table)(
        #[trigger] table.columns[i],
    ) by {
        lemma_column_found(table, i);
    }
    lemma_filter_none(table.columns, differs_from(table, table));
}

/// Idempotence: the plan from a well-formed snapshot to itself is empty.
pub proof fn lemma_diff_of_same_snapshot_is_empty(schema: SchemaView)
    requires
        schema.well_formed(),
    ensures
        diff_steps(schema, schema) == Seq::<StepView>::empty(),
{
    let names = schema.table_names();
    lemma_sorted_selection(names, membership(schema, false));
    assert forall|i: int| 0 <= i < names.len() implies !membership(schema, false)(
        #[trigger] names[i],
    ) by {}
    lemma_filter_none(names, membership(schema, false));
    let common = selected_names(schema, schema, true);
    lemma_sorted_selection(names, membership(schema, true));
    assert forall|i: int| 0 <= i < common.len() implies !changed(schema, schema)(
        #[trigger] common[i],
    ) by {
        assert(common.contains(common[i]));
        lemma_table_lookup(schema, common[i]);
        lemma_no_changes_to_same_table(schema.table(common[i])->0);
    }
    lemma_filter_none(common, changed(schema, schema));
    assert(diff_steps(schema, schema) =~= Seq::<StepView>::empty());
}

/// The creations that a list holds, as mathematical values.
pub open spec fn creations_of(creations: Seq<CreateTable>) -> Seq<CreateTableView> {
    creations.map_values(|c: CreateTable| c@)
}

/// The alterations that a list holds, as mathematical values.
pub open spec fn alterations_of(alterations: Seq<AlterTable>) -> Seq<AlterTableView> {
    alterations.map_values(|a: AlterTable| a@)
}

/// The names of the tables that a list of drops holds.
pub open spec fn drops_of(drops: Seq<DropTable>) -> Seq<Seq<char>> {
    drops.map_values(|d: DropTable| d.name@)
}

/// Computes the steps between two snapshots.
pub struct DatabaseSchemaDiffer {}

impl DatabaseSchemaDiffer {
    /// The steps that lead from `current` to `expected`. The namespace has no
    /// part in them: steps name tables without it.
    pub fn diff(current: &DatabaseSchema, expected: &DatabaseSchema, _schema_name: &str) -> (steps:
        Vec<SqlMigrationStep>)
        ensures
            steps_of(steps@) == diff_steps(current@, expected@),
    {
        let creations = Self::create_tables(current, expected);
        let alterations = Self::alter_tables(current, expected);
        let drops = Self::drop_tables(current, expected);
        let ghost c = creations@;
        let ghost a = alterations@;
        let ghost d = drops@;
        let wrap_create = |x: CreateTable| -> (s: SqlMigrationStep)
            ensures
                s == SqlMigrationStep::CreateTable(x),
            { SqlMigrationStep::CreateTable(x) };
        let wrap_alter = |x: AlterTable| -> (s: SqlMigrationStep)
            ensures
                s == SqlMigrationStep::AlterTable(x),
            { SqlMigrationStep::AlterTable(x) };
        let wrap_drop = |x: DropTable| -> (s: SqlMigrationStep)
            ensures
                s == SqlMigrationStep::DropTable(x),
            { SqlMigrationStep::DropTable(x) };
        let mut result = wrap_as_step(creations, wrap_create);
        let mut altering = wrap_as_step(alterations, wrap_alter);
        let mut dropping = wrap_as_step(drops, wrap_drop);
        proof {
            assert(steps_of(result@) =~= creations_of(c).map_values(
                |c: CreateTableView| StepView::CreateTable(c),
            ));
            assert(steps_of(altering@) =~= alterations_of(a).map_values(
                |a: AlterTableView| StepView::AlterTable(a),
            ));
            assert(steps_of(dropping@) =~= drops_of(d).map_values(
                |n: Seq<char>| StepView::DropTable { name: n },
            ));
        }
        let ghost first = result@;
        let ghost second = altering@;
        let ghost third = dropping@;
        result.append(&mut altering);
        result.append(&mut dropping);
        proof {
            assert(steps_of(result@) =~= steps_of(first) + steps_of(second) + steps_of(third));
        }
        result
    }

    /// The column that the table's first foreign key on `column` points to.
    pub fn reference(table: &Table, column: &str) -> (target: Option<Reference>)
        ensures
            crate::steps::reference_of(target) == reference_for(table@, column@),
    {
        let mut i: usize = 0;
        while i < table.foreign_keys.len()
            invariant
                i <= table.foreign_keys.len(),
                forall|j: int| 0 <= j < i ==> owning_columns(table@)[j] != column@,
            decreases table.foreign_keys.len() - i,
        {
            let key = &table.foreign_keys[i];
            if str_eq(key.column.as_str(), column) {
                proof {
                    lemma_first_occurrence(owning_columns(table@), column@, i as int);
                }
                return Some(
                    Reference {
                        table: key.referenced_table.clone(),
                        column: key.referenced_column.clone(),
                    },
                );
            }
            i = i + 1;
        }
        proof {
            lemma_no_occurrence(owning_columns(table@), column@);
        }
        None
    }

    /// One column of a table as a step renders it.
    pub fn column_description(table: &Table, column: &Column) -> (description: ColumnDescription)
        ensures
            description@ == describe(table@, column@),
    {
        ColumnDescription {
            name: column.name.clone(),
            tpe: column.tpe,
            required: column.is_required,
            default: clone_text(&column.default),
            foreign_key: Self::reference(table, column.name.as_str()),
        }
    }

    /// All columns of a table as a step renders them, in the table's order.
    pub fn column_descriptions(table: &Table) -> (all: Vec<ColumnDescription>)
        ensures
            descriptions_of(all@) == descriptions(table@),
    {
        let mut out: Vec<ColumnDescription> = Vec::new();
        let mut i: usize = 0;
        while i < table.columns.len()
            invariant
                i <= table.columns.len(),
                descriptions_of(out@) == table@.columns.take(i as int).map_values(
                    describe_in(table@),
                ),
            decreases table.columns.len() - i,
        {
            let ghost before = descriptions_of(out@);
            let description = Self::column_description(table, &table.columns[i]);
            out.push(description);
            proof {
                assert(descriptions_of(out@) =~= before.push(
                    describe(table@, table@.columns[i as int]),
                ));
                assert(table@.columns.take(i + 1) =~= table@.columns.take(i as int).push(
                    table@.columns[i as int],
                ));
            }
            i = i + 1;
        }
        proof {
            assert(table@.columns.take(i as int) =~= table@.columns);
        }
        out
    }

    /// The step that creates `table` from scratch.
    pub fn create_table(table: &Table) -> (creation: CreateTable)
        ensures
            creation@ == create_table(table@),
    {
        let primary_columns = match &table.primary_key {
            Some(key) => clone_names(key),
            None => Vec::new(),
        };
        proof {
            assert(names_of(primary_columns@) =~= table@.key_names());
        }
        CreateTable {
            name: table.name.clone(),
            columns: Self::column_descriptions(table),
            primary_columns,
        }
    }

    fn drop_columns(current: &Table, expected: &Table) -> (changes: Vec<TableChange>)
        ensures
            changes_of(changes@) == dropped_columns(current@, expected@),
    {
        let mut out: Vec<TableChange> = Vec::new();
        let mut i: usize = 0;
        let ghost keep = missing_in(expected@);
        while i < current.columns.len()
            invariant
                i <= current.columns.len(),
                keep == missing_in(expected@),
                changes_of(out@) == current@.columns.take(i as int).filter(keep).map_values(
                    drop_change(),
                ),
            decreases current.columns.len() - i,
        {
            let ghost before = changes_of(out@);
            let column = &current.columns[i];
            proof {
                lemma_filter_step(current@.columns, keep, i as int);
            }
            if !expected.has_column(column.name.as_str()) {
                out.push(TableChange::DropColumn { name: column.name.clone() });
                proof {
                    assert(changes_of(out@) =~= before.push(drop_change()(column@)));
                }
            }
            proof {
                assert(changes_of(out@) =~= current@.columns.take(i + 1).filter(keep).map_values(
                    drop_change(),
                ));
            }
            i = i + 1;
        }
        proof {
            assert(current@.columns.take(i as int) =~= current@.columns);
        }
        out
    }

    fn add_columns(current: &Table, expected: &Table) -> (changes: Vec<TableChange>)
        ensures
            changes_of(changes@) == added_columns(current@, expected@),
    {
        let mut out: Vec<TableChange> = Vec::new();
        let mut i: usize = 0;
        let ghost keep = missing_in(current@);
        while i < expected.columns.len()
            invariant
                i <= expected.columns.len(),
                keep == missing_in(current@),
                changes_of(out@) == expected@.columns.take(i as int).filter(keep).map_values(
                    add_change(expected@),
                ),
            decreases expected.columns.len() - i,
        {
            let ghost before = changes_of(out@);
            let column = &expected.columns[i];
            proof {
                lemma_filter_step(expected@.columns, keep, i as int);
            }
            if !current.has_column(column.name.as_str()) {
                out.push(
                    TableChange::AddColumn { column: Self::column_description(expected, column) },
                );
                proof {
                    assert(changes_of(out@) =~= before.push(add_change(expected@)(column@)));
                }
            }
            proof {
                assert(changes_of(out@) =~= expected@.columns.take(i + 1).filter(keep).map_values(
                    add_change(expected@),
                ));
            }
            i = i + 1;
        }
        proof {
            assert(expected@.columns.take(i as int) =~= expected@.columns);
        }
        out
    }

    fn alter_columns(current: &Table, expected: &Table) -> (changes: Vec<TableChange>)
        ensures
            changes_of(changes@) == altered_columns(current@, expected@),
    {
        let mut out: Vec<TableChange> = Vec::new();
        let mut i: usize = 0;
        let ghost keep = differs_from(current@, expected@);
        while i < expected.columns.len()
            invariant
                i <= expected.columns.len(),
                keep == differs_from(current@, expected@),
                changes_of(out@) == expected@.columns.take(i as int).filter(keep).map_values(
                    alter_change(expected@),
                ),
            decreases expected.columns.len() - i,
        {
            let ghost before = changes_of(out@);
            let column = &expected.columns[i];
            proof {
                lemma_filter_step(expected@.columns, keep, i as int);
            }
            match current.column(column.name.as_str()) {
                Some(previous) => {
                    let was = Self::column_description(current, previous);
                    let is = Self::column_description(expected, column);
                    if !was.same_as(&is) {
                        out.push(
                            TableChange::AlterColumn { name: column.name.clone(), column: is },
                        );
                        proof {
                            assert(changes_of(out@) =~= before.push(
                                alter_change(expected@)(column@),
                            ));
                        }
                    }
                },
                None => {},
            }
            proof {
                assert(changes_of(out@) =~= expected@.columns.take(i + 1).filter(keep).map_values(
                    alter_change(expected@),
                ));
            }
            i = i + 1;
        }
        proof {
            assert(expected@.columns.take(i as int) =~= expected@.columns);
        }
        out
    }

    /// All changes that lead from the current table to the expected one.
    pub fn changes(current: &Table, expected: &Table) -> (changes: Vec<TableChange>)
        ensures
            changes_of(changes@) == table_changes(current@, expected@),
    {
        let mut out = Self::drop_columns(current, expected);
        let mut added = Self::add_columns(current, expected);
        let mut altered = Self::alter_columns(current, expected);
        let ghost first = out@;
        let ghost second = added@;
        let ghost third = altered@;
        out.append(&mut added);
        out.append(&mut altered);
        proof {
            assert(changes_of(out@) =~= changes_of(first) + changes_of(second) + changes_of(
                third,
            ));
        }
        out
    }

    /// The names of the tables of `schema` that `other` has (`present`) or
    /// lacks, in ascending order.
    fn select_names(schema: &DatabaseSchema, other: &DatabaseSchema, present: bool) -> (names:
        Vec<String>)
        ensures
            names_of(names@) == selected_names(schema@, other@, present),
    {
        let mut out: Vec<String> = Vec::new();
        let mut i: usize = 0;
        let ghost keep = membership(other@, present);
        let ghost all = schema@.table_names();
        while i < schema.tables.len()
            invariant
                i <= schema.tables.len(),
                keep == membership(other@, present),
                all == schema@.table_names(),
                names_of(out@) == all.take(i as int).filter(keep),
            decreases schema.tables.len() - i,
        {
            let ghost before = names_of(out@);
            let name = &schema.tables[i].name;
            proof {
                lemma_filter_step(all, keep, i as int);
            }
            if other.has_table(name.as_str()) == present {
                out.push(name.clone());
                proof {
                    assert(names_of(out@) =~= before.push(name@));
                }
            }
            i = i + 1;
        }
        proof {
            assert(all.take(i as int) =~= all);
        }
        sort_names(&out)
    }

    fn create_tables(current: &DatabaseSchema, expected: &DatabaseSchema) -> (creations: Vec<
        CreateTable,
    >)
        ensures
            creations_of(creations@) == created_tables(current@, expected@),
    {
        let names = Self::select_names(expected, current, false);
        let ghost all = names_of(names@);
        let mut out: Vec<CreateTable> = Vec::new();
        let mut i: usize = 0;
        while i < names.len()
            invariant
                i <= names.len(),
                all == names_of(names@),
                all == selected_names(expected@, current@, false),
                creations_of(out@) == all.take(i as int).map_values(create_for(expected@)),
            decreases names.len() - i,
        {
            let ghost before = creations_of(out@);
            proof {
                lemma_sorted_selection(expected@.table_names(), membership(current@, false));
                assert(all.contains(all[i as int]));
            }
            match expected.table(names[i].as_str()) {
                Some(table) => {
                    out.push(Self::create_table(table));
                },
                None => {},
            }
            proof {
                assert(creations_of(out@) =~= before.push(create_for(expected@)(all[i as int])));
                assert(all.take(i + 1) =~= all.take(i as int).push(all[i as int]));
            }
            i = i + 1;
        }
        proof {
            assert(all.take(i as int) =~= all);
        }
        out
    }

    fn alter_tables(current: &DatabaseSchema, expected: &DatabaseSchema) -> (alterations: Vec<
        AlterTable,
    >)
        ensures
            alterations_of(alterations@) == altered_tables(current@, expected@),
    {
        let names = Self::select_names(current, expected, true);
        let ghost all = names_of(names@);
        let ghost keep = changed(current@, expected@);
        let mut out: Vec<AlterTable> = Vec::new();
        let mut i: usize = 0;
        while i < names.len()
            invariant
                i <= names.len(),
                all == names_of(names@),
                all == selected_names(current@, expected@, true),
                keep == changed(current@, expected@),
                alterations_of(out@) == all.take(i as int).filter(keep).map_values(
                    alter_for(current@, expected@),
                ),
            decreases names.len() - i,
        {
            let ghost before = alterations_of(out@);
            proof {
                lemma_sorted_selection(current@.table_names(), membership(expected@, true));
                assert(all.contains(all[i as int]));
                lemma_filter_step(all, keep, i as int);
            }
            let name = &names[i];
            match (current.table(name.as_str()), expected.table(name.as_str())) {
                (Some(was), Some(is)) => {
                    let changes = Self::changes(was, is);
                    if changes.len() > 0 {
                        out.push(AlterTable { table: name.clone(), changes });
                        proof {
                            assert(alterations_of(out@) =~= before.push(
                                alter_for(current@, expected@)(all[i as int]),
                            ));
                        }
                    }
                },
                _ => {},
            }
            proof {
                assert(alterations_of(out@) =~= all.take(i + 1).filter(keep).map_values(
                    alter_for(current@, expected@),
                ));
            }
            i = i + 1;
        }
        proof {
            assert(all.take(i as int) =~= all);
        }
        out
    }

    fn drop_tables(current: &DatabaseSchema, expected: &DatabaseSchema) -> (drops: Vec<DropTable>)
        ensures
            drops_of(drops@) == dropped_tables(current@, expected@),
    {
        let names = Self::select_names(current, expected, false);
        let mut out: Vec<DropTable> = Vec::new();
        let mut i: usize = 0;
        while i < names.len()
            invariant
                i <= names.len(),
                drops_of(out@) == names_of(names@).take(i as int),
            decreases names.len() - i,
        {
            let ghost before = drops_of(out@);
            out.push(DropTable { name: names[i].clone() });
            proof {
                assert(drops_of(out@) =~= before.push(names@[i as int]@));
                assert(names_of(names@).take(i + 1) =~= names_of(names@).take(i as int).push(
                    names@[i as int]@,
                ));
            }
            i = i + 1;
        }
        proof {
            assert(names_of(names@).take(i as int) =~= names_of(names@));
        }
        out
    }
}

} // verus!
