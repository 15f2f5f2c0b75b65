//! The structure of a live database, and what the steps of a plan do to it.
//!
//! The structure is what a snapshot can tell of a database: which tables
//! there are, which columns each has and how each is described, and the
//! primary key. Statements in raw SQL, as a plan of this crate holds them,
//! leave the structure as it is: they switch checks on and off and copy rows.

use crate::differ::{
    add_change, alter_change, alter_for, changed, column_differs, create_for, create_table,
    describe, descriptions, diff_steps, differs_from, drop_change, membership, missing_in,
    selected_names, table_changes,
};
use crate::inferrer::{
    corrected_step, corrected_steps, lemma_plan_without_rebuild_is_unchanged, needs_correction,
    plan_for, rebuild_steps, temporary_name, Engine,
};
use crate::schema::{
    lemma_column_found, lemma_column_lookup, lemma_table_lookup, ColumnView, SchemaView, TableView,
};
use crate::sequences::{
    lemma_filter_keeps_order, lemma_filter_member, lemma_filter_no_duplicates,
    lemma_member_filter, lemma_sorted_selection, stands_before,
};
use crate::steps::{ColumnDescriptionView, CreateTableView, StepView, TableChangeView};
use vstd::prelude::*;

verus! {

/// The structure of one table: its columns by name, and its primary key.
pub struct TableShape {
    pub columns: Map<Seq<char>, ColumnDescriptionView>,
    pub key: Seq<Seq<char>>,
}

/// The structure of a database: its tables by name.
pub type Structure = Map<Seq<char>, TableShape>;

/// The structure of a table of a snapshot.
pub open spec fn shape_of(table: TableView) -> TableShape {
    TableShape {
        columns: Map::new(
            |n: Seq<char>| table.has_column(n),
            |n: Seq<char>| describe(table, table.column(n)->0),
        ),
        key: table.key_names(),
    }
}

/// The structure that a snapshot describes.
pub open spec fn structure_of(schema: SchemaView) -> Structure {
    Map::new(|n: Seq<char>| schema.has_table(n), |n: Seq<char>| shape_of(schema.table(n)->0))
}

/// The names of the columns that a creation lists, in order.
pub open spec fn created_names(creation: CreateTableView) -> Seq<Seq<char>> {
    creation.columns.map_values(|d: ColumnDescriptionView| d.name)
}

/// The structure of the table that a creation makes.
pub open spec fn created_shape(creation: CreateTableView) -> TableShape {
    TableShape {
        columns: Map::new(
            |n: Seq<char>| created_names(creation).contains(n),
            |n: Seq<char>| creation.columns[created_names(creation).index_of_first(n)->0],
        ),
        key: creation.primary_columns,
    }
}

/// What one change does to the structure of a table.
pub open spec fn apply_change(shape: TableShape, change: TableChangeView) -> TableShape {
    match change {
        TableChangeView::AddColumn { column } => TableShape {
            columns: shape.columns.insert(column.name, column),
            key: shape.key,
        },
        TableChangeView::DropColumn { name } => TableShape {
            columns: shape.columns.remove(name),
            key: shape.key,
        },
        TableChangeView::AlterColumn { name, column } => TableShape {
            columns: shape.columns.remove(name).insert(column.name, column),
            key: shape.key,
        },
    }
}

/// What a list of changes does to the structure of a table, in order.
pub open spec fn apply_changes(shape: TableShape, changes: Seq<TableChangeView>) -> TableShape
    decreases changes.len(),
{
    if changes.len() == 0 {
        shape
    } else {
        apply_change(apply_changes(shape, changes.drop_last()), changes.last())
    }
}

/// What one step does to the structure of a database. A step on a table
/// that is not there does nothing.
pub open spec fn apply_step(database: Structure, step: StepView) -> Structure {
    match step {
        StepView::CreateTable(creation) => database.insert(creation.name, created_shape(creation)),
        StepView::AlterTable(alter) => if database.contains_key(alter.table) {
            database.insert(alter.table, apply_changes(database[alter.table], alter.changes))
        } else {
            database
        },
        StepView::DropTable { name } => database.remove(name),
        StepView::RenameTable { name, new_name } => if database.contains_key(name) {
            database.remove(name).insert(new_name, database[name])
        } else {
            database
        },
        StepView::RawSql(_) => database,
    }
}

/// What a plan does to the structure of a database, step by step.
pub open spec fn apply_steps(database: Structure, steps: Seq<StepView>) -> Structure
    decreases steps.len(),
{
    if steps.len() == 0 {
        database
    } else {
        apply_step(apply_steps(database, steps.drop_last()), steps.last())
    }
}

/// Running one step more.
pub proof fn lemma_apply_one_more(database: Structure, steps: Seq<StepView>, step: StepView)
    ensures
        apply_steps(database, steps.push(step)) == apply_step(apply_steps(database, steps), step),
{
    assert(steps.push(step).drop_last() =~= steps);
}

/// Running one plan after another is running the two as one.
pub proof fn lemma_apply_in_sequence(database: Structure, first: Seq<StepView>, then: Seq<StepView>)
    ensures
        apply_steps(database, first + then) == apply_steps(apply_steps(database, first), then),
    decreases then.len(),
{
    if then.len() == 0 {
        assert(first + then =~= first);
    } else {
        lemma_apply_in_sequence(database, first, then.drop_last());
        assert((first + then).drop_last() =~= first + then.drop_last());
    }
}

/// Creating a table from a table of a snapshot yields that table's
/// structure, under whatever name.
pub proof fn lemma_created_shape(table: TableView, name: Seq<char>)
    ensures
        created_shape(
            CreateTableView {
                name,
                columns: descriptions(table),
                primary_columns: table.key_names(),
            },
        ) == shape_of(table),
{
    let creation = CreateTableView {
        name,
        columns: descriptions(table),
        primary_columns: table.key_names(),
    };
    assert(created_names(creation) =~= table.column_names());
    assert forall|n: Seq<char>| table.has_column(n) implies created_shape(creation).columns[n]
        == shape_of(table).columns[n] by {
        table.column_names().index_of_first_ensures(n);
    }
    assert(created_shape(creation).columns =~= shape_of(table).columns);
}

pub open spec fn creation_step(expected: SchemaView) -> spec_fn(Seq<char>) -> StepView {
    |n: Seq<char>| StepView::CreateTable(create_for(expected)(n))
}

/// What creating the tables of some names does: each of them has the
/// structure that the expected snapshot gives it, and no other table is
/// touched.
pub proof fn lemma_creations(database: Structure, names: Seq<Seq<char>>, expected: SchemaView)
    requires
        forall|i: int| 0 <= i < names.len() ==> expected.has_table(#[trigger] names[i]),
    ensures
        forall|n: Seq<char>|
            names.contains(n) ==> #[trigger] apply_steps(
                database,
                names.map_values(creation_step(expected)),
            ).contains_key(n) && apply_steps(database, names.map_values(creation_step(expected)))[n]
                == shape_of(expected.table(n)->0),
        forall|n: Seq<char>|
            !names.contains(n) ==> (#[trigger] apply_steps(
                database,
                names.map_values(creation_step(expected)),
            ).contains_key(n) == database.contains_key(n)) && (database.contains_key(n)
                ==> apply_steps(database, names.map_values(creation_step(expected)))[n]
                == database[n]),
    decreases names.len(),
{
    let steps = names.map_values(creation_step(expected));
    if names.len() > 0 {
        let rest = names.drop_last();
        let last = names.last();
        lemma_creations(database, rest, expected);
        assert(steps.drop_last() =~= rest.map_values(creation_step(expected)));
        let before = apply_steps(database, rest.map_values(creation_step(expected)));
        let table = expected.table(last)->0;
        lemma_table_lookup(expected, last);
        lemma_created_shape(table, table.name);
        assert(steps.last() == StepView::CreateTable(create_table(table)));
        assert(apply_steps(database, steps) == before.insert(last, shape_of(table)));
        assert forall|n: Seq<char>| names.contains(n) implies #[trigger] apply_steps(
            database,
            steps,
        ).contains_key(n) && apply_steps(database, steps)[n] == shape_of(
            expected.table(n)->0,
        ) by {
            if n != last {
                let i = choose|i: int| 0 <= i < names.len() && names[i] == n;
                assert(rest[i] == n);
            }
        }
        assert forall|n: Seq<char>| !names.contains(n) implies (#[trigger] apply_steps(
            database,
            steps,
        ).contains_key(n) == database.contains_key(n)) && (database.contains_key(n)
            ==> apply_steps(database, steps)[n] == database[n]) by {
            assert(n != last);
            if rest.contains(n) {
                let i = choose|i: int| 0 <= i < rest.len() && rest[i] == n;
                assert(names[i] == n);
            }
        }
    }
}

pub open spec fn drop_step() -> spec_fn(Seq<char>) -> StepView {
    |n: Seq<char>| StepView::DropTable { name: n }
}

/// What dropping the tables of some names does: they are gone, and no other
/// table is touched.
pub proof fn lemma_drops(database: Structure, names: Seq<Seq<char>>)
    ensures
        forall|n: Seq<char>|
            names.contains(n) ==> !(#[trigger] apply_steps(
                database,
                names.map_values(drop_step()),
            ).contains_key(n)),
        forall|n: Seq<char>|
            !names.contains(n) ==> (#[trigger] apply_steps(
                database,
                names.map_values(drop_step()),
            ).contains_key(n) == database.contains_key(n)) && (database.contains_key(n)
                ==> apply_steps(database, names.map_values(drop_step()))[n] == database[n]),
    decreases names.len(),
{
    let steps = names.map_values(drop_step());
    if names.len() > 0 {
        let rest = names.drop_last();
        let last = names.last();
        lemma_drops(database, rest);
        assert(steps.drop_last() =~= rest.map_values(drop_step()));
        let before = apply_steps(database, rest.map_values(drop_step()));
        assert(apply_steps(database, steps) == before.remove(last));
        assert forall|n: Seq<char>| names.contains(n) implies !(#[trigger] apply_steps(
            database,
            steps,
        ).contains_key(n)) by {
            if n != last {
                let i = choose|i: int| 0 <= i < names.len() && names[i] == n;
                assert(rest[i] == n);
            }
        }
        assert forall|n: Seq<char>| !names.contains(n) implies (#[trigger] apply_steps(
            database,
            steps,
        ).contains_key(n) == database.contains_key(n)) && (database.contains_key(n)
            ==> apply_steps(database, steps)[n] == database[n]) by {
            assert(n != last);
            if rest.contains(n) {
                let i = choose|i: int| 0 <= i < rest.len() && rest[i] == n;
                assert(names[i] == n);
            }
        }
    }
}

/// The names of some columns, in order.
pub open spec fn names_of_columns(columns: Seq<ColumnView>) -> Seq<Seq<char>> {
    columns.map_values(|c: ColumnView| c.name)
}

/// What adding columns of distinct names does to the structure of a table:
/// each added column stands in it as the expected table describes it, and
/// nothing else changes.
pub proof fn lemma_additions(shape: TableShape, columns: Seq<ColumnView>, expected: TableView)
    requires
        names_of_columns(columns).no_duplicates(),
    ensures
        apply_changes(shape, columns.map_values(add_change(expected))).key == shape.key,
        forall|n: Seq<char>| #[trigger]
            apply_changes(shape, columns.map_values(add_change(expected))).columns.contains_key(n)
                <==> shape.columns.contains_key(n) || names_of_columns(columns).contains(n),
        forall|i: int|
            0 <= i < columns.len() ==> apply_changes(
                shape,
                columns.map_values(add_change(expected)),
            ).columns[#[trigger] columns[i].name] == describe(expected, columns[i]),
        forall|n: Seq<char>|
            shape.columns.contains_key(n) && !names_of_columns(columns).contains(n)
                ==> #[trigger] apply_changes(
                shape,
                columns.map_values(add_change(expected)),
            ).columns[n] == shape.columns[n],
    decreases columns.len(),
{
    let changes = columns.map_values(add_change(expected));
    let names = names_of_columns(columns);
    if columns.len() > 0 {
        let rest = columns.drop_last();
        let last = columns.last();
        assert(names_of_columns(rest) =~= names.drop_last());
        assert(changes.drop_last() =~= rest.map_values(add_change(expected)));
        lemma_additions(shape, rest, expected);
        let before = apply_changes(shape, rest.map_values(add_change(expected)));
        let after = apply_changes(shape, changes);
        assert(after.columns == before.columns.insert(last.name, describe(expected, last)));
        assert forall|n: Seq<char>| #[trigger]
            after.columns.contains_key(n) <==> shape.columns.contains_key(n) || names.contains(
                n,
            ) by {
            if names_of_columns(rest).contains(n) {
                let i = choose|i: int| 0 <= i < rest.len() && names_of_columns(rest)[i] == n;
                assert(names[i] == n);
            }
            if names.contains(n) && n != last.name {
                let i = choose|i: int| 0 <= i < names.len() && names[i] == n;
                assert(names_of_columns(rest)[i] == n);
            }
            if n == last.name {
                assert(names[names.len() - 1] == n);
            }
        }
        assert forall|i: int| 0 <= i < columns.len() implies after.columns[#[trigger] columns[i].name]
            == describe(expected, columns[i]) by {
            if i < rest.len() {
                assert(names[i] != names[names.len() - 1]);
                assert(rest[i] == columns[i]);
            }
        }
        assert forall|n: Seq<char>|
            shape.columns.contains_key(n) && !names.contains(n) implies #[trigger] after.columns[n]
            == shape.columns[n] by {
            assert(names[names.len() - 1] == last.name);
            if names_of_columns(rest).contains(n) {
                let i = choose|i: int| 0 <= i < rest.len() && names_of_columns(rest)[i] == n;
                assert(names[i] == n);
            }
        }
    }
}

/// What dropping columns does to the structure of a table: they are gone,
/// and nothing else changes.
pub proof fn lemma_column_drops(shape: TableShape, columns: Seq<ColumnView>)
    ensures
        apply_changes(shape, columns.map_values(drop_change())).key == shape.key,
        forall|n: Seq<char>| #[trigger]
            apply_changes(shape, columns.map_values(drop_change())).columns.contains_key(n)
                <==> shape.columns.contains_key(n) && !names_of_columns(columns).contains(n),
        forall|n: Seq<char>|
            shape.columns.contains_key(n) && !names_of_columns(columns).contains(n)
                ==> #[trigger] apply_changes(shape, columns.map_values(drop_change())).columns[n]
                == shape.columns[n],
    decreases columns.len(),
{
    let changes = columns.map_values(drop_change());
    let names = names_of_columns(columns);
    if columns.len() > 0 {
        let rest = columns.drop_last();
        let last = columns.last();
        assert(names_of_columns(rest) =~= names.drop_last());
        assert(changes.drop_last() =~= rest.map_values(drop_change()));
        lemma_column_drops(shape, rest);
        let before = apply_changes(shape, rest.map_values(drop_change()));
        let after = apply_changes(shape, changes);
        assert(after.columns == before.columns.remove(last.name));
        assert(names[names.len() - 1] == last.name);
        assert forall|n: Seq<char>|
            names.contains(n) <==> names_of_columns(rest).contains(n) || n == last.name by {
            if names_of_columns(rest).contains(n) {
                let i = choose|i: int| 0 <= i < rest.len() && names_of_columns(rest)[i] == n;
                assert(names[i] == n);
            }
            if names.contains(n) && n != last.name {
                let i = choose|i: int| 0 <= i < names.len() && names[i] == n;
                assert(names_of_columns(rest)[i] == n);
            }
        }
    }
}

/// What altering columns of distinct names does to the structure of a
/// table: each altered column stands in it as the expected table describes
/// it, and nothing else changes.
pub proof fn lemma_column_alterations(
    shape: TableShape,
    columns: Seq<ColumnView>,
    expected: TableView,
)
    requires
        names_of_columns(columns).no_duplicates(),
    ensures
        apply_changes(shape, columns.map_values(alter_change(expected))) == apply_changes(
            shape,
            columns.map_values(add_change(expected)),
        ),
    decreases columns.len(),
{
    let alters = columns.map_values(alter_change(expected));
    let adds = columns.map_values(add_change(expected));
    if columns.len() > 0 {
        let rest = columns.drop_last();
        let last = columns.last();
        assert(names_of_columns(rest) =~= names_of_columns(columns).drop_last());
        assert(alters.drop_last() =~= rest.map_values(alter_change(expected)));
        assert(adds.drop_last() =~= rest.map_values(add_change(expected)));
        lemma_column_alterations(shape, rest, expected);
        let before = apply_changes(shape, adds.drop_last());
        assert(before.columns.remove(last.name).insert(last.name, describe(expected, last))
            =~= before.columns.insert(last.name, describe(expected, last)));
    }
}

/// What the changes of a list do, one list after another.
pub proof fn lemma_changes_in_sequence(
    shape: TableShape,
    first: Seq<TableChangeView>,
    then: Seq<TableChangeView>,
)
    ensures
        apply_changes(shape, first + then) == apply_changes(apply_changes(shape, first), then),
    decreases then.len(),
{
    if then.len() == 0 {
        assert(first + then =~= first);
    } else {
        lemma_changes_in_sequence(shape, first, then.drop_last());
        assert((first + then).drop_last() =~= first + then.drop_last());
    }
}

/// The columns that are selected from a table with unique column names have
/// unique names, and a name is among them exactly where the table's column
/// of that name satisfies the condition.
pub proof fn lemma_selected_columns(table: TableView, keep: spec_fn(ColumnView) -> bool)
    requires
        table.column_names().no_duplicates(),
    ensures
        names_of_columns(table.columns.filter(keep)).no_duplicates(),
        forall|n: Seq<char>| #[trigger]
            names_of_columns(table.columns.filter(keep)).contains(n) <==> table.has_column(n)
                && keep(table.column(n)->0),
        forall|i: int|
            0 <= i < table.columns.filter(keep).len() ==> table.column(
                (#[trigger] table.columns.filter(keep)[i]).name,
            ) == Some(table.columns.filter(keep)[i]),
{
    let selected = table.columns.filter(keep);
    let names = names_of_columns(selected);
    assert forall|i: int| 0 <= i < selected.len() implies table.column(
        (#[trigger] selected[i]).name,
    ) == Some(selected[i]) by {
        assert(selected.contains(selected[i]));
        lemma_filter_member(table.columns, keep, selected[i]);
        let j = choose|j: int| 0 <= j < table.columns.len() && table.columns[j] == selected[i];
        lemma_column_found(table, j);
    }
    lemma_filter_keeps_order(table.columns, keep);
    assert forall|i: int, j: int| 0 <= i < j < names.len() implies names[i] != names[j] by {
        assert(stands_before(table.columns, selected[i], selected[j]));
        let (a, b) = choose|a: int, b: int|
            0 <= a < b < table.columns.len() && table.columns[a] == selected[i]
                && table.columns[b] == selected[j];
        assert(table.column_names()[a] != table.column_names()[b]);
    }
    assert forall|n: Seq<char>| #[trigger]
        names.contains(n) <==> table.has_column(n) && keep(table.column(n)->0) by {
        lemma_column_lookup(table, n);
        if names.contains(n) {
            let i = choose|i: int| 0 <= i < names.len() && names[i] == n;
            assert(selected.contains(selected[i]));
            lemma_filter_member(table.columns, keep, selected[i]);
            assert(table.column(selected[i].name) == Some(selected[i]));
        }
        if table.has_column(n) && keep(table.column(n)->0) {
            let c = table.column(n)->0;
            lemma_member_filter(table.columns, keep, c);
            let i = choose|i: int| 0 <= i < selected.len() && selected[i] == c;
            assert(names[i] == n);
        }
    }
}

/// Making the changes that the differ computes between two well-formed
/// tables turns the columns of the current table into those of the expected
/// one. The primary key stays.
pub proof fn lemma_changes_reach_expected(current: TableView, expected: TableView)
    requires
        current.well_formed(),
        expected.well_formed(),
    ensures
        apply_changes(shape_of(current), table_changes(current, expected)).columns == shape_of(
            expected,
        ).columns,
        apply_changes(shape_of(current), table_changes(current, expected)).key
            == current.key_names(),
{
    let gone = current.columns.filter(missing_in(expected));
    let new = expected.columns.filter(missing_in(current));
    let other = expected.columns.filter(differs_from(current, expected));
    let drops = gone.map_values(drop_change());
    let adds = new.map_values(add_change(expected));
    let alters = other.map_values(alter_change(expected));
    let start = shape_of(current);
    let first = apply_changes(start, drops);
    let second = apply_changes(first, adds);
    let third = apply_changes(second, alters);
    lemma_changes_in_sequence(start, drops + adds, alters);
    lemma_changes_in_sequence(start, drops, adds);
    assert(apply_changes(start, table_changes(current, expected)) == third);
    lemma_selected_columns(current, missing_in(expected));
    lemma_selected_columns(expected, missing_in(current));
    lemma_selected_columns(expected, differs_from(current, expected));
    lemma_column_drops(start, gone);
    lemma_additions(first, new, expected);
    lemma_column_alterations(second, other, expected);
    lemma_additions(second, other, expected);
    let target = shape_of(expected);
    assert forall|n: Seq<char>| third.columns.contains_key(n) <==> target.columns.contains_key(
        n,
    ) by {
        lemma_column_lookup(current, n);
        lemma_column_lookup(expected, n);
    }
    assert forall|n: Seq<char>| target.columns.contains_key(n) implies third.columns[n]
        == target.columns[n] by {
        lemma_column_lookup(current, n);
        lemma_column_lookup(expected, n);
        let is = expected.column(n)->0;
        if names_of_columns(other).contains(n) {
            let i = choose|i: int| 0 <= i < other.len() && names_of_columns(other)[i] == n;
            assert(expected.column(other[i].name) == Some(other[i]));
            assert(third.columns[other[i].name] == describe(expected, other[i]));
        } else if names_of_columns(new).contains(n) {
            let i = choose|i: int| 0 <= i < new.len() && names_of_columns(new)[i] == n;
            assert(expected.column(new[i].name) == Some(new[i]));
            assert(second.columns[new[i].name] == describe(expected, new[i]));
            assert(second.columns.contains_key(n));
        } else {
            assert(current.has_column(n));
            assert(!names_of_columns(gone).contains(n));
            assert(first.columns.contains_key(n));
            assert(first.columns[n] == start.columns[n]);
            assert(second.columns.contains_key(n));
            assert(second.columns[n] == first.columns[n]);
            assert(!column_differs(current, expected, is));
        }
    }
    assert(third.columns =~= target.columns);
}

/// What the rebuild of a table does to the structure of a database: the
/// table has the structure of the expected one, no table stands under the
/// temporary name, and no other table is touched.
pub proof fn lemma_rebuild(
    database: Structure,
    schema_name: Seq<char>,
    current: TableView,
    expected: TableView,
)
    requires
        current.name == expected.name,
    ensures
        apply_steps(database, rebuild_steps(schema_name, current, expected)) == database.remove(
            temporary_name(expected.name),
        ).insert(expected.name, shape_of(expected)),
        temporary_name(expected.name) != expected.name,
{
    let steps = rebuild_steps(schema_name, current, expected);
    let temporary = temporary_name(expected.name);
    assert(temporary != expected.name) by {
        reveal_strlit("new_");
        assert(temporary.len() == expected.name.len() + 4);
    }
    let s0 = Seq::<StepView>::empty();
    let s1 = s0.push(steps[0]);
    let s2 = s1.push(steps[1]);
    let s3 = s2.push(steps[2]);
    let s4 = s3.push(steps[3]);
    let s5 = s4.push(steps[4]);
    let s6 = s5.push(steps[5]);
    let s7 = s6.push(steps[6]);
    assert(s7 =~= steps);
    lemma_apply_one_more(database, s0, steps[0]);
    lemma_apply_one_more(database, s1, steps[1]);
    lemma_apply_one_more(database, s2, steps[2]);
    lemma_apply_one_more(database, s3, steps[3]);
    lemma_apply_one_more(database, s4, steps[4]);
    lemma_apply_one_more(database, s5, steps[5]);
    lemma_apply_one_more(database, s6, steps[6]);
    lemma_created_shape(expected, temporary);
    let shape = shape_of(expected);
    assert(apply_steps(database, s0) == database);
    assert(apply_steps(database, s1) == database);
    assert(apply_steps(database, s2) == database.insert(temporary, shape));
    assert(apply_steps(database, s3) == database.insert(temporary, shape));
    assert(apply_steps(database, s4) == database.insert(temporary, shape).remove(expected.name));
    assert(apply_steps(database, s5) == database.insert(temporary, shape).remove(
        expected.name,
    ).remove(temporary).insert(expected.name, shape));
    assert(apply_steps(database, s7) == apply_steps(database, s5));
    assert(apply_steps(database, s5) =~= database.remove(temporary).insert(expected.name, shape));
}

pub open spec fn alteration_step(current: SchemaView, expected: SchemaView) -> spec_fn(
    Seq<char>,
) -> StepView {
    |n: Seq<char>| StepView::AlterTable(alter_for(current, expected)(n))
}

/// Whether the plan for an engine rebuilds the table of that name.
pub open spec fn is_rebuilt(
    engine: Engine,
    current: SchemaView,
    expected: SchemaView,
    name: Seq<char>,
) -> bool {
    engine == Engine::Sqlite && needs_correction(alter_for(current, expected)(name))
}

/// Whether a plan can lead a table that both snapshots have to its expected
/// structure. A table that is rebuilt needs its temporary name to be free
/// in the expected snapshot: else the rebuild takes the place of a table
/// that is meant to stay. A table that is not rebuilt keeps its primary
/// key, so the expected key has to be the current one.
pub open spec fn table_can_follow(
    engine: Engine,
    current: SchemaView,
    expected: SchemaView,
    name: Seq<char>,
) -> bool {
    if is_rebuilt(engine, current, expected, name) {
        !expected.has_table(temporary_name(name))
    } else {
        current.table(name)->0.key_names() == expected.table(name)->0.key_names()
    }
}

/// Whether a plan can lead every table that both snapshots have to its
/// expected structure.
pub open spec fn plan_can_be_followed(engine: Engine, current: SchemaView, expected: SchemaView)
    -> bool {
    forall|n: Seq<char>|
        current.has_table(n) && expected.has_table(n) ==> #[trigger] table_can_follow(
            engine,
            current,
            expected,
            n,
        )
}

/// What a list of steps becomes for an engine.
pub open spec fn steps_for(
    engine: Engine,
    schema_name: Seq<char>,
    steps: Seq<StepView>,
    current: SchemaView,
    expected: SchemaView,
) -> Seq<StepView> {
    match engine {
        Engine::Sqlite => corrected_steps(schema_name, steps, current, expected),
        _ => steps,
    }
}

/// Correcting one plan after another is correcting the two as one.
pub proof fn lemma_corrected_in_sequence(
    schema_name: Seq<char>,
    first: Seq<StepView>,
    then: Seq<StepView>,
    current: SchemaView,
    expected: SchemaView,
)
    ensures
        corrected_steps(schema_name, first + then, current, expected) == corrected_steps(
            schema_name,
            first,
            current,
            expected,
        ) + corrected_steps(schema_name, then, current, expected),
    decreases then.len(),
{
    if then.len() == 0 {
        assert(first + then =~= first);
        assert(corrected_steps(schema_name, first, current, expected) + Seq::<StepView>::empty()
            =~= corrected_steps(schema_name, first, current, expected));
    } else {
        lemma_corrected_in_sequence(schema_name, first, then.drop_last(), current, expected);
        assert((first + then).drop_last() =~= first + then.drop_last());
        assert(corrected_steps(schema_name, first + then, current, expected) =~= corrected_steps(
            schema_name,
            first,
            current,
            expected,
        ) + corrected_steps(schema_name, then, current, expected));
    }
}

/// A table that a lookup finds in a well-formed snapshot is well formed.
proof fn lemma_found_table_is_well_formed(schema: SchemaView, name: Seq<char>)
    requires
        schema.well_formed(),
        schema.has_table(name),
    ensures
        schema.table(name) is Some,
        schema.table(name)->0.well_formed(),
        schema.table(name)->0.name == name,
{
    lemma_table_lookup(schema, name);
    let table = schema.table(name)->0;
    let i = choose|i: int| 0 <= i < schema.tables.len() && schema.tables[i] == table;
    assert(schema.tables[i].well_formed());
}

/// What the alteration of one table does, as the engine runs it: the table
/// has its expected structure, and where it was rebuilt, nothing stands
/// under its temporary name.
proof fn lemma_alteration(
    engine: Engine,
    database: Structure,
    schema_name: Seq<char>,
    name: Seq<char>,
    current: SchemaView,
    expected: SchemaView,
)
    requires
        current.well_formed(),
        expected.well_formed(),
        current.has_table(name),
        expected.has_table(name),
        table_can_follow(engine, current, expected, name),
        database.contains_key(name),
        database[name] == shape_of(current.table(name)->0),
    ensures
        apply_steps(
            database,
            steps_for(
                engine,
                schema_name,
                seq![alteration_step(current, expected)(name)],
                current,
                expected,
            ),
        ) == (if is_rebuilt(engine, current, expected, name) {
            database.remove(temporary_name(name)).insert(
                name,
                shape_of(expected.table(name)->0),
            )
        } else {
            database.insert(name, shape_of(expected.table(name)->0))
        }),
        temporary_name(name) != name,
{
    let was = current.table(name)->0;
    let is = expected.table(name)->0;
    lemma_found_table_is_well_formed(current, name);
    lemma_found_table_is_well_formed(expected, name);
    let alter = alter_for(current, expected)(name);
    let step = alteration_step(current, expected)(name);
    let only = Seq::<StepView>::empty().push(step);
    assert(seq![step] =~= only);
    lemma_rebuild(database, schema_name, was, is);
    if engine == Engine::Sqlite {
        assert(only.drop_last() =~= Seq::<StepView>::empty());
        assert(only.last() == step);
        assert(corrected_steps(schema_name, Seq::<StepView>::empty(), current, expected)
            =~= Seq::<StepView>::empty());
        assert(corrected_steps(schema_name, only, current, expected) =~= corrected_step(
            schema_name,
            step,
            current,
            expected,
        ));
    }
    if !is_rebuilt(engine, current, expected, name) {
        assert(steps_for(engine, schema_name, only, current, expected) =~= only);
        lemma_apply_one_more(database, Seq::<StepView>::empty(), step);
        lemma_changes_reach_expected(was, is);
        let after = apply_changes(database[name], alter.changes);
        assert(after.columns == shape_of(is).columns);
        assert(after.key == shape_of(is).key);
        assert(after == shape_of(is));
    }
}

/// What the alterations of some tables do, as the engine runs them: each of
/// the tables has its expected structure, no other table of the expected
/// snapshot is touched, and no table comes into being.
proof fn lemma_alterations(
    engine: Engine,
    database: Structure,
    schema_name: Seq<char>,
    names: Seq<Seq<char>>,
    current: SchemaView,
    expected: SchemaView,
)
    requires
        current.well_formed(),
        expected.well_formed(),
        names.no_duplicates(),
        forall|i: int|
            0 <= i < names.len() ==> current.has_table(#[trigger] names[i]) && expected.has_table(
                names[i],
            ) && table_can_follow(engine, current, expected, names[i]) && database.contains_key(
                names[i],
            ) && database[names[i]] == shape_of(current.table(names[i])->0),
    ensures
        forall|m: Seq<char>|
            names.contains(m) ==> #[trigger] apply_steps(
                database,
                steps_for(
                    engine,
                    schema_name,
                    names.map_values(alteration_step(current, expected)),
                    current,
                    expected,
                ),
            ).contains_key(m) && apply_steps(
                database,
                steps_for(
                    engine,
                    schema_name,
                    names.map_values(alteration_step(current, expected)),
                    current,
                    expected,
                ),
            )[m] == shape_of(expected.table(m)->0),
        forall|m: Seq<char>|
            expected.has_table(m) && !names.contains(m) ==> (#[trigger] apply_steps(
                database,
                steps_for(
                    engine,
                    schema_name,
                    names.map_values(alteration_step(current, expected)),
                    current,
                    expected,
                ),
            ).contains_key(m) == database.contains_key(m)) && (database.contains_key(m)
                ==> apply_steps(
                database,
                steps_for(
                    engine,
                    schema_name,
                    names.map_values(alteration_step(current, expected)),
                    current,
                    expected,
                ),
            )[m] == database[m]),
        forall|m: Seq<char>|
            !expected.has_table(m) && #[trigger] apply_steps(
                database,
                steps_for(
                    engine,
                    schema_name,
                    names.map_values(alteration_step(current, expected)),
                    current,
                    expected,
                ),
            ).contains_key(m) ==> database.contains_key(m),
    decreases names.len(),
{
    let steps = names.map_values(alteration_step(current, expected));
    let after = apply_steps(database, steps_for(engine, schema_name, steps, current, expected));
    if names.len() > 0 {
        let rest = names.drop_last();
        let last = names.last();
        let rest_steps = rest.map_values(alteration_step(current, expected));
        let last_step = seq![alteration_step(current, expected)(last)];
        assert(steps =~= rest_steps + last_step);
        assert forall|i: int| 0 <= i < rest.len() implies current.has_table(#[trigger] rest[i])
            && expected.has_table(rest[i]) && table_can_follow(engine, current, expected, rest[i])
            && database.contains_key(rest[i]) && database[rest[i]] == shape_of(
            current.table(rest[i])->0,
        ) by {
            assert(rest[i] == names[i]);
        }
        lemma_alterations(engine, database, schema_name, rest, current, expected);
        let done = steps_for(engine, schema_name, rest_steps, current, expected);
        let fix = steps_for(engine, schema_name, last_step, current, expected);
        if engine == Engine::Sqlite {
            lemma_corrected_in_sequence(schema_name, rest_steps, last_step, current, expected);
        }
        assert(steps_for(engine, schema_name, steps, current, expected) == done + fix);
        let before = apply_steps(database, done);
        lemma_apply_in_sequence(database, done, fix);
        assert(after == apply_steps(before, fix));
        assert(names[names.len() - 1] == last);
        assert(!rest.contains(last)) by {
            if rest.contains(last) {
                let i = choose|i: int| 0 <= i < rest.len() && rest[i] == last;
                assert(names[i] == names[names.len() - 1]);
            }
        }
        assert(before.contains_key(last) == database.contains_key(last));
        assert(before[last] == database[last]);
        lemma_alteration(engine, before, schema_name, last, current, expected);
        assert forall|m: Seq<char>| names.contains(m) implies #[trigger] after.contains_key(m)
            && after[m] == shape_of(expected.table(m)->0) by {
            if m != last {
                let i = choose|i: int| 0 <= i < names.len() && names[i] == m;
                assert(rest[i] == m);
                assert(rest.contains(m));
                assert(expected.has_table(m));
            }
        }
        assert forall|m: Seq<char>|
            expected.has_table(m) && !names.contains(m) implies (#[trigger] after.contains_key(m)
            == database.contains_key(m)) && (database.contains_key(m) ==> after[m]
            == database[m]) by {
            if rest.contains(m) {
                let i = choose|i: int| 0 <= i < rest.len() && rest[i] == m;
                assert(names[i] == m);
            }
        }
        assert forall|m: Seq<char>|
            !expected.has_table(m) && #[trigger] after.contains_key(m) implies database.contains_key(
            m,
        ) by {
            assert(m != last);
            assert(before.contains_key(m));
        }
    } else {
        assert(steps_for(engine, schema_name, steps, current, expected) =~= Seq::<
            StepView,
        >::empty());
    }
}

/// Round trip: a database whose structure is that of the current snapshot
/// has the structure of the expected snapshot after the plan for its engine
/// has run on it, step by step.
///
/// Both snapshots are well formed, and the plan can be followed: no table
/// that is rebuilt has its temporary name taken in the expected snapshot,
/// and no table that stays in place is expected with another primary key.
pub proof fn lemma_round_trip(
    engine: Engine,
    schema_name: Seq<char>,
    current: SchemaView,
    expected: SchemaView,
)
    requires
        current.well_formed(),
        expected.well_formed(),
        plan_can_be_followed(engine, current, expected),
    ensures
        apply_steps(structure_of(current), plan_for(engine, schema_name, current, expected))
            == structure_of(expected),
{
    let created = selected_names(expected, current, false);
    let common = selected_names(current, expected, true);
    let kept = common.filter(changed(current, expected));
    let dropped = selected_names(current, expected, false);
    let creations = created.map_values(creation_step(expected));
    let alterations = kept.map_values(alteration_step(current, expected));
    let drops = dropped.map_values(drop_step());
    assert(diff_steps(current, expected) =~= creations + alterations + drops);
    lemma_sorted_selection(expected.table_names(), membership(current, false));
    lemma_sorted_selection(current.table_names(), membership(expected, true));
    lemma_sorted_selection(current.table_names(), membership(expected, false));

    // the plan, class by class
    let fixes = steps_for(engine, schema_name, alterations, current, expected);
    let plan = plan_for(engine, schema_name, current, expected);
    if engine == Engine::Sqlite {
        lemma_corrected_in_sequence(
            schema_name,
            creations + alterations,
            drops,
            current,
            expected,
        );
        lemma_corrected_in_sequence(schema_name, creations, alterations, current, expected);
        lemma_plan_without_rebuild_is_unchanged(schema_name, creations, current, expected);
        lemma_plan_without_rebuild_is_unchanged(schema_name, drops, current, expected);
    }
    assert(plan == creations + fixes + drops);

    // the structure after each class
    let start = structure_of(current);
    let first = apply_steps(start, creations);
    let second = apply_steps(first, fixes);
    let third = apply_steps(second, drops);
    lemma_apply_in_sequence(start, creations + fixes, drops);
    lemma_apply_in_sequence(start, creations, fixes);
    assert(apply_steps(start, plan) == third);

    assert forall|i: int| 0 <= i < created.len() implies expected.has_table(
        #[trigger] created[i],
    ) by {
        assert(created.contains(created[i]));
    }
    lemma_creations(start, created, expected);

    lemma_filter_no_duplicates(common, changed(current, expected));
    assert forall|i: int| 0 <= i < kept.len() implies current.has_table(#[trigger] kept[i])
        && expected.has_table(kept[i]) && table_can_follow(engine, current, expected, kept[i])
        && first.contains_key(kept[i]) && first[kept[i]] == shape_of(
        current.table(kept[i])->0,
    ) by {
        assert(kept.contains(kept[i]));
        lemma_filter_member(common, changed(current, expected), kept[i]);
        assert(!created.contains(kept[i]));
        assert(start.contains_key(kept[i]));
    }
    lemma_alterations(engine, first, schema_name, kept, current, expected);
    lemma_drops(second, dropped);

    assert forall|n: Seq<char>| third.contains_key(n) <==> expected.has_table(n) by {
        if expected.has_table(n) {
            assert(!dropped.contains(n));
            if current.has_table(n) {
                assert(!created.contains(n));
                assert(start.contains_key(n));
                if !kept.contains(n) {
                    assert(second.contains_key(n) == first.contains_key(n));
                }
            } else {
                assert(created.contains(n));
                if kept.contains(n) {
                    lemma_filter_member(common, changed(current, expected), n);
                }
            }
        } else {
            if current.has_table(n) {
                assert(dropped.contains(n));
            } else {
                assert(!created.contains(n));
                assert(!dropped.contains(n));
                assert(!start.contains_key(n));
            }
        }
    }
    assert forall|n: Seq<char>| expected.has_table(n) implies third[n] == shape_of(
        expected.table(n)->0,
    ) by {
        assert(!dropped.contains(n));
        assert(third.contains_key(n));
        if kept.contains(n) {
        } else if current.has_table(n) {
            assert(!created.contains(n));
            assert(start.contains_key(n));
            assert(second[n] == shape_of(current.table(n)->0));
            assert(common.contains(n));
            if changed(current, expected)(n) {
                lemma_member_filter(common, changed(current, expected), n);
            }
            let was = current.table(n)->0;
            let is = expected.table(n)->0;
            lemma_found_table_is_well_formed(current, n);
            lemma_found_table_is_well_formed(expected, n);
            assert(table_changes(was, is).len() == 0);
            assert(!is_rebuilt(engine, current, expected, n));
            lemma_changes_reach_expected(was, is);
            assert(table_can_follow(engine, current, expected, n));
            assert(shape_of(was).columns == shape_of(is).columns);
            assert(shape_of(was) == shape_of(is));
        } else {
            assert(created.contains(n));
        }
    }
    assert(third =~= structure_of(expected));
}

} // verus!
