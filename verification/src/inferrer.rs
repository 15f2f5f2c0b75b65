//! The step inferrer: plans a migration between two snapshots and rewrites
//! the plan for the engine that will run it.
//!
//! SQLite cannot drop or change a column with `ALTER TABLE`. A step that asks
//! for either is replaced by a rebuild of the table: a new table is created
//! under a temporary name, the rows are copied over, the old table is dropped
//! and the new one takes its name. Foreign keys are switched off before and
//! on after, and checked in between. The steps from the creation of the
//! temporary table to the check belong to one transaction: whoever runs them
//! has to commit or roll back all of them together.

use crate::differ::{
    altered_tables, changed, created_tables, descriptions, diff_steps, membership,
    selected_names, DatabaseSchemaDiffer,
};
use crate::schema::{DatabaseSchema, SchemaView, Table, TableView};
use crate::sequences::{
    lemma_filter_keeps_order, lemma_filter_member, lemma_filter_no_duplicates, lemma_filter_step,
    lemma_member_filter, lemma_sorted_selection, stands_before,
};
use crate::steps::{
    steps_of, AlterTable, AlterTableView, CreateTable, CreateTableView, DropTable,
    SqlMigrationStep, StepView, TableChange, TableChangeView,
};
use crate::text::{join, join_spec, names_of};
use vstd::prelude::*;
use vstd::string::*;

verus! {

/// The engines that a plan can be made for.
#[derive(Clone, Copy, Debug, PartialEq, Eq, Structural)]
pub enum Engine {
    Sqlite,
    Postgres,
    Mysql,
}

/// A step asked to rebuild a table that one of the snapshots lacks.
#[derive(Debug, PartialEq, Eq)]
pub struct CorrectionError {
    pub table: String,
}

/// Whether SQLite cannot run a change as it stands.
pub open spec fn unsupported(change: TableChangeView) -> bool {
    change is DropColumn || change is AlterColumn
}

/// Whether an alteration needs a rebuild: it drops or changes a column.
pub open spec fn needs_correction(alter: AlterTableView) -> bool {
    exists|i: int| 0 <= i < alter.changes.len() && unsupported(#[trigger] alter.changes[i])
}

/// The name under which a table is rebuilt.
pub open spec fn temporary_name(table: Seq<char>) -> Seq<char> {
    "new_"@ + table
}

pub open spec fn shared_with(expected: TableView) -> spec_fn(Seq<char>) -> bool {
    |n: Seq<char>| expected.has_column(n)
}

/// The columns whose values are copied in a rebuild: those that both tables
/// have, in the current table's order.
pub open spec fn copied_columns(current: TableView, expected: TableView) -> Seq<Seq<char>> {
    current.column_names().filter(shared_with(expected))
}

/// The statement that copies the rows into the rebuilt table.
pub open spec fn copy_statement(current: TableView, expected: TableView) -> Seq<char> {
    let columns = join_spec(copied_columns(current, expected), ","@);
    "INSERT INTO "@ + temporary_name(expected.name) + " ("@ + columns + ") SELECT "@ + columns
        + " FROM "@ + expected.name
}

/// The statement that checks the foreign keys of a namespace.
pub open spec fn check_statement(schema_name: Seq<char>) -> Seq<char> {
    "PRAGMA "@ + schema_name + ".foreign_key_check;"@
}

/// The rebuild of a table, from the current to the expected one.
pub open spec fn rebuild_steps(schema_name: Seq<char>, current: TableView, expected: TableView)
    -> Seq<StepView> {
    seq![
        StepView::RawSql("PRAGMA foreign_keys=OFF;"@),
        StepView::CreateTable(
            CreateTableView {
                name: temporary_name(expected.name),
                columns: descriptions(expected),
                primary_columns: expected.key_names(),
            },
        ),
        StepView::RawSql(copy_statement(current, expected)),
        StepView::DropTable { name: current.name },
        StepView::RenameTable { name: temporary_name(expected.name), new_name: expected.name },
        StepView::RawSql(check_statement(schema_name)),
        StepView::RawSql("PRAGMA foreign_keys=ON;"@),
    ]
}

/// Whether a step is rewritten: an alteration that needs a rebuild.
pub open spec fn is_corrected(step: StepView) -> bool {
    step matches StepView::AlterTable(a) && needs_correction(a)
}

/// The table that a rewritten step cannot be rebuilt for, because one of the
/// snapshots lacks it.
pub open spec fn missing_table(step: StepView, current: SchemaView, expected: SchemaView)
    -> Option<Seq<char>> {
    match step {
        StepView::AlterTable(a) => if needs_correction(a) && !(current.has_table(a.table)
            && expected.has_table(a.table)) {
            Some(a.table)
        } else {
            None
        },
        _ => None,
    }
}

/// The table of the first step, in order, that cannot be rebuilt.
pub open spec fn first_missing_table(
    steps: Seq<StepView>,
    current: SchemaView,
    expected: SchemaView,
) -> Option<Seq<char>>
    decreases steps.len(),
{
    if steps.len() == 0 {
        None
    } else if missing_table(steps[0], current, expected) is Some {
        missing_table(steps[0], current, expected)
    } else {
        first_missing_table(steps.drop_first(), current, expected)
    }
}

/// What one step becomes: a rebuild where it needs one, else itself.
pub open spec fn corrected_step(
    schema_name: Seq<char>,
    step: StepView,
    current: SchemaView,
    expected: SchemaView,
) -> Seq<StepView> {
    match step {
        StepView::AlterTable(a) => if needs_correction(a) {
            rebuild_steps(schema_name, current.table(a.table)->0, expected.table(a.table)->0)
        } else {
            seq![step]
        },
        _ => seq![step],
    }
}

/// What a plan becomes: each step rewritten in place, so that the order
/// among rewritten and untouched steps stays.
pub open spec fn corrected_steps(
    schema_name: Seq<char>,
    steps: Seq<StepView>,
    current: SchemaView,
    expected: SchemaView,
) -> Seq<StepView>
    decreases steps.len(),
{
    if steps.len() == 0 {
        Seq::empty()
    } else {
        corrected_steps(schema_name, steps.drop_last(), current, expected) + corrected_step(
            schema_name,
            steps.last(),
            current,
            expected,
        )
    }
}

/// Correction necessity: an alteration needs a rebuild unless all its changes
/// add columns, and one that only adds columns passes through unmodified,
/// whatever the snapshots hold.
pub proof fn lemma_additions_pass_through(
    schema_name: Seq<char>,
    alter: AlterTableView,
    current: SchemaView,
    expected: SchemaView,
)
    ensures
        needs_correction(alter) <==> !(forall|i: int|
            0 <= i < alter.changes.len() ==> #[trigger] alter.changes[i] is AddColumn),
        !needs_correction(alter) ==> corrected_step(
            schema_name,
            StepView::AlterTable(alter),
            current,
            expected,
        ) == seq![StepView::AlterTable(alter)] && missing_table(
            StepView::AlterTable(alter),
            current,
            expected,
        ) is None,
{
    if !needs_correction(alter) {
        assert forall|i: int| 0 <= i < alter.changes.len() implies #[trigger] alter.changes[i]
            is AddColumn by {
            assert(!unsupported(alter.changes[i]));
        }
    }
}

/// A plan without a step that needs a rebuild is its own correction.
pub proof fn lemma_plan_without_rebuild_is_unchanged(
    schema_name: Seq<char>,
    steps: Seq<StepView>,
    current: SchemaView,
    expected: SchemaView,
)
    requires
        forall|i: int| 0 <= i < steps.len() ==> !is_corrected(#[trigger] steps[i]),
    ensures
        corrected_steps(schema_name, steps, current, expected) == steps,
    decreases steps.len(),
{
    if steps.len() > 0 {
        let rest = steps.drop_last();
        assert forall|i: int| 0 <= i < rest.len() implies !is_corrected(#[trigger] rest[i]) by {
            assert(rest[i] == steps[i]);
        }
        lemma_plan_without_rebuild_is_unchanged(schema_name, rest, current, expected);
        assert(!is_corrected(steps[steps.len() - 1]));
        assert(corrected_steps(schema_name, steps, current, expected) =~= rest + seq![
            steps.last(),
        ]);
        assert(rest + seq![steps.last()] =~= steps);
    } else {
        assert(corrected_steps(schema_name, steps, current, expected) =~= steps);
    }
}

/// Intersection copy: a rebuild copies exactly the columns whose names both
/// tables have, in the order in which the current table holds them.
pub proof fn lemma_copied_columns_are_the_intersection(current: TableView, expected: TableView)
    ensures
        copied_columns(current, expected).to_set() == current.column_names().to_set().intersect(
            expected.column_names().to_set(),
        ),
        forall|i: int, j: int|
            0 <= i < j < copied_columns(current, expected).len() ==> stands_before(
                current.column_names(),
                #[trigger] copied_columns(current, expected)[i],
                #[trigger] copied_columns(current, expected)[j],
            ),
        current.column_names().no_duplicates() ==> copied_columns(
            current,
            expected,
        ).no_duplicates(),
{
    let names = current.column_names();
    let copied = copied_columns(current, expected);
    let both = names.to_set().intersect(expected.column_names().to_set());
    assert forall|n: Seq<char>| copied.to_set().contains(n) <==> both.contains(n) by {
        if copied.contains(n) {
            lemma_filter_member(names, shared_with(expected), n);
        }
        if names.contains(n) && expected.has_column(n) {
            lemma_member_filter(names, shared_with(expected), n);
        }
    }
    assert(copied.to_set() =~= both);
    lemma_filter_keeps_order(names, shared_with(expected));
    if names.no_duplicates() {
        lemma_filter_no_duplicates(names, shared_with(expected));
    }
}

/// A plan without a step that cannot be rebuilt has no first such step.
pub proof fn lemma_no_missing_table(
    steps: Seq<StepView>,
    current: SchemaView,
    expected: SchemaView,
)
    requires
        forall|i: int|
            0 <= i < steps.len() ==> missing_table(#[trigger] steps[i], current, expected) is None,
    ensures
        first_missing_table(steps, current, expected) is None,
    decreases steps.len(),
{
    if steps.len() > 0 {
        assert forall|i: int| 0 <= i < steps.drop_first().len() implies missing_table(
            #[trigger] steps.drop_first()[i],
            current,
            expected,
        ) is None by {
            assert(steps.drop_first()[i] == steps[i + 1]);
        }
        lemma_no_missing_table(steps.drop_first(), current, expected);
    }
}

/// Every alteration that the differ emits is for a table of both snapshots.
pub proof fn lemma_diff_can_be_corrected(current: SchemaView, expected: SchemaView)
    ensures
        first_missing_table(diff_steps(current, expected), current, expected) is None,
{
    let steps = diff_steps(current, expected);
    let created = created_tables(current, expected);
    let altered = altered_tables(current, expected);
    let names = selected_names(current, expected, true);
    assert forall|i: int| 0 <= i < steps.len() implies missing_table(
        #[trigger] steps[i],
        current,
        expected,
    ) is None by {
        if created.len() <= i < created.len() + altered.len() {
            let k = i - created.len();
            let kept = names.filter(changed(current, expected));
            assert(steps[i] == StepView::AlterTable(altered[k]));
            assert(altered[k].table == kept[k]);
            assert(kept.contains(kept[k]));
            lemma_filter_member(names, changed(current, expected), kept[k]);
            lemma_sorted_selection(current.table_names(), membership(expected, true));
        }
    }
    lemma_no_missing_table(steps, current, expected);
}

/// The plan between two snapshots for an engine: the steps of the differ,
/// rewritten for SQLite, and unchanged for the others.
pub open spec fn plan_for(
    engine: Engine,
    schema_name: Seq<char>,
    current: SchemaView,
    expected: SchemaView,
) -> Seq<StepView> {
    match engine {
        Engine::Sqlite => corrected_steps(
            schema_name,
            diff_steps(current, expected),
            current,
            expected,
        ),
        _ => diff_steps(current, expected),
    }
}

/// Plans the steps between two snapshots of one namespace for one engine.
#[derive(Debug, PartialEq, Eq)]
pub struct SqlDatabaseMigrationStepsInferrer {
    pub schema_name: String,
    pub engine: Engine,
}

impl SqlDatabaseMigrationStepsInferrer {
    pub fn new(schema_name: &str, engine: Engine) -> (inferrer: Self)
        ensures
            inferrer.schema_name@ == schema_name@,
            inferrer.engine == engine,
    {
        SqlDatabaseMigrationStepsInferrer { schema_name: String::from_str(schema_name), engine }
    }

    /// The plan that leads from `current` to `expected`: the steps of the
    /// differ, rewritten where the engine needs it. It never fails: the
    /// differ alters only tables that both snapshots have.
    pub fn infer(&self, current: &DatabaseSchema, expected: &DatabaseSchema) -> (plan: Result<
        Vec<SqlMigrationStep>,
        CorrectionError,
    >)
        ensures
            plan is Ok,
            steps_of(plan->Ok_0@) == plan_for(self.engine, self.schema_name@, current@, expected@),
    {
        let steps = DatabaseSchemaDiffer::diff(current, expected, self.schema_name.as_str());
        match self.engine {
            Engine::Sqlite => {
                proof {
                    lemma_diff_can_be_corrected(current@, expected@);
                }
                self.fix_stupid_sqlite(steps, current, expected)
            },
            _ => Ok(steps),
        }
    }

    /// Rewrites a plan for SQLite. Steps that need no rebuild pass through
    /// unchanged and in place. Fails, with no steps at all, where a step
    /// needs a rebuild of a table that one of the snapshots lacks: the error
    /// names the table of the first such step.
    pub fn fix_stupid_sqlite(
        &self,
        steps: Vec<SqlMigrationStep>,
        current_database_schema: &DatabaseSchema,
        next_database_schema: &DatabaseSchema,
    ) -> (fixed: Result<Vec<SqlMigrationStep>, CorrectionError>)
        ensures
            match first_missing_table(
                steps_of(steps@),
                current_database_schema@,
                next_database_schema@,
            ) {
                Some(table) => fixed is Err && fixed->Err_0.table@ == table,
                None => fixed is Ok && steps_of(fixed->Ok_0@) == corrected_steps(
                    self.schema_name@,
                    steps_of(steps@),
                    current_database_schema@,
                    next_database_schema@,
                ),
            },
    {
        let ghost all = steps_of(steps@);
        let ghost current = current_database_schema@;
        let ghost expected = next_database_schema@;
        let mut result: Vec<SqlMigrationStep> = Vec::new();
        let mut i: usize = 0;
        proof {
            assert(all.skip(0) =~= all);
        }
        while i < steps.len()
            invariant
                i <= steps.len(),
                all == steps_of(steps@),
                current == current_database_schema@,
                expected == next_database_schema@,
                first_missing_table(all, current, expected) == first_missing_table(
                    all.skip(i as int),
                    current,
                    expected,
                ),
                steps_of(result@) == corrected_steps(
                    self.schema_name@,
                    all.take(i as int),
                    current,
                    expected,
                ),
            decreases steps.len() - i,
        {
            let ghost before = steps_of(result@);
            proof {
                assert(all.skip(i as int).drop_first() =~= all.skip(i + 1));
                assert(all.take(i + 1).drop_last() =~= all.take(i as int));
            }
            match &steps[i] {
                SqlMigrationStep::AlterTable(alter_table) if self.needs_fix(alter_table) => {
                    let current_table = current_database_schema.table(alter_table.table.as_str());
                    let next_table = next_database_schema.table(alter_table.table.as_str());
                    match (current_table, next_table) {
                        (Some(current_table), Some(next_table)) => {
                            let mut altered_steps = self.fix(
                                alter_table,
                                current_table,
                                next_table,
                            );
                            let ghost added = steps_of(altered_steps@);
                            result.append(&mut altered_steps);
                            proof {
                                assert(steps_of(result@) =~= before + added);
                            }
                        },
                        _ => {
                            return Err(CorrectionError { table: alter_table.table.clone() });
                        },
                    }
                },
                x => {
                    result.push(x.clone());
                    proof {
                        assert(steps_of(result@) =~= before + seq![all[i as int]]);
                    }
                },
            }
            i = i + 1;
        }
        proof {
            assert(all.take(i as int) =~= all);
        }
        Ok(result)
    }

    /// Whether SQLite cannot run an alteration as it stands: it drops or
    /// changes a column. Additions alone never need a rebuild.
    pub fn needs_fix(&self, alter_table: &AlterTable) -> (needed: bool)
        ensures
            needed == needs_correction(alter_table@),
    {
        let mut i: usize = 0;
        while i < alter_table.changes.len()
            invariant
                i <= alter_table.changes.len(),
                forall|j: int| 0 <= j < i ==> !unsupported(#[trigger] alter_table@.changes[j]),
            decreases alter_table.changes.len() - i,
        {
            match &alter_table.changes[i] {
                TableChange::AddColumn { .. } => {},
                TableChange::DropColumn { .. } => {
                    assert(unsupported(alter_table@.changes[i as int]));
                    return true;
                },
                TableChange::AlterColumn { .. } => {
                    assert(unsupported(alter_table@.changes[i as int]));
                    return true;
                },
            }
            i = i + 1;
        }
        false
    }

    /// The names of the columns that both tables have, in the order of
    /// `current`.
    pub fn intersection_columns(current: &Table, next: &Table) -> (columns: Vec<String>)
        ensures
            names_of(columns@) == copied_columns(current@, next@),
    {
        let mut out: Vec<String> = Vec::new();
        let mut i: usize = 0;
        let ghost keep = shared_with(next@);
        let ghost all = current@.column_names();
        while i < current.columns.len()
            invariant
                i <= current.columns.len(),
                keep == shared_with(next@),
                all == current@.column_names(),
                names_of(out@) == all.take(i as int).filter(keep),
            decreases current.columns.len() - i,
        {
            let ghost before = names_of(out@);
            let name = &current.columns[i].name;
            proof {
                lemma_filter_step(all, keep, i as int);
            }
            if next.has_column(name.as_str()) {
                out.push(name.clone());
                proof {
                    assert(names_of(out@) =~= before.push(name@));
                }
            }
            i = i + 1;
        }
        proof {
            assert(all.take(i as int) =~= all);
        }
        out
    }

    /// The rebuild of one table: seven steps, in this order. The new table
    /// has all columns and the primary key of `next`, not only what changed.
    /// Only the columns that both tables have are copied: a dropped column
    /// has no place to go, and an added one has no values yet.
    pub fn fix(&self, _alter_table: &AlterTable, current: &Table, next: &Table) -> (steps: Vec<
        SqlMigrationStep,
    >)
        ensures
            steps_of(steps@) == rebuild_steps(self.schema_name@, current@, next@),
    {
        let mut name_of_temporary_table = String::from_str("new_");
        name_of_temporary_table.append(next.name.as_str());

        let creation = DatabaseSchemaDiffer::create_table(next);
        let create = CreateTable {
            name: name_of_temporary_table.clone(),
            columns: creation.columns,
            primary_columns: creation.primary_columns,
        };

        let intersection_columns = Self::intersection_columns(current, next);
        let columns_string = join(&intersection_columns, ",");
        let mut sql = String::from_str("INSERT INTO ");
        sql.append(name_of_temporary_table.as_str());
        sql.append(" (");
        sql.append(columns_string.as_str());
        sql.append(") SELECT ");
        sql.append(columns_string.as_str());
        sql.append(" FROM ");
        sql.append(next.name.as_str());

        let mut check = String::from_str("PRAGMA ");
        check.append(self.schema_name.as_str());
        check.append(".foreign_key_check;");

        let mut steps: Vec<SqlMigrationStep> = Vec::new();
        steps.push(SqlMigrationStep::RawSql(String::from_str("PRAGMA foreign_keys=OFF;")));
        steps.push(SqlMigrationStep::CreateTable(create));
        steps.push(SqlMigrationStep::RawSql(sql));
        steps.push(SqlMigrationStep::DropTable(DropTable { name: current.name.clone() }));
        steps.push(
            SqlMigrationStep::RenameTable {
                name: name_of_temporary_table,
                new_name: next.name.clone(),
            },
        );
        steps.push(SqlMigrationStep::RawSql(check));
        steps.push(SqlMigrationStep::RawSql(String::from_str("PRAGMA foreign_keys=ON;")));
        proof {
            assert(steps_of(steps@) =~= rebuild_steps(self.schema_name@, current@, next@));
        }
        steps
    }
}

} // verus!
