use sql_migration::database::{
    needs_lookup, plan_write, IdentifierKind, Lookup, ManyRelatedRecordsQueryBuilder,
    ManyRelatedRecordsWithRowNumber, ManyRelatedRecordsWithUnionAll, SqlCapabilities, SqlDatabase,
    WriteAction, WritePlan, WriteQueryKind, WriteQueryResultType,
};
use sql_migration::directive::{
    parse_strategy, Args, Argument, DirectiveError, Field, IdInfo, IdStrategy,
    PrimaryDirectiveValidator,
};
use sql_migration::schema::{Column, ColumnType, DatabaseSchema, Table};
use sql_migration::steps::{wrap_as_step, DropTable, SqlMigrationStep};
use sql_migration::text::{
    find_name, has_no_duplicates, join, sort_names, starts_with, str_eq, str_le,
};

fn names(list: &[&str]) -> Vec<String> {
    list.iter().map(|n| n.to_string()).collect()
}

#[test]
fn texts_compare_as_rust_strings_do() {
    let samples = ["", "a", "ab", "b", "B", "é", "z", "zz", "new_users", "users", "日本"];
    for a in samples {
        for b in samples {
            assert_eq!(str_eq(a, b), a == b, "{:?} {:?}", a, b);
            assert_eq!(str_le(a, b), a <= b, "{:?} {:?}", a, b);
        }
    }
}

#[test]
fn prefixes_are_found() {
    assert!(starts_with("VARCHAR(10)", "VARCHAR"));
    assert!(starts_with("VARCHAR", "VARCHAR"));
    assert!(starts_with("anything", ""));
    assert!(!starts_with("VARCHA", "VARCHAR"));
    assert!(!starts_with("xVARCHAR", "VARCHAR"));
    assert!(starts_with("éa", "é"));
    assert!(!starts_with("", "a"));
}

#[test]
fn names_are_sorted_ascending() {
    assert_eq!(
        sort_names(&names(&["users", "Orders", "a", "", "b", "a", "ab"])),
        names(&["", "Orders", "a", "a", "ab", "b", "users"])
    );
    assert_eq!(sort_names(&names(&[])), names(&[]));
    let mut expected = names(&["z", "é", "y", "日本", "x"]);
    let sorted = sort_names(&expected);
    expected.sort();
    assert_eq!(sorted, expected);
}

#[test]
fn names_are_joined_with_a_separator() {
    assert_eq!(join(&names(&[]), ","), "");
    assert_eq!(join(&names(&["a"]), ","), "a");
    assert_eq!(join(&names(&["a", "b", "c"]), ","), "a,b,c");
    assert_eq!(join(&names(&["a", "", "c"]), ", "), "a, , c");
}

#[test]
fn names_are_found_and_checked_for_duplicates() {
    let list = names(&["a", "b", "a"]);
    assert_eq!(find_name(&list, "a"), Some(0));
    assert_eq!(find_name(&list, "b"), Some(1));
    assert_eq!(find_name(&list, "c"), None);
    assert!(!has_no_duplicates(&list));
    assert!(has_no_duplicates(&names(&["a", "b"])));
    assert!(has_no_duplicates(&names(&[])));
}

#[test]
fn steps_are_wrapped_in_order() {
    let drops = vec![
        DropTable { name: "b".to_string() },
        DropTable { name: "a".to_string() },
        DropTable { name: "c".to_string() },
    ];
    assert_eq!(
        wrap_as_step(drops, |d| SqlMigrationStep::DropTable(d)),
        vec![
            SqlMigrationStep::DropTable(DropTable { name: "b".to_string() }),
            SqlMigrationStep::DropTable(DropTable { name: "a".to_string() }),
            SqlMigrationStep::DropTable(DropTable { name: "c".to_string() }),
        ]
    );
    let none: Vec<String> = vec![];
    assert_eq!(wrap_as_step(none, |s| SqlMigrationStep::RawSql(s)), vec![]);
}

fn column(name: &str) -> Column {
    Column {
        name: name.to_string(),
        tpe: ColumnType::Int,
        is_required: true,
        default: None,
        key_ordinal: 0,
    }
}

fn table(name: &str, columns: &[&str], key: Option<&[&str]>) -> Table {
    Table {
        name: name.to_string(),
        columns: columns.iter().map(|c| column(c)).collect(),
        primary_key: key.map(names),
        foreign_keys: vec![],
        indexes: vec![],
    }
}

#[test]
fn lookups_find_the_first_of_a_name() {
    let t = table("t", &["a", "b"], None);
    assert_eq!(t.column("b"), Some(&column("b")));
    assert_eq!(t.column("c"), None);
    assert!(t.has_column("a"));
    assert!(!t.has_column("A"));
    assert_eq!(t.column_names(), names(&["a", "b"]));
    let s = DatabaseSchema { tables: vec![table("x", &["a"], None), table("y", &[], None)] };
    assert_eq!(s.table("y"), Some(&table("y", &[], None)));
    assert_eq!(s.table("z"), None);
    assert!(s.has_table("x"));
    assert!(!s.has_table(""));
    assert_eq!(s.table_names(), names(&["x", "y"]));
}

#[test]
fn well_formed_snapshots_have_unique_names_and_keys_over_columns() {
    assert!(table("t", &["a", "b"], Some(&["b", "a"])).is_well_formed());
    assert!(table("t", &[], None).is_well_formed());
    assert!(table("t", &["a"], Some(&[])).is_well_formed());
    assert!(!table("t", &["a", "a"], None).is_well_formed());
    assert!(!table("t", &["a", "b"], Some(&["c"])).is_well_formed());
    assert!(!table("t", &["a", "b"], Some(&["a", "a"])).is_well_formed());
    let good = DatabaseSchema { tables: vec![table("x", &["a"], None), table("y", &[], None)] };
    assert!(good.is_well_formed());
    let twice = DatabaseSchema { tables: vec![table("x", &["a"], None), table("x", &[], None)] };
    assert!(!twice.is_well_formed());
    let inner = DatabaseSchema { tables: vec![table("x", &["a", "a"], None)] };
    assert!(!inner.is_well_formed());
    assert!(DatabaseSchema { tables: vec![] }.is_well_formed());
}

fn args(list: &[(&str, &str)]) -> Args {
    Args {
        arguments: list
            .iter()
            .map(|(n, v)| Argument { name: n.to_string(), value: v.to_string() })
            .collect(),
    }
}

#[test]
fn primary_directive_sets_the_strategy() {
    let validator = PrimaryDirectiveValidator {};
    assert_eq!(validator.directive_name(), "primary");
    let mut field = Field { name: "id".to_string(), id_info: None };
    assert_eq!(validator.validate_and_apply(&args(&[]), &mut field), Ok(()));
    assert_eq!(field.id_info, Some(IdInfo { strategy: IdStrategy::Auto, has_sequence: false }));
    assert_eq!(validator.validate_and_apply(&args(&[("name", "NONE")]), &mut field), Ok(()));
    assert_eq!(
        field.id_info,
        Some(IdInfo { strategy: IdStrategy::NoStrategy, has_sequence: false })
    );
    assert_eq!(
        validator.validate_and_apply(&args(&[("other", "x"), ("name", "AUTO")]), &mut field),
        Ok(())
    );
    assert_eq!(field.id_info, Some(IdInfo { strategy: IdStrategy::Auto, has_sequence: false }));
    assert_eq!(field.name, "id");
}

#[test]
fn primary_directive_rejects_an_unknown_strategy() {
    let validator = PrimaryDirectiveValidator {};
    let mut field = Field { name: "id".to_string(), id_info: None };
    assert_eq!(
        validator.validate_and_apply(&args(&[("name", "auto")]), &mut field),
        Err(DirectiveError { directive: "primary".to_string(), literal: "auto".to_string() })
    );
    assert_eq!(field, Field { name: "id".to_string(), id_info: None });
    assert_eq!(parse_strategy("AUTO"), Some(IdStrategy::Auto));
    assert_eq!(parse_strategy("NONE"), Some(IdStrategy::NoStrategy));
    assert_eq!(parse_strategy(""), None);
}

struct Executor {
    label: u8,
}

impl SqlCapabilities for Executor {
    type ManyRelatedRecordsBuilder = ManyRelatedRecordsWithUnionAll;
}

#[test]
fn database_wraps_its_executor() {
    let database = SqlDatabase::new(Executor { label: 7 });
    assert_eq!(database.executor.label, 7);
    assert!(!<Executor as SqlCapabilities>::ManyRelatedRecordsBuilder::uses_row_number());
    assert!(ManyRelatedRecordsWithRowNumber::uses_row_number());
}

#[test]
fn writes_are_planned_by_kind() {
    let plan = |action, identifier, typ| Some(WritePlan { action, identifier, typ });
    for lookup in [Lookup::Found, Lookup::NotFound, Lookup::Failed] {
        assert_eq!(
            plan_write(WriteQueryKind::CreateRecord, lookup),
            plan(WriteAction::Create, IdentifierKind::Id, WriteQueryResultType::Create)
        );
        assert_eq!(
            plan_write(WriteQueryKind::UpdateRecord, lookup),
            plan(WriteAction::Update, IdentifierKind::Id, WriteQueryResultType::Update)
        );
        assert_eq!(
            plan_write(WriteQueryKind::UpdateManyRecords, lookup),
            plan(WriteAction::UpdateMany, IdentifierKind::Count, WriteQueryResultType::Many)
        );
        assert_eq!(
            plan_write(WriteQueryKind::DeleteRecord, lookup),
            plan(WriteAction::Delete, IdentifierKind::Record, WriteQueryResultType::Delete)
        );
        assert_eq!(
            plan_write(WriteQueryKind::DeleteManyRecords, lookup),
            plan(WriteAction::DeleteMany, IdentifierKind::Count, WriteQueryResultType::Many)
        );
        assert_eq!(
            plan_write(WriteQueryKind::ResetData, lookup),
            plan(WriteAction::Truncate, IdentifierKind::Nothing, WriteQueryResultType::Unit)
        );
    }
    assert_eq!(
        plan_write(WriteQueryKind::UpsertRecord, Lookup::Found),
        plan(WriteAction::Update, IdentifierKind::Id, WriteQueryResultType::Update)
    );
    assert_eq!(
        plan_write(WriteQueryKind::UpsertRecord, Lookup::NotFound),
        plan(WriteAction::Create, IdentifierKind::Id, WriteQueryResultType::Create)
    );
    assert_eq!(plan_write(WriteQueryKind::UpsertRecord, Lookup::Failed), None);
    assert!(needs_lookup(WriteQueryKind::UpsertRecord));
    assert!(!needs_lookup(WriteQueryKind::CreateRecord));
    assert!(!needs_lookup(WriteQueryKind::ResetData));
}
