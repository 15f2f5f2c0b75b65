use std::collections::BTreeMap;

use sql_migration::differ::DatabaseSchemaDiffer;
use sql_migration::inferrer::{CorrectionError, Engine, SqlDatabaseMigrationStepsInferrer};
use sql_migration::schema::{Column, ColumnType, DatabaseSchema, ForeignKey, Table};
use sql_migration::steps::{
    AlterTable, ColumnDescription, CreateTable, DropTable, Reference, SqlMigrationStep,
    TableChange,
};

fn column(name: &str, tpe: ColumnType, is_required: bool) -> Column {
    Column { name: name.to_string(), tpe, is_required, default: None, key_ordinal: 0 }
}

fn table(name: &str, columns: Vec<Column>, key: &[&str]) -> Table {
    Table {
        name: name.to_string(),
        columns,
        primary_key: if key.is_empty() {
            None
        } else {
            Some(key.iter().map(|k| k.to_string()).collect())
        },
        foreign_keys: vec![],
        indexes: vec![],
    }
}

fn description(name: &str, tpe: ColumnType, required: bool) -> ColumnDescription {
    ColumnDescription { name: name.to_string(), tpe, required, default: None, foreign_key: None }
}

fn users_before() -> DatabaseSchema {
    DatabaseSchema {
        tables: vec![table(
            "users",
            vec![column("id", ColumnType::Int, true), column("name", ColumnType::String, false)],
            &["id"],
        )],
    }
}

fn users_after() -> DatabaseSchema {
    DatabaseSchema {
        tables: vec![table(
            "users",
            vec![column("id", ColumnType::Int, true), column("email", ColumnType::String, true)],
            &["id"],
        )],
    }
}

#[test]
fn diff_of_a_snapshot_with_itself_is_empty() {
    let s = users_before();
    assert_eq!(DatabaseSchemaDiffer::diff(&s, &s, "main"), vec![]);
    let empty = DatabaseSchema { tables: vec![] };
    assert_eq!(DatabaseSchemaDiffer::diff(&empty, &empty, "main"), vec![]);
}

#[test]
fn diff_drops_then_adds_in_one_alter_table() {
    let steps = DatabaseSchemaDiffer::diff(&users_before(), &users_after(), "main");
    assert_eq!(
        steps,
        vec![SqlMigrationStep::AlterTable(AlterTable {
            table: "users".to_string(),
            changes: vec![
                TableChange::DropColumn { name: "name".to_string() },
                TableChange::AddColumn { column: description("email", ColumnType::String, true) },
            ],
        })]
    );
}

#[test]
fn sqlite_plan_rebuilds_the_table() {
    let inferrer = SqlDatabaseMigrationStepsInferrer::new("main", Engine::Sqlite);
    let plan = inferrer.infer(&users_before(), &users_after());
    assert_eq!(
        plan,
        Ok(vec![
            SqlMigrationStep::RawSql("PRAGMA foreign_keys=OFF;".to_string()),
            SqlMigrationStep::CreateTable(CreateTable {
                name: "new_users".to_string(),
                columns: vec![
                    description("id", ColumnType::Int, true),
                    description("email", ColumnType::String, true),
                ],
                primary_columns: vec!["id".to_string()],
            }),
            SqlMigrationStep::RawSql(
                "INSERT INTO new_users (id) SELECT id FROM users".to_string()
            ),
            SqlMigrationStep::DropTable(DropTable { name: "users".to_string() }),
            SqlMigrationStep::RenameTable {
                name: "new_users".to_string(),
                new_name: "users".to_string(),
            },
            SqlMigrationStep::RawSql("PRAGMA main.foreign_key_check;".to_string()),
            SqlMigrationStep::RawSql("PRAGMA foreign_keys=ON;".to_string()),
        ])
    );
}

#[test]
fn other_engines_keep_the_plan_of_the_differ() {
    let inferrer = SqlDatabaseMigrationStepsInferrer::new("main", Engine::Postgres);
    let plan = inferrer.infer(&users_before(), &users_after());
    assert_eq!(plan, Ok(DatabaseSchemaDiffer::diff(&users_before(), &users_after(), "main")));
    let inferrer = SqlDatabaseMigrationStepsInferrer::new("main", Engine::Mysql);
    let plan = inferrer.infer(&users_before(), &users_after());
    assert_eq!(plan, Ok(DatabaseSchemaDiffer::diff(&users_before(), &users_after(), "main")));
}

#[test]
fn needs_fix_only_for_drops_and_alterations() {
    let inferrer = SqlDatabaseMigrationStepsInferrer::new("main", Engine::Sqlite);
    let add = || TableChange::AddColumn { column: description("a", ColumnType::Int, false) };
    let drop = || TableChange::DropColumn { name: "b".to_string() };
    let alter = || TableChange::AlterColumn {
        name: "c".to_string(),
        column: description("c", ColumnType::Float, false),
    };
    let with = |changes: Vec<TableChange>| AlterTable { table: "t".to_string(), changes };
    assert!(!inferrer.needs_fix(&with(vec![])));
    assert!(!inferrer.needs_fix(&with(vec![add()])));
    assert!(!inferrer.needs_fix(&with(vec![add(), add()])));
    assert!(inferrer.needs_fix(&with(vec![drop()])));
    assert!(inferrer.needs_fix(&with(vec![alter()])));
    assert!(inferrer.needs_fix(&with(vec![add(), add(), drop()])));
    assert!(inferrer.needs_fix(&with(vec![add(), alter(), add()])));
}

#[test]
fn additions_alone_pass_through_unmodified() {
    let inferrer = SqlDatabaseMigrationStepsInferrer::new("main", Engine::Sqlite);
    let before = DatabaseSchema {
        tables: vec![table("users", vec![column("id", ColumnType::Int, true)], &["id"])],
    };
    let plan = inferrer.infer(&before, &users_after());
    assert_eq!(
        plan,
        Ok(vec![SqlMigrationStep::AlterTable(AlterTable {
            table: "users".to_string(),
            changes: vec![TableChange::AddColumn {
                column: description("email", ColumnType::String, true)
            }],
        })])
    );
}

#[test]
fn copied_columns_are_the_intersection_in_current_order() {
    let current = table(
        "t",
        vec![
            column("d", ColumnType::Int, true),
            column("a", ColumnType::Int, true),
            column("c", ColumnType::Int, true),
            column("b", ColumnType::Int, true),
        ],
        &[],
    );
    let next = table(
        "t",
        vec![
            column("a", ColumnType::Int, true),
            column("b", ColumnType::Int, true),
            column("d", ColumnType::Int, true),
            column("e", ColumnType::Int, true),
        ],
        &[],
    );
    assert_eq!(
        SqlDatabaseMigrationStepsInferrer::intersection_columns(&current, &next),
        vec!["d".to_string(), "a".to_string(), "b".to_string()]
    );
    let inferrer = SqlDatabaseMigrationStepsInferrer::new("db", Engine::Sqlite);
    let alter = AlterTable { table: "t".to_string(), changes: vec![] };
    let steps = inferrer.fix(&alter, &current, &next);
    assert_eq!(steps.len(), 7);
    assert_eq!(
        steps[2],
        SqlMigrationStep::RawSql("INSERT INTO new_t (d,a,b) SELECT d,a,b FROM t".to_string())
    );
    assert_eq!(steps[5], SqlMigrationStep::RawSql("PRAGMA db.foreign_key_check;".to_string()));
}

#[test]
fn correction_fails_on_a_table_that_a_snapshot_lacks() {
    let inferrer = SqlDatabaseMigrationStepsInferrer::new("main", Engine::Sqlite);
    let steps = || {
        vec![
            SqlMigrationStep::DropTable(DropTable { name: "x".to_string() }),
            SqlMigrationStep::AlterTable(AlterTable {
                table: "ghosts".to_string(),
                changes: vec![TableChange::DropColumn { name: "name".to_string() }],
            }),
            SqlMigrationStep::AlterTable(AlterTable {
                table: "users".to_string(),
                changes: vec![TableChange::DropColumn { name: "name".to_string() }],
            }),
        ]
    };
    assert_eq!(
        inferrer.fix_stupid_sqlite(steps(), &users_before(), &users_after()),
        Err(CorrectionError { table: "ghosts".to_string() })
    );
    let empty = DatabaseSchema { tables: vec![] };
    assert_eq!(
        inferrer.fix_stupid_sqlite(steps(), &users_before(), &empty),
        Err(CorrectionError { table: "ghosts".to_string() })
    );
}

#[test]
fn correction_keeps_the_order_of_the_steps() {
    let inferrer = SqlDatabaseMigrationStepsInferrer::new("main", Engine::Sqlite);
    let steps = vec![
        SqlMigrationStep::RawSql("SELECT 1".to_string()),
        SqlMigrationStep::AlterTable(AlterTable {
            table: "users".to_string(),
            changes: vec![TableChange::DropColumn { name: "name".to_string() }],
        }),
        SqlMigrationStep::DropTable(DropTable { name: "x".to_string() }),
    ];
    let fixed = inferrer.fix_stupid_sqlite(steps, &users_before(), &users_after()).unwrap();
    assert_eq!(fixed.len(), 9);
    assert_eq!(fixed[0], SqlMigrationStep::RawSql("SELECT 1".to_string()));
    assert_eq!(fixed[1], SqlMigrationStep::RawSql("PRAGMA foreign_keys=OFF;".to_string()));
    assert_eq!(fixed[7], SqlMigrationStep::RawSql("PRAGMA foreign_keys=ON;".to_string()));
    assert_eq!(fixed[8], SqlMigrationStep::DropTable(DropTable { name: "x".to_string() }));
}

#[test]
fn diff_orders_classes_and_names() {
    let current = DatabaseSchema {
        tables: vec![
            table("zeta", vec![column("id", ColumnType::Int, true)], &[]),
            table("beta", vec![column("id", ColumnType::Int, true)], &[]),
            table("old_b", vec![], &[]),
            table("old_a", vec![], &[]),
        ],
    };
    let expected = DatabaseSchema {
        tables: vec![
            table("new_b", vec![column("id", ColumnType::Int, true)], &["id"]),
            table("beta", vec![column("id", ColumnType::Float, true)], &[]),
            table("new_a", vec![], &[]),
            table("zeta", vec![column("id", ColumnType::Int, false)], &[]),
        ],
    };
    let steps = DatabaseSchemaDiffer::diff(&current, &expected, "main");
    assert_eq!(
        steps,
        vec![
            SqlMigrationStep::CreateTable(CreateTable {
                name: "new_a".to_string(),
                columns: vec![],
                primary_columns: vec![],
            }),
            SqlMigrationStep::CreateTable(CreateTable {
                name: "new_b".to_string(),
                columns: vec![description("id", ColumnType::Int, true)],
                primary_columns: vec!["id".to_string()],
            }),
            SqlMigrationStep::AlterTable(AlterTable {
                table: "beta".to_string(),
                changes: vec![TableChange::AlterColumn {
                    name: "id".to_string(),
                    column: description("id", ColumnType::Float, true),
                }],
            }),
            SqlMigrationStep::AlterTable(AlterTable {
                table: "zeta".to_string(),
                changes: vec![TableChange::AlterColumn {
                    name: "id".to_string(),
                    column: description("id", ColumnType::Int, false),
                }],
            }),
            SqlMigrationStep::DropTable(DropTable { name: "old_a".to_string() }),
            SqlMigrationStep::DropTable(DropTable { name: "old_b".to_string() }),
        ]
    );
}

#[test]
fn foreign_keys_and_defaults_are_rendered_and_compared() {
    let mut orders = table(
        "orders",
        vec![column("id", ColumnType::Int, true), column("user", ColumnType::Int, true)],
        &["id"],
    );
    let plain = DatabaseSchema {
        tables: vec![table(
            "orders",
            vec![column("id", ColumnType::Int, true), column("user", ColumnType::Int, true)],
            &["id"],
        )],
    };
    orders.foreign_keys.push(ForeignKey {
        name: String::new(),
        table: "orders".to_string(),
        column: "user".to_string(),
        referenced_table: "users".to_string(),
        referenced_column: "id".to_string(),
    });
    orders.columns[0].default = Some("7".to_string());
    let linked = DatabaseSchema { tables: vec![orders] };
    let steps = DatabaseSchemaDiffer::diff(&plain, &linked, "main");
    assert_eq!(
        steps,
        vec![SqlMigrationStep::AlterTable(AlterTable {
            table: "orders".to_string(),
            changes: vec![
                TableChange::AlterColumn {
                    name: "id".to_string(),
                    column: ColumnDescription {
                        name: "id".to_string(),
                        tpe: ColumnType::Int,
                        required: true,
                        default: Some("7".to_string()),
                        foreign_key: None,
                    },
                },
                TableChange::AlterColumn {
                    name: "user".to_string(),
                    column: ColumnDescription {
                        name: "user".to_string(),
                        tpe: ColumnType::Int,
                        required: true,
                        default: None,
                        foreign_key: Some(Reference {
                            table: "users".to_string(),
                            column: "id".to_string(),
                        }),
                    },
                },
            ],
        })]
    );
    assert_eq!(DatabaseSchemaDiffer::diff(&linked, &linked, "main"), vec![]);
}

type Shape = (BTreeMap<String, ColumnDescription>, Vec<String>);

fn shape(columns: &[ColumnDescription], key: &[String]) -> Shape {
    let mut by_name = BTreeMap::new();
    for c in columns {
        by_name.entry(c.name.clone()).or_insert_with(|| c.clone());
    }
    (by_name, key.to_vec())
}

fn structure(schema: &DatabaseSchema) -> BTreeMap<String, Shape> {
    let mut tables = BTreeMap::new();
    for t in &schema.tables {
        let key = t.primary_key.clone().unwrap_or_default();
        tables.insert(t.name.clone(), shape(&DatabaseSchemaDiffer::column_descriptions(t), &key));
    }
    tables
}

fn run(database: &mut BTreeMap<String, Shape>, step: &SqlMigrationStep) {
    match step {
        SqlMigrationStep::CreateTable(c) => {
            database.insert(c.name.clone(), shape(&c.columns, &c.primary_columns));
        }
        SqlMigrationStep::AlterTable(a) => {
            if let Some((columns, _)) = database.get_mut(&a.table) {
                for change in &a.changes {
                    match change {
                        TableChange::AddColumn { column } => {
                            columns.insert(column.name.clone(), column.clone());
                        }
                        TableChange::DropColumn { name } => {
                            columns.remove(name);
                        }
                        TableChange::AlterColumn { name, column } => {
                            columns.remove(name);
                            columns.insert(column.name.clone(), column.clone());
                        }
                    }
                }
            }
        }
        SqlMigrationStep::DropTable(d) => {
            database.remove(&d.name);
        }
        SqlMigrationStep::RenameTable { name, new_name } => {
            if let Some(table) = database.remove(name) {
                database.insert(new_name.clone(), table);
            }
        }
        SqlMigrationStep::RawSql(_) => {}
    }
}

fn shop_before() -> DatabaseSchema {
    let mut orders = table(
        "orders",
        vec![
            column("id", ColumnType::Int, true),
            column("user", ColumnType::Int, true),
            column("note", ColumnType::String, false),
        ],
        &["id"],
    );
    orders.foreign_keys.push(ForeignKey {
        name: String::new(),
        table: "orders".to_string(),
        column: "user".to_string(),
        referenced_table: "users".to_string(),
        referenced_column: "id".to_string(),
    });
    DatabaseSchema {
        tables: vec![
            table(
                "users",
                vec![column("id", ColumnType::Int, true), column("name", ColumnType::String, false)],
                &["id"],
            ),
            orders,
            table("audit", vec![column("at", ColumnType::DateTime, true)], &[]),
            table("same", vec![column("x", ColumnType::Boolean, true)], &["x"]),
            table("grows", vec![column("a", ColumnType::Int, true)], &[]),
        ],
    }
}

fn shop_after() -> DatabaseSchema {
    DatabaseSchema {
        tables: vec![
            table("same", vec![column("x", ColumnType::Boolean, true)], &["x"]),
            table(
                "orders",
                vec![
                    column("user", ColumnType::Int, false),
                    column("id", ColumnType::Int, true),
                    column("total", ColumnType::Float, true),
                ],
                &["id", "user"],
            ),
            table(
                "grows",
                vec![column("b", ColumnType::String, false), column("a", ColumnType::Int, true)],
                &[],
            ),
            table(
                "users",
                vec![column("id", ColumnType::Int, true), column("email", ColumnType::String, true)],
                &["id"],
            ),
            table("tags", vec![column("tag", ColumnType::String, true)], &["tag"]),
        ],
    }
}

#[test]
fn sqlite_plan_leads_to_the_expected_structure() {
    let inferrer = SqlDatabaseMigrationStepsInferrer::new("main", Engine::Sqlite);
    for (current, expected) in [
        (users_before(), users_after()),
        (users_after(), users_before()),
        (shop_before(), shop_after()),
        (shop_after(), shop_before()),
        (DatabaseSchema { tables: vec![] }, shop_after()),
        (shop_before(), DatabaseSchema { tables: vec![] }),
    ] {
        assert!(current.is_well_formed() && expected.is_well_formed());
        let plan = inferrer.infer(&current, &expected).unwrap();
        let mut database = structure(&current);
        for step in &plan {
            run(&mut database, step);
        }
        assert_eq!(database, structure(&expected));
    }
}

#[test]
fn plain_plan_leads_to_the_expected_structure() {
    let inferrer = SqlDatabaseMigrationStepsInferrer::new("public", Engine::Postgres);
    let mut before = shop_before();
    before.tables[1].primary_key = Some(vec!["id".to_string(), "user".to_string()]);
    for (current, expected) in [(users_before(), users_after()), (before, shop_after())] {
        let plan = inferrer.infer(&current, &expected).unwrap();
        let mut database = structure(&current);
        for step in &plan {
            run(&mut database, step);
        }
        assert_eq!(database, structure(&expected));
    }
}

#[test]
fn shop_plan_has_the_classes_in_order() {
    let inferrer = SqlDatabaseMigrationStepsInferrer::new("main", Engine::Sqlite);
    let plan = inferrer.infer(&shop_before(), &shop_after()).unwrap();
    let kinds: Vec<String> = plan
        .iter()
        .map(|s| match s {
            SqlMigrationStep::CreateTable(c) => format!("create {}", c.name),
            SqlMigrationStep::AlterTable(a) => format!("alter {}", a.table),
            SqlMigrationStep::DropTable(d) => format!("drop {}", d.name),
            SqlMigrationStep::RenameTable { name, new_name } => {
                format!("rename {} {}", name, new_name)
            }
            SqlMigrationStep::RawSql(sql) => format!("sql {}", sql),
        })
        .collect();
    assert_eq!(
        kinds,
        vec![
            "create tags",
            "alter grows",
            "sql PRAGMA foreign_keys=OFF;",
            "create new_orders",
            "sql INSERT INTO new_orders (id,user) SELECT id,user FROM orders",
            "drop orders",
            "rename new_orders orders",
            "sql PRAGMA main.foreign_key_check;",
            "sql PRAGMA foreign_keys=ON;",
            "sql PRAGMA foreign_keys=OFF;",
            "create new_users",
            "sql INSERT INTO new_users (id) SELECT id FROM users",
            "drop users",
            "rename new_users users",
            "sql PRAGMA main.foreign_key_check;",
            "sql PRAGMA foreign_keys=ON;",
            "drop audit",
        ]
    );
}
