//! Tests of the statement executor against a real store.  Each test uses a
//! shared in-memory database, named per test and kept alive by one extra
//! connection, so the executor's open-per-call connections all see it.

use sqlbridge::store::Store;
use sqlbridge::value::{DbError, ExternalValue};

const SCHEMA: &str = "CREATE TABLE IF NOT EXISTS t (id INTEGER PRIMARY KEY AUTOINCREMENT, name TEXT);\nCREATE INDEX IF NOT EXISTS idx_t_name ON t(name);";

fn mem_store(tag: &str) -> (rusqlite::Connection, Store) {
    let uri = format!("file:{}?mode=memory&cache=shared", tag);
    let keep_alive = rusqlite::Connection::open(&uri).unwrap();
    (keep_alive, Store::new(uri))
}

#[test]
fn store_path_sits_under_the_data_directory() {
    let store = Store::in_app_dir("base");
    assert_eq!(store.path, "base/data/truckore_data.db");
}

#[test]
fn initialize_is_idempotent() {
    let (_keep, store) = mem_store("init_twice");
    assert!(store.initialize(SCHEMA).is_ok());
    assert!(store.initialize(SCHEMA).is_ok());
    let recs = store
        .run_query(
            "SELECT COUNT(*) AS c FROM sqlite_master WHERE type = 'table' AND name = 't'",
            &vec![],
        )
        .unwrap();
    assert_eq!(
        recs,
        vec![ExternalValue::Object(vec![(String::from("c"), ExternalValue::Int(1))])]
    );
}

#[test]
fn unopenable_store_is_a_connection_error() {
    let store = Store::new(String::from("/no_such_dir_anywhere/sub/store.db"));
    let r = store.initialize(SCHEMA);
    assert!(matches!(r, Err(DbError::Connection(_))));
    let q = store.run_query("SELECT 1", &vec![]);
    assert!(matches!(q, Err(DbError::Connection(_))));
}

#[test]
fn bad_schema_is_a_schema_error() {
    let (_keep, store) = mem_store("bad_schema");
    let r = store.initialize("CREATE NONSENSE;");
    assert!(matches!(r, Err(DbError::Schema(_))));
}

#[test]
fn query_on_missing_table_fails_with_query_error() {
    let (_keep, store) = mem_store("missing_table");
    store.initialize(SCHEMA).unwrap();
    let r = store.run_query("SELECT * FROM missing", &vec![]);
    assert!(matches!(r, Err(DbError::Query(_))));
}

#[test]
fn command_then_query_sees_the_effect() {
    let (_keep, store) = mem_store("insert_select");
    store.initialize(SCHEMA).unwrap();
    store
        .run_command(
            "INSERT INTO t(name) VALUES (?)",
            &vec![ExternalValue::Str(String::from("Alice"))],
        )
        .unwrap();
    let recs = store.run_query("SELECT name FROM t", &vec![]).unwrap();
    assert_eq!(
        recs,
        vec![ExternalValue::Object(vec![(
            String::from("name"),
            ExternalValue::Str(String::from("Alice"))
        )])]
    );
}

#[test]
fn scalar_params_echo_back() {
    let (_keep, store) = mem_store("echo_scalars");
    store.initialize(SCHEMA).unwrap();
    let cases = vec![
        (ExternalValue::Null, ExternalValue::Null),
        (ExternalValue::Int(7), ExternalValue::Int(7)),
        (ExternalValue::Boolean(true), ExternalValue::Int(1)),
        (ExternalValue::Boolean(false), ExternalValue::Int(0)),
        (
            ExternalValue::Str(String::from("hi there")),
            ExternalValue::Str(String::from("hi there")),
        ),
        (
            ExternalValue::Real(String::from("1.5")),
            ExternalValue::Real(String::from("1.5")),
        ),
    ];
    for (input, expected) in cases {
        let recs = store
            .run_query("SELECT ? AS v", &vec![input])
            .unwrap();
        assert_eq!(
            recs,
            vec![ExternalValue::Object(vec![(String::from("v"), expected)])]
        );
    }
}

#[test]
fn composite_param_echoes_back_structurally() {
    let (_keep, store) = mem_store("echo_composite");
    store.initialize(SCHEMA).unwrap();
    let composite = || {
        ExternalValue::Array(vec![
            ExternalValue::Int(1),
            ExternalValue::Object(vec![(
                String::from("k"),
                ExternalValue::Str(String::from("v")),
            )]),
        ])
    };
    let recs = store
        .run_query("SELECT ? AS v", &vec![composite()])
        .unwrap();
    assert_eq!(
        recs,
        vec![ExternalValue::Object(vec![(String::from("v"), composite())])]
    );
}

#[test]
fn blob_column_comes_back_as_base64() {
    let (_keep, store) = mem_store("blob_b64");
    store.initialize(SCHEMA).unwrap();
    let recs = store
        .run_query("SELECT x'010203' AS b", &vec![])
        .unwrap();
    assert_eq!(
        recs,
        vec![ExternalValue::Object(vec![(
            String::from("b"),
            ExternalValue::Str(String::from("AQID"))
        )])]
    );
}

#[test]
fn end_to_end_scenario() {
    let (_keep, store) = mem_store("end_to_end");
    store.initialize(SCHEMA).unwrap();
    store
        .run_command(
            "INSERT INTO t(name) VALUES (?)",
            &vec![ExternalValue::Str(String::from("Alice"))],
        )
        .unwrap();
    let recs = store.run_query("SELECT name FROM t", &vec![]).unwrap();
    assert_eq!(recs.len(), 1);
    assert_eq!(
        recs[0],
        ExternalValue::Object(vec![(
            String::from("name"),
            ExternalValue::Str(String::from("Alice"))
        )])
    );
}
