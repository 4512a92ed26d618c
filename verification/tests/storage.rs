//! The storage operations, on a database in memory.
use browser_core::storage::client_storage;
use browser_core::storage::client_storage_shared as shared;
use browser_core::storage::client_storage_shared::{Mode, StorageIdentifier, StorageType};
use browser_core::storage::key_path::{decode_key_path, encode_key_path, KeyPath};
use browser_core::storage::object_data;
use browser_core::storage::object_data::{KeyRange, PutItemResult};
use browser_core::storage::object_store;
use browser_core::storage::object_store::{CreateObjectResult, ObjectStoreModel};
use browser_core::storage::ohos_rdb::{
    column_text, ensure_success, finish, into_handle, next_row, plan_text, required_text,
    required_texts, OhosRdbError, OhosRdbValues, TextRead, BLOB_COLUMN_TYPE, INT64_COLUMN_TYPE,
    NULL_COLUMN_TYPE, RDB_E_STEP_RESULT_IS_AFTER_LAST, RDB_OK, TEXT_COLUMN_TYPE,
};
use browser_core::storage::sql::{Reply, Request, Run, SqlValue, Statement, StorageError};
use browser_core::storage::webstorage;
use browser_core::storage::webstorage::{
    select_backend, Backend, OriginEntry, TwinEngine, TwinError, WebStorageEngine,
};
use rusqlite::types::Value;
use rusqlite::{params_from_iter, Connection, Error};

fn bound(statement: &Statement) -> Vec<Value> {
    statement
        .values
        .iter()
        .map(|value| match value {
            SqlValue::Null => Value::Null,
            SqlValue::Int(n) => Value::Integer(*n),
            SqlValue::Text(text) => Value::Text(text.clone()),
            SqlValue::Blob(bytes) => Value::Blob(bytes.clone()),
        })
        .collect()
}

fn rows(connection: &Connection, statement: &Statement) -> Result<Vec<Vec<Value>>, Error> {
    let mut prepared = connection.prepare(&statement.sql)?;
    let columns = prepared.column_count();
    let mut rows = prepared.query(params_from_iter(bound(statement)))?;
    let mut found = Vec::new();
    while let Some(row) = rows.next()? {
        let mut values = Vec::new();
        for column in 0..columns {
            values.push(row.get::<usize, Value>(column)?);
        }
        found.push(values);
    }
    Ok(found)
}

fn text_of(value: &Value) -> Option<String> {
    match value {
        Value::Text(text) => Some(text.clone()),
        _ => None,
    }
}

/// Carry out a request.
fn reply(connection: &Connection, request: &Request) -> Result<Reply, Error> {
    Ok(match request {
        Request::Execute(statement) => {
            connection.execute(&statement.sql, params_from_iter(bound(statement)))?;
            Reply::Done
        },
        Request::QueryI64(statement) => Reply::Int(
            rows(connection, statement)?
                .first()
                .and_then(|row| match row[0] {
                    Value::Integer(n) => Some(n),
                    _ => None,
                }),
        ),
        Request::QueryText(statement) => Reply::Text(
            rows(connection, statement)?
                .first()
                .and_then(|row| text_of(&row[0])),
        ),
        Request::QueryBlob(statement) => Reply::Blob(
            rows(connection, statement)?
                .first()
                .and_then(|row| match &row[0] {
                    Value::Blob(bytes) => Some(bytes.clone()),
                    _ => None,
                }),
        ),
        Request::ListText(statement) => Reply::Texts(
            rows(connection, statement)?
                .iter()
                .filter_map(|row| text_of(&row[0]))
                .collect(),
        ),
        Request::ListPairs(statement) => Reply::Pairs(
            rows(connection, statement)?
                .iter()
                .map(|row| (text_of(&row[0]), text_of(&row[1])))
                .collect(),
        ),
        Request::Commit | Request::CreateDirectory(_) | Request::RemoveDirectory(_) => Reply::Done,
        Request::DirectorySizes(paths) => Reply::Sizes(paths.iter().map(|_| 100).collect()),
    })
}

/// Run an operation to its end.
fn run<R>(
    connection: &Connection,
    operation: impl Fn(&Vec<Reply>) -> Run<R>,
) -> Result<R, StorageError> {
    let mut replies = Vec::new();
    loop {
        match operation(&replies) {
            Run::Ask(request) => {
                replies.push(reply(connection, &request).unwrap_or(Reply::Failed));
            },
            Run::Stop(error, _) => return Err(error),
            Run::Got(result, _) => return Ok(result),
        }
    }
}

fn connection_with_bucket_mode(mode: &str) -> Connection {
    let connection = Connection::open_in_memory().unwrap();
    connection
        .execute_batch("CREATE TABLE buckets (id INTEGER PRIMARY KEY, mode TEXT);")
        .unwrap();
    connection
        .execute("INSERT INTO buckets (id, mode) VALUES (1, ?1);", [mode])
        .unwrap();
    connection
}

#[test]
fn bucket_mode_parses_stored_modes() {
    let connection = connection_with_bucket_mode("persistent");
    assert_eq!(
        run(&connection, |replies| shared::bucket_mode(1, replies, 0)).unwrap(),
        Mode::Persistent
    );

    let connection = connection_with_bucket_mode("best-effort");
    assert_eq!(
        run(&connection, |replies| shared::bucket_mode(1, replies, 0)).unwrap(),
        Mode::BestEffort
    );
}

#[test]
fn bucket_mode_rejects_unparseable_mode() {
    let connection = connection_with_bucket_mode("garbage-mode");
    assert!(run(&connection, |replies| shared::bucket_mode(1, replies, 0)).is_err());
}

#[test]
fn a_mode_that_is_set_is_read_back() {
    let connection = registry();
    bottle(&connection);
    assert_eq!(
        run(&connection, |replies| shared::bucket_mode(1, replies, 0)).unwrap(),
        Mode::BestEffort
    );
    run(&connection, |replies| {
        shared::set_bucket_mode(1, Mode::Persistent, replies, 0)
    })
    .unwrap();
    assert_eq!(
        run(&connection, |replies| shared::bucket_mode(1, replies, 0)).unwrap(),
        Mode::Persistent
    );
    assert_eq!(Mode::default(), Mode::BestEffort);
    assert!(matches!(
        run(&connection, |replies| shared::bucket_mode(9, replies, 0)),
        Err(StorageError::MissingRow(_))
    ));
}

#[test]
fn key_path_round_trip() {
    let key_path = KeyPath::String("field".to_string());
    let encoded = encode_key_path(&key_path).unwrap();
    let decoded = decode_key_path(&encoded).unwrap();
    assert!(matches!(decoded, KeyPath::String(path) if path == "field"));
}

#[test]
fn key_path_decode_rejects_invalid_bytes() {
    assert!(decode_key_path(&[0xff]).is_err());
    assert!(matches!(
        decode_key_path(&[]),
        Err(StorageError::KeyPath)
    ));
}

#[test]
fn key_paths_have_a_layout() {
    let single = encode_key_path(&KeyPath::String("id".to_owned())).unwrap();
    assert_eq!(single, [0, 2, b'i', b'd']);
    let several =
        encode_key_path(&KeyPath::Sequence(vec!["a".to_owned(), "bc".to_owned()])).unwrap();
    assert_eq!(several, [1, 2, 1, b'a', 2, b'b', b'c']);
    assert!(matches!(
        decode_key_path(&several).unwrap(),
        KeyPath::Sequence(paths) if paths == ["a", "bc"]
    ));
}

/// The A/B switch: with both backends compiled in, the pref decides which
/// one a database is opened on.
#[test]
fn pref_selects_the_backend() {
    assert!(matches!(select_backend(true), Backend::Rdb));
    assert!(matches!(select_backend(false), Backend::Sqlite));
}

#[test]
fn binds_text_int_and_null_values() {
    let mut values = OhosRdbValues::new();

    values.push_text("alpha");
    values.push_int(7);
    values.push_null();

    assert_eq!(values.count(), 3);
    assert_eq!(values.text(0), Some(String::from("alpha")));
    assert_eq!(values.int64(1), Some(7));
    assert!(values.is_null(2));
}

#[test]
fn binds_text_int_and_null_values_preserve_interior_nul() {
    let mut values = OhosRdbValues::new();

    values.push_text("alpha");
    values.push_text("a\0b");
    values.push_int(7);
    values.push_null();

    assert_eq!(values.count(), 4);
    assert_eq!(values.text(0), Some(String::from("alpha")));
    assert_eq!(values.text(1), Some(String::from("a\0b")));
    assert_eq!(values.int64(2), Some(7));
    assert!(values.is_null(3));
    assert_eq!(values.column_type(0), 3);
    assert_eq!(values.column_type(1), 4);
    assert_eq!(values.column_type(2), INT64_COLUMN_TYPE);
    assert_eq!(values.column_type(3), NULL_COLUMN_TYPE);
    assert!(matches!(values.value(1), SqlValue::Blob(bytes) if bytes == b"a\0b"));
}

/// A column of a row as a text, read as planned.
fn read_text(column_type: i32, bytes: &[u8]) -> Option<String> {
    let read = plan_text(false, column_type, bytes.len());
    let buffer = match read {
        TextRead::Null | TextRead::Empty => Vec::new(),
        TextRead::Blob(len) => {
            assert_eq!(len, bytes.len());
            bytes.to_vec()
        },
        TextRead::Text(len) => {
            assert!(len > bytes.len());
            let mut buffer = bytes.to_vec();
            buffer.resize(len, 0);
            buffer
        },
    };
    column_text(read, &buffer)
}

#[test]
fn cursor_helpers_iterate_rows_and_decode_values() {
    assert!(next_row(RDB_OK).unwrap());
    assert_eq!(
        read_text(BLOB_COLUMN_TYPE, b"a\0b"),
        Some(String::from("a\0b"))
    );
    assert!(next_row(RDB_OK).unwrap());
    assert_eq!(
        read_text(BLOB_COLUMN_TYPE, b"bob"),
        Some(String::from("bob"))
    );
    assert!(!next_row(RDB_E_STEP_RESULT_IS_AFTER_LAST).unwrap());
}

#[test]
fn text_dispatch_uses_column_type() {
    assert_eq!(
        read_text(TEXT_COLUMN_TYPE, b"alpha"),
        Some(String::from("alpha"))
    );
    assert_eq!(
        read_text(BLOB_COLUMN_TYPE, b"a\0b"),
        Some(String::from("a\0b"))
    );
    assert_eq!(plan_text(true, TEXT_COLUMN_TYPE, 4), TextRead::Null);
    assert_eq!(read_text(BLOB_COLUMN_TYPE, b""), Some(String::new()));
}

#[test]
fn rdb_errors_say_what_failed() {
    assert!(ensure_success(RDB_OK, "OH_Rdb_Execute").is_ok());
    let error = ensure_success(-3, "OH_Rdb_Execute").unwrap_err();
    assert!(matches!(&error, OhosRdbError::Api { code: -3, .. }));
    assert!(error.message().contains("OH_Rdb_Execute"));
    assert!(error.message().contains("-3"));
    assert!(matches!(
        into_handle(0, "OH_Cursor"),
        Err(OhosRdbError::NullHandle(_))
    ));
    assert!(matches!(into_handle(8, "OH_Cursor"), Ok(8)));
    assert!(matches!(
        next_row(14_800_025),
        Err(OhosRdbError::Api {
            code: 14_800_025,
            ..
        })
    ));
    assert!(finish(RDB_OK, 9, "commit").is_ok());
    assert!(finish(9, RDB_OK, "commit").is_err());
    assert_eq!(
        required_text(Some("x".to_owned()), "column").unwrap(),
        "x"
    );
    assert!(matches!(
        required_text(None, "column"),
        Err(OhosRdbError::Api { code: -1, .. })
    ));
    assert_eq!(
        required_texts(&vec![Some("a".to_owned()), Some("b".to_owned())]).unwrap(),
        ["a", "b"]
    );
    assert!(required_texts(&vec![Some("a".to_owned()), None]).is_err());
}

/// A database with a store and an index on it, at its first version.
fn database(name: &str, store_name: &str, key_path: Option<KeyPath>, auto: bool) -> Connection {
    let connection = Connection::open_in_memory().unwrap();
    run(&connection, |replies| {
        object_store::init_db(name, "https://example.com", replies)
    })
    .unwrap();
    let created = run(&connection, |replies| {
        object_store::create_store(store_name, &key_path, auto, replies)
    })
    .unwrap();
    assert_eq!(created, CreateObjectResult::Created);
    let created = run(&connection, |replies| {
        object_store::create_index(
            store_name,
            "by_author",
            &KeyPath::String("author".to_owned()),
            false,
            false,
            replies,
        )
    })
    .unwrap();
    assert_eq!(created, CreateObjectResult::Created);
    run(&connection, |replies| object_store::set_version(1, replies)).unwrap();
    connection
}

fn model(connection: &Connection, store_name: &str) -> ObjectStoreModel {
    run(connection, |replies| {
        object_store::object_store_by_name_required(store_name, replies, 0)
    })
    .unwrap()
}

fn put(connection: &Connection, store: &ObjectStoreModel, key: &[u8], value: &[u8]) {
    let result = run(connection, |replies| {
        object_data::put_item(store, &key.to_vec(), &value.to_vec(), true, None, replies)
    });
    assert!(matches!(result, Ok(PutItemResult::Key(stored)) if stored == key));
}

fn only(key: &[u8]) -> KeyRange {
    KeyRange {
        lower: Some(key.to_vec()),
        upper: Some(key.to_vec()),
        lower_open: false,
        upper_open: false,
    }
}

fn all() -> KeyRange {
    KeyRange {
        lower: None,
        upper: None,
        lower_open: false,
        upper_open: false,
    }
}

fn select(
    connection: &Connection,
    column: &str,
    store: &ObjectStoreModel,
    range: &KeyRange,
) -> Vec<Vec<u8>> {
    let statement = object_data::object_data_select_sql(column, store.id, range, None, true);
    rows(connection, &statement)
        .unwrap()
        .into_iter()
        .map(|row| match &row[0] {
            Value::Blob(bytes) => bytes.clone(),
            other => panic!("unexpected column {other:?}"),
        })
        .collect()
}

fn names(connection: &Connection) -> Vec<String> {
    run(connection, object_store::object_store_names).unwrap()
}

fn version(connection: &Connection) -> u64 {
    run(connection, object_store::version).unwrap()
}

#[test]
fn test_indexeddb_roundtrip_and_metadata_persist() {
    let connection = database(
        "indexeddb-roundtrip",
        "books",
        Some(KeyPath::String("id".to_string())),
        false,
    );
    assert_eq!(version(&connection), 1);
    let store = model(&connection, "books");
    assert_eq!(store.name, "books");
    let key_path = run(&connection, |replies| {
        object_store::key_path("books", replies)
    });
    assert!(matches!(key_path.unwrap(), Some(KeyPath::String(path)) if path == "id"));
    assert_eq!(
        run(&connection, |replies| {
            object_store::key_generator_current_number("books", replies)
        })
        .unwrap(),
        None
    );
    let indexes = run(&connection, |replies| object_store::indexes("books", replies)).unwrap();
    assert_eq!(indexes.len(), 1);
    assert_eq!(indexes[0].name, "by_author");
    assert!(matches!(&indexes[0].key_path, KeyPath::String(path) if path == "author"));
    assert!(!indexes[0].multi_entry);
    assert!(!indexes[0].unique);

    put(&connection, &store, b"book-1", b"Moby Dick");
    assert_eq!(
        select(&connection, "data", &store, &only(b"book-1")),
        [b"Moby Dick".to_vec()]
    );
    run(&connection, |replies| {
        object_data::delete_item(&store, &only(b"book-1"), replies)
    })
    .unwrap();
    assert!(select(&connection, "data", &store, &only(b"book-1")).is_empty());

    run(&connection, |replies| {
        object_store::init_db("indexeddb-roundtrip", "https://example.com", replies)
    })
    .unwrap();
    assert_eq!(names(&connection), ["books"]);
    assert_eq!(version(&connection), 1);
    let indexes = run(&connection, |replies| object_store::indexes("books", replies)).unwrap();
    assert_eq!(indexes.len(), 1);
}

#[test]
fn test_indexeddb_store_names_support_nul_bytes() {
    let connection = database(
        "indexeddb-nul",
        "books\0archive",
        Some(KeyPath::String("id".to_string())),
        false,
    );
    assert_eq!(model(&connection, "books\0archive").name, "books\0archive");
    assert_eq!(names(&connection), ["books\0archive"]);
}

#[test]
fn test_indexeddb_version_upgrade_persists_metadata() {
    let connection = database(
        "indexeddb-upgrade",
        "books",
        Some(KeyPath::String("id".to_string())),
        false,
    );
    assert_eq!(version(&connection), 1);
    assert_eq!(names(&connection), ["books"]);
    run(&connection, |replies| object_store::set_version(2, replies)).unwrap();
    assert_eq!(version(&connection), 2);
    assert_eq!(names(&connection), ["books"]);
}

/// Recreating an existing store is not a backend error: the engine reports
/// `AlreadyExists` and leaves the schema alone.
#[test]
fn test_indexeddb_duplicate_store_is_not_an_error() {
    let key_path = Some(KeyPath::String("id".to_string()));
    let connection = database(
        "indexeddb-duplicate-store",
        "books",
        Some(KeyPath::String("id".to_string())),
        false,
    );
    let again = run(&connection, |replies| {
        object_store::create_store("books", &key_path, false, replies)
    });
    assert_eq!(again.unwrap(), CreateObjectResult::AlreadyExists);
    assert_eq!(names(&connection), ["books"]);
    let again = run(&connection, |replies| {
        object_store::create_index(
            "books",
            "by_author",
            &KeyPath::String("author".to_owned()),
            false,
            false,
            replies,
        )
    });
    assert_eq!(again.unwrap(), CreateObjectResult::AlreadyExists);
}

fn remaining_keys_after_delete(lower: u8, upper: u8, lower_open: bool, upper_open: bool) -> Vec<u8> {
    let connection = database("indexeddb-open-bounds", "items", None, false);
    let store = model(&connection, "items");
    for key in 1..=10u8 {
        put(&connection, &store, &[key], &[key]);
    }
    let range = KeyRange {
        lower: Some(vec![lower]),
        upper: Some(vec![upper]),
        lower_open,
        upper_open,
    };
    run(&connection, |replies| {
        object_data::delete_item(&store, &range, replies)
    })
    .unwrap();
    select(&connection, "key", &store, &all())
        .into_iter()
        .map(|key| key[0])
        .collect()
}

#[test]
fn test_indexeddb_delete_item_range_respects_open_bounds() {
    assert_eq!(
        remaining_keys_after_delete(3, 8, false, false),
        vec![1, 2, 9, 10]
    );
    assert_eq!(
        remaining_keys_after_delete(3, 8, true, false),
        vec![1, 2, 3, 9, 10]
    );
    assert_eq!(
        remaining_keys_after_delete(3, 8, false, true),
        vec![1, 2, 8, 9, 10]
    );
    assert_eq!(
        remaining_keys_after_delete(3, 8, true, true),
        vec![1, 2, 3, 8, 9, 10]
    );
}

#[test]
fn test_indexeddb_auto_increment_assigns_sequential_keys() {
    let connection = database("indexeddb-auto-increment", "items", None, true);
    for (key, value) in [(1u8, b"first".to_vec()), (2u8, b"second".to_vec())] {
        let store = model(&connection, "items");
        let number = run(&connection, |replies| {
            object_store::key_generator_current_number("items", replies)
        })
        .unwrap()
        .expect("the store has a key generator");
        assert_eq!(number, key as i64);
        let result = run(&connection, |replies| {
            object_data::put_item(&store, &vec![key], &value, false, Some(number + 1), replies)
        })
        .unwrap();
        assert!(matches!(result, PutItemResult::Key(stored) if stored == [key]));
    }
    let store = model(&connection, "items");
    assert_eq!(
        select(&connection, "key", &store, &all()),
        vec![vec![1u8], vec![2u8]]
    );
    run(&connection, |replies| {
        object_store::set_key_generator_current_number("items", 9, replies)
    })
    .unwrap();
    assert_eq!(
        run(&connection, |replies| {
            object_store::key_generator_current_number("items", replies)
        })
        .unwrap(),
        Some(9)
    );
}

#[test]
fn items_are_not_overwritten_unless_asked_for() {
    let connection = database("indexeddb-items", "items", None, false);
    let store = model(&connection, "items");
    put(&connection, &store, b"k", b"old");
    let result = run(&connection, |replies| {
        object_data::put_item(&store, &b"k".to_vec(), &b"new".to_vec(), false, None, replies)
    });
    assert!(matches!(result, Ok(PutItemResult::CannotOverwrite)));
    assert_eq!(
        select(&connection, "data", &store, &all()),
        [b"old".to_vec()]
    );
    put(&connection, &store, b"k", b"new");
    put(&connection, &store, b"l", b"other");
    assert_eq!(
        run(&connection, |replies| object_data::count(&store, &all(), replies)).unwrap(),
        2
    );
    assert_eq!(
        run(&connection, |replies| {
            object_data::count(&store, &only(b"k"), replies)
        })
        .unwrap(),
        1
    );
    assert_eq!(only(b"k").as_singleton(), Some(&b"k".to_vec()));
    assert_eq!(all().as_singleton(), None);
    run(&connection, |replies| object_data::clear(&store, replies)).unwrap();
    assert!(select(&connection, "data", &store, &all()).is_empty());
}

#[test]
fn a_select_names_its_bounds() {
    let range = KeyRange {
        lower: Some(vec![1]),
        upper: None,
        lower_open: true,
        upper_open: false,
    };
    let statement = object_data::object_data_select_sql("key", 7, &range, Some(3), true);
    assert!(statement.sql.contains("key > ?2"));
    assert!(statement.sql.contains("ORDER BY key ASC"));
    assert!(statement.sql.ends_with(" LIMIT ?3;"));
    assert_eq!(statement.values.len(), 3);
    assert!(matches!(statement.values[0], SqlValue::Int(7)));
    assert!(matches!(statement.values[2], SqlValue::Int(3)));
}

#[test]
fn stores_and_indexes_are_renamed_and_deleted() {
    let connection = database("indexeddb-delete", "books", None, false);
    let store = model(&connection, "books");
    put(&connection, &store, b"k", b"v");
    run(&connection, |replies| {
        object_store::rename_index("books", "by_author", "by_writer", replies)
    })
    .unwrap();
    let index = run(&connection, |replies| {
        object_store::object_store_index_by_name(store.id, "by_writer", replies, 0)
    })
    .unwrap()
    .expect("the index was renamed");
    assert_eq!(index.object_store_id, store.id);
    run(&connection, |replies| {
        object_store::delete_index("books", "by_writer", replies)
    })
    .unwrap();
    assert!(run(&connection, |replies| {
        object_store::object_store_index_by_name_required(store.id, "by_writer", replies, 0)
    })
    .is_err());
    run(&connection, |replies| {
        object_store::delete_store("books", replies)
    })
    .unwrap();
    assert!(names(&connection).is_empty());
    assert!(matches!(
        run(&connection, |replies| {
            object_store::object_store_by_name_required("books", replies, 0)
        }),
        Err(StorageError::MissingRow(_))
    ));
    assert!(select(&connection, "data", &store, &all()).is_empty());
}

/// A registry of buckets.
fn registry() -> Connection {
    let connection = Connection::open_in_memory().unwrap();
    run(&connection, client_storage::init).unwrap();
    connection
}

fn origin() -> Option<String> {
    Some("https://example.com".to_owned())
}

fn bottle(connection: &Connection) -> i64 {
    run(connection, |replies| {
        client_storage::obtain_a_storage_bottle_map(
            StorageType::Local,
            &Some("1".to_owned()),
            StorageIdentifier::IndexedDB,
            "https://example.com",
            replies,
        )
    })
    .unwrap()
}

#[test]
fn a_registry_keeps_databases() {
    let connection = registry();
    let bottle_id = bottle(&connection);
    assert_eq!(bottle(&connection), bottle_id);

    let path = client_storage::database_path("/base", "abc7");
    assert_eq!(path, "/base/bottles/7/abc7");
    let (kept, created) = run(&connection, |replies| {
        client_storage::create_database(bottle_id, "db", &path, replies)
    })
    .unwrap();
    assert!(created);
    assert_eq!(kept, path);
    let (again, created) = run(&connection, |replies| {
        client_storage::create_database(bottle_id, "db", "/elsewhere", replies)
    })
    .unwrap();
    assert!(!created);
    assert_eq!(again, path);

    let persisted = |connection: &Connection| {
        run(connection, |replies| {
            client_storage::persisted(&origin(), replies)
        })
        .unwrap()
    };
    assert!(!persisted(&connection));
    let persist = |granted: bool| {
        run(&connection, |replies| {
            client_storage::persist(&origin(), granted, replies)
        })
        .unwrap()
    };
    assert!(!persist(false));
    assert!(!persisted(&connection));
    assert!(persist(true));
    assert!(persisted(&connection));

    let (usage, quota) = run(&connection, |replies| {
        client_storage::estimate(&origin(), replies)
    })
    .unwrap();
    assert_eq!(usage, 100);
    assert_eq!(quota, 10 * 1024 * 1024 * 1024);

    run(&connection, |replies| {
        client_storage::delete_database(bottle_id, "db", replies)
    })
    .unwrap();
    assert!(run(&connection, |replies| {
        client_storage::delete_database(bottle_id, "db", replies)
    })
    .is_err());
}

#[test]
fn opaque_origins_have_no_storage() {
    let connection = registry();
    assert!(matches!(
        run(&connection, |replies| {
            shared::obtain_a_local_storage_shelf(&None, replies, 0)
        }),
        Err(StorageError::OpaqueOrigin)
    ));
}

#[test]
fn session_storage_requires_a_window() {
    let connection = registry();
    assert!(matches!(
        run(&connection, |replies| {
            client_storage::obtain_a_storage_bottle_map(
                StorageType::Session,
                &None,
                StorageIdentifier::SessionStorage,
                "https://example.com",
                replies,
            )
        }),
        Err(StorageError::SessionStorageRequiresWindow)
    ));
}

#[test]
fn failures_are_reported() {
    let replies = vec![Reply::Failed];
    assert!(matches!(
        client_storage::init(&replies),
        Run::Stop(StorageError::Backend, 1)
    ));
    let connection = registry();
    let bottle_id = bottle(&connection);
    let path = client_storage::fresh_path("/base");
    let mut replies = Vec::new();
    let error = loop {
        match client_storage::create_database(bottle_id, "db", &path, &replies) {
            Run::Ask(Request::CreateDirectory(asked)) => {
                assert_eq!(asked, path);
                replies.push(Reply::Failed);
            },
            Run::Ask(request) => replies.push(reply(&connection, &request).unwrap()),
            Run::Stop(error, _) => break error,
            Run::Got(..) => panic!("the directory could not be created"),
        }
    };
    assert!(matches!(error, StorageError::DirectoryCreationFailed));
    let mut replies = Vec::new();
    let error = loop {
        match client_storage::delete_database(bottle_id, "db", &replies) {
            Run::Ask(Request::RemoveDirectory(asked)) => {
                assert_eq!(asked, path);
                replies.push(Reply::Failed);
            },
            Run::Ask(request) => replies.push(reply(&connection, &request).unwrap()),
            Run::Stop(error, _) => break error,
            Run::Got(..) => panic!("the directory could not be removed"),
        }
    };
    assert!(matches!(error, StorageError::DirectoryDeletionFailed));
    assert_eq!(shared::total_size(&vec![3, 4]), Some(7));
    assert_eq!(shared::total_size(&vec![u64::MAX, 1]), None);
}

#[test]
fn fresh_paths_differ() {
    let one = client_storage::fresh_path("/base");
    let two = client_storage::fresh_path("/base");
    assert_ne!(one, two);
    assert!(one.starts_with("/base/bottles/"));
    let dir = one.rsplit('/').next().unwrap();
    assert_eq!(dir.len(), 36);
    assert_eq!(one, client_storage::database_path("/base", dir));
}

#[test]
fn web_storage_is_saved_and_loaded() {
    let connection = Connection::open_in_memory().unwrap();
    run(&connection, webstorage::init).unwrap();
    run(&connection, |replies| webstorage::set("a", "1", replies)).unwrap();
    run(&connection, |replies| webstorage::set("b", "2", replies)).unwrap();
    run(&connection, |replies| webstorage::set("a", "3", replies)).unwrap();
    let loaded = run(&connection, webstorage::load).unwrap();
    assert_eq!(loaded.get("a"), Some("3".to_owned()));
    assert_eq!(loaded.get("b"), Some("2".to_owned()));
    run(&connection, |replies| webstorage::delete("a", replies)).unwrap();
    let loaded = run(&connection, webstorage::load).unwrap();
    assert_eq!(loaded.inner().len(), 1);

    let mut entry = OriginEntry::new();
    entry.insert("x".to_owned(), "y".to_owned());
    entry.insert("z".to_owned(), "w".to_owned());
    run(&connection, |replies| webstorage::save_inner(&entry, replies)).unwrap();
    let loaded = run(&connection, webstorage::load).unwrap();
    assert_eq!(loaded.get("b"), None);
    assert_eq!(loaded.get("x"), Some("y".to_owned()));
    assert_eq!(loaded.get("z"), Some("w".to_owned()));
    run(&connection, webstorage::clear).unwrap();
    assert!(run(&connection, webstorage::load).unwrap().inner().is_empty());
}

/// An engine that keeps its entries in memory.
struct Engine {
    entry: OriginEntry,
}

impl WebStorageEngine for Engine {
    type Error = ();

    fn load(&self) -> Result<OriginEntry, ()> {
        let mut entry = OriginEntry::new();
        for (key, value) in self.entry.inner() {
            entry.insert(key.clone(), value.clone());
        }
        Ok(entry)
    }

    fn clear(&mut self) -> Result<(), ()> {
        self.entry = OriginEntry::new();
        Ok(())
    }

    fn delete(&mut self, _key: &str) -> Result<(), ()> {
        Err(())
    }

    fn set(&mut self, key: &str, value: &str) -> Result<(), ()> {
        self.entry.insert(key.to_owned(), value.to_owned());
        Ok(())
    }

    fn save(&mut self, data: &OriginEntry) {
        let mut entry = OriginEntry::new();
        for (key, value) in data.inner() {
            entry.insert(key.clone(), value.clone());
        }
        self.entry = entry;
    }
}

#[test]
fn either_engine_serves_the_same_calls() {
    let engine = || Engine {
        entry: OriginEntry::new(),
    };
    let mut twins: [TwinEngine<Engine, Engine>; 2] =
        [TwinEngine::Sqlite(engine()), TwinEngine::Rdb(engine())];
    for twin in &mut twins {
        assert!(twin.set("a", "1").is_ok());
        assert_eq!(twin.load().ok().unwrap().get("a"), Some("1".to_owned()));
        let error = twin.delete("a").unwrap_err();
        match twin {
            TwinEngine::Sqlite(_) => assert!(matches!(error, TwinError::Sqlite(()))),
            TwinEngine::Rdb(_) => assert!(matches!(error, TwinError::Rdb(()))),
        }
        let mut data = OriginEntry::new();
        data.insert("b".to_owned(), "2".to_owned());
        twin.save(&data);
        let loaded = twin.load().ok().unwrap();
        assert_eq!(loaded.get("a"), None);
        assert_eq!(loaded.get("b"), Some("2".to_owned()));
        assert!(twin.clear().is_ok());
        assert!(twin.load().ok().unwrap().inner().is_empty());
    }
    assert!(matches!(twins[0], TwinEngine::Sqlite(_)));
    assert!(matches!(twins[1], TwinEngine::Rdb(_)));
}
