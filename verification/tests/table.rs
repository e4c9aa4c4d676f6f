use std::sync::Arc;

use relos::base::{Entry, RelosError};
use relos::engine::{
    Applicator, BaseEngine, BatchingApplicator, BatchingEngine, Engine, MetricsReporter,
    ObserverApplicator, ObserverEngine, ReturnValue, ViewTrackingApplicator, ViewTrackingEngine,
};
use relos::log::{LogChain, MemoryLoglet, MemoryLogletFactory, MemoryMetaStore, VirtualLog};
use relos::store::{LocalStore, MemoryStore, ReadTransaction, WriteTransaction};
use relos::table::keys::encode_primary_key;
use relos::table::table::{check_response, decode_rows};
use relos::table::{
    ColumnDef, ColumnType, DelosTable, Row, TableApplicator, TableCommand, TableResponse,
    TableSchema, Value,
};

type Log = VirtualLog<MemoryLogletFactory, MemoryMetaStore>;
type Table = DelosTable<BaseEngine<Log, MemoryStore, TableApplicator>>;

fn make_engine() -> BaseEngine<Log, MemoryStore, TableApplicator> {
    let meta_store = MemoryMetaStore::new(LogChain::new("memory-0".to_string()));
    let log = VirtualLog::new(meta_store, MemoryLogletFactory).unwrap();
    BaseEngine::new(log, MemoryStore::new(), TableApplicator::default()).unwrap()
}

fn make_table() -> Table {
    DelosTable::new(make_engine())
}

fn schema(name: &str) -> TableSchema {
    TableSchema {
        name: name.to_string(),
        columns: vec![
            ColumnDef { name: "id".to_string(), col_type: ColumnType::Int64, nullable: false },
            ColumnDef { name: "name".to_string(), col_type: ColumnType::Utf8, nullable: false },
        ],
        primary_key: vec!["id".to_string()],
    }
}

fn row(id: i64, name: &str) -> Row {
    Row { values: vec![Value::Int64(id), Value::Utf8(name.to_string())] }
}

fn key(id: i64) -> Vec<Value> {
    vec![Value::Int64(id)]
}

fn refusal(r: Result<(), RelosError>) -> String {
    match r {
        Err(RelosError::InvalidOperation(m)) => m,
        other => panic!("unexpected {:?}", other),
    }
}

#[test]
fn put_is_read_back() {
    let mut table = make_table();
    table.create_table(schema("users")).unwrap();
    table.put("users", row(1, "Alice")).unwrap();
    table.put("users", row(2, "Bob")).unwrap();
    let found = table.get("users", &key(1)).unwrap().unwrap();
    assert_eq!(found.values, row(1, "Alice").values);
    assert!(table.get("users", &key(3)).unwrap().is_none());

    // A put under the same key replaces the row and leaves the other.
    table.put("users", row(1, "Alicia")).unwrap();
    assert_eq!(table.get("users", &key(1)).unwrap().unwrap().values[1], Value::Utf8("Alicia".to_string()));
    assert_eq!(table.get("users", &key(2)).unwrap().unwrap().values, row(2, "Bob").values);
    assert_eq!(table.scan("users").unwrap().len(), 2);
}

#[test]
fn deleted_row_is_gone() {
    let mut table = make_table();
    table.create_table(schema("users")).unwrap();
    table.put("users", row(1, "Alice")).unwrap();
    table.put("users", row(2, "Bob")).unwrap();
    table.delete("users", key(2)).unwrap();
    assert!(table.get("users", &key(2)).unwrap().is_none());
    let rows = table.scan("users").unwrap();
    assert_eq!(rows.len(), 1);
    assert_eq!(rows[0].values, row(1, "Alice").values);
    // Deleting it again succeeds.
    table.delete("users", key(2)).unwrap();
}

#[test]
fn dropped_table_is_gone() {
    let mut table = make_table();
    table.create_table(schema("users")).unwrap();
    table.create_table(schema("orders")).unwrap();
    table.put("users", row(1, "Alice")).unwrap();
    table.put("orders", row(1, "Order")).unwrap();
    table.drop_table("users").unwrap();
    assert!(table.get("users", &key(1)).unwrap().is_none());
    assert_eq!(table.scan("users").unwrap().len(), 0);
    assert_eq!(table.scan("orders").unwrap().len(), 1);
    assert_eq!(refusal(table.put("users", row(1, "x"))), "table 'users' does not exist");
    // It can be created anew, without its rows.
    table.create_table(schema("users")).unwrap();
    assert_eq!(table.scan("users").unwrap().len(), 0);
}

#[test]
fn refused_commands_say_why() {
    let mut table = make_table();
    assert_eq!(refusal(table.put("t", row(1, "x"))), "table 't' does not exist");
    assert_eq!(refusal(table.delete("t", key(1))), "table 't' does not exist");
    assert_eq!(refusal(table.drop_table("t")), "table 't' does not exist");
    table.create_table(schema("t")).unwrap();
    assert_eq!(refusal(table.create_table(schema("t"))), "table 't' already exists");
    let long = Row { values: vec![Value::Null, Value::Null, Value::Null] };
    assert_eq!(refusal(table.put("t", long)), "row has 3 values but schema has 2 columns");
    assert_eq!(table.scan("t").unwrap().len(), 0);
}

#[test]
fn unknown_key_column_fails_the_entry() {
    let mut table = make_table();
    let mut bad = schema("t");
    bad.primary_key = vec!["nope".to_string()];
    table.create_table(bad).unwrap();
    match table.put("t", row(1, "x")) {
        Err(RelosError::InvalidOperation(m)) => {
            assert_eq!(m, "primary key column 'nope' not found in schema")
        }
        other => panic!("unexpected {:?}", other),
    }
}

#[test]
fn scan_comes_in_key_order() {
    let mut table = make_table();
    table.create_table(schema("t")).unwrap();
    for id in [300, 1, 2] {
        table.put("t", row(id, "x")).unwrap();
    }
    let ids: Vec<Value> = table.scan("t").unwrap().into_iter().map(|r| r.values[0].clone()).collect();
    // The encoding of a number starts with its lowest byte.
    assert_eq!(ids, vec![Value::Int64(1), Value::Int64(2), Value::Int64(300)]);
    table.put("t", row(256, "x")).unwrap();
    let first = table.scan("t").unwrap().remove(0);
    assert_eq!(first.values[0], Value::Int64(256));
}

#[test]
fn scan_and_drop_leave_the_rows_of_other_tables() {
    let mut table = make_table();
    table.create_table(schema("a")).unwrap();
    table.create_table(schema("a/b")).unwrap();
    table.create_table(schema("ab")).unwrap();
    table.put("a/b", row(2, "y")).unwrap();
    assert_eq!(table.scan("a").unwrap().len(), 0);
    table.put("a", row(1, "x")).unwrap();
    table.put("ab", row(3, "z")).unwrap();
    let rows = table.scan("a").unwrap();
    assert_eq!(rows.len(), 1);
    assert_eq!(rows[0].values, row(1, "x").values);
    let rows = table.scan("a/b").unwrap();
    assert_eq!(rows.len(), 1);
    assert_eq!(rows[0].values, row(2, "y").values);

    table.drop_table("a").unwrap();
    assert!(table.get("a", &key(1)).unwrap().is_none());
    assert_eq!(table.scan("a").unwrap().len(), 0);
    assert_eq!(table.get("a/b", &key(2)).unwrap().unwrap().values, row(2, "y").values);
    assert_eq!(table.scan("ab").unwrap().len(), 1);
}

/// A reporter that drops what it is told.
struct Silent;

impl MetricsReporter for Silent {
    fn told_propose(&self, _: std::time::Duration) -> bool {
        unreachable!()
    }

    fn told_sync(&self, _: std::time::Duration) -> bool {
        unreachable!()
    }

    fn told_apply(&self, _: std::time::Duration) -> bool {
        unreachable!()
    }

    fn record_propose_latency(&self, _: std::time::Duration) {}

    fn record_sync_latency(&self, _: std::time::Duration) {}

    fn record_apply_latency(&self, _: std::time::Duration) {}
}

#[test]
fn table_works_above_all_layers() {
    let metrics = Arc::new(Silent);
    let app = ObserverApplicator::new(
        BatchingApplicator::new(ViewTrackingApplicator::new(TableApplicator::new())),
        metrics.clone(),
    );
    let base = BaseEngine::new(MemoryLoglet::new(), MemoryStore::new(), app).unwrap();
    let batching = BatchingEngine::new(ViewTrackingEngine::new(base, 1), Some(10), None);
    let mut table = DelosTable::new(ObserverEngine::new(batching, metrics));
    table.create_table(schema("users")).unwrap();
    table.put("users", row(1, "Alice")).unwrap();
    assert_eq!(table.get("users", &key(1)).unwrap().unwrap().values, row(1, "Alice").values);
    assert_eq!(refusal(table.put("none", row(1, "x"))), "table 'none' does not exist");
    table.delete("users", key(1)).unwrap();
    assert!(table.get("users", &key(1)).unwrap().is_none());
    table.drop_table("users").unwrap();
    assert_eq!(table.scan("users").unwrap().len(), 0);
}

#[test]
fn numbers_are_compared_as_numbers() {
    let float = |x: f64| Value::Float64(x.to_bits());
    assert_eq!(float(1.5), float(1.5));
    assert_eq!(float(0.0), float(-0.0));
    assert_ne!(float(1.5), float(-1.5));
    assert_ne!(float(f64::NAN), float(f64::NAN));
    assert_eq!(float(f64::INFINITY), float(f64::INFINITY));
    assert_ne!(float(f64::INFINITY), float(f64::NEG_INFINITY));
    assert_ne!(Value::Int64(0), float(0.0));
    assert_ne!(Value::Bytes(vec![1]), Value::Bytes(vec![1, 2]));
    assert_eq!(Value::Bytes(vec![1, 2]), Value::Bytes(vec![1, 2]));
    assert_ne!(Value::Bytes(vec![1, 2]), Value::Bytes(vec![1, 3]));
    assert_ne!(Value::Utf8("a".to_string()), Value::Null);
}

#[test]
fn failed_put_leaves_the_transaction() {
    let mut app = TableApplicator::new();
    let store = MemoryStore::new();
    let mut txn = store.begin_write_txn().unwrap();
    let mut bad = schema("t");
    bad.primary_key = vec!["nope".to_string()];
    let create = TableCommand::CreateTable(bad).to_bytes().unwrap();
    app.apply(&mut txn, &Entry::new(create), 1).unwrap();
    let before = txn.prefix_scan(b"").unwrap();
    let put = TableCommand::Put { table: "t".to_string(), row: row(1, "x") };
    assert!(app.apply(&mut txn, &Entry::new(put.to_bytes().unwrap()), 2).is_err());
    assert!(app.apply(&mut txn, &Entry::new(vec![9]), 3).is_err());
    assert_eq!(txn.prefix_scan(b"").unwrap(), before);
}

#[test]
fn tables_agree_after_reading_the_same_log() {
    let mut first = make_engine();
    let mut second = make_engine();
    let commands = vec![
        TableCommand::CreateTable(schema("t")),
        TableCommand::Put { table: "t".to_string(), row: row(1, "a") },
        TableCommand::Put { table: "t".to_string(), row: row(2, "b") },
        TableCommand::Delete { table: "t".to_string(), key: key(1) },
    ];
    for c in &commands {
        let entry = Entry::new(c.to_bytes().unwrap());
        first.propose(entry.clone()).unwrap();
        second.loglet_mut().append(&entry).unwrap();
    }
    assert_eq!(second.sync().unwrap(), 5);
    let a = first.local_store().begin_read_txn().unwrap().prefix_scan(b"").unwrap();
    let b = second.local_store().begin_read_txn().unwrap().prefix_scan(b"").unwrap();
    assert_eq!(a, b);
    assert_eq!(DelosTable::new(second).scan("t").unwrap().len(), 1);
}

#[test]
fn values_are_encoded_as_agreed() {
    // The tag of the variant, then what it holds.
    let entry = TableCommand::Put {
        table: "t".to_string(),
        row: Row {
            values: vec![
                Value::Null,
                Value::Int64(-2),
                Value::Utf8("é".to_string()),
                Value::Bytes(vec![7, 8]),
                Value::Bool(true),
                Value::Float64(1.5f64.to_bits()),
            ],
        },
    };
    let mut expected = bincode::serialize(&(2u32, "t", 6u64)).unwrap();
    expected.extend(bincode::serialize(&0u32).unwrap());
    expected.extend(bincode::serialize(&(1u32, -2i64)).unwrap());
    expected.extend(bincode::serialize(&(2u32, "é")).unwrap());
    expected.extend(bincode::serialize(&(3u32, vec![7u8, 8])).unwrap());
    expected.extend(bincode::serialize(&(4u32, true)).unwrap());
    expected.extend(bincode::serialize(&(5u32, 1.5f64)).unwrap());
    let bytes = entry.to_bytes().unwrap();
    assert_eq!(bytes, expected);
    let back = TableCommand::from_bytes(&bytes).unwrap();
    assert_eq!(format!("{:?}", back), format!("{:?}", entry));
}

#[test]
fn commands_come_back_from_their_bytes() {
    let commands = vec![
        TableCommand::CreateTable(schema("users")),
        TableCommand::DropTable { table: "users".to_string() },
        TableCommand::Put { table: "users".to_string(), row: row(1, "x") },
        TableCommand::Delete { table: "users".to_string(), key: key(1) },
    ];
    for (tag, c) in commands.iter().enumerate() {
        let bytes = c.to_bytes().unwrap();
        assert_eq!(bytes[0] as usize, tag);
        let back = TableCommand::from_bytes(&bytes).unwrap();
        assert_eq!(format!("{:?}", back), format!("{:?}", c));
    }
    let schema_bytes = TableCommand::CreateTable(schema("users")).to_bytes().unwrap();
    let expected = bincode::serialize(&(
        0u32,
        "users",
        vec![("id", 0u32, false), ("name", 1u32, false)],
        vec!["id"],
    ))
    .unwrap();
    assert_eq!(schema_bytes, expected);
}

#[test]
fn responses_come_back_from_their_bytes() {
    let done = TableResponse::Success.to_bytes().unwrap();
    assert_eq!(done, bincode::serialize(&0u32).unwrap());
    assert!(matches!(TableResponse::from_bytes(&done), Ok(TableResponse::Success)));
    let failed = TableResponse::Error("why".to_string()).to_bytes().unwrap();
    assert_eq!(failed, bincode::serialize(&(1u32, "why")).unwrap());
    match TableResponse::from_bytes(&failed).unwrap() {
        TableResponse::Error(m) => assert_eq!(m, "why"),
        _ => panic!("expected an error"),
    }
}

#[test]
fn broken_bytes_are_reported() {
    match TableCommand::from_bytes(&[9, 0, 0, 0]) {
        Err(RelosError::Serialization(m)) => {
            assert_eq!(m, "invalid value: integer `9`, expected variant index 0 <= i < 4")
        }
        other => panic!("unexpected {:?}", other),
    }
    let short: Result<u32, _> = bincode::deserialize(&[1u8]);
    match TableResponse::from_bytes(&[1]) {
        Err(RelosError::Serialization(m)) => assert_eq!(m, short.unwrap_err().to_string()),
        other => panic!("unexpected {:?}", other),
    }
    // A text that is no UTF-8.
    let mut bytes = bincode::serialize(&(1u32, 2u64)).unwrap();
    bytes.extend([0xff, 0xfe]);
    let broken: Result<(u32, String), _> = bincode::deserialize(&bytes);
    match TableCommand::from_bytes(&bytes) {
        Err(RelosError::Serialization(m)) => assert_eq!(m, broken.unwrap_err().to_string()),
        other => panic!("unexpected {:?}", other),
    }
    // A truth value that is neither 0 nor 1.
    let mut bytes = bincode::serialize(&(3u32, "t", 1u64, 4u32)).unwrap();
    bytes.push(7);
    let broken: Result<(u32, String, u64, u32, bool), _> = bincode::deserialize(&bytes);
    match TableCommand::from_bytes(&bytes) {
        Err(RelosError::Serialization(m)) => assert_eq!(m, broken.unwrap_err().to_string()),
        other => panic!("unexpected {:?}", other),
    }
    // Bytes behind the command are not looked at.
    let mut bytes = TableCommand::DropTable { table: "t".to_string() }.to_bytes().unwrap();
    bytes.push(1);
    assert!(TableCommand::from_bytes(&bytes).is_ok());
}

#[test]
fn keys_are_built_as_agreed() {
    assert_eq!(TableApplicator::schema_key("users"), b"schema/users");
    assert_eq!(TableApplicator::row_prefix("users"), b"data/users/");
    let one = hex::encode(bincode::serialize(&(1u32, 1i64)).unwrap());
    let two = hex::encode(bincode::serialize(&(2u32, "x")).unwrap());
    let values = vec![Value::Int64(1), Value::Utf8("x".to_string())];
    assert_eq!(encode_primary_key(&values), format!("{}\0{}", one, two));
    assert_eq!(one, "010000000100000000000000");
    let expected = format!("data/users/{}\0{}", one, two).into_bytes();
    assert_eq!(TableApplicator::row_key("users", &values), expected);
    assert_eq!(Table::row_key("users", &values), expected);
    assert_eq!(encode_primary_key(&Vec::new()), "");
}

#[test]
fn primary_key_follows_the_schema() {
    let mut s = schema("t");
    s.primary_key = vec!["name".to_string(), "id".to_string()];
    let pk = TableApplicator::extract_pk(&s, &row(5, "n")).unwrap();
    assert_eq!(pk, vec![Value::Utf8("n".to_string()), Value::Int64(5)]);
    let short = Row { values: vec![Value::Int64(5)] };
    match TableApplicator::extract_pk(&s, &short) {
        Err(e) => assert_eq!(
            e.message(),
            "invalid operation: row has 1 values but primary key column 'name' is at index 1"
        ),
        Ok(_) => panic!("expected an error"),
    }
}

#[test]
fn replies_are_checked() {
    assert!(check_response(ReturnValue::Success).is_ok());
    let done = TableResponse::Success.to_bytes().unwrap();
    assert!(check_response(ReturnValue::Data(done)).is_ok());
    let failed = TableResponse::Error("no".to_string()).to_bytes().unwrap();
    assert_eq!(refusal(check_response(ReturnValue::Data(failed))), "no");
    assert!(matches!(
        check_response(ReturnValue::Data(vec![])),
        Err(RelosError::Serialization(_))
    ));
    let reply = TableApplicator::make_response(TableResponse::Success).unwrap();
    assert!(check_response(reply).is_ok());
}

#[test]
fn broken_row_fails_the_scan() {
    let good = bincode::serialize(&(1u64, 0u32)).unwrap();
    let k = b"data/t/k".to_vec();
    let rows = decode_rows(&vec![(k.clone(), good.clone())], "t").unwrap();
    assert_eq!(rows[0].values, vec![Value::Null]);
    let broken = decode_rows(&vec![(k.clone(), good.clone()), (b"data/t/l".to_vec(), vec![1])], "t");
    assert!(matches!(broken, Err(RelosError::Serialization(_))));
    // What is no row of the table is not looked at.
    let other = decode_rows(&vec![(k, good), (b"data/t/u/l".to_vec(), vec![1])], "t").unwrap();
    assert_eq!(other.len(), 1);
}

#[test]
fn drop_takes_schema_and_rows_out_of_a_transaction() {
    let mut store = MemoryStore::new();
    let mut txn = store.begin_write_txn().unwrap();
    txn.put(b"schema/t", &[1]).unwrap();
    txn.put(b"data/t/1", &[1]).unwrap();
    txn.put(b"data/t/u/1", &[1]).unwrap();
    txn.put(b"data/u/1", &[1]).unwrap();
    let reply = TableApplicator::apply_drop_table(&mut txn, "t").unwrap();
    assert!(check_response(reply).is_ok());
    txn.commit(&mut store).unwrap();
    let left = store.begin_read_txn().unwrap().prefix_scan(b"").unwrap();
    assert_eq!(
        left,
        vec![(b"data/t/u/1".to_vec(), vec![1]), (b"data/u/1".to_vec(), vec![1])]
    );
}
