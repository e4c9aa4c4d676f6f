use relos::base::{Entry, RelosError};
use relos::engine::{BaseEngine, Engine};
use relos::log::{LogChain, MemoryLogletFactory, MemoryMetaStore, VirtualLog};
use relos::server::convert::{
    proto_column_def_to_relos, proto_column_type_to_relos, proto_row_to_relos,
    proto_schema_to_relos, proto_value_to_relos, relos_column_def_to_proto,
    relos_column_type_to_proto, relos_err_to_status, relos_row_to_proto, relos_schema_to_proto,
    relos_value_to_proto,
};
use relos::server::messages as proto;
use relos::server::{Code, RelosTableService, ServerConfig};
use relos::store::MemoryStore;
use relos::table::{ColumnDef, ColumnType, DelosTable, Row, TableApplicator, TableSchema, Value};

#[test]
fn test_value_roundtrip_null() {
    let relos_val = Value::Null;
    let proto_val = relos_value_to_proto(&relos_val);
    let back = proto_value_to_relos(&proto_val);
    assert_eq!(back, Value::Null);
}

#[test]
fn test_value_roundtrip_int64() {
    let relos_val = Value::Int64(42);
    let proto_val = relos_value_to_proto(&relos_val);
    let back = proto_value_to_relos(&proto_val);
    assert_eq!(back, Value::Int64(42));
}

#[test]
fn test_value_roundtrip_utf8() {
    let relos_val = Value::Utf8("hello".to_string());
    let proto_val = relos_value_to_proto(&relos_val);
    let back = proto_value_to_relos(&proto_val);
    assert_eq!(back, Value::Utf8("hello".to_string()));
}

#[test]
fn test_value_roundtrip_bytes() {
    let relos_val = Value::Bytes(vec![1, 2, 3]);
    let proto_val = relos_value_to_proto(&relos_val);
    let back = proto_value_to_relos(&proto_val);
    assert_eq!(back, Value::Bytes(vec![1, 2, 3]));
}

#[test]
fn test_value_roundtrip_bool() {
    let relos_val = Value::Bool(true);
    let proto_val = relos_value_to_proto(&relos_val);
    let back = proto_value_to_relos(&proto_val);
    assert_eq!(back, Value::Bool(true));
}

#[test]
fn test_value_roundtrip_float64() {
    let relos_val = Value::Float64(3.14f64.to_bits());
    let proto_val = relos_value_to_proto(&relos_val);
    let back = proto_value_to_relos(&proto_val);
    assert_eq!(back, Value::Float64(3.14f64.to_bits()));
    match back {
        Value::Float64(bits) => assert_eq!(f64::from_bits(bits), 3.14),
        _ => panic!("expected a number"),
    }
}

#[test]
fn test_column_type_roundtrip() {
    let types = vec![
        ColumnType::Int64,
        ColumnType::Utf8,
        ColumnType::Bytes,
        ColumnType::Bool,
        ColumnType::Float64,
    ];
    for ct in types {
        let proto_ct = relos_column_type_to_proto(&ct);
        let back = proto_column_type_to_relos(proto_ct.into()).unwrap();
        assert_eq!(format!("{:?}", back), format!("{:?}", ct));
    }
}

#[test]
fn test_column_type_unspecified_is_error() {
    let result = proto_column_type_to_relos(proto::ColumnType::Unspecified.into());
    assert!(result.is_err());
}

#[test]
fn test_row_roundtrip() {
    let relos_row = Row {
        values: vec![Value::Int64(1), Value::Utf8("test".to_string()), Value::Null],
    };
    let proto_row = relos_row_to_proto(&relos_row);
    let back = proto_row_to_relos(&proto_row);
    assert_eq!(back.values.len(), 3);
    assert_eq!(back.values[0], Value::Int64(1));
    assert_eq!(back.values[1], Value::Utf8("test".to_string()));
    assert_eq!(back.values[2], Value::Null);
}

#[test]
fn test_schema_conversion() {
    let proto_schema = proto::TableSchema {
        name: "users".to_string(),
        columns: vec![
            proto::ColumnDef {
                name: "id".to_string(),
                column_type: proto::ColumnType::Int64.into(),
                nullable: false,
            },
            proto::ColumnDef {
                name: "name".to_string(),
                column_type: proto::ColumnType::Utf8.into(),
                nullable: true,
            },
        ],
        primary_key: vec!["id".to_string()],
    };
    let relos_schema = proto_schema_to_relos(&proto_schema).unwrap();
    assert_eq!(relos_schema.name, "users");
    assert_eq!(relos_schema.columns.len(), 2);
    assert_eq!(relos_schema.columns[0].name, "id");
    assert!(!relos_schema.columns[0].nullable);
    assert_eq!(relos_schema.columns[1].name, "name");
    assert!(relos_schema.columns[1].nullable);
    assert_eq!(relos_schema.primary_key, vec!["id".to_string()]);
}

#[test]
fn schema_goes_out_and_comes_back() {
    let schema = TableSchema {
        name: "t".to_string(),
        columns: vec![
            ColumnDef { name: "a".to_string(), col_type: ColumnType::Bytes, nullable: true },
            ColumnDef { name: "b".to_string(), col_type: ColumnType::Float64, nullable: false },
        ],
        primary_key: vec!["b".to_string(), "a".to_string()],
    };
    let sent = relos_schema_to_proto(&schema);
    assert_eq!(sent.columns[0].column_type, 3);
    assert_eq!(sent.columns[1].column_type, 5);
    let back = proto_schema_to_relos(&sent).unwrap();
    assert_eq!(format!("{:?}", back), format!("{:?}", schema));
    let column = relos_column_def_to_proto(&schema.columns[0]);
    assert_eq!(proto_column_def_to_relos(&column).unwrap().name, "a");
}

#[test]
fn unknown_column_type_is_reported() {
    for n in [-1, 0, 6, i32::MAX] {
        let status = proto_column_type_to_relos(n).unwrap_err();
        assert_eq!(status.code, Code::InvalidArgument);
        assert_eq!(status.message, "unspecified or unknown column type");
    }
    let bad = proto::TableSchema {
        name: "t".to_string(),
        columns: vec![proto::ColumnDef {
            name: "a".to_string(),
            column_type: 9,
            nullable: false,
        }],
        primary_key: vec![],
    };
    assert_eq!(proto_schema_to_relos(&bad).unwrap_err().code, Code::InvalidArgument);
}

#[test]
fn value_without_kind_is_null() {
    assert_eq!(proto_value_to_relos(&proto::Value { kind: None }), Value::Null);
    let not_null = proto::Value { kind: Some(proto::Kind::IsNull(false)) };
    assert_eq!(proto_value_to_relos(&not_null), Value::Null);
}

#[test]
fn errors_become_statuses() {
    let cases = vec![
        (RelosError::NotFound("x".to_string()), Code::NotFound, "x"),
        (RelosError::InvalidOperation("x".to_string()), Code::InvalidArgument, "x"),
        (RelosError::Serialization("x".to_string()), Code::Internal, "serialization error: x"),
        (RelosError::Store("x".to_string()), Code::Internal, "store error: x"),
        (RelosError::Internal("x".to_string()), Code::Internal, "x"),
        (RelosError::Io("x".to_string()), Code::Internal, "io error: x"),
        (RelosError::EndOfLog, Code::Internal, "end of log reached"),
        (RelosError::Sealed(7), Code::Internal, "log sealed at position 7"),
        (RelosError::Trimmed(8), Code::Internal, "position 8 has been trimmed"),
        (
            RelosError::VersionMismatch { expected: 1, actual: 2 },
            Code::Internal,
            "version mismatch: expected 1, got 2",
        ),
    ];
    for (e, code, message) in cases {
        let status = relos_err_to_status(e);
        assert_eq!(status.code, code);
        assert_eq!(status.message, message);
    }
}

#[test]
fn default_configuration() {
    let config = ServerConfig::default();
    assert_eq!(config.listen_addr, "127.0.0.1:9000");
    assert_eq!(config.node_id, 1);
}

type Service = RelosTableService<
    BaseEngine<VirtualLog<MemoryLogletFactory, MemoryMetaStore>, MemoryStore, TableApplicator>,
>;

fn make_service() -> Service {
    let meta_store = MemoryMetaStore::new(LogChain::new("memory-0".to_string()));
    let log = VirtualLog::new(meta_store, MemoryLogletFactory).unwrap();
    let engine = BaseEngine::new(log, MemoryStore::new(), TableApplicator::new()).unwrap();
    RelosTableService::new(DelosTable::new(engine))
}

fn number(n: i64) -> proto::Value {
    proto::Value { kind: Some(proto::Kind::Int64Value(n)) }
}

fn text(s: &str) -> proto::Value {
    proto::Value { kind: Some(proto::Kind::StringValue(s.to_string())) }
}

fn users() -> proto::CreateTableRequest {
    proto::CreateTableRequest {
        schema: Some(proto::TableSchema {
            name: "users".to_string(),
            columns: vec![
                proto::ColumnDef { name: "id".to_string(), column_type: 1, nullable: false },
                proto::ColumnDef { name: "name".to_string(), column_type: 2, nullable: true },
            ],
            primary_key: vec!["id".to_string()],
        }),
    }
}

fn put(id: i64, name: &str) -> proto::PutRequest {
    proto::PutRequest {
        table: "users".to_string(),
        row: Some(proto::Row { values: vec![number(id), text(name)] }),
    }
}

#[test]
fn requests_are_served() {
    let mut service = make_service();
    service.create_table(users()).unwrap();
    service.put(put(2, "Bob")).unwrap();
    service.put(put(1, "Alice")).unwrap();

    let get = proto::GetRequest { table: "users".to_string(), key: vec![number(1)] };
    let response = service.get(get).unwrap();
    assert!(response.found);
    assert_eq!(
        format!("{:?}", response.row.unwrap().values),
        format!("{:?}", vec![number(1), text("Alice")])
    );

    let rows = service.scan(proto::ScanRequest { table: "users".to_string() }).unwrap().rows;
    assert_eq!(rows.len(), 2);

    let delete = proto::DeleteRequest { table: "users".to_string(), key: vec![number(1)] };
    service.delete(delete).unwrap();
    let get = proto::GetRequest { table: "users".to_string(), key: vec![number(1)] };
    let response = service.get(get).unwrap();
    assert!(!response.found);
    assert!(response.row.is_none());

    service.drop_table(proto::DropTableRequest { table: "users".to_string() }).unwrap();
    let status = service.put(put(1, "Carol")).unwrap_err();
    assert_eq!(status.code, Code::InvalidArgument);
    assert_eq!(status.message, "table 'users' does not exist");
    assert_eq!(service.table().engine().cursor(), 7);
}

#[test]
fn invalid_requests_are_refused() {
    let mut service = make_service();
    let status = service.create_table(proto::CreateTableRequest { schema: None }).unwrap_err();
    assert_eq!((status.code, status.message.as_str()), (Code::InvalidArgument, "missing schema"));

    let status = service
        .put(proto::PutRequest { table: "users".to_string(), row: None })
        .unwrap_err();
    assert_eq!((status.code, status.message.as_str()), (Code::InvalidArgument, "missing row"));

    let nameless = "table name must not be empty";
    let none = String::new;
    let statuses = vec![
        service.drop_table(proto::DropTableRequest { table: none() }).unwrap_err(),
        service.put(proto::PutRequest { table: none(), row: None }).unwrap_err(),
        service.delete(proto::DeleteRequest { table: none(), key: vec![] }).unwrap_err(),
        service.get(proto::GetRequest { table: none(), key: vec![] }).unwrap_err(),
        service.scan(proto::ScanRequest { table: none() }).unwrap_err(),
    ];
    for status in statuses {
        assert_eq!((status.code, status.message.as_str()), (Code::InvalidArgument, nameless));
    }
    // None of them reached the log.
    assert_eq!(service.table().engine().cursor(), 1);
}

#[test]
fn broken_entry_in_the_log_is_an_internal_error() {
    let meta_store = MemoryMetaStore::new(LogChain::new("memory-0".to_string()));
    let log = VirtualLog::new(meta_store, MemoryLogletFactory).unwrap();
    let mut engine = BaseEngine::new(log, MemoryStore::new(), TableApplicator::new()).unwrap();
    engine.loglet_mut().append(&Entry::new(vec![255])).unwrap();
    assert!(engine.sync().is_err());
    let mut service = RelosTableService::new(DelosTable::new(engine));
    let get = proto::GetRequest { table: "users".to_string(), key: vec![] };
    let status = service.get(get).unwrap_err();
    assert_eq!(status.code, Code::Internal);
    assert!(status.message.starts_with("serialization error: "));
}
