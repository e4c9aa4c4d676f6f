use relos::base::text::decimal;
use relos::base::{Entry, RelosError};

#[test]
fn entry_keeps_one_header_for_each_engine() {
    let entry = Entry::new(b"p".to_vec())
        .with_header("a", vec![1])
        .with_header("b", vec![2])
        .with_header("a", vec![3]);
    assert_eq!(entry.get_header("a"), Some([3].as_ref()));
    assert_eq!(entry.get_header("b"), Some([2].as_ref()));
    assert_eq!(entry.get_header("c"), None);
    assert_eq!(entry.headers.len(), 2);
    let copy = entry.clone();
    assert_eq!(copy.payload, b"p");
    assert_eq!(copy.get_header("b"), Some([2].as_ref()));
    assert!(Entry::default().payload.is_empty());
}

#[test]
fn entry_comes_back_from_its_bytes() {
    let entry = Entry::new(b"payload".to_vec()).with_header("engine", b"meta".to_vec());
    let bytes = entry.to_bytes().unwrap();
    let expected = bincode::serialize(&(
        vec![("engine", b"meta".to_vec())],
        b"payload".to_vec(),
    ))
    .unwrap();
    assert_eq!(bytes, expected);
    let back = Entry::from_bytes(&bytes).unwrap();
    assert_eq!(back.payload, b"payload");
    assert_eq!(back.get_header("engine"), Some(b"meta".as_ref()));
    let empty = Entry::from_bytes(&Entry::new(Vec::new()).to_bytes().unwrap()).unwrap();
    assert!(empty.headers.is_empty());
    assert!(empty.payload.is_empty());
}

#[test]
fn last_of_two_headers_with_one_name_is_read() {
    let bytes = bincode::serialize(&(
        vec![("x", vec![1u8]), ("y", vec![2]), ("x", vec![3])],
        Vec::<u8>::new(),
    ))
    .unwrap();
    let entry = Entry::from_bytes(&bytes).unwrap();
    assert_eq!(entry.headers.len(), 2);
    assert_eq!(entry.get_header("x"), Some([3].as_ref()));
    assert_eq!(entry.get_header("y"), Some([2].as_ref()));
}

#[test]
fn broken_entry_is_reported() {
    let broken: Result<(Vec<(String, Vec<u8>)>, Vec<u8>), _> = bincode::deserialize(&[1u8, 2]);
    match Entry::from_bytes(&[1, 2]) {
        Err(RelosError::Serialization(m)) => assert_eq!(m, broken.unwrap_err().to_string()),
        _ => panic!("expected an error"),
    }
}

#[test]
fn errors_are_reported_in_words() {
    let cases = vec![
        (RelosError::Sealed(3), "log sealed at position 3"),
        (RelosError::Trimmed(10), "position 10 has been trimmed"),
        (RelosError::EndOfLog, "end of log reached"),
        (
            RelosError::VersionMismatch { expected: 0, actual: 12 },
            "version mismatch: expected 0, got 12",
        ),
        (RelosError::Serialization("x".to_string()), "serialization error: x"),
        (RelosError::Store("x".to_string()), "store error: x"),
        (RelosError::NotFound("x".to_string()), "not found: x"),
        (RelosError::InvalidOperation("x".to_string()), "invalid operation: x"),
        (RelosError::Io("x".to_string()), "io error: x"),
        (RelosError::Internal("x".to_string()), "internal error: x"),
    ];
    for (e, text) in cases {
        assert_eq!(e.message(), text);
        assert_eq!(e.clone().message(), text);
    }
}

#[test]
fn numbers_are_written_in_decimal() {
    for n in [0u64, 7, 10, 99, 100, 18446744073709551615] {
        assert_eq!(decimal(n), n.to_string());
    }
}
