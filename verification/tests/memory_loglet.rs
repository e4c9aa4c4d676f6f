use relos::base::{Entry, RelosError};
use relos::log::{Loglet, LogletFactory, MemoryLoglet, MemoryLogletFactory};

#[test]
fn memory_loglet_test_append_and_read() {
    let mut loglet = MemoryLoglet::new();
    let entry = Entry::new(b"hello".to_vec());

    let pos = loglet.append(&entry).unwrap();
    assert_eq!(pos, 1);

    let read_entry = loglet.read(pos).unwrap().unwrap();
    assert_eq!(read_entry.payload, b"hello");
}

#[test]
fn memory_loglet_test_append_multiple() {
    let mut loglet = MemoryLoglet::new();

    let pos1 = loglet.append(&Entry::new(b"a".to_vec())).unwrap();
    let pos2 = loglet.append(&Entry::new(b"b".to_vec())).unwrap();
    let pos3 = loglet.append(&Entry::new(b"c".to_vec())).unwrap();

    assert_eq!(pos1, 1);
    assert_eq!(pos2, 2);
    assert_eq!(pos3, 3);

    assert_eq!(loglet.read(1).unwrap().unwrap().payload, b"a");
    assert_eq!(loglet.read(2).unwrap().unwrap().payload, b"b");
    assert_eq!(loglet.read(3).unwrap().unwrap().payload, b"c");
}

#[test]
fn memory_loglet_test_check_tail() {
    let mut loglet = MemoryLoglet::new();
    assert_eq!(loglet.check_tail().unwrap(), 1);

    loglet.append(&Entry::new(b"a".to_vec())).unwrap();
    assert_eq!(loglet.check_tail().unwrap(), 2);

    loglet.append(&Entry::new(b"b".to_vec())).unwrap();
    assert_eq!(loglet.check_tail().unwrap(), 3);
}

#[test]
fn memory_loglet_test_read_beyond_tail_returns_none() {
    let loglet = MemoryLoglet::new();
    assert!(loglet.read(1).unwrap().is_none());
    assert!(loglet.read(100).unwrap().is_none());
}

#[test]
fn memory_loglet_test_seal_blocks_appends() {
    let mut loglet = MemoryLoglet::new();
    loglet.append(&Entry::new(b"a".to_vec())).unwrap();

    let seal_pos = loglet.seal().unwrap();
    assert_eq!(seal_pos, 2);

    let result = loglet.append(&Entry::new(b"b".to_vec()));
    assert!(matches!(result, Err(RelosError::Sealed(2))));
}

#[test]
fn test_seal_returns_tail() {
    let mut loglet = MemoryLoglet::new();
    loglet.append(&Entry::new(b"x".to_vec())).unwrap();
    loglet.append(&Entry::new(b"y".to_vec())).unwrap();

    let tail = loglet.seal().unwrap();
    assert_eq!(tail, 3);
}

#[test]
fn memory_loglet_test_trim() {
    let mut loglet = MemoryLoglet::new();
    loglet.append(&Entry::new(b"a".to_vec())).unwrap();
    loglet.append(&Entry::new(b"b".to_vec())).unwrap();
    loglet.append(&Entry::new(b"c".to_vec())).unwrap();

    // Trim positions < 3 (i.e., positions 1 and 2)
    loglet.trim(3).unwrap();

    // Positions 1 and 2 should return Trimmed
    assert!(matches!(loglet.read(1), Err(RelosError::Trimmed(1))));
    assert!(matches!(loglet.read(2), Err(RelosError::Trimmed(2))));

    // Position 3 should still be readable
    assert_eq!(loglet.read(3).unwrap().unwrap().payload, b"c");
}

#[test]
fn test_trim_idempotent() {
    let mut loglet = MemoryLoglet::new();
    loglet.append(&Entry::new(b"a".to_vec())).unwrap();
    loglet.append(&Entry::new(b"b".to_vec())).unwrap();

    loglet.trim(2).unwrap();
    loglet.trim(2).unwrap(); // should be fine
    loglet.trim(1).unwrap(); // lower trim_pos should be ignored

    assert!(matches!(loglet.read(1), Err(RelosError::Trimmed(1))));
    assert_eq!(loglet.read(2).unwrap().unwrap().payload, b"b");
}

#[test]
fn memory_loglet_test_read_after_seal() {
    let mut loglet = MemoryLoglet::new();
    loglet.append(&Entry::new(b"a".to_vec())).unwrap();
    loglet.seal().unwrap();

    // Reading should still work after sealing
    assert_eq!(loglet.read(1).unwrap().unwrap().payload, b"a");
}

#[test]
fn memory_loglet_test_entry_with_headers() {
    let mut loglet = MemoryLoglet::new();
    let entry = Entry::new(b"payload".to_vec()).with_header("engine1", b"header_data".to_vec());

    let pos = loglet.append(&entry).unwrap();
    let read_entry = loglet.read(pos).unwrap().unwrap();

    assert_eq!(read_entry.payload, b"payload");
    assert_eq!(read_entry.get_header("engine1"), Some(b"header_data".as_ref()));
}

#[test]
fn trimming_keeps_the_tail() {
    let mut loglet = MemoryLoglet::default();
    for i in 0..4u8 {
        loglet.append(&Entry::new(vec![i])).unwrap();
    }
    loglet.trim(4).unwrap();
    assert_eq!(loglet.check_tail().unwrap(), 5);
    assert_eq!(loglet.append(&Entry::new(vec![9])).unwrap(), 5);
    assert_eq!(loglet.read(4).unwrap().unwrap().payload, [3]);
    assert_eq!(loglet.read(5).unwrap().unwrap().payload, [9]);
}

#[test]
fn seal_twice_gives_the_same_tail() {
    let mut loglet = MemoryLoglet::new();
    loglet.append(&Entry::new(b"a".to_vec())).unwrap();
    assert_eq!(loglet.seal().unwrap(), 2);
    assert_eq!(loglet.seal().unwrap(), 2);
    assert_eq!(loglet.check_tail().unwrap(), 2);
}

#[test]
fn position_zero_counts_as_trimmed() {
    let mut loglet = MemoryLoglet::new();
    loglet.append(&Entry::new(b"a".to_vec())).unwrap();
    assert!(matches!(loglet.read(0), Err(RelosError::Trimmed(0))));
}

#[test]
fn factory_makes_empty_loglets() {
    let factory = MemoryLogletFactory;
    let mut a = factory.create("a").unwrap();
    a.append(&Entry::new(b"x".to_vec())).unwrap();
    let b = factory.create("a").unwrap();
    assert_eq!(b.check_tail().unwrap(), 1);
}

#[test]
fn every_position_below_the_tail_holds_an_entry() {
    let mut loglet = MemoryLoglet::new();
    for i in 0u8..5 {
        loglet.append(&Entry::new(vec![i])).unwrap();
    }
    loglet.trim(3).unwrap();
    loglet.append(&Entry::new(vec![5])).unwrap();
    loglet.seal().unwrap();
    for pos in 3..loglet.check_tail().unwrap() {
        assert_eq!(loglet.read(pos).unwrap().unwrap().payload, vec![pos as u8 - 1]);
    }
    assert_eq!(loglet.check_tail().unwrap(), 7);
}
