use relos::base::{Entry, RelosError};
use relos::log::{
    ChainSegment, LogChain, Loglet, LogletFactory, MemoryLoglet, MemoryLogletFactory,
    MemoryMetaStore, MetaStore, NativeLogletFactory, VirtualLog,
};

type MemoryLog = VirtualLog<MemoryLogletFactory, MemoryMetaStore>;

fn make_virtual_log() -> MemoryLog {
    let chain = LogChain::new("loglet-0".to_string());
    let meta_store = MemoryMetaStore::new(chain);
    let factory = MemoryLogletFactory;
    VirtualLog::new(meta_store, factory).unwrap()
}

/// Seals the active loglet.
fn seal(vlog: &mut MemoryLog) -> u64 {
    Loglet::seal(vlog).unwrap()
}

#[test]
fn virtual_log_test_append_and_read() {
    let mut vlog = make_virtual_log();

    let pos1 = vlog.append(&Entry::new(b"hello".to_vec())).unwrap();
    let pos2 = vlog.append(&Entry::new(b"world".to_vec())).unwrap();

    assert_eq!(pos1, 1);
    assert_eq!(pos2, 2);

    let e1 = vlog.read(pos1).unwrap().unwrap();
    assert_eq!(e1.payload, b"hello");

    let e2 = vlog.read(pos2).unwrap().unwrap();
    assert_eq!(e2.payload, b"world");
}

#[test]
fn virtual_log_test_check_tail() {
    let mut vlog = make_virtual_log();

    assert_eq!(vlog.check_tail().unwrap(), 1);
    vlog.append(&Entry::new(b"a".to_vec())).unwrap();
    assert_eq!(vlog.check_tail().unwrap(), 2);
}

#[test]
fn test_read_beyond_tail() {
    let vlog = make_virtual_log();
    let result = vlog.read(1).unwrap();
    assert!(result.is_none());
}

#[test]
fn virtual_log_test_trim() {
    let mut vlog = make_virtual_log();

    vlog.append(&Entry::new(b"a".to_vec())).unwrap();
    vlog.append(&Entry::new(b"b".to_vec())).unwrap();
    vlog.append(&Entry::new(b"c".to_vec())).unwrap();

    vlog.trim(3).unwrap();

    assert!(matches!(vlog.read(1), Err(RelosError::Trimmed(1))));
    assert!(matches!(vlog.read(2), Err(RelosError::Trimmed(2))));
    let e3 = vlog.read(3).unwrap().unwrap();
    assert_eq!(e3.payload, b"c");
}

#[test]
fn test_reconfigure_on_seal() {
    let mut vlog = make_virtual_log();

    // Write some entries
    vlog.append(&Entry::new(b"a".to_vec())).unwrap();
    vlog.append(&Entry::new(b"b".to_vec())).unwrap();

    // Manually seal the active loglet to trigger reconfiguration on next append
    seal(&mut vlog);

    // Next append should trigger reconfiguration and succeed
    let pos = vlog.append(&Entry::new(b"c".to_vec())).unwrap();
    assert_eq!(pos, 3);

    // Should be able to read all entries across segments
    let e1 = vlog.read(1).unwrap().unwrap();
    assert_eq!(e1.payload, b"a");
    let e2 = vlog.read(2).unwrap().unwrap();
    assert_eq!(e2.payload, b"b");
    let e3 = vlog.read(3).unwrap().unwrap();
    assert_eq!(e3.payload, b"c");

    // Check that MetaStore was updated
    let (chain, version) = vlog.meta_store().read().unwrap();
    assert_eq!(version, 1);
    assert_eq!(chain.segments.len(), 2);
}

#[test]
fn test_position_mapping_across_segments() {
    let mut vlog = make_virtual_log();

    // Write 3 entries in first segment
    for i in 0..3 {
        let pos = vlog
            .append(&Entry::new(format!("entry-{}", i).into_bytes()))
            .unwrap();
        assert_eq!(pos, (i + 1) as u64);
    }

    // Seal and reconfigure
    seal(&mut vlog);

    // Write entry in second segment — should get global pos 4
    let pos = vlog.append(&Entry::new(b"entry-3".to_vec())).unwrap();
    assert_eq!(pos, 4);

    // Verify tail
    assert_eq!(vlog.check_tail().unwrap(), 5);
}

#[test]
fn test_multiple_reconfigurations() {
    let mut vlog = make_virtual_log();

    // First segment: write 2 entries
    vlog.append(&Entry::new(b"a".to_vec())).unwrap();
    vlog.append(&Entry::new(b"b".to_vec())).unwrap();

    // Seal and reconfigure
    seal(&mut vlog);

    // Second segment: write 2 entries
    vlog.append(&Entry::new(b"c".to_vec())).unwrap();
    vlog.append(&Entry::new(b"d".to_vec())).unwrap();

    // Seal and reconfigure again
    seal(&mut vlog);

    // Third segment: write 1 entry
    let pos = vlog.append(&Entry::new(b"e".to_vec())).unwrap();
    assert_eq!(pos, 5);

    // Read all entries
    for (i, expected) in [b"a", b"b", b"c", b"d", b"e"].iter().enumerate() {
        let entry = vlog.read((i + 1) as u64).unwrap().unwrap();
        assert_eq!(&entry.payload, expected);
    }

    let (chain, version) = vlog.meta_store().read().unwrap();
    assert_eq!(version, 2);
    assert_eq!(chain.segments.len(), 3);
    assert_eq!(chain.segments[1].loglet_id, "loglet-1");
    assert_eq!(chain.segments[1].start_pos, 3);
    assert_eq!(chain.segments[1].end_pos, Some(5));
    assert_eq!(chain.segments[2].loglet_id, "loglet-2");
}

#[test]
fn seal_returns_the_global_tail() {
    let mut vlog = make_virtual_log();
    vlog.append(&Entry::new(b"a".to_vec())).unwrap();
    assert_eq!(seal(&mut vlog), 2);
    vlog.append(&Entry::new(b"b".to_vec())).unwrap();
    vlog.append(&Entry::new(b"c".to_vec())).unwrap();
    assert_eq!(seal(&mut vlog), 4);
    assert_eq!(vlog.check_tail().unwrap(), 4);
}

#[test]
fn trimmed_position_is_reported_as_it_was_asked_for() {
    let mut vlog = make_virtual_log();
    vlog.append(&Entry::new(b"a".to_vec())).unwrap();
    vlog.append(&Entry::new(b"b".to_vec())).unwrap();
    seal(&mut vlog);
    vlog.append(&Entry::new(b"c".to_vec())).unwrap();
    vlog.append(&Entry::new(b"d".to_vec())).unwrap();

    vlog.trim(4).unwrap();
    assert!(matches!(vlog.read(1), Err(RelosError::Trimmed(1))));
    assert!(matches!(vlog.read(2), Err(RelosError::Trimmed(2))));
    // The third position is the first of the second segment.
    assert!(matches!(vlog.read(3), Err(RelosError::Trimmed(3))));
    assert_eq!(vlog.read(4).unwrap().unwrap().payload, b"d");
}

#[test]
fn position_without_segment_is_an_error() {
    let vlog = make_virtual_log();
    match vlog.read(0) {
        Err(RelosError::Internal(m)) => assert_eq!(m, "no segment found for position 0"),
        _ => panic!("expected an error"),
    }
}

#[test]
fn chain_without_segments_takes_no_entries() {
    let meta_store = MemoryMetaStore::new(LogChain { segments: Vec::new() });
    let mut vlog = VirtualLog::new(meta_store, MemoryLogletFactory).unwrap();
    match vlog.append(&Entry::new(b"a".to_vec())) {
        Err(RelosError::Internal(m)) => assert_eq!(m, "no active segment in chain"),
        _ => panic!("expected an error"),
    }
    assert!(vlog.check_tail().is_err());
}

#[test]
fn lost_race_takes_over_the_other_chain() {
    let mut vlog = make_virtual_log();
    vlog.append(&Entry::new(b"a".to_vec())).unwrap();

    // Another client moves the register on to a segment of its own.
    let mut other = LogChain::new("loglet-0".to_string());
    other.extend(2, "theirs".to_string());
    assert!(vlog.meta_store_mut().write(other, 0).unwrap());

    seal(&mut vlog);
    assert_eq!(vlog.append(&Entry::new(b"b".to_vec())).unwrap(), 2);
    let (chain, version) = vlog.meta_store().read().unwrap();
    assert_eq!(version, 1);
    assert_eq!(chain.active_segment().unwrap().loglet_id, "theirs");
    assert_eq!(vlog.read(1).unwrap().unwrap().payload, b"a");
    assert_eq!(vlog.read(2).unwrap().unwrap().payload, b"b");
}

#[test]
fn log_attaches_to_a_chain_with_many_segments() {
    let meta_store = MemoryMetaStore::new(LogChain {
        segments: vec![
            ChainSegment { loglet_id: "x".to_string(), start_pos: 1, end_pos: Some(10) },
            ChainSegment { loglet_id: "y".to_string(), start_pos: 10, end_pos: None },
        ],
    });
    let mut vlog = VirtualLog::new(meta_store, NativeLogletFactory::default()).unwrap();
    assert_eq!(vlog.append(&Entry::new(b"tenth".to_vec())).unwrap(), 10);
    assert_eq!(vlog.check_tail().unwrap(), 11);
    assert_eq!(vlog.read(10).unwrap().unwrap().payload, b"tenth");
    assert!(vlog.read(9).unwrap().is_none());
}

#[test]
fn segment_that_starts_at_zero_has_positions() {
    let meta_store = MemoryMetaStore::new(LogChain {
        segments: vec![ChainSegment { loglet_id: "x".to_string(), start_pos: 0, end_pos: None }],
    });
    let mut vlog = VirtualLog::new(meta_store, MemoryLogletFactory).unwrap();
    assert_eq!(vlog.append(&Entry::new(b"a".to_vec())).unwrap(), 0);
    assert_eq!(vlog.append(&Entry::new(b"b".to_vec())).unwrap(), 1);
    assert_eq!(vlog.check_tail().unwrap(), 2);
    assert_eq!(Loglet::read(&vlog, 0).unwrap().unwrap().payload, b"a");
    Loglet::trim(&mut vlog, 1).unwrap();
    assert!(matches!(vlog.read(0), Err(RelosError::Trimmed(0))));
    assert_eq!(vlog.read(1).unwrap().unwrap().payload, b"b");
}

/// Makes the first loglet only.
struct FirstOnly;

impl LogletFactory for FirstOnly {
    type Log = MemoryLoglet;

    fn usable(&self) -> bool {
        true
    }

    fn reliable(&self) -> bool {
        false
    }

    fn create(&self, loglet_id: &str) -> Result<MemoryLoglet, RelosError> {
        if loglet_id == "loglet-0" {
            Ok(MemoryLoglet::new())
        } else {
            Err(RelosError::Io(format!("no room for {}", loglet_id)))
        }
    }
}

#[test]
fn failures_of_the_factory_are_passed_on() {
    let meta_store = MemoryMetaStore::new(LogChain::new("other".to_string()));
    assert!(matches!(VirtualLog::new(meta_store, FirstOnly), Err(RelosError::Io(_))));

    let meta_store = MemoryMetaStore::new(LogChain::new("loglet-0".to_string()));
    let mut vlog = VirtualLog::new(meta_store, FirstOnly).unwrap();
    vlog.append(&Entry::new(b"a".to_vec())).unwrap();
    Loglet::seal(&mut vlog).unwrap();
    match vlog.append(&Entry::new(b"b".to_vec())) {
        Err(RelosError::Io(m)) => assert_eq!(m, "no room for loglet-1"),
        other => panic!("unexpected {:?}", other),
    }
    assert_eq!(vlog.read(1).unwrap().unwrap().payload, b"a");
}

#[test]
fn virtual_log_is_a_loglet() {
    let mut vlog = make_virtual_log();
    assert_eq!(Loglet::append(&mut vlog, &Entry::new(b"a".to_vec())).unwrap(), 1);
    assert_eq!(Loglet::check_tail(&vlog).unwrap(), 2);
    assert_eq!(Loglet::read(&vlog, 1).unwrap().unwrap().payload, b"a");
    Loglet::trim(&mut vlog, 2).unwrap();
    assert!(matches!(Loglet::read(&vlog, 1), Err(RelosError::Trimmed(1))));
    let plain = MemoryLoglet::new();
    assert_eq!(plain.check_tail().unwrap(), 1);
}
