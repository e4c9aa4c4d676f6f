use relos::base::{Entry, RelosError};
use relos::log::native_loglet::{
    append_outcome, decides, seal_outcome, AppendAction, QuorumClient,
};
use relos::log::replica::{
    LogServer, LogServerReply, LogServerRequest, ReadResult, Sequencer, SequencerReply,
    SequencerRequest,
};
use relos::log::{Loglet, LogletFactory, NativeLoglet, NativeLogletFactory};

#[test]
fn native_loglet_test_append_and_read() {
    let mut loglet = NativeLoglet::with_defaults();
    let entry = Entry::new(b"hello".to_vec());

    let pos = loglet.append(&entry).unwrap();
    assert_eq!(pos, 1);

    let read_entry = loglet.read(pos).unwrap().unwrap();
    assert_eq!(read_entry.payload, b"hello");
}

#[test]
fn native_loglet_test_append_multiple() {
    let mut loglet = NativeLoglet::with_defaults();

    let pos1 = loglet.append(&Entry::new(b"a".to_vec())).unwrap();
    let pos2 = loglet.append(&Entry::new(b"b".to_vec())).unwrap();
    let pos3 = loglet.append(&Entry::new(b"c".to_vec())).unwrap();

    assert_eq!(pos1, 1);
    assert_eq!(pos2, 2);
    assert_eq!(pos3, 3);

    assert_eq!(loglet.read(1).unwrap().unwrap().payload, b"a");
    assert_eq!(loglet.read(2).unwrap().unwrap().payload, b"b");
    assert_eq!(loglet.read(3).unwrap().unwrap().payload, b"c");
}

#[test]
fn native_loglet_test_seal_blocks_appends() {
    let mut loglet = NativeLoglet::with_defaults();
    loglet.append(&Entry::new(b"a".to_vec())).unwrap();

    let seal_pos = loglet.seal().unwrap();
    assert_eq!(seal_pos, 2);

    let result = loglet.append(&Entry::new(b"b".to_vec()));
    assert!(matches!(result, Err(RelosError::Sealed(2))));
}

#[test]
fn test_seal_returns_correct_tail() {
    let mut loglet = NativeLoglet::with_defaults();
    loglet.append(&Entry::new(b"x".to_vec())).unwrap();
    loglet.append(&Entry::new(b"y".to_vec())).unwrap();

    let tail = loglet.seal().unwrap();
    assert_eq!(tail, 3);
}

#[test]
fn native_loglet_test_read_after_seal() {
    let mut loglet = NativeLoglet::with_defaults();
    loglet.append(&Entry::new(b"a".to_vec())).unwrap();
    loglet.seal().unwrap();

    // Reading should still work after sealing.
    assert_eq!(loglet.read(1).unwrap().unwrap().payload, b"a");
}

#[test]
fn test_quorum_write() {
    // With 3 servers and quorum of 2, entries should be readable
    // even though not all servers may respond in the same order.
    let mut loglet = NativeLoglet::new(3);

    let pos = loglet.append(&Entry::new(b"quorum".to_vec())).unwrap();
    assert_eq!(pos, 1);

    // The entry should be readable (at least one server has it).
    let entry = loglet.read(pos).unwrap().unwrap();
    assert_eq!(entry.payload, b"quorum");
}

#[test]
fn native_loglet_test_trim() {
    let mut loglet = NativeLoglet::with_defaults();
    loglet.append(&Entry::new(b"a".to_vec())).unwrap();
    loglet.append(&Entry::new(b"b".to_vec())).unwrap();
    loglet.append(&Entry::new(b"c".to_vec())).unwrap();

    // Trim positions < 3 (i.e., positions 1 and 2).
    loglet.trim(3).unwrap();

    // Positions 1 and 2 should return Trimmed.
    assert!(matches!(loglet.read(1), Err(RelosError::Trimmed(1))));
    assert!(matches!(loglet.read(2), Err(RelosError::Trimmed(2))));

    // Position 3 should still be readable.
    assert_eq!(loglet.read(3).unwrap().unwrap().payload, b"c");
}

#[test]
fn test_concurrent_appends() {
    let mut loglet = NativeLoglet::with_defaults();
    let num_tasks = 10;
    let entries_per_task = 10;

    // The tasks take turns.
    let mut all_positions = Vec::new();
    for i in 0..entries_per_task {
        for task_id in 0..num_tasks {
            let payload = format!("task-{}-entry-{}", task_id, i).into_bytes();
            let pos = loglet.append(&Entry::new(payload)).unwrap();
            all_positions.push(pos);
        }
    }

    // All positions should be unique.
    all_positions.sort();
    all_positions.dedup();
    assert_eq!(
        all_positions.len(),
        num_tasks * entries_per_task,
        "all positions must be unique"
    );

    // All entries should be readable.
    for &pos in &all_positions {
        let entry = loglet.read(pos).unwrap();
        assert!(entry.is_some(), "entry at pos {} should exist", pos);
    }
}

#[test]
fn native_loglet_test_check_tail() {
    let mut loglet = NativeLoglet::with_defaults();
    assert_eq!(loglet.check_tail().unwrap(), 1);

    loglet.append(&Entry::new(b"a".to_vec())).unwrap();
    assert_eq!(loglet.check_tail().unwrap(), 2);

    loglet.append(&Entry::new(b"b".to_vec())).unwrap();
    assert_eq!(loglet.check_tail().unwrap(), 3);
}

#[test]
fn native_loglet_test_read_beyond_tail_returns_none() {
    let loglet = NativeLoglet::with_defaults();
    assert!(loglet.read(1).unwrap().is_none());
    assert!(loglet.read(100).unwrap().is_none());
}

#[test]
fn native_loglet_test_entry_with_headers() {
    let mut loglet = NativeLoglet::with_defaults();
    let entry = Entry::new(b"payload".to_vec()).with_header("engine1", b"header_data".to_vec());

    let pos = loglet.append(&entry).unwrap();
    let read_entry = loglet.read(pos).unwrap().unwrap();

    assert_eq!(read_entry.payload, b"payload");
    assert_eq!(read_entry.get_header("engine1"), Some(b"header_data".as_ref()));
}

#[test]
fn test_single_server() {
    // With 1 server, quorum is 1.
    let mut loglet = NativeLoglet::new(1);

    let pos = loglet.append(&Entry::new(b"solo".to_vec())).unwrap();
    assert_eq!(pos, 1);

    let entry = loglet.read(pos).unwrap().unwrap();
    assert_eq!(entry.payload, b"solo");

    let tail = loglet.seal().unwrap();
    assert_eq!(tail, 2);
}

#[test]
fn test_five_servers() {
    // With 5 servers, quorum is 3.
    let mut loglet = NativeLoglet::new(5);

    loglet.append(&Entry::new(b"a".to_vec())).unwrap();
    loglet.append(&Entry::new(b"b".to_vec())).unwrap();

    assert_eq!(loglet.read(1).unwrap().unwrap().payload, b"a");
    assert_eq!(loglet.read(2).unwrap().unwrap().payload, b"b");

    let tail = loglet.seal().unwrap();
    assert_eq!(tail, 3);
}

#[test]
fn test_factory_creates_distinct_loglets() {
    let factory = NativeLogletFactory::default();

    let mut loglet_a = factory.create("loglet-a").unwrap();
    let loglet_b = factory.create("loglet-b").unwrap();

    loglet_a.append(&Entry::new(b"in-a".to_vec())).unwrap();

    // loglet_b should be independent.
    assert_eq!(loglet_b.check_tail().unwrap(), 1);
    assert!(loglet_b.read(1).unwrap().is_none());
}

#[test]
fn quorum_decides_an_append() {
    // Two of three acknowledgements are enough, also where the entry was there
    // before or a server is sealed.
    let replies = vec![Some(Ok(true)), None, Some(Ok(true))];
    assert!(matches!(append_outcome(4, &replies, 2), Ok(4)));
    let replies = vec![Some(Ok(true)), None, Some(Ok(false))];
    assert!(matches!(append_outcome(4, &replies, 2), Ok(4)));
    let replies = vec![Some(Ok(true)), Some(Err(7)), Some(Ok(true))];
    assert!(matches!(append_outcome(4, &replies, 2), Ok(4)));
    // The last sealed server decides where there is no quorum.
    let replies = vec![Some(Err(6)), Some(Ok(true)), Some(Err(7))];
    assert!(matches!(append_outcome(4, &replies, 2), Err(RelosError::Sealed(7))));
    // Without one, the append fails.
    let replies = vec![Some(Ok(true)), None, None];
    match append_outcome(4, &replies, 2) {
        Err(RelosError::Internal(m)) => assert_eq!(m, "failed to reach quorum for append"),
        other => panic!("unexpected {:?}", other),
    }
}

#[test]
fn quorum_decides_a_seal() {
    // The highest tail of those that answered, or the sequencer's.
    let replies = vec![Some(3), None, Some(5)];
    assert!(matches!(seal_outcome(4, &replies, 2), Ok(5)));
    let replies = vec![Some(3), None, Some(2)];
    assert!(matches!(seal_outcome(4, &replies, 2), Ok(4)));
    let replies = vec![Some(3), None, None];
    match seal_outcome(4, &replies, 2) {
        Err(RelosError::Internal(m)) => assert_eq!(m, "failed to reach quorum for seal"),
        other => panic!("unexpected {:?}", other),
    }
}

#[test]
fn sequencer_assigns_until_it_is_sealed() {
    let mut s = Sequencer::new();
    assert!(matches!(s.handle(SequencerRequest::NextPos), SequencerReply::Assigned(Some(1))));
    assert!(matches!(s.handle(SequencerRequest::NextPos), SequencerReply::Assigned(Some(2))));
    assert!(matches!(s.handle(SequencerRequest::CheckTail), SequencerReply::Tail(3)));
    assert!(matches!(s.handle(SequencerRequest::Seal), SequencerReply::Tail(3)));
    assert!(matches!(s.handle(SequencerRequest::NextPos), SequencerReply::Assigned(None)));
    assert!(matches!(s.handle(SequencerRequest::CheckTail), SequencerReply::Tail(3)));
}

#[test]
fn log_server_keeps_what_it_stored_first() {
    let mut s = LogServer::new();
    let first = LogServerRequest::Store { pos: 2, entry: Entry::new(b"first".to_vec()) };
    assert!(matches!(s.handle(first), LogServerReply::Stored(Ok(true))));
    let again = LogServerRequest::Store { pos: 2, entry: Entry::new(b"again".to_vec()) };
    assert!(matches!(s.handle(again), LogServerReply::Stored(Ok(false))));
    match s.handle(LogServerRequest::Read { pos: 2 }) {
        LogServerReply::Read(ReadResult::Entry(e)) => assert_eq!(e.payload, b"first"),
        _ => panic!("expected an entry"),
    }
    assert!(matches!(
        s.handle(LogServerRequest::Read { pos: 1 }),
        LogServerReply::Read(ReadResult::NotFound)
    ));
    s.handle(LogServerRequest::Trim { pos: 2 });
    assert!(matches!(
        s.handle(LogServerRequest::Read { pos: 1 }),
        LogServerReply::Read(ReadResult::Trimmed)
    ));
    assert!(matches!(s.handle(LogServerRequest::Seal), LogServerReply::Sealed(3)));
    let late = LogServerRequest::Store { pos: 3, entry: Entry::new(b"late".to_vec()) };
    assert!(matches!(s.handle(late), LogServerReply::Stored(Err(3))));
}

#[test]
fn trimmed_loglet_goes_on() {
    let mut loglet = NativeLoglet::new(4);
    for i in 0..3u8 {
        loglet.append(&Entry::new(vec![i])).unwrap();
    }
    loglet.trim(3).unwrap();
    loglet.trim(1).unwrap();
    assert!(matches!(loglet.read(2), Err(RelosError::Trimmed(2))));
    assert_eq!(loglet.append(&Entry::new(vec![7])).unwrap(), 4);
    assert_eq!(loglet.seal().unwrap(), 5);
    assert_eq!(loglet.seal().unwrap(), 5);
    let factory = NativeLogletFactory::new(2);
    assert_eq!(factory.create("x").unwrap().check_tail().unwrap(), 1);
}

#[test]
fn sealed_majority_refuses_every_append() {
    let mut servers: Vec<LogServer> = (0..3).map(|_| LogServer::new()).collect();
    servers[0].seal();
    servers[2].seal();
    let entry = Entry::new(b"late".to_vec());
    let replies: Vec<_> = servers.iter_mut().map(|s| Some(s.store(1, entry.clone()))).collect();
    assert!(matches!(append_outcome(1, &replies, 2), Err(RelosError::Sealed(1))));
    // Also where the reply of the open server is lost.
    let replies = vec![replies[0], None, replies[2]];
    assert!(matches!(append_outcome(1, &replies, 2), Err(RelosError::Sealed(1))));
}

#[test]
fn every_majority_holds_an_acknowledged_entry() {
    let mut servers: Vec<LogServer> = (0..3).map(|_| LogServer::new()).collect();
    let entry = Entry::new(b"kept".to_vec());
    let first = servers[0].store(1, entry.clone());
    let second = servers[1].store(1, entry.clone());
    let replies = vec![Some(first), Some(second), None];
    assert!(matches!(append_outcome(1, &replies, 2), Ok(1)));
    for asked in [[0, 1], [0, 2], [1, 2]] {
        let held = asked.iter().any(|i| matches!(servers[*i].read(1), ReadResult::Entry(_)));
        assert!(held);
    }
}

fn held(payload: &[u8]) -> Option<ReadResult> {
    Some(ReadResult::Entry(Entry::new(payload.to_vec())))
}

#[test]
fn read_asks_the_next_server_where_one_has_nothing() {
    assert!(decides(&held(b"x")));
    assert!(decides(&Some(ReadResult::Trimmed)));
    assert!(!decides(&Some(ReadResult::NotFound)));
    assert!(!decides(&None));

    let client = QuorumClient::new(3);
    let found = client.found(3, vec![Some(ReadResult::NotFound), held(b"x")]).unwrap();
    assert_eq!(found.unwrap().payload, b"x");
    // The first that decides counts.
    let found = client.found(3, vec![held(b"x"), Some(ReadResult::Trimmed)]).unwrap();
    assert_eq!(found.unwrap().payload, b"x");
    assert!(matches!(
        client.found(3, vec![Some(ReadResult::Trimmed), held(b"x")]),
        Err(RelosError::Trimmed(3))
    ));
    let nothing = || Some(ReadResult::NotFound);
    assert!(matches!(client.found(3, vec![nothing(), nothing(), nothing()]), Ok(None)));
}

#[test]
fn read_goes_past_a_server_that_cannot_be_reached() {
    let client = QuorumClient::new(3);
    let found = client.found(3, vec![None, held(b"e")]).unwrap();
    assert_eq!(found.unwrap().payload, b"e");
    assert!(matches!(
        client.found(3, vec![None, Some(ReadResult::Trimmed)]),
        Err(RelosError::Trimmed(3))
    ));
    // That there is no entry takes a quorum.
    let nothing = || Some(ReadResult::NotFound);
    assert!(matches!(client.found(3, vec![None, nothing(), nothing()]), Ok(None)));
    match client.found(3, vec![None, nothing(), None]) {
        Err(RelosError::Internal(m)) => assert_eq!(m, "log server reply dropped"),
        _ => panic!("expected an error"),
    }
}

#[test]
fn acknowledged_entry_is_read_from_every_majority() {
    let mut servers: Vec<LogServer> = (0..3).map(|_| LogServer::new()).collect();
    let entry = Entry::new(b"kept".to_vec());
    let first = servers[0].store(1, entry.clone());
    let third = servers[2].store(1, entry.clone());
    let replies = vec![Some(first), None, Some(third)];
    assert!(matches!(append_outcome(1, &replies, 2), Ok(1)));
    let client = QuorumClient::new(3);
    for lost in 0..3 {
        let replies = (0..3).map(|i| if i == lost { None } else { Some(servers[i].read(1)) }).collect();
        assert_eq!(client.found(1, replies).unwrap().unwrap().payload, b"kept");
    }
}

#[test]
fn client_learns_that_the_loglet_is_sealed() {
    let mut client = QuorumClient::new(3);
    assert_eq!(client.quorum_size, 2);
    assert_eq!(client.start(), AppendAction::NextPos);
    assert_eq!(client.assigned(Some(5)), AppendAction::Store(5));
    assert!(matches!(client.stored(5, &vec![Some(Ok(true)), Some(Ok(true)), None]), Ok(5)));
    assert!(!client.sealed);

    // From a server, from the sequencer, or from its own seal.
    assert!(matches!(
        client.stored(6, &vec![Some(Err(6)), None, None]),
        Err(RelosError::Sealed(6))
    ));
    assert_eq!(client.start(), AppendAction::CheckTail);
    let mut client = QuorumClient::new(3);
    assert_eq!(client.assigned(None), AppendAction::CheckTail);
    assert!(client.sealed);
    let mut client = QuorumClient::new(4);
    assert_eq!(client.quorum_size, 3);
    assert!(client.closed(4, &vec![Some(2), Some(3), None, None]).is_err());
    assert!(!client.sealed);
    assert!(matches!(client.closed(4, &vec![Some(2), Some(3), Some(4), None]), Ok(4)));
    assert!(client.sealed);
    assert!(matches!(client.refused(4), RelosError::Sealed(4)));
}

#[test]
fn durable_entry_outlasts_other_stores_and_seals() {
    let mut servers: Vec<LogServer> = (0..3).map(|_| LogServer::new()).collect();
    let entry = Entry::new(b"kept".to_vec());
    servers[0].store(1, entry.clone()).unwrap();
    servers[1].store(1, entry.clone()).unwrap();
    servers[2].store(2, Entry::new(b"other".to_vec())).unwrap();
    servers[1].store(2, Entry::new(b"other".to_vec())).unwrap();
    servers[0].seal();
    servers[2].seal();
    let client = QuorumClient::new(3);
    for lost in 0..3 {
        let replies = (0..3).map(|i| if i == lost { None } else { Some(servers[i].read(1)) }).collect();
        assert_eq!(client.found(1, replies).unwrap().unwrap().payload, b"kept");
    }
}

#[test]
fn sealed_or_spent_sequencer_still_answers() {
    let mut spent = Sequencer { next_pos: u64::MAX, sealed: false };
    assert!(matches!(
        spent.handle(SequencerRequest::CheckTail),
        SequencerReply::Tail(tail) if tail == u64::MAX
    ));
    assert!(matches!(
        spent.handle(SequencerRequest::Seal),
        SequencerReply::Tail(tail) if tail == u64::MAX
    ));
    assert!(matches!(spent.handle(SequencerRequest::NextPos), SequencerReply::Assigned(None)));
    let mut server = LogServer::new();
    server.seal();
    assert_eq!(server.store(u64::MAX, Entry::new(Vec::new())), Err(1));
}

#[test]
fn factory_is_made_before_it_is_asked() {
    let _ = NativeLogletFactory::new(0);
}
