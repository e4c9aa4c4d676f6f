use relos::base::LOG_POS_BEGIN;
use relos::log::{ChainSegment, LogChain};

#[test]
fn test_new_chain() {
    let chain = LogChain::new("loglet-0".to_string());
    assert_eq!(chain.segments.len(), 1);
    assert_eq!(chain.segments[0].loglet_id, "loglet-0");
    assert_eq!(chain.segments[0].start_pos, LOG_POS_BEGIN);
    assert!(chain.segments[0].end_pos.is_none());
}

#[test]
fn test_active_segment() {
    let chain = LogChain::new("loglet-0".to_string());
    let active = chain.active_segment().unwrap();
    assert_eq!(active.loglet_id, "loglet-0");
}

#[test]
fn test_find_segment_single() {
    let chain = LogChain::new("loglet-0".to_string());
    let seg = chain.find_segment(1).unwrap();
    assert_eq!(seg.loglet_id, "loglet-0");

    let seg = chain.find_segment(100).unwrap();
    assert_eq!(seg.loglet_id, "loglet-0");
}

#[test]
fn test_extend() {
    let mut chain = LogChain::new("loglet-0".to_string());
    chain.extend(5, "loglet-1".to_string());

    assert_eq!(chain.segments.len(), 2);
    assert_eq!(chain.segments[0].end_pos, Some(5));
    assert_eq!(chain.segments[1].start_pos, 5);
    assert!(chain.segments[1].end_pos.is_none());
}

#[test]
fn test_find_segment_after_extend() {
    let mut chain = LogChain::new("loglet-0".to_string());
    chain.extend(5, "loglet-1".to_string());

    // Positions 1-4 should map to loglet-0
    assert_eq!(chain.find_segment(1).unwrap().loglet_id, "loglet-0");
    assert_eq!(chain.find_segment(4).unwrap().loglet_id, "loglet-0");

    // Position 5+ should map to loglet-1
    assert_eq!(chain.find_segment(5).unwrap().loglet_id, "loglet-1");
    assert_eq!(chain.find_segment(100).unwrap().loglet_id, "loglet-1");
}

#[test]
fn test_active_segment_after_extend() {
    let mut chain = LogChain::new("loglet-0".to_string());
    chain.extend(5, "loglet-1".to_string());

    let active = chain.active_segment().unwrap();
    assert_eq!(active.loglet_id, "loglet-1");
}

#[test]
fn test_multiple_extends() {
    let mut chain = LogChain::new("loglet-0".to_string());
    chain.extend(5, "loglet-1".to_string());
    chain.extend(10, "loglet-2".to_string());

    assert_eq!(chain.segments.len(), 3);
    assert_eq!(chain.find_segment(3).unwrap().loglet_id, "loglet-0");
    assert_eq!(chain.find_segment(7).unwrap().loglet_id, "loglet-1");
    assert_eq!(chain.find_segment(15).unwrap().loglet_id, "loglet-2");
}

#[test]
fn position_before_the_first_is_in_no_segment() {
    let mut chain = LogChain::new("loglet-0".to_string());
    assert!(chain.find_segment(0).is_none());
    chain.extend(5, "loglet-1".to_string());
    assert!(chain.find_segment(0).is_none());
    assert_eq!(chain.find_segment(u64::MAX).unwrap().loglet_id, "loglet-1");
}

#[test]
fn gap_between_segments_is_in_no_segment() {
    let chain = LogChain {
        segments: vec![
            ChainSegment { loglet_id: "a".to_string(), start_pos: 1, end_pos: Some(3) },
            ChainSegment { loglet_id: "b".to_string(), start_pos: 7, end_pos: None },
        ],
    };
    assert_eq!(chain.find_segment(2).unwrap().loglet_id, "a");
    assert!(chain.find_segment(3).is_none());
    assert!(chain.find_segment(6).is_none());
    assert_eq!(chain.find_segment(7).unwrap().loglet_id, "b");
}

#[test]
fn chain_without_segments_has_nothing_active() {
    let mut chain = LogChain { segments: Vec::new() };
    assert!(chain.active_segment().is_none());
    assert!(chain.find_segment(1).is_none());
    chain.extend(4, "first".to_string());
    assert_eq!(chain.segments.len(), 1);
    assert_eq!(chain.active_segment().unwrap().start_pos, 4);
}

#[test]
fn copied_chain_goes_its_own_way() {
    let chain = LogChain::new("loglet-0".to_string());
    let mut copy = chain.clone();
    copy.extend(2, "loglet-1".to_string());
    assert_eq!(chain.segments.len(), 1);
    assert_eq!(copy.segments.len(), 2);
}
