use tangleaf::sync::{
    check_binding, configure_clears_binding, cursor_from_stored, parse_u64, SeqPosition, SeqStep,
    SequencedBatch, SyncError,
};

#[test]
fn cursors_are_read_as_decimal_numbers() {
    assert_eq!(parse_u64("0"), Some(0));
    assert_eq!(parse_u64("18446744073709551615"), Some(u64::MAX));
    assert_eq!(parse_u64("18446744073709551616"), None);
    assert_eq!(parse_u64("+5"), Some(5));
    assert_eq!(parse_u64(""), None);
    assert_eq!(parse_u64("1a"), None);
    assert_eq!(cursor_from_stored(None), Ok(0));
    assert_eq!(cursor_from_stored(Some("42")), Ok(42));
    assert_eq!(cursor_from_stored(Some("x")), Err(SyncError::Unreadable));
}

#[test]
fn sequence_numbers_are_accepted_in_order() {
    let mut batch = SequencedBatch::new(4);
    assert_eq!(batch.position(3), SeqPosition::Past);
    assert_eq!(batch.position(4), SeqPosition::Past);
    assert_eq!(batch.position(5), SeqPosition::Next);
    assert_eq!(batch.position(7), SeqPosition::Gap { expected: 5 });
    assert_eq!(batch.accept_next(5, None), Ok(SeqStep::Apply));
    assert_eq!(batch.cursor, 5);
    assert_eq!(batch.position(5), SeqPosition::Past);
    assert_eq!(batch.accept_next(6, Some(None)), Ok(SeqStep::Number));
    assert_eq!(batch.accept_next(7, Some(Some(7))), Ok(SeqStep::Number));
    assert_eq!(batch.accept_next(8, Some(Some(3))), Err(SyncError::Conflict { seq: 8 }));
    assert_eq!(batch.cursor, 7);
}

#[test]
fn a_replayed_number_must_name_the_same_operation() {
    let batch = SequencedBatch::new(10);
    assert_eq!(batch.accept_past(3, 77, None), Ok(SeqStep::Replay));
    assert_eq!(batch.accept_past(3, 77, Some(77)), Ok(SeqStep::Replay));
    assert_eq!(batch.accept_past(3, 77, Some(78)), Err(SyncError::Conflict { seq: 3 }));
}

#[test]
fn the_cursor_saturates_at_the_top_of_the_range() {
    let batch = SequencedBatch::new(u64::MAX);
    assert_eq!(batch.position(u64::MAX), SeqPosition::Past);
}

#[test]
fn a_new_server_forgets_the_workspace_binding() {
    assert!(configure_clears_binding(None, "https://a"));
    assert!(!configure_clears_binding(Some("https://a"), "  https://a "));
    assert!(configure_clears_binding(Some("https://a"), "https://b"));
}

#[test]
fn binding_needs_the_same_server_and_workspace() {
    assert_eq!(check_binding(Some("https://a"), " https://a", 1, 1), Ok(()));
    assert_eq!(check_binding(None, "https://a", 1, 1), Err(SyncError::ServerChanged));
    assert_eq!(check_binding(Some("https://b"), "https://a", 1, 1), Err(SyncError::ServerChanged));
    assert_eq!(
        check_binding(Some("https://a"), "https://a", 1, 2),
        Err(SyncError::WorkspaceMismatch { local: 1, remote: 2 })
    );
}

#[test]
fn a_batch_delivered_again_is_all_replays() {
    let mut batch = SequencedBatch::new(0);
    for seq in [1u64, 2, 2, 3] {
        match batch.position(seq) {
            SeqPosition::Next => {
                assert_eq!(batch.accept_next(seq, None), Ok(SeqStep::Apply));
            }
            SeqPosition::Past => {
                assert_eq!(batch.accept_past(seq, 7, None), Ok(SeqStep::Replay));
            }
            SeqPosition::Gap { .. } => panic!("no gap in this batch"),
        }
    }
    assert_eq!(batch.cursor, 3);
    for seq in [1u64, 2, 2, 3] {
        assert_eq!(batch.position(seq), SeqPosition::Past);
    }
    assert_eq!(batch.cursor, 3);
}
