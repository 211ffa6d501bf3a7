use bbcpr::engine::{
    cleanup_old_transfers, is_expired, resume_notice, FinishStep, ProgressGate, ResumeDecision,
};
use bbcpr::{BbcprError, TransferEngine, TransferMessage, TransferOptions, TransferState};

fn options(streams: u32, resume: bool, compress: Option<u8>) -> TransferOptions {
    TransferOptions {
        streams,
        buffer_size: 4096,
        window_size: 4096,
        compress,
        checksum: false,
        preserve: false,
        force: false,
        resume,
        cleanup_on_success: true,
    }
}

fn engine(streams: u32, resume: bool, compress: Option<u8>) -> TransferEngine {
    TransferEngine::new("/src/f".to_string(), "/dst/f".to_string(), options(streams, resume, compress))
}

fn saved_record(total: u64, streams: u32, compress: Option<u8>) -> TransferState {
    let mut state = TransferState::created_at("/src/f", "/dst/f", total, streams, compress, 100);
    state.initialize_chunks();
    state
}

#[test]
fn fresh_transfer_partitions_the_file() {
    let plan = engine(4, false, None).plan_transfer(1000, None, 42).unwrap();
    assert!(matches!(plan.decision, ResumeDecision::Fresh));
    assert_eq!(plan.pending, vec![0, 1, 2, 3]);
    assert_eq!(plan.state.timestamp, 42);
    assert_eq!(plan.state.chunk_states[&3].start_offset, 750);
    assert_eq!(plan.state.chunk_states[&3].end_offset, 1000);
    assert!(resume_notice(&plan.state).is_none());
}

#[test]
fn resume_reuses_a_matching_record_and_skips_done_chunks() {
    let mut saved = saved_record(1000, 4, Some(5));
    saved.mark_chunk_complete(0, None);
    saved.update_chunk_progress(2, 100);
    let plan = engine(4, true, Some(5)).plan_transfer(1000, Some(saved), 999).unwrap();
    assert!(matches!(plan.decision, ResumeDecision::Resumed));
    assert_eq!(plan.pending, vec![1, 2, 3]);
    assert_eq!(plan.state.timestamp, 100);
    assert_eq!(plan.state.bytes_transferred, 350);
    assert_eq!(plan.state.chunk_states[&2].bytes_completed, 100);
    match resume_notice(&plan.state) {
        Some(TransferMessage::Resumed { previous_bytes }) => assert_eq!(previous_bytes, 350),
        _ => panic!("expected a resume notice"),
    }
}

#[test]
fn resume_discards_a_record_of_another_size() {
    let mut saved = saved_record(1000, 4, None);
    saved.mark_chunk_complete(0, None);
    let plan = engine(4, true, None).plan_transfer(2000, Some(saved), 7).unwrap();
    assert!(matches!(plan.decision, ResumeDecision::Discarded));
    assert_eq!(plan.pending, vec![0, 1, 2, 3]);
    assert_eq!(plan.state.total_size, 2000);
    assert_eq!(plan.state.bytes_transferred, 0);
    assert_eq!(plan.state.chunk_states[&1].start_offset, 500);
    assert_eq!(plan.state.chunk_states[&1].end_offset, 1000);
}

#[test]
fn resume_discards_a_record_with_other_streams_or_compression() {
    let plan = engine(3, true, None).plan_transfer(1000, Some(saved_record(1000, 4, None)), 7).unwrap();
    assert!(matches!(plan.decision, ResumeDecision::Discarded));
    assert_eq!(plan.state.chunk_states.len(), 3);
    let plan = engine(4, true, Some(1)).plan_transfer(1000, Some(saved_record(1000, 4, None)), 7).unwrap();
    assert!(matches!(plan.decision, ResumeDecision::Discarded));
    assert_eq!(plan.state.compression_level, Some(1));
}

#[test]
fn resume_without_a_record_starts_fresh() {
    let plan = engine(2, true, None).plan_transfer(10, None, 7).unwrap();
    assert!(matches!(plan.decision, ResumeDecision::Fresh));
    assert_eq!(plan.pending, vec![0, 1]);
}

#[test]
fn a_record_is_ignored_when_resume_is_off() {
    let mut saved = saved_record(1000, 4, None);
    saved.mark_chunk_complete(1, None);
    let plan = engine(4, false, None).plan_transfer(1000, Some(saved), 7).unwrap();
    assert!(matches!(plan.decision, ResumeDecision::Fresh));
    assert_eq!(plan.state.bytes_transferred, 0);
}

#[test]
fn finished_record_leaves_nothing_to_copy() {
    let mut saved = saved_record(1000, 4, None);
    for id in 0..4u32 {
        saved.mark_chunk_complete(id, None);
    }
    let plan = engine(4, true, None).plan_transfer(1000, Some(saved), 7).unwrap();
    assert!(matches!(plan.decision, ResumeDecision::Resumed));
    assert!(plan.pending.is_empty());
    assert!(plan.state.is_complete());
}

#[test]
fn zero_streams_is_a_configuration_error() {
    let result = engine(0, true, None).plan_transfer(1000, None, 7);
    assert!(matches!(result, Err(BbcprError::Config(_))));
    let result = engine(0, false, None).create_new_transfer_state(1000, 7);
    assert!(matches!(result, Err(BbcprError::Config(_))));
}

#[test]
fn cleanup_removes_exactly_the_old_records() {
    let day = 86400u64;
    let now = 100 * day;
    let stamps = [now - 10 * day, now - 2 * day, now - 7 * day - 1, now - 7 * day, now + 5, 0];
    let records: Vec<TransferState> = stamps
        .iter()
        .map(|&t| TransferState::created_at("/s", "/d", 1, 1, None, t))
        .collect();
    let removed = cleanup_old_transfers(&records, now, 7);
    assert_eq!(removed, vec![0, 2, 5]);
    assert_eq!(removed.len(), 3);
    assert!(cleanup_old_transfers(&records, now, u64::MAX).is_empty());
    assert_eq!(cleanup_old_transfers(&records, now, 0), vec![0, 1, 2, 3, 5]);
}

#[test]
fn expiry_threshold() {
    assert!(!is_expired(1000, 1000 + 86400, 1));
    assert!(is_expired(1000, 1001 + 86400, 1));
    assert!(!is_expired(5000, 1000, 0));
    assert!(!is_expired(0, u64::MAX, u64::MAX / 1000));
}

#[test]
fn nothing_follows_a_terminal_message() {
    let mut gate = ProgressGate::new();
    assert!(gate.may_send(&TransferMessage::Progress { bytes_transferred: 1, total_bytes: 2 }));
    assert!(gate.may_send(&TransferMessage::Complete));
    assert!(!gate.may_send(&TransferMessage::Progress { bytes_transferred: 2, total_bytes: 2 }));
    assert!(!gate.may_send(&TransferMessage::Error("late".to_string())));

    let mut gate = ProgressGate::new();
    assert!(gate.may_send(&TransferMessage::Error("boom".to_string())));
    assert!(!gate.may_send(&TransferMessage::Complete));
}

#[test]
fn one_worker_per_pending_chunk_from_its_resume_point() {
    let mut saved = saved_record(1000, 4, None);
    saved.mark_chunk_complete(0, None);
    saved.update_chunk_progress(2, 100);
    let plan = engine(4, true, None).plan_transfer(1000, Some(saved), 7).unwrap();
    let workers = plan.worker_streams(64);
    let shape: Vec<(u32, u64, u64, u64)> = workers
        .iter()
        .map(|(s, chunk_start)| (s.id(), s.start_offset(), s.end_offset(), *chunk_start))
        .collect();
    assert_eq!(shape, vec![(1, 250, 500, 250), (2, 600, 750, 500), (3, 750, 1000, 750)]);
    assert!(workers.iter().all(|(s, _)| s.buffer_size() == 64));
}

#[test]
fn finished_plan_needs_no_workers() {
    let mut saved = saved_record(10, 2, None);
    saved.mark_chunk_complete(0, None);
    saved.mark_chunk_complete(1, None);
    let plan = engine(2, true, None).plan_transfer(10, Some(saved), 7).unwrap();
    assert!(plan.worker_streams(64).is_empty());
}

#[test]
fn end_of_transfer_steps() {
    let mut engine_with_checks = engine(2, true, None);
    engine_with_checks.options.checksum = true;
    let mut state = saved_record(10, 2, None);
    state.mark_chunk_complete(0, None);
    assert!(matches!(engine_with_checks.finish_step(&state, true), FinishStep::Resumable));
    state.mark_chunk_complete(1, None);
    assert!(matches!(
        engine_with_checks.finish_step(&state, true),
        FinishStep::Done { verify_checksum: true, delete_record: true }
    ));
    assert!(matches!(
        engine_with_checks.finish_step(&state, false),
        FinishStep::Done { verify_checksum: false, delete_record: true }
    ));
    let mut keep = engine(2, true, None);
    keep.options.cleanup_on_success = false;
    assert!(matches!(
        keep.finish_step(&state, true),
        FinishStep::Done { verify_checksum: false, delete_record: false }
    ));
}
