use bbcpr::identity::radix_string;
use bbcpr::{generate_transfer_id, TransferState};

#[test]
fn test_transfer_state_creation() {
    let mut state = TransferState::new("/source/file.txt", "/dest/file.txt", 1000, 4, Some(5));

    assert_eq!(state.total_size, 1000);
    assert_eq!(state.streams, 4);
    assert_eq!(state.compression_level, Some(5));
    assert_eq!(state.bytes_transferred, 0);

    state.initialize_chunks();
    assert_eq!(state.chunk_states.len(), 4);
}

#[test]
fn test_chunk_progress_updates() {
    let mut state = TransferState::new("/source/file.txt", "/dest/file.txt", 1000, 4, None);
    state.initialize_chunks();

    state.update_chunk_progress(0, 100);
    assert_eq!(state.bytes_transferred, 100);
    let (done, out_of) = state.completion_ratio();
    assert_eq!((done as f64 / out_of as f64) * 100.0, 10.0);

    state.mark_chunk_complete(0, Some("abc123".to_string()));
    assert!(state.chunk_states[&0].completed);
}

#[test]
fn test_transfer_id_generation() {
    let id1 = generate_transfer_id("/a", "/b");
    let id2 = generate_transfer_id("/a", "/b");
    let id3 = generate_transfer_id("/a", "/c");

    assert_eq!(id1, id2);
    assert_ne!(id1, id3);
}

#[test]
fn transfer_id_is_lower_case_hex_and_ignores_size() {
    let id = generate_transfer_id("/data/big.iso", "/backup/big.iso");
    assert!(!id.is_empty() && id.len() <= 16);
    assert!(id.chars().all(|c| c.is_ascii_digit() || ('a'..='f').contains(&c)));
    let small = TransferState::new("/data/big.iso", "/backup/big.iso", 10, 2, None);
    let large = TransferState::new("/data/big.iso", "/backup/big.iso", 99999, 8, Some(3));
    assert_eq!(small.transfer_id, id);
    assert_eq!(large.transfer_id, id);
    assert_ne!(generate_transfer_id("/backup/big.iso", "/data/big.iso"), id);
}

#[test]
fn radix_strings() {
    assert_eq!(radix_string(0, 16), "0");
    assert_eq!(radix_string(255, 16), "ff");
    assert_eq!(radix_string(0xdeadbeef, 16), "deadbeef");
    assert_eq!(radix_string(u64::MAX, 16), "ffffffffffffffff");
    assert_eq!(radix_string(1234, 10), "1234");
    assert_eq!(radix_string(7, 10), "7");
}

#[test]
fn new_record_is_stamped_with_the_clock() {
    let state = TransferState::new("/s", "/d", 5, 1, None);
    assert!(state.timestamp > 1_600_000_000);
    assert_eq!(state.source_path, "/s");
    assert_eq!(state.destination_path, "/d");
    assert!(state.chunk_states.is_empty());
    assert!(state.is_well_formed());
}

#[test]
fn partition_of_1000_over_4() {
    let mut state = TransferState::created_at("/s", "/d", 1000, 4, None, 0);
    state.initialize_chunks();
    let ranges: Vec<(u64, u64)> = (0..4u32)
        .map(|i| (state.chunk_states[&i].start_offset, state.chunk_states[&i].end_offset))
        .collect();
    assert_eq!(ranges, vec![(0, 250), (250, 500), (500, 750), (750, 1000)]);
    for i in 0..4u32 {
        assert_eq!(state.chunk_states[&i].chunk_id, i);
        assert!(!state.chunk_states[&i].completed);
    }
}

#[test]
fn partition_of_1000_over_3_last_takes_remainder() {
    let mut state = TransferState::created_at("/s", "/d", 1000, 3, None, 0);
    state.initialize_chunks();
    let ranges: Vec<(u64, u64)> = (0..3u32)
        .map(|i| (state.chunk_states[&i].start_offset, state.chunk_states[&i].end_offset))
        .collect();
    assert_eq!(ranges, vec![(0, 333), (333, 666), (666, 1000)]);
    assert_eq!(state.chunk_states.len(), 3);
}

#[test]
fn partition_of_empty_file_is_already_complete() {
    let mut state = TransferState::created_at("/s", "/d", 0, 3, None, 0);
    state.initialize_chunks();
    assert_eq!(state.chunk_states.len(), 3);
    assert!(state.is_complete());
    assert!(state.get_incomplete_chunks().is_empty());
    assert_eq!(state.completion_ratio(), (1, 1));
}

#[test]
fn partition_with_more_streams_than_bytes() {
    let mut state = TransferState::created_at("/s", "/d", 3, 4, None, 0);
    state.initialize_chunks();
    assert_eq!(state.chunk_states[&3].start_offset, 0);
    assert_eq!(state.chunk_states[&3].end_offset, 3);
    assert!(state.chunk_states[&0].completed);
    assert_eq!(state.get_incomplete_chunks(), vec![3]);
}

#[test]
fn progress_sums_over_chunks_and_never_goes_back() {
    let mut state = TransferState::created_at("/s", "/d", 1000, 4, None, 0);
    state.initialize_chunks();
    state.update_chunk_progress(1, 40);
    state.update_chunk_progress(3, 250);
    assert_eq!(state.bytes_transferred, 290);
    state.update_chunk_progress(1, 10);
    assert_eq!(state.chunk_states[&1].bytes_completed, 40);
    state.update_chunk_progress(2, 9999);
    assert_eq!(state.chunk_states[&2].bytes_completed, 250);
    assert_eq!(state.bytes_transferred, 540);
    state.update_chunk_progress(17, 5);
    assert_eq!(state.bytes_transferred, 540);
    assert!(state.is_well_formed());
}

#[test]
fn chunk_completes_exactly_at_its_length() {
    let mut state = TransferState::created_at("/s", "/d", 1000, 4, None, 0);
    state.initialize_chunks();
    state.update_chunk_progress(0, 249);
    assert!(!state.chunk_states[&0].completed);
    state.update_chunk_progress(0, 250);
    assert!(state.chunk_states[&0].completed);
    assert_eq!(state.get_incomplete_chunks(), vec![1, 2, 3]);
    assert!(!state.is_complete());
}

#[test]
fn marking_complete_counts_the_whole_chunk() {
    let mut state = TransferState::created_at("/s", "/d", 1000, 3, None, 0);
    state.initialize_chunks();
    state.update_chunk_progress(2, 100);
    state.mark_chunk_complete(2, None);
    assert_eq!(state.chunk_states[&2].bytes_completed, 334);
    assert_eq!(state.bytes_transferred, 334);
    state.mark_chunk_complete(0, None);
    state.mark_chunk_complete(1, Some("x".to_string()));
    assert!(state.is_complete());
    assert_eq!(state.bytes_transferred, 1000);
    assert_eq!(state.completion_ratio(), (1000, 1000));
}

#[test]
fn malformed_records_are_recognised() {
    let mut state = TransferState::created_at("/s", "/d", 1000, 4, None, 0);
    state.initialize_chunks();
    assert!(state.is_well_formed());

    let mut wrong_sum = state.clone();
    wrong_sum.bytes_transferred = 7;
    assert!(!wrong_sum.is_well_formed());

    let mut gap = state.clone();
    gap.chunk_states.get_mut(&2).unwrap().start_offset = 501;
    assert!(!gap.is_well_formed());

    let mut missing = state.clone();
    missing.chunk_states.remove(&1);
    assert!(!missing.is_well_formed());

    let mut short = state.clone();
    short.total_size = 2000;
    assert!(!short.is_well_formed());

    let mut bad_flag = state.clone();
    bad_flag.chunk_states.get_mut(&0).unwrap().completed = true;
    assert!(!bad_flag.is_well_formed());
}

#[test]
fn every_offset_lies_in_exactly_one_chunk() {
    let mut state = TransferState::created_at("/s", "/d", 1000, 3, None, 0);
    state.initialize_chunks();
    for x in [0u64, 1, 332, 333, 665, 666, 999] {
        let owners = state
            .chunk_states
            .values()
            .filter(|c| c.start_offset <= x && x < c.end_offset)
            .count();
        assert_eq!(owners, 1, "offset {}", x);
    }
    assert!(state.chunk_states.values().all(|c| c.end_offset <= 1000));
}
