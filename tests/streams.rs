use bbcpr::stream::{CopyProgress, CopyStep, CHECKPOINT_INTERVAL};
use bbcpr::{ChunkState, TransferStream};

fn chunk(id: u32, start: u64, end: u64, done: u64) -> ChunkState {
    ChunkState {
        chunk_id: id,
        start_offset: start,
        end_offset: end,
        bytes_completed: done,
        checksum: None,
        completed: done >= end - start,
    }
}

#[test]
fn finished_chunk_needs_no_stream() {
    assert!(TransferStream::for_chunk(&chunk(1, 100, 200, 100), 16).is_none());
    assert!(TransferStream::for_chunk(&chunk(1, 100, 100, 0), 16).is_none());
}

#[test]
fn stream_resumes_where_the_chunk_stopped() {
    let s = TransferStream::for_chunk(&chunk(2, 500, 750, 40), 64).unwrap();
    assert_eq!(s.id(), 2);
    assert_eq!(s.start_offset(), 540);
    assert_eq!(s.end_offset(), 750);
    assert_eq!(s.len(), 210);
    assert_eq!(s.next_read_len(0), 64);
    assert_eq!(s.next_read_len(200), 10);
}

#[test]
fn copy_steps_until_the_range_is_done() {
    let s = TransferStream::new(0, 0, 25, 10);
    let mut p = CopyProgress::start();
    let mut reads = Vec::new();
    while let CopyStep::Read(n) = p.next_step(&s) {
        reads.push(n);
        p.record_read(&s, n);
    }
    assert_eq!(reads, vec![10, 10, 5]);
    assert_eq!(p.copied, 25);
    assert_eq!(p.chunk_progress(&s, 0), 25);
}

#[test]
fn short_source_stops_without_completing() {
    let s = TransferStream::new(0, 100, 200, 30);
    let mut p = CopyProgress::start();
    assert!(matches!(p.next_step(&s), CopyStep::Read(30)));
    assert!(!p.record_read(&s, 30));
    assert!(!p.record_read(&s, 0));
    assert!(matches!(p.next_step(&s), CopyStep::Finish));
    assert_eq!(p.chunk_progress(&s, 80), 50);
}

#[test]
fn checkpoints_come_every_interval() {
    let s = TransferStream::new(0, 0, 1_000_000, 1);
    let mut p = CopyProgress::start();
    let mut due = Vec::new();
    for i in 1..=25u64 {
        if p.record_read(&s, 1) {
            due.push(i);
        }
    }
    assert_eq!(CHECKPOINT_INTERVAL, 10);
    assert_eq!(due, vec![10, 20]);
}

#[test]
fn empty_buffer_finishes_at_once() {
    let s = TransferStream::new(0, 0, 10, 0);
    assert!(matches!(CopyProgress::start().next_step(&s), CopyStep::Finish));
}
