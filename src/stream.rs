//! One worker's share of a transfer: the bytes that remain of one chunk, and
//! the steps that copy them (read a buffer, write it, checkpoint every few
//! buffers, stop at the end of the range or of the source).

use vstd::prelude::*;

use crate::state::ChunkState;

verus! {

/// A checkpoint is due after this many buffers.
pub const CHECKPOINT_INTERVAL: u64 = 10;

/// The byte range `[start_offset, end_offset)` that one worker copies, with
/// the size of its I/O buffer.
pub struct TransferStream {
    id: u32,
    start_offset: u64,
    end_offset: u64,
    buffer_size: usize,
}

impl TransferStream {
    pub closed spec fn spec_id(&self) -> u32 {
        self.id
    }

    pub closed spec fn spec_start(&self) -> u64 {
        self.start_offset
    }

    pub closed spec fn spec_end(&self) -> u64 {
        self.end_offset
    }

    pub closed spec fn spec_buffer_size(&self) -> usize {
        self.buffer_size
    }

    /// Bytes the stream covers.
    pub open spec fn spec_len(&self) -> int {
        self.spec_end() - self.spec_start()
    }

    pub closed spec fn wf(&self) -> bool {
        self.start_offset <= self.end_offset
    }

    pub fn new(id: u32, start_offset: u64, end_offset: u64, buffer_size: usize) -> (r: Self)
        requires
            start_offset <= end_offset,
        ensures
            r.wf(),
            r.spec_id() == id,
            r.spec_start() == start_offset,
            r.spec_end() == end_offset,
            r.spec_buffer_size() == buffer_size,
    {
        TransferStream { id, start_offset, end_offset, buffer_size }
    }

    /// The stream that copies what remains of `chunk`, from its resume point
    /// `start_offset + bytes_completed` to its end; none when nothing
    /// remains, so that a finished chunk is never read again.
    pub fn for_chunk(chunk: &ChunkState, buffer_size: usize) -> (r: Option<Self>)
        requires
            chunk.wf(),
        ensures
            r is None <==> chunk.bytes_completed >= chunk.len(),
            r matches Some(s) ==> {
                &&& s.wf()
                &&& s.spec_id() == chunk.chunk_id
                &&& s.spec_start() == chunk.start_offset + chunk.bytes_completed
                &&& s.spec_end() == chunk.end_offset
                &&& s.spec_buffer_size() == buffer_size
            },
    {
        if chunk.bytes_completed >= chunk.end_offset - chunk.start_offset {
            None
        } else {
            Some(
                TransferStream::new(
                    chunk.chunk_id,
                    chunk.start_offset + chunk.bytes_completed,
                    chunk.end_offset,
                    buffer_size,
                ),
            )
        }
    }

    pub fn id(&self) -> (r: u32)
        ensures
            r == self.spec_id(),
    {
        self.id
    }

    /// Where reading and writing start, in the source and the destination alike.
    pub fn start_offset(&self) -> (r: u64)
        ensures
            r == self.spec_start(),
    {
        self.start_offset
    }

    pub fn end_offset(&self) -> (r: u64)
        ensures
            r == self.spec_end(),
    {
        self.end_offset
    }

    pub fn buffer_size(&self) -> (r: usize)
        ensures
            r == self.spec_buffer_size(),
    {
        self.buffer_size
    }

    /// Number of bytes the stream is to copy.
    pub fn len(&self) -> (r: u64)
        requires
            self.wf(),
        ensures
            r == self.spec_len(),
    {
        self.end_offset - self.start_offset
    }

    /// How many bytes to read once `copied` are done: a full buffer, or what
    /// remains of the range if that is less.
    pub fn next_read_len(&self, copied: u64) -> (r: usize)
        requires
            self.wf(),
            copied <= self.spec_len(),
        ensures
            r as int == if self.spec_buffer_size() as int <= self.spec_len() - copied {
                self.spec_buffer_size() as int
            } else {
                self.spec_len() - copied
            },
    {
        let remaining = self.end_offset - self.start_offset - copied;
        if self.buffer_size as u64 <= remaining {
            self.buffer_size
        } else {
            remaining as usize
        }
    }
}

/// What a worker does next.
pub enum CopyStep {
    /// Read up to this many bytes, then write exactly what was read.
    Read(usize),
    /// Flush the destination and record the chunk's final progress.
    Finish,
}

/// How far a worker has got through its stream.
pub struct CopyProgress {
    /// Bytes read and written so far.
    pub copied: u64,
    /// Non-empty buffers handled so far.
    pub buffers: u64,
    /// The source ended before the range did.
    pub source_ended: bool,
}

impl CopyProgress {
    pub fn start() -> (r: Self)
        ensures
            r.copied == 0,
            r.buffers == 0,
            !r.source_ended,
    {
        CopyProgress { copied: 0, buffers: 0, source_ended: false }
    }

    /// Reads go on while bytes of the range remain and the source has not
    /// ended; a stream with an empty buffer cannot progress and finishes.
    pub fn next_step(&self, stream: &TransferStream) -> (r: CopyStep)
        requires
            stream.wf(),
            self.copied <= stream.spec_len(),
        ensures
            r matches CopyStep::Read(n) ==> n > 0 && n as int == if stream.spec_buffer_size() as int
                <= stream.spec_len() - self.copied {
                stream.spec_buffer_size() as int
            } else {
                stream.spec_len() - self.copied
            },
            r is Finish <==> (self.source_ended || self.copied == stream.spec_len()
                || stream.spec_buffer_size() == 0),
    {
        if self.source_ended || self.copied == stream.len() {
            CopyStep::Finish
        } else {
            let n = stream.next_read_len(self.copied);
            if n == 0 {
                CopyStep::Finish
            } else {
                CopyStep::Read(n)
            }
        }
    }

    /// Accounts for a read that returned `n` bytes, `n` no more than was
    /// asked for; zero means the source has ended. Returns whether a
    /// checkpoint of the chunk's progress is due now: after every
    /// `CHECKPOINT_INTERVAL` buffers.
    pub fn record_read(&mut self, stream: &TransferStream, n: usize) -> (checkpoint: bool)
        requires
            stream.wf(),
            old(self).copied + n <= stream.spec_len(),
            old(self).buffers < u64::MAX,
        ensures
            n == 0 ==> final(self).copied == old(self).copied && final(self).buffers == old(
                self,
            ).buffers && final(self).source_ended && !checkpoint,
            n > 0 ==> final(self).copied == old(self).copied + n && final(self).buffers == old(
                self,
            ).buffers + 1 && final(self).source_ended == old(self).source_ended && checkpoint == (
            final(self).buffers % CHECKPOINT_INTERVAL == 0),
    {
        if n == 0 {
            self.source_ended = true;
            false
        } else {
            self.copied = self.copied + n as u64;
            self.buffers = self.buffers + 1;
            self.buffers % CHECKPOINT_INTERVAL == 0
        }
    }

    /// The progress to record for the stream's chunk, which starts at
    /// `chunk_start`: what was done before this stream, plus what it copied.
    pub fn chunk_progress(&self, stream: &TransferStream, chunk_start: u64) -> (r: u64)
        requires
            stream.wf(),
            chunk_start <= stream.spec_start(),
            self.copied <= stream.spec_len(),
        ensures
            r == stream.spec_start() - chunk_start + self.copied,
            r <= stream.spec_end() - chunk_start,
    {
        stream.start_offset() - chunk_start + self.copied
    }
}

} // verus!
