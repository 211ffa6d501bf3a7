//! The decisions of a transfer: which record it runs on (a saved one, or a
//! fresh partition), which chunks still need a worker, which saved records
//! have grown too old, and which progress messages may still go out.

use vstd::prelude::*;

use crate::error::BbcprError;
use crate::state::{planned_chunks, tiles, TransferState};
use crate::stream::TransferStream;

verus! {

/// How a transfer is to be carried out.
pub struct TransferOptions {
    pub streams: u32,
    pub buffer_size: usize,
    pub window_size: usize,
    pub compress: Option<u8>,
    pub checksum: bool,
    pub preserve: bool,
    pub force: bool,
    pub resume: bool,
    pub cleanup_on_success: bool,
}

/// A message from the engine and its workers to whoever reports progress.
pub enum TransferMessage {
    /// Aggregate progress of the whole transfer.
    Progress { bytes_transferred: u64, total_bytes: u64 },
    Checksum { algorithm: String, value: Vec<u8> },
    Complete,
    Error(String),
    /// The transfer continues a saved record that had this much done.
    Resumed { previous_bytes: u64 },
}

impl TransferMessage {
    /// `Complete` and `Error` end a channel.
    pub open spec fn spec_is_terminal(&self) -> bool {
        self is Complete || self is Error
    }

    #[verifier::when_used_as_spec(spec_is_terminal)]
    pub fn is_terminal(&self) -> (r: bool)
        ensures
            r == self.spec_is_terminal(),
    {
        match self {
            TransferMessage::Complete => true,
            TransferMessage::Error(_) => true,
            _ => false,
        }
    }
}

/// Guards a progress channel: once `Complete` or `Error` has gone out,
/// nothing more does.
pub struct ProgressGate {
    pub closed: bool,
}

impl ProgressGate {
    pub fn new() -> (r: Self)
        ensures
            !r.closed,
    {
        ProgressGate { closed: false }
    }

    /// Whether `message` may be sent, noting that the channel ends after it
    /// if it is terminal.
    pub fn may_send(&mut self, message: &TransferMessage) -> (r: bool)
        ensures
            r == !old(self).closed,
            final(self).closed == (old(self).closed || message.spec_is_terminal()),
    {
        if self.closed {
            false
        } else {
            self.closed = message.is_terminal();
            true
        }
    }
}

/// Whether the messages let through of a run through a gate could have come out
/// of it: at most one terminal message, and it is the last one.
pub open spec fn ends_once(sent: Seq<TransferMessage>) -> bool {
    forall|i: int| 0 <= i < sent.len() - 1 ==> !(#[trigger] sent[i]).spec_is_terminal()
}

/// Sending through a gate keeps the sent messages in the shape `ends_once`
/// describes: whatever is offered, no message follows a terminal one.
pub proof fn lemma_gate_keeps_terminal_last(
    sent: Seq<TransferMessage>,
    closed: bool,
    message: TransferMessage,
)
    requires
        ends_once(sent),
        closed == (sent.len() > 0 && sent.last().spec_is_terminal()),
    ensures
        ({
            let let_through = !closed;
            let after = if let_through { sent.push(message) } else { sent };
            &&& ends_once(after)
            &&& (closed || message.spec_is_terminal()) == (after.len() > 0
                && after.last().spec_is_terminal())
        }),
{
    if !closed {
        let after = sent.push(message);
        assert forall|i: int| 0 <= i < after.len() - 1 implies !(#[trigger] after[i]).spec_is_terminal() by {
            assert(after[i] == sent[i]);
            if i == sent.len() - 1 {
                assert(sent.last() == sent[i]);
            }
        }
    }
}

/// What became of a saved record when a transfer started.
pub enum ResumeDecision {
    /// No saved record was asked for or found: the transfer starts afresh.
    Fresh,
    /// The saved record matches the request and is continued.
    Resumed,
    /// The saved record does not match the request: it is to be deleted and
    /// the transfer starts afresh.
    Discarded,
}

/// The record a transfer runs on, and the chunks that still need a worker.
pub struct TransferPlan {
    pub state: TransferState,
    pub decision: ResumeDecision,
    /// Ids of the incomplete chunks, ascending; empty when all is done.
    pub pending: Vec<u32>,
}

/// A saved record can be continued for a request: it is well formed, its
/// chunks are laid out over the file, and its size, stream count and
/// compression level are those asked for.
pub open spec fn resumable(
    existing: TransferState,
    total_size: u64,
    streams: u32,
    compress: Option<u8>,
) -> bool {
    &&& existing.wf()
    &&& tiles(existing.chunks(), existing.streams, existing.total_size)
    &&& existing.total_size == total_size
    &&& existing.streams == streams
    &&& existing.compression_level == compress
}

/// `state` is the record of a fresh transfer: created for the request at
/// `now`, partitioned, with nothing copied.
pub open spec fn fresh_record(
    state: TransferState,
    source: Seq<char>,
    destination: Seq<char>,
    total_size: u64,
    options: TransferOptions,
    now: u64,
) -> bool {
    &&& state.wf()
    &&& state.transfer_id@ == crate::identity::transfer_id_of(source, destination)
    &&& state.source_path@ == source
    &&& state.destination_path@ == destination
    &&& state.total_size == total_size
    &&& state.bytes_transferred == 0
    &&& state.checksum is None
    &&& state.timestamp == now
    &&& state.streams == options.streams
    &&& state.compression_level == options.compress
    &&& state.chunks() == planned_chunks(total_size, options.streams)
}

/// The ids that the incomplete chunks of `state` have, listed in ascending order.
pub open spec fn lists_incomplete(state: TransferState, ids: Seq<u32>) -> bool {
    &&& forall|j: int|
        0 <= j < ids.len() ==> state.chunks().contains_key(#[trigger] ids[j])
            && !state.chunks()[ids[j]].completed
    &&& forall|k: u32|
        #[trigger] state.chunks().contains_key(k) && !state.chunks()[k].completed ==> ids.contains(k)
    &&& forall|a: int, b: int| 0 <= a < b < ids.len() ==> ids[a] < ids[b]
}

/// Seconds since a record was made, as of `now`; a record stamped in the
/// future is of age zero.
pub open spec fn age(timestamp: u64, now: u64) -> int {
    if now >= timestamp {
        now - timestamp
    } else {
        0
    }
}

/// A record made at `timestamp` is older than `max_age_days` days at `now`.
pub open spec fn expired(timestamp: u64, now: u64, max_age_days: u64) -> bool {
    age(timestamp, now) > max_age_days * 86400
}

/// Seconds in a day.
pub const SECONDS_PER_DAY: u64 = 86400;

/// Whether a record made at `timestamp` is older than `max_age_days` days at `now`.
pub fn is_expired(timestamp: u64, now: u64, max_age_days: u64) -> (r: bool)
    ensures
        r == expired(timestamp, now, max_age_days),
{
    let age = now.saturating_sub(timestamp);
    match max_age_days.checked_mul(SECONDS_PER_DAY) {
        Some(limit) => age > limit,
        None => false,
    }
}

/// The positions, ascending, of the records among `transfers` that are older
/// than `max_age_days` days at `now`: exactly those a cleanup deletes, each
/// once, so that their number is the count the cleanup reports; records
/// within the limit are not listed and stay.
pub fn cleanup_old_transfers(transfers: &Vec<TransferState>, now: u64, max_age_days: u64) -> (r: Vec<
    usize,
>)
    ensures
        r@.to_set() == expired_positions(transfers@, now, max_age_days),
        r.len() == expired_positions(transfers@, now, max_age_days).len(),
        forall|j: int|
            0 <= j < r.len() ==> #[trigger] r[j] < transfers.len() && expired(
                transfers[r[j] as int].timestamp,
                now,
                max_age_days,
            ),
        forall|i: int|
            0 <= i < transfers.len() && expired(#[trigger] transfers[i].timestamp, now, max_age_days)
                ==> r@.contains(i as usize),
        forall|a: int, b: int| 0 <= a < b < r.len() ==> r[a] < r[b],
{
    let mut r: Vec<usize> = Vec::new();
    let mut i: usize = 0;
    while i < transfers.len()
        invariant
            0 <= i <= transfers.len(),
            forall|j: int|
                0 <= j < r.len() ==> #[trigger] r[j] < i && expired(
                    transfers[r[j] as int].timestamp,
                    now,
                    max_age_days,
                ),
            forall|k: int|
                0 <= k < i && expired(#[trigger] transfers[k].timestamp, now, max_age_days)
                    ==> r@.contains(k as usize),
            forall|a: int, b: int| 0 <= a < b < r.len() ==> r[a] < r[b],
        decreases transfers.len() - i,
    {
        if is_expired(transfers[i].timestamp, now, max_age_days) {
            let ghost prev = r@;
            r.push(i);
            proof {
                assert(r[r.len() - 1] == i);
                assert forall|x: usize| prev.contains(x) implies r@.contains(x) by {
                    let j = choose|j: int| 0 <= j < prev.len() && prev[j] == x;
                    assert(r@[j] == x);
                }
            }
        }
        i = i + 1;
    }
    proof {
        lemma_positions_counted(transfers@, now, max_age_days, r@);
    }
    r
}

/// The positions of the records among `transfers` older than `max_age_days`
/// days at `now`.
pub open spec fn expired_positions(transfers: Seq<TransferState>, now: u64, max_age_days: u64) -> Set<
    usize,
> {
    Set::new(
        |i: usize| i < transfers.len() && expired(transfers[i as int].timestamp, now, max_age_days),
    )
}

/// An ascending list of exactly the expired positions holds each of them once.
proof fn lemma_positions_counted(
    transfers: Seq<TransferState>,
    now: u64,
    max_age_days: u64,
    removed: Seq<usize>,
)
    requires
        forall|j: int|
            0 <= j < removed.len() ==> #[trigger] removed[j] < transfers.len() && expired(
                transfers[removed[j] as int].timestamp,
                now,
                max_age_days,
            ),
        forall|i: int|
            0 <= i < transfers.len() && expired(#[trigger] transfers[i].timestamp, now, max_age_days)
                ==> removed.contains(i as usize),
        forall|a: int, b: int| 0 <= a < b < removed.len() ==> removed[a] < removed[b],
    ensures
        removed.to_set() == expired_positions(transfers, now, max_age_days),
        removed.len() == expired_positions(transfers, now, max_age_days).len(),
{
    let target = expired_positions(transfers, now, max_age_days);
    assert forall|x: usize| #[trigger] removed.to_set().contains(x) <==> target.contains(x) by {
        if removed.to_set().contains(x) {
            let j = choose|j: int| 0 <= j < removed.len() && removed[j] == x;
            assert(removed[j] < transfers.len());
        }
        if target.contains(x) {
            assert(0 <= x as int && (x as int) < transfers.len());
            assert(expired(transfers[x as int].timestamp, now, max_age_days));
        }
    }
    assert(removed.to_set() =~= target);
    assert(removed.no_duplicates()) by {
        assert forall|a: int, b: int| 0 <= a < removed.len() && 0 <= b < removed.len() && a != b
            implies removed[a] != removed[b] by {
            if a < b {
                assert(removed[a] < removed[b]);
            } else {
                assert(removed[b] < removed[a]);
            }
        }
    }
    removed.unique_seq_to_set();
}

/// Orchestrates one copy of `source_path` to `destination_path`.
pub struct TransferEngine {
    pub options: TransferOptions,
    pub source_path: String,
    pub destination_path: String,
}

impl TransferEngine {
    pub fn new(source: String, destination: String, options: TransferOptions) -> (r: Self)
        ensures
            r.source_path == source,
            r.destination_path == destination,
            r.options == options,
    {
        TransferEngine { options, source_path: source, destination_path: destination }
    }

    /// A fresh record for this transfer, made at `now` and partitioned over
    /// `total_size` bytes. A stream count of zero is a configuration error,
    /// reported before any partitioning.
    pub fn create_new_transfer_state(&self, total_size: u64, now: u64) -> (r: Result<
        TransferState,
        BbcprError,
    >)
        ensures
            self.options.streams == 0 <==> r is Err,
            r matches Err(e) ==> e is Config,
            r matches Ok(state) ==> fresh_record(
                state,
                self.source_path@,
                self.destination_path@,
                total_size,
                self.options,
                now,
            ),
    {
        if self.options.streams == 0 {
            return Err(BbcprError::Config(String::from_str("the stream count must be at least 1")));
        }
        let mut state = TransferState::created_at(
            self.source_path.as_str(),
            self.destination_path.as_str(),
            total_size,
            self.options.streams,
            self.options.compress,
            now,
        );
        state.initialize_chunks();
        Ok(state)
    }

    /// The record a resumed transfer runs on: the saved one, `existing`,
    /// when it can be continued; otherwise a fresh one made at `now`, and a
    /// saved record that does not match is marked for deletion.
    pub fn load_or_create_transfer_state(
        &self,
        total_size: u64,
        existing: Option<TransferState>,
        now: u64,
    ) -> (r: Result<(TransferState, ResumeDecision), BbcprError>)
        ensures
            self.options.streams == 0 <==> r is Err,
            r matches Err(e) ==> e is Config,
            r matches Ok((state, decision)) ==> match existing {
                Some(saved) => if resumable(
                    saved,
                    total_size,
                    self.options.streams,
                    self.options.compress,
                ) {
                    decision is Resumed && state == saved
                } else {
                    decision is Discarded && fresh_record(
                        state,
                        self.source_path@,
                        self.destination_path@,
                        total_size,
                        self.options,
                        now,
                    )
                },
                None => decision is Fresh && fresh_record(
                    state,
                    self.source_path@,
                    self.destination_path@,
                    total_size,
                    self.options,
                    now,
                ),
            },
    {
        if self.options.streams == 0 {
            return Err(BbcprError::Config(String::from_str("the stream count must be at least 1")));
        }
        match existing {
            Some(saved) => {
                if saved.is_well_formed() && saved.streams >= 1 && saved.total_size == total_size
                    && saved.streams == self.options.streams && same_level(
                    saved.compression_level,
                    self.options.compress,
                ) && chunks_laid_out(&saved) {
                    Ok((saved, ResumeDecision::Resumed))
                } else {
                    match self.create_new_transfer_state(total_size, now) {
                        Ok(state) => Ok((state, ResumeDecision::Discarded)),
                        Err(e) => Err(e),
                    }
                }
            },
            None => match self.create_new_transfer_state(total_size, now) {
                Ok(state) => Ok((state, ResumeDecision::Fresh)),
                Err(e) => Err(e),
            },
        }
    }

    /// Decides how a transfer of `total_size` bytes starts: with `resume`
    /// set, on the saved record `existing` when it can be continued, else on
    /// a fresh partition made at `now`; and lists the chunks that still need
    /// a worker (none when everything is already copied).
    pub fn plan_transfer(&self, total_size: u64, existing: Option<TransferState>, now: u64) -> (r:
        Result<TransferPlan, BbcprError>)
        ensures
            self.options.streams == 0 <==> r is Err,
            r matches Err(e) ==> e is Config,
            r matches Ok(plan) ==> {
                &&& plan.state.wf()
                &&& lists_incomplete(plan.state, plan.pending@)
                &&& if self.options.resume && existing is Some && resumable(
                    existing->Some_0,
                    total_size,
                    self.options.streams,
                    self.options.compress,
                ) {
                    plan.decision is Resumed && plan.state == existing->Some_0
                } else {
                    &&& fresh_record(
                        plan.state,
                        self.source_path@,
                        self.destination_path@,
                        total_size,
                        self.options,
                        now,
                    )
                    &&& plan.decision is Discarded <==> (self.options.resume && existing is Some)
                    &&& plan.decision is Fresh <==> !(self.options.resume && existing is Some)
                }
            },
    {
        let chosen = if self.options.resume {
            self.load_or_create_transfer_state(total_size, existing, now)
        } else {
            match self.create_new_transfer_state(total_size, now) {
                Ok(state) => Ok((state, ResumeDecision::Fresh)),
                Err(e) => Err(e),
            }
        };
        match chosen {
            Ok((state, decision)) => {
                let pending = state.get_incomplete_chunks();
                Ok(TransferPlan { state, decision, pending })
            },
            Err(e) => Err(e),
        }
    }
}

impl TransferPlan {
    /// The workers the plan needs: for each pending chunk, in order, the
    /// stream over what remains of it, with the offset where the chunk
    /// starts. None when nothing is pending.
    pub fn worker_streams(&self, buffer_size: usize) -> (r: Vec<(TransferStream, u64)>)
        requires
            self.state.wf(),
            lists_incomplete(self.state, self.pending@),
        ensures
            r.len() == self.pending.len(),
            forall|j: int|
                0 <= j < r.len() ==> {
                    let chunk = self.state.chunks()[#[trigger] self.pending[j]];
                    let (s, start) = r[j];
                    &&& s.wf()
                    &&& s.spec_id() == chunk.chunk_id
                    &&& s.spec_start() == chunk.start_offset + chunk.bytes_completed
                    &&& s.spec_end() == chunk.end_offset
                    &&& s.spec_buffer_size() == buffer_size
                    &&& start == chunk.start_offset
                },
    {
        let mut r: Vec<(TransferStream, u64)> = Vec::new();
        let mut j: usize = 0;
        while j < self.pending.len()
            invariant
                0 <= j <= self.pending.len(),
                self.state.wf(),
                lists_incomplete(self.state, self.pending@),
                r.len() == j,
                forall|i: int|
                    0 <= i < j ==> {
                        let chunk = self.state.chunks()[#[trigger] self.pending[i]];
                        let (s, start) = r[i];
                        &&& s.wf()
                        &&& s.spec_id() == chunk.chunk_id
                        &&& s.spec_start() == chunk.start_offset + chunk.bytes_completed
                        &&& s.spec_end() == chunk.end_offset
                        &&& s.spec_buffer_size() == buffer_size
                        &&& start == chunk.start_offset
                    },
            decreases self.pending.len() - j,
        {
            let id = self.pending[j];
            proof {
                assert(self.state.chunks().contains_key(id));
                assert(tiles(self.state.chunks(), self.state.streams, self.state.total_size));
                assert(self.state.chunks()[id].wf());
            }
            let chunk = self.state.chunk_states.get(&id).unwrap();
            let s = TransferStream::for_chunk(chunk, buffer_size).unwrap();
            r.push((s, chunk.start_offset));
            j = j + 1;
        }
        r
    }
}

/// What a transfer does once its workers, if any, are done.
pub enum FinishStep {
    /// Some chunk is still incomplete, as the source ended early: the
    /// transfer fails, and its record stays so that it can be resumed.
    Resumable,
    /// Every chunk is complete: verify the digests if asked to, delete the
    /// record if asked to, then send `Complete`.
    Done { verify_checksum: bool, delete_record: bool },
}

impl TransferEngine {
    /// The end of a transfer on `state`. `workers_ran` says whether any
    /// worker was started: a transfer found already complete skips straight
    /// to cleanup, without verifying.
    pub fn finish_step(&self, state: &TransferState, workers_ran: bool) -> (r: FinishStep)
        requires
            state.wf(),
        ensures
            r is Resumable <==> !(forall|k: u32|
                #[trigger] state.chunks().contains_key(k) ==> state.chunks()[k].completed),
            r matches FinishStep::Done { verify_checksum, delete_record } ==> verify_checksum == (
            self.options.checksum && workers_ran) && delete_record == self.options.cleanup_on_success,
    {
        if state.is_complete() {
            FinishStep::Done {
                verify_checksum: self.options.checksum && workers_ran,
                delete_record: self.options.cleanup_on_success,
            }
        } else {
            FinishStep::Resumable
        }
    }
}

/// The message that announces a resumed transfer: sent when the record it
/// runs on already has bytes copied.
pub fn resume_notice(state: &TransferState) -> (r: Option<TransferMessage>)
    ensures
        state.bytes_transferred > 0 ==> r == Some(
            TransferMessage::Resumed { previous_bytes: state.bytes_transferred },
        ),
        state.bytes_transferred == 0 ==> r is None,
{
    if state.bytes_transferred > 0 {
        Some(TransferMessage::Resumed { previous_bytes: state.bytes_transferred })
    } else {
        None
    }
}

fn same_level(a: Option<u8>, b: Option<u8>) -> (r: bool)
    ensures
        r == (a == b),
{
    match (a, b) {
        (Some(x), Some(y)) => x == y,
        (None, None) => true,
        _ => false,
    }
}

/// Whether a well-formed record has its chunks laid out over the file.
fn chunks_laid_out(state: &TransferState) -> (r: bool)
    requires
        state.wf(),
        state.streams >= 1,
    ensures
        r == tiles(state.chunks(), state.streams, state.total_size),
{
    let laid_out = state.chunk_states.len() != 0;
    proof {
        if !laid_out {
            assert(state.chunks().dom().len() == 0);
            if tiles(state.chunks(), state.streams, state.total_size) {
                assert(state.chunks().contains_key(0u32));
            }
        } else if state.chunks() == Map::<u32, crate::state::ChunkState>::empty() {
            assert(state.chunks().dom() =~= Set::<u32>::empty());
        }
    }
    laid_out
}

} // verus!
