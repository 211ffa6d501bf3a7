//! The persisted description of one transfer: its identity, its size and the
//! chunk map that splits the file into byte ranges, with the invariants that
//! tie aggregate progress to the chunks.

use vstd::prelude::*;
use vstd::arithmetic::div_mod::{lemma_fundamental_div_mod, lemma_mod_bound};
use std::collections::HashMap;

use crate::identity::{generate_transfer_id, transfer_id_of};

verus! {

broadcast use vstd::std_specs::hash::group_hash_axioms;

/// One contiguous byte range `[start_offset, end_offset)` of the file and how
/// much of it has been copied.
#[derive(Clone, Debug)]
pub struct ChunkState {
    pub chunk_id: u32,
    pub start_offset: u64,
    pub end_offset: u64,
    pub bytes_completed: u64,
    pub checksum: Option<String>,
    pub completed: bool,
}

impl ChunkState {
    /// Number of bytes the chunk covers.
    pub open spec fn len(self) -> int {
        self.end_offset - self.start_offset
    }

    /// Progress lies within the range, and `completed` says exactly whether all of it is done.
    pub open spec fn wf(self) -> bool {
        &&& self.start_offset <= self.end_offset
        &&& self.bytes_completed <= self.len()
        &&& self.completed == (self.bytes_completed >= self.len())
    }

    /// The progress recorded for `bytes` copied: it never goes backwards and
    /// never passes the end of the range.
    pub open spec fn progress_after(self, bytes: u64) -> int {
        if bytes <= self.bytes_completed {
            self.bytes_completed as int
        } else if bytes >= self.len() {
            self.len()
        } else {
            bytes as int
        }
    }

    /// The chunk once `bytes` copied have been reported for it.
    pub open spec fn advanced(self, bytes: u64) -> ChunkState {
        ChunkState {
            bytes_completed: self.progress_after(bytes) as u64,
            completed: self.progress_after(bytes) >= self.len(),
            ..self
        }
    }

    /// The chunk once it is declared complete, with its digest.
    pub open spec fn finished(self, checksum: Option<String>) -> ChunkState {
        ChunkState { bytes_completed: self.len() as u64, completed: true, checksum, ..self }
    }
}

/// A chunk holding exactly its whole range is complete; one byte short, it is not.
pub proof fn lemma_chunk_completion(c: ChunkState)
    requires
        c.wf(),
    ensures
        c.bytes_completed == c.len() ==> c.completed,
        c.bytes_completed + 1 == c.len() ==> !c.completed,
{
}

/// First byte of chunk `i` when `total` bytes are split over `n` streams.
pub open spec fn chunk_start(total: int, n: int, i: int) -> int {
    i * (total / n)
}

/// One past the last byte of chunk `i`; the last chunk takes the remainder.
pub open spec fn chunk_end(total: int, n: int, i: int) -> int {
    if i == n - 1 {
        total
    } else {
        (i + 1) * (total / n)
    }
}

/// Chunk `i` as partitioning lays it out: nothing copied yet, complete only if empty.
pub open spec fn planned_chunk(total: u64, n: u32, i: u32) -> ChunkState {
    ChunkState {
        chunk_id: i,
        start_offset: chunk_start(total as int, n as int, i as int) as u64,
        end_offset: chunk_end(total as int, n as int, i as int) as u64,
        bytes_completed: 0,
        checksum: None,
        completed: chunk_start(total as int, n as int, i as int) == chunk_end(
            total as int,
            n as int,
            i as int,
        ),
    }
}

/// The chunk map that partitioning `total` bytes over `n` streams produces.
pub open spec fn planned_chunks(total: u64, n: u32) -> Map<u32, ChunkState> {
    Map::new(|i: u32| i < n, |i: u32| planned_chunk(total, n, i))
}

/// `m` holds the chunks `0..n`, each well formed and keyed by its own id,
/// laid end to end in ascending id order over exactly `[0, total)`.
pub open spec fn tiles(m: Map<u32, ChunkState>, n: u32, total: u64) -> bool {
    &&& n > 0
    &&& forall|k: u32| #[trigger] m.contains_key(k) <==> k < n
    &&& forall|k: u32| k < n ==> (#[trigger] m[k]).chunk_id == k && m[k].wf()
    &&& m[0u32].start_offset == 0
    &&& m[(n - 1) as u32].end_offset == total
    &&& forall|k: u32| 0 < k < n ==> (#[trigger] m[k].start_offset) == m[(k - 1) as u32].end_offset
}

/// Sum of the progress of the chunks with ids below `k`.
pub open spec fn completed_sum(m: Map<u32, ChunkState>, k: nat) -> int
    decreases k,
{
    if k == 0 {
        0
    } else {
        completed_sum(m, (k - 1) as nat) + if m.contains_key((k - 1) as u32) {
            m[(k - 1) as u32].bytes_completed as int
        } else {
            0
        }
    }
}

proof fn lemma_chunk_bounds(total: int, n: int, i: int)
    requires
        0 <= total,
        0 <= i < n,
    ensures
        0 <= chunk_start(total, n, i) <= chunk_end(total, n, i) <= total,
        i + 1 < n ==> chunk_end(total, n, i) == chunk_start(total, n, i + 1),
{
    let q = total / n;
    lemma_fundamental_div_mod(total, n);
    lemma_mod_bound(total, n);
    assert(0 <= q) by (nonlinear_arith)
        requires
            0 <= total,
            0 < n,
            q == total / n,
    ;
    assert(n * q <= total);
    assert(0 <= i * q <= (i + 1) * q <= n * q) by (nonlinear_arith)
        requires
            0 <= i < n,
            0 <= q,
    ;
}

/// Partitioning yields exactly `n` chunks, in ascending order, laid end to
/// end from 0 to `total` (so, by `lemma_tiles_cover`, without overlap and
/// covering exactly `[0, total)`), none of them with progress yet.
pub proof fn lemma_partition_tiles(total: u64, n: u32)
    requires
        n >= 1,
    ensures
        tiles(planned_chunks(total, n), n, total),
        planned_chunks(total, n).dom().len() == n,
        completed_sum(planned_chunks(total, n), n as nat) == 0,
{
    let m = planned_chunks(total, n);
    assert forall|k: u32| k < n implies (#[trigger] m[k]).chunk_id == k && m[k].wf() by {
        lemma_chunk_bounds(total as int, n as int, k as int);
    }
    lemma_chunk_bounds(total as int, n as int, 0);
    lemma_chunk_bounds(total as int, n as int, n - 1);
    assert forall|k: u32| 0 < k < n implies (#[trigger] m[k].start_offset) == m[(k
        - 1) as u32].end_offset by {
        lemma_chunk_bounds(total as int, n as int, k - 1);
        lemma_chunk_bounds(total as int, n as int, k as int);
    }
    lemma_ids_below_len(n);
    assert(m.dom() =~= ids_below(n));
    lemma_sum_zero(m, n as nat);
}

/// In a tiling, a chunk ends no later than any chunk after it starts.
proof fn lemma_ends_before(m: Map<u32, ChunkState>, n: u32, total: u64, j: u32, k: u32)
    requires
        tiles(m, n, total),
        j < k < n,
    ensures
        m[j].end_offset <= m[k].start_offset,
    decreases k - j,
{
    assert(m[k].start_offset == m[(k - 1) as u32].end_offset);
    if j + 1 < k {
        lemma_ends_before(m, n, total, j, (k - 1) as u32);
        assert(m[(k - 1) as u32].wf());
    }
}

proof fn lemma_cover_prefix(m: Map<u32, ChunkState>, n: u32, total: u64, k: u32, x: int)
    requires
        tiles(m, n, total),
        1 <= k <= n,
        0 <= x < m[(k - 1) as u32].end_offset,
    ensures
        exists|j: u32| j < k && #[trigger] m[j].start_offset <= x < m[j].end_offset,
    decreases k,
{
    let last = (k - 1) as u32;
    if m[last].start_offset <= x {
        assert(m[last].start_offset <= x < m[last].end_offset);
    } else {
        assert(k > 1) by {
            if k == 1 {
                assert(m[0u32].start_offset == 0);
            }
        }
        assert(m[last].start_offset == m[(last - 1) as u32].end_offset);
        lemma_cover_prefix(m, n, total, last, x);
        let j = choose|j: u32| j < last && #[trigger] m[j].start_offset <= x < m[j].end_offset;
        assert(j < k && m[j].start_offset <= x < m[j].end_offset);
    }
}

/// Every byte of `[0, total)` lies in exactly one chunk of a tiling, and no
/// chunk reaches outside it: the chunks' union is exactly the file, without
/// overlap.
pub proof fn lemma_tiles_cover(m: Map<u32, ChunkState>, n: u32, total: u64, x: int)
    requires
        tiles(m, n, total),
    ensures
        0 <= x < total ==> exists|k: u32| k < n && #[trigger] m[k].start_offset <= x < m[k].end_offset,
        forall|j: u32, k: u32|
            j < n && k < n && #[trigger] m[j].start_offset <= x < m[j].end_offset && #[trigger] m[
                k].start_offset <= x < m[k].end_offset ==> j == k,
        forall|k: u32| k < n ==> 0 <= #[trigger] m[k].start_offset <= m[k].end_offset <= total,
{
    if 0 <= x < total {
        lemma_cover_prefix(m, n, total, n, x);
    }
    assert forall|j: u32, k: u32|
        j < n && k < n && #[trigger] m[j].start_offset <= x < m[j].end_offset && #[trigger] m[
            k].start_offset <= x < m[k].end_offset implies j == k by {
        if j < k {
            lemma_ends_before(m, n, total, j, k);
        } else if k < j {
            lemma_ends_before(m, n, total, k, j);
        }
    }
    assert forall|k: u32| k < n implies 0 <= #[trigger] m[k].start_offset <= m[k].end_offset
        <= total by {
        assert(m[k].wf());
        if k > 0 {
            lemma_ends_before(m, n, total, 0, k);
            assert(m[0u32].wf());
        }
        if k + 1 < n {
            lemma_ends_before(m, n, total, k, (n - 1) as u32);
            assert(m[(n - 1) as u32].wf());
        }
    }
}

/// The ids `0..n`.
spec fn ids_below(n: u32) -> Set<u32> {
    Set::new(|k: u32| k < n)
}

proof fn lemma_ids_below_len(n: u32)
    ensures
        ids_below(n).finite(),
        ids_below(n).len() == n,
    decreases n,
{
    if n == 0 {
        assert(ids_below(n) =~= Set::<u32>::empty());
    } else {
        lemma_ids_below_len((n - 1) as u32);
        assert(ids_below(n) =~= ids_below((n - 1) as u32).insert((n - 1) as u32));
    }
}

proof fn lemma_sum_zero(m: Map<u32, ChunkState>, k: nat)
    requires
        forall|i: u32| #[trigger] m.contains_key(i) ==> m[i].bytes_completed == 0,
    ensures
        completed_sum(m, k) == 0,
    decreases k,
{
    if k > 0 {
        lemma_sum_zero(m, (k - 1) as nat);
    }
}

proof fn lemma_sum_monotone(m: Map<u32, ChunkState>, i: nat, j: nat)
    requires
        i <= j,
    ensures
        completed_sum(m, i) <= completed_sum(m, j),
    decreases j - i,
{
    if i < j {
        lemma_sum_monotone(m, i, (j - 1) as nat);
    }
}

/// Over chunks laid end to end, progress below chunk `k` is at most where chunk `k - 1` ends.
proof fn lemma_sum_within_tiles(m: Map<u32, ChunkState>, n: u32, total: u64, k: nat)
    requires
        tiles(m, n, total),
        1 <= k <= n,
    ensures
        completed_sum(m, k) <= m[(k - 1) as u32].end_offset,
    decreases k,
{
    let last = (k - 1) as u32;
    assert(m.contains_key(last));
    assert(m[last].wf());
    if k > 1 {
        lemma_sum_within_tiles(m, n, total, (k - 1) as nat);
        assert(m[last].start_offset == m[(last - 1) as u32].end_offset);
        assert(completed_sum(m, k) == completed_sum(m, (k - 1) as nat) + m[last].bytes_completed);
    } else {
        assert(completed_sum(m, 0) == 0);
        assert(completed_sum(m, k) == m[0u32].bytes_completed);
    }
}

/// Replacing the entry of an existing chunk changes the sum by the change in its progress.
proof fn lemma_sum_replace(m: Map<u32, ChunkState>, id: u32, c: ChunkState, k: nat)
    requires
        m.contains_key(id),
        k <= 0x1_0000_0000,
    ensures
        completed_sum(m.insert(id, c), k) == completed_sum(m, k) + if id < k {
            c.bytes_completed - m[id].bytes_completed
        } else {
            0
        },
    decreases k,
{
    if k > 0 {
        lemma_sum_replace(m, id, c, (k - 1) as nat);
    }
}

/// Giving one chunk of a tiling a new entry with the same id and range, well
/// formed, keeps the tiling.
proof fn lemma_tiles_replace(m: Map<u32, ChunkState>, n: u32, total: u64, id: u32, c: ChunkState)
    requires
        m.contains_key(id) ==> tiles(m, n, total),
        m.contains_key(id),
        c.chunk_id == m[id].chunk_id,
        c.start_offset == m[id].start_offset,
        c.end_offset == m[id].end_offset,
        c.wf(),
    ensures
        tiles(m.insert(id, c), n, total),
{
    let m2 = m.insert(id, c);
    assert forall|k: u32| k < n implies (#[trigger] m2[k]).chunk_id == k && m2[k].wf() by {
        assert(m.contains_key(k));
    }
    assert forall|k: u32| 0 < k < n implies (#[trigger] m2[k].start_offset) == m2[(k
        - 1) as u32].end_offset by {
        assert(m.contains_key(k));
        assert(m[k].start_offset == m[(k - 1) as u32].end_offset);
    }
    assert(m.contains_key(0u32));
    assert(m.contains_key((n - 1) as u32));
}

/// Everything known about one source-to-destination transfer.
#[derive(Clone, Debug)]
pub struct TransferState {
    pub transfer_id: String,
    pub source_path: String,
    pub destination_path: String,
    pub total_size: u64,
    pub bytes_transferred: u64,
    pub chunk_states: HashMap<u32, ChunkState>,
    pub checksum: Option<String>,
    pub timestamp: u64,
    pub streams: u32,
    pub compression_level: Option<u8>,
}

impl TransferState {
    pub open spec fn chunks(self) -> Map<u32, ChunkState> {
        self.chunk_states@
    }

    /// The chunk map is either not laid out yet (a record just created) or
    /// laid out end to end over the whole file.
    pub open spec fn chunks_consistent(self) -> bool {
        ||| self.chunks() == Map::<u32, ChunkState>::empty()
        ||| tiles(self.chunks(), self.streams, self.total_size)
    }

    /// Aggregate progress is the sum of the chunks' progress.
    pub open spec fn wf(self) -> bool {
        &&& self.chunks_consistent()
        &&& self.bytes_transferred == completed_sum(self.chunks(), self.streams as nat)
    }

    /// `self` differs from `other` at most in the chunk map and the aggregate progress.
    pub open spec fn same_record(self, other: TransferState) -> bool {
        &&& self.transfer_id == other.transfer_id
        &&& self.source_path == other.source_path
        &&& self.destination_path == other.destination_path
        &&& self.total_size == other.total_size
        &&& self.checksum == other.checksum
        &&& self.timestamp == other.timestamp
        &&& self.streams == other.streams
        &&& self.compression_level == other.compression_level
    }

    /// A record created at `timestamp` for the given request, with no chunks yet.
    pub open spec fn created(
        self,
        source: Seq<char>,
        destination: Seq<char>,
        total_size: u64,
        streams: u32,
        compression_level: Option<u8>,
        timestamp: u64,
    ) -> bool {
        &&& self.transfer_id@ == transfer_id_of(source, destination)
        &&& self.source_path@ == source
        &&& self.destination_path@ == destination
        &&& self.total_size == total_size
        &&& self.bytes_transferred == 0
        &&& self.chunks() == Map::<u32, ChunkState>::empty()
        &&& self.checksum is None
        &&& self.timestamp == timestamp
        &&& self.streams == streams
        &&& self.compression_level == compression_level
    }

    /// A new record for copying `source` to `destination`, stamped with the
    /// current time; its chunk map is laid out by `initialize_chunks`.
    pub fn new(
        source: &str,
        destination: &str,
        total_size: u64,
        streams: u32,
        compression_level: Option<u8>,
    ) -> (r: Self)
        ensures
            r.wf(),
            r.created(source@, destination@, total_size, streams, compression_level, r.timestamp),
    {
        let now = unix_time_now();
        Self::created_at(source, destination, total_size, streams, compression_level, now)
    }

    /// A new record as `new` makes it, stamped with `timestamp` (seconds since the Unix epoch).
    pub fn created_at(
        source: &str,
        destination: &str,
        total_size: u64,
        streams: u32,
        compression_level: Option<u8>,
        timestamp: u64,
    ) -> (r: Self)
        ensures
            r.wf(),
            r.created(source@, destination@, total_size, streams, compression_level, timestamp),
    {
        let transfer_id = generate_transfer_id(source, destination);
        let r = TransferState {
            transfer_id,
            source_path: source.to_owned(),
            destination_path: destination.to_owned(),
            total_size,
            bytes_transferred: 0,
            chunk_states: HashMap::new(),
            checksum: None,
            timestamp,
            streams,
            compression_level,
        };
        proof {
            lemma_sum_zero(r.chunks(), streams as nat);
        }
        r
    }

    /// Lays the chunk map out over the file: `streams` chunks of
    /// `total_size / streams` bytes each, the last one taking the remainder.
    pub fn initialize_chunks(&mut self)
        requires
            old(self).wf(),
            old(self).streams >= 1,
        ensures
            final(self).wf(),
            final(self).same_record(*old(self)),
            final(self).chunks() == planned_chunks(old(self).total_size, old(self).streams),
            final(self).bytes_transferred == 0,
    {
        let streams = self.streams;
        let total = self.total_size;
        let chunk_size: u64 = total / streams as u64;
        let mut i: u32 = 0;
        while i < streams
            invariant
                0 <= i <= streams,
                streams == old(self).streams,
                total == old(self).total_size,
                chunk_size as int == (total as int) / (streams as int),
                self.same_record(*old(self)),
                forall|k: u32| #[trigger] self.chunks().contains_key(k) ==> k < streams,
                forall|k: u32|
                    k < i ==> #[trigger] self.chunks().contains_key(k) && self.chunks()[k]
                        == planned_chunk(total, streams, k),
            decreases streams - i,
        {
            proof {
                lemma_chunk_bounds(total as int, streams as int, i as int);
            }
            let start: u64 = i as u64 * chunk_size;
            proof {
                assert((i + 1) * (chunk_size as int) == i * (chunk_size as int) + chunk_size)
                    by (nonlinear_arith);
            }
            let end: u64 = if i == streams - 1 {
                total
            } else {
                start + chunk_size
            };
            let chunk = ChunkState {
                chunk_id: i,
                start_offset: start,
                end_offset: end,
                bytes_completed: 0,
                checksum: None,
                completed: start == end,
            };
            let ghost before = self.chunks();
            self.chunk_states.insert(i, chunk);
            assert(self.chunks() == before.insert(i, chunk));
            assert(chunk == planned_chunk(total, streams, i));
            i = i + 1;
        }
        proof {
            assert(self.chunks() =~= planned_chunks(total, streams));
            lemma_partition_tiles(total, streams);
        }
        self.bytes_transferred = 0;
    }

    /// Records that `bytes_completed` bytes of chunk `chunk_id` have been
    /// copied and recomputes the aggregate progress. A chunk's progress never
    /// goes backwards and never passes the end of its range; it is complete
    /// exactly when it covers its whole range. An unknown id changes no chunk.
    pub fn update_chunk_progress(&mut self, chunk_id: u32, bytes_completed: u64)
        requires
            old(self).wf(),
        ensures
            final(self).wf(),
            final(self).same_record(*old(self)),
            final(self).chunks() == if old(self).chunks().contains_key(chunk_id) {
                old(self).chunks().insert(
                    chunk_id,
                    old(self).chunks()[chunk_id].advanced(bytes_completed),
                )
            } else {
                old(self).chunks()
            },
            final(self).bytes_transferred == completed_sum(
                final(self).chunks(),
                final(self).streams as nat,
            ),
            old(self).bytes_transferred <= final(self).bytes_transferred,
    {
        let ghost before = self.chunks();
        match self.chunk_states.remove(&chunk_id) {
            Some(chunk) => {
                let len = chunk.end_offset - chunk.start_offset;
                let progress = if bytes_completed <= chunk.bytes_completed {
                    chunk.bytes_completed
                } else if bytes_completed >= len {
                    len
                } else {
                    bytes_completed
                };
                let updated = ChunkState {
                    chunk_id: chunk.chunk_id,
                    start_offset: chunk.start_offset,
                    end_offset: chunk.end_offset,
                    bytes_completed: progress,
                    checksum: chunk.checksum,
                    completed: progress >= len,
                };
                self.chunk_states.insert(chunk_id, updated);
                proof {
                    assert(self.chunks() =~= before.insert(chunk_id, before[chunk_id].advanced(bytes_completed)));
                    lemma_tiles_replace(before, self.streams, self.total_size, chunk_id, updated);
                    lemma_sum_replace(before, chunk_id, updated, self.streams as nat);
                }
            },
            None => {
                proof {
                    assert(self.chunks() =~= before);
                }
            },
        }
        self.recalculate_total_progress();
    }

    /// Declares chunk `chunk_id` complete, with the digest of its bytes:
    /// its progress becomes its whole range. An unknown id changes no chunk.
    pub fn mark_chunk_complete(&mut self, chunk_id: u32, checksum: Option<String>)
        requires
            old(self).wf(),
        ensures
            final(self).wf(),
            final(self).same_record(*old(self)),
            final(self).chunks() == if old(self).chunks().contains_key(chunk_id) {
                old(self).chunks().insert(chunk_id, old(self).chunks()[chunk_id].finished(checksum))
            } else {
                old(self).chunks()
            },
            final(self).bytes_transferred == completed_sum(
                final(self).chunks(),
                final(self).streams as nat,
            ),
            old(self).bytes_transferred <= final(self).bytes_transferred,
    {
        let ghost before = self.chunks();
        let ghost digest = checksum;
        match self.chunk_states.remove(&chunk_id) {
            Some(chunk) => {
                let len = chunk.end_offset - chunk.start_offset;
                let updated = ChunkState {
                    chunk_id: chunk.chunk_id,
                    start_offset: chunk.start_offset,
                    end_offset: chunk.end_offset,
                    bytes_completed: len,
                    checksum,
                    completed: true,
                };
                self.chunk_states.insert(chunk_id, updated);
                proof {
                    assert(self.chunks() =~= before.insert(chunk_id, before[chunk_id].finished(digest)));
                    lemma_tiles_replace(before, self.streams, self.total_size, chunk_id, updated);
                    lemma_sum_replace(before, chunk_id, updated, self.streams as nat);
                }
            },
            None => {
                proof {
                    assert(self.chunks() =~= before);
                }
            },
        }
        self.recalculate_total_progress();
    }

    /// Whether every chunk of the map is complete (true of an empty map).
    pub fn is_complete(&self) -> (r: bool)
        requires
            self.wf(),
        ensures
            r == (forall|k: u32| #[trigger] self.chunks().contains_key(k) ==> self.chunks()[k].completed),
    {
        let mut i: u32 = 0;
        while i < self.streams
            invariant
                0 <= i <= self.streams,
                self.wf(),
                forall|k: u32| k < i && #[trigger] self.chunks().contains_key(k) ==> self.chunks()[k].completed,
            decreases self.streams - i,
        {
            match self.chunk_states.get(&i) {
                Some(c) => {
                    if !c.completed {
                        return false;
                    }
                },
                None => {},
            }
            i = i + 1;
        }
        true
    }

    /// The ids of the chunks not yet complete, in ascending order.
    pub fn get_incomplete_chunks(&self) -> (r: Vec<u32>)
        requires
            self.wf(),
        ensures
            forall|j: int|
                0 <= j < r.len() ==> self.chunks().contains_key(#[trigger] r[j])
                    && !self.chunks()[r[j]].completed,
            forall|k: u32|
                #[trigger] self.chunks().contains_key(k) && !self.chunks()[k].completed
                    ==> r@.contains(k),
            forall|a: int, b: int| 0 <= a < b < r.len() ==> r[a] < r[b],
    {
        let mut r: Vec<u32> = Vec::new();
        let mut i: u32 = 0;
        while i < self.streams
            invariant
                0 <= i <= self.streams,
                self.wf(),
                forall|j: int|
                    0 <= j < r.len() ==> #[trigger] r[j] < i && self.chunks().contains_key(r[j])
                        && !self.chunks()[r[j]].completed,
                forall|k: u32|
                    k < i && #[trigger] self.chunks().contains_key(k) && !self.chunks()[k].completed
                        ==> r@.contains(k),
                forall|a: int, b: int| 0 <= a < b < r.len() ==> r[a] < r[b],
            decreases self.streams - i,
        {
            match self.chunk_states.get(&i) {
                Some(c) => {
                    if !c.completed {
                        let ghost prev = r@;
                        r.push(i);
                        proof {
                            assert(r[r.len() - 1] == i);
                            assert forall|k: u32| prev.contains(k) implies r@.contains(k) by {
                                let j = choose|j: int| 0 <= j < prev.len() && prev[j] == k;
                                assert(r@[j] == k);
                            }
                        }
                    }
                },
                None => {},
            }
            i = i + 1;
        }
        r
    }

    /// Completion as a fraction `(done, out_of)`: all of it when there is
    /// nothing to copy, else the bytes copied over the file size.
    pub open spec fn completion(self) -> (int, int) {
        if self.total_size == 0 {
            (1, 1)
        } else {
            (self.bytes_transferred as int, self.total_size as int)
        }
    }

    /// Completion as a fraction `(done, out_of)`, so that the percentage is
    /// `100 * done / out_of`: all of it when there is nothing to copy, else
    /// the bytes copied over the file size.
    pub fn completion_ratio(&self) -> (r: (u64, u64))
        ensures
            (r.0 as int, r.1 as int) == self.completion(),
            self.total_size == 0 ==> r == (1u64, 1u64),
            self.total_size != 0 ==> r == (self.bytes_transferred, self.total_size),
    {
        if self.total_size == 0 {
            (1, 1)
        } else {
            (self.bytes_transferred, self.total_size)
        }
    }

    /// Whether a record read back from storage satisfies the invariants: its
    /// chunks keyed by id, each well formed, laid end to end over the whole
    /// file (or none laid out yet), and its aggregate progress their sum.
    #[verifier::rlimit(40)]
    pub fn is_well_formed(&self) -> (r: bool)
        ensures
            r == self.wf(),
    {
        let ghost m = self.chunks();
        let count = self.chunk_states.len();
        if count == 0 {
            proof {
                assert(m.dom() =~= Set::<u32>::empty());
                assert(m =~= Map::<u32, ChunkState>::empty());
                lemma_sum_zero(m, self.streams as nat);
            }
            return self.bytes_transferred == 0;
        }
        proof {
            if m.dom().len() != 0 {
                assert(m.dom().contains(m.dom().choose()));
                assert(m != Map::<u32, ChunkState>::empty());
            }
            lemma_ids_below_len(self.streams);
            if tiles(m, self.streams, self.total_size) {
                assert(m.dom() =~= ids_below(self.streams));
            }
        }
        let streams = self.streams;
        if streams == 0 || count != streams as usize {
            return false;
        }
        let mut i: u32 = 0;
        let mut prev_end: u64 = 0;
        let mut sum: u64 = 0;
        while i < streams
            invariant
                0 <= i <= streams,
                streams == self.streams,
                m == self.chunks(),
                m.dom().len() == streams,
                m != Map::<u32, ChunkState>::empty(),
                ids_below(streams).len() == streams,
                tiles(m, streams, self.total_size) ==> m.dom() == ids_below(streams),
                forall|k: u32| k < i ==> #[trigger] m.contains_key(k) && m[k].chunk_id == k && m[k].wf(),
                forall|k: u32| 0 < k < i ==> (#[trigger] m[k].start_offset) == m[(k - 1) as u32].end_offset,
                i > 0 ==> m[0u32].start_offset == 0,
                i > 0 ==> prev_end == m[(i - 1) as u32].end_offset,
                i == 0 ==> prev_end == 0,
                sum == completed_sum(m, i as nat),
                sum <= prev_end,
            decreases streams - i,
        {
            match self.chunk_states.get(&i) {
                None => {
                    return false;
                },
                Some(c) => {
                    assert(m.contains_key(i) && m[i] == *c);
                    if c.chunk_id != i || c.start_offset > c.end_offset || c.start_offset != prev_end {
                        return false;
                    }
                    let len = c.end_offset - c.start_offset;
                    if c.bytes_completed > len || c.completed != (c.bytes_completed >= len) {
                        return false;
                    }
                    sum = sum + c.bytes_completed;
                    prev_end = c.end_offset;
                    assert(m[i].chunk_id == i && m[i].wf());
                },
            }
            i = i + 1;
        }
        if prev_end != self.total_size {
            return false;
        }
        proof {
            assert(ids_below(streams).subset_of(m.dom()));
            vstd::set_lib::lemma_subset_equality(ids_below(streams), m.dom());
            assert forall|k: u32| #[trigger] m.contains_key(k) <==> k < streams by {
                assert(ids_below(streams).contains(k) <==> k < streams);
            }
            assert forall|k: u32| k < streams implies (#[trigger] m[k]).chunk_id == k && m[k].wf() by {
                assert(m.contains_key(k));
            }
            assert(tiles(m, streams, self.total_size));
        }
        self.bytes_transferred == sum
    }

    /// Sets the aggregate progress to the sum of the chunks' progress.
    fn recalculate_total_progress(&mut self)
        requires
            old(self).chunks_consistent(),
        ensures
            final(self).wf(),
            final(self).same_record(*old(self)),
            final(self).chunk_states == old(self).chunk_states,
    {
        let streams = self.streams;
        proof {
            if self.chunks() == Map::<u32, ChunkState>::empty() {
                lemma_sum_zero(self.chunks(), streams as nat);
            } else {
                lemma_sum_within_tiles(self.chunks(), streams, self.total_size, streams as nat);
            }
        }
        let mut sum: u64 = 0;
        let mut i: u32 = 0;
        while i < streams
            invariant
                0 <= i <= streams,
                streams == self.streams,
                *self == *old(self),
                sum == completed_sum(self.chunks(), i as nat),
                completed_sum(self.chunks(), streams as nat) <= u64::MAX,
            decreases streams - i,
        {
            proof {
                lemma_sum_monotone(self.chunks(), (i + 1) as nat, streams as nat);
            }
            match self.chunk_states.get(&i) {
                Some(c) => {
                    sum = sum + c.bytes_completed;
                },
                None => {},
            }
            i = i + 1;
        }
        self.bytes_transferred = sum;
    }
}

/// Completion never decreases over the life of a transfer: from one record
/// to the next that `update_chunk_progress` or `mark_chunk_complete` makes
/// (same file, progress no lower), the fraction done is at least as large.
pub proof fn lemma_completion_never_decreases(before: TransferState, after: TransferState)
    requires
        after.total_size == before.total_size,
        before.bytes_transferred <= after.bytes_transferred,
    ensures
        before.completion().0 * after.completion().1 <= after.completion().0 * before.completion().1,
        before.completion().1 > 0,
        after.completion().1 > 0,
{
    if before.total_size != 0 {
        let t = before.total_size as int;
        let a = before.bytes_transferred as int;
        let b = after.bytes_transferred as int;
        assert(a * t <= b * t) by (nonlinear_arith)
            requires
                a <= b,
                t > 0,
        ;
    }
}

/// Relies on std::time::SystemTime::elapsed, applied to UNIX_EPOCH: whole
/// seconds since the epoch, or 0 when the clock reads earlier than it.
#[verifier::external_body]
fn unix_time_now() -> u64 {
    match std::time::UNIX_EPOCH.elapsed() {
        Ok(d) => d.as_secs(),
        Err(_) => 0,
    }
}

} // verus!
