//! A cluster of several computers: registration of nodes, heartbeats and the exchange of gradients.
//!
//! Gradients are 32-bit floating-point values; they are held as their bits.

use vstd::prelude::*;

verus! {

/// Size of one value in the binary format of gradients.
pub const F32_BYTES: usize = 4;

/// The first rank of a node: rank 0 is the master's.
pub const FIRST_WORKER_RANK: usize = 1;

/// A node is offline once its last heartbeat is older than this.
pub const WORKER_TIMEOUT_MS: u64 = 15_000;

pub const MAX_WORKER_ID_CHARS: usize = 128;

pub const MAX_GPU_NAME_CHARS: usize = 256;

/// The largest video memory of a node: 1 TiB.
pub const MAX_WORKER_VRAM_MB: u64 = 1_048_576;

#[derive(Debug)]
pub enum ClusterError {
    GradientLengthMismatch { master_len: usize, worker_len: usize },
    WorkerNotRegistered(String),
    BarrierTimeout { step: u32, name: String },
    Network(String),
    PartialGradientBytes { len: usize },
    NonFiniteGradient { index: usize },
}

#[derive(Debug, Clone, Copy, PartialEq, Eq, Structural)]
pub enum NodeRole {
    Standalone,
    Master,
    Worker,
}

/// A latency: as a node reported it (a 32-bit floating-point value, held as its bits), or measured
/// in whole milliseconds.
#[derive(Debug, Clone, Copy, PartialEq, Eq, Structural)]
pub enum Latency {
    Reported(u32),
    Measured(u64),
}

#[derive(Debug)]
pub struct WorkerInfo {
    pub worker_id: String,
    /// Number of the node: the master has 0, the nodes count from 1. Given by the registry, and
    /// kept when the same node registers again.
    pub rank: usize,
    pub ip: String,
    pub gpu_name: String,
    pub vram_mb: u64,
    /// By the last heartbeat; `None` until it has been measured.
    pub latency_ms: Option<Latency>,
    pub last_seen_ms: u64,
}

/// A node with its texts as sequences of characters.
#[verifier::ext_equal]
pub struct WorkerView {
    pub worker_id: Seq<char>,
    pub rank: usize,
    pub ip: Seq<char>,
    pub gpu_name: Seq<char>,
    pub vram_mb: u64,
    pub latency_ms: Option<Latency>,
    pub last_seen_ms: u64,
}

impl View for WorkerInfo {
    type V = WorkerView;

    open spec fn view(&self) -> WorkerView {
        WorkerView {
            worker_id: self.worker_id@,
            rank: self.rank,
            ip: self.ip@,
            gpu_name: self.gpu_name@,
            vram_mb: self.vram_mb,
            latency_ms: self.latency_ms,
            last_seen_ms: self.last_seen_ms,
        }
    }
}

/// A node is online if its last heartbeat is not older than `timeout_ms`.
pub open spec fn online(w: WorkerView, now_ms: u64, timeout_ms: u64) -> bool {
    now_ms - w.last_seen_ms <= timeout_ms
}

impl WorkerInfo {
    /// A node is online if its last heartbeat came no longer than `timeout_ms` ago.
    pub fn is_online(&self, now_ms: u64, timeout_ms: u64) -> (r: bool)
        ensures
            r == online(self@, now_ms, timeout_ms),
    {
        now_ms.saturating_sub(self.last_seen_ms) <= timeout_ms
    }

    /// The same node once more.
    pub fn duplicate(&self) -> (r: Self)
        ensures
            r@ == self@,
    {
        WorkerInfo {
            worker_id: self.worker_id.clone(),
            rank: self.rank,
            ip: self.ip.clone(),
            gpu_name: self.gpu_name.clone(),
            vram_mb: self.vram_mb,
            latency_ms: self.latency_ms,
            last_seen_ms: self.last_seen_ms,
        }
    }
}

/// The master's gradients of one training step, as bits.
#[derive(Debug)]
pub struct StepGradients {
    pub step: u32,
    pub gradients: Vec<u32>,
}

/// The answer to a registration.
#[derive(Debug)]
pub struct RegisterAck {
    pub status: String,
    pub worker_id: String,
    pub rank: usize,
    /// The master and all registered nodes.
    pub world_size: usize,
}

/// The answer to a heartbeat.
#[derive(Debug)]
pub struct HeartbeatAck {
    pub client_timestamp_ms: Option<u64>,
    pub server_timestamp_ms: u64,
    pub latency_ms: Option<u64>,
}

/// What the nodes of a cluster say to each other. Gradients are held as their bits.
#[derive(Debug)]
pub enum ClusterMessage {
    RegisterWorker { worker_id: String, ip: String, gpu_name: String, vram_mb: u64 },
    RegisterAck(RegisterAck),
    Heartbeat { timestamp_ms: u64 },
    HeartbeatAck(HeartbeatAck),
    SyncStep { step: u32, epoch: u32, micro_batch_idx: usize, total_micro_batches: usize },
    GradientExchange { step: u32, rank: usize, gradients: Vec<u32> },
    AveragedGradients { step: u32, gradients: Vec<u32> },
    Barrier { step: u32, name: String },
    BarrierAck { step: u32, name: String },
}

/// Whether the bits of a 32-bit floating-point value are those of a finite number: the exponent is
/// not all ones.
pub open spec fn finite_bits(bits: u32) -> bool {
    (bits as int / 0x80_0000) % 0x100 != 0xff
}

/// Whether the bits are those of a number that is not below zero; minus zero is not.
pub open spec fn non_negative_bits(bits: u32) -> bool {
    finite_bits(bits) && bits <= 0x8000_0000
}

/// The bytes of a row of values, the lowest byte of each first.
pub open spec fn spec_serialize(grads: Seq<u32>) -> Seq<u8> {
    Seq::new(grads.len() * 4, |i: int| byte_of(grads[i / 4], i % 4))
}

/// Byte `k` of a number, counted from the lowest.
pub open spec fn byte_of(v: u32, k: int) -> u8 {
    if k == 0 {
        (v as int % 0x100) as u8
    } else if k == 1 {
        ((v as int / 0x100) % 0x100) as u8
    } else if k == 2 {
        ((v as int / 0x1_0000) % 0x100) as u8
    } else {
        (v as int / 0x100_0000) as u8
    }
}

/// The values that bytes spell, four bytes each.
pub open spec fn spec_deserialize(bytes: Seq<u8>) -> Seq<u32> {
    Seq::new(bytes.len() / 4, |i: int| value_at(bytes, 4 * i))
}

pub open spec fn value_at(bytes: Seq<u8>, at: int) -> u32 {
    (bytes[at] + 0x100 * bytes[at + 1] + 0x1_0000 * bytes[at + 2] + 0x100_0000 * bytes[at
        + 3]) as u32
}

/// The first set of gradients among the first `n` that is of another length.
pub open spec fn first_mismatch(lens: Seq<usize>, len: usize, n: int) -> Option<usize>
    decreases n,
{
    if n <= 0 {
        None
    } else {
        match first_mismatch(lens, len, n - 1) {
            Some(l) => Some(l),
            None => if lens[n - 1] != len {
                Some(lens[n - 1])
            } else {
                None
            },
        }
    }
}

proof fn lemma_first_mismatch_kept(lens: Seq<usize>, len: usize, k: int, n: int)
    requires
        k <= n,
        first_mismatch(lens, len, k) is Some,
    ensures
        first_mismatch(lens, len, n) == first_mismatch(lens, len, k),
    decreases n - k,
{
    if k < n {
        lemma_first_mismatch_kept(lens, len, k, n - 1);
    }
}

pub struct AllReduceEngine;

impl AllReduceEngine {
    /// Gradients of two nodes can be averaged only if there are as many of each.
    pub fn check_two(master_len: usize, worker_len: usize) -> (r: Result<(), ClusterError>)
        ensures
            match r {
                Ok(_) => master_len == worker_len,
                Err(e) => master_len != worker_len && e == (
                ClusterError::GradientLengthMismatch { master_len, worker_len }),
            },
    {
        if master_len != worker_len {
            return Err(ClusterError::GradientLengthMismatch { master_len, worker_len });
        }
        Ok(())
    }

    /// Gradients of many nodes can be averaged only if all have as many as the first. Nothing is
    /// averaged where there are none.
    pub fn check_many(lens: &Vec<usize>) -> (r: Result<Option<usize>, ClusterError>)
        ensures
            lens@.len() == 0 ==> r == Ok::<Option<usize>, ClusterError>(None),
            lens@.len() > 0 ==> match first_mismatch(lens@, lens@[0], lens@.len() as int) {
                None => r == Ok::<Option<usize>, ClusterError>(Some(lens@[0])),
                Some(other) => r == Err::<Option<usize>, ClusterError>(
                    ClusterError::GradientLengthMismatch {
                        master_len: lens@[0],
                        worker_len: other,
                    },
                ),
            },
    {
        if lens.len() == 0 {
            return Ok(None);
        }
        let len = lens[0];
        let mut i: usize = 0;
        while i < lens.len()
            invariant
                i <= lens@.len(),
                lens@.len() > 0,
                len == lens@[0],
                first_mismatch(lens@, len, i as int) is None,
            decreases lens@.len() - i,
        {
            if lens[i] != len {
                proof {
                    lemma_first_mismatch_kept(lens@, len, i + 1, lens@.len() as int);
                }
                return Err(
                    ClusterError::GradientLengthMismatch { master_len: len, worker_len: lens[i] },
                );
            }
            i += 1;
        }
        Ok(Some(len))
    }

    /// NaN or infinity in one node would spoil the average for all.
    pub fn ensure_finite(grads: &[u32]) -> (r: Result<(), ClusterError>)
        ensures
            match r {
                Ok(_) => forall|i: int| 0 <= i < grads@.len() ==> finite_bits(#[trigger] grads@[i]),
                Err(e) => exists|k: int|
                    0 <= k < grads@.len() && !finite_bits(#[trigger] grads@[k]) && (forall|i: int|
                        0 <= i < k ==> finite_bits(#[trigger] grads@[i])) && e == (
                    ClusterError::NonFiniteGradient { index: k as usize }),
            },
    {
        let mut i: usize = 0;
        while i < grads.len()
            invariant
                i <= grads@.len(),
                forall|k: int| 0 <= k < i ==> finite_bits(#[trigger] grads@[k]),
            decreases grads@.len() - i,
        {
            if (grads[i] / 0x80_0000) % 0x100 == 0xff {
                assert(!finite_bits(grads@[i as int]));
                return Err(ClusterError::NonFiniteGradient { index: i });
            }
            i += 1;
        }
        Ok(())
    }

    /// Binary form of gradients: four bytes each, the lowest first.
    pub fn serialize_gradients(grads: &[u32]) -> (r: Vec<u8>)
        ensures
            r@ == spec_serialize(grads@),
    {
        let mut bytes: Vec<u8> = Vec::new();
        let mut i: usize = 0;
        while i < grads.len()
            invariant
                i <= grads@.len(),
                bytes@.len() == 4 * i,
                forall|k: int|
                    0 <= k < 4 * i ==> #[trigger] bytes@[k] == byte_of(grads@[k / 4], k % 4),
            decreases grads@.len() - i,
        {
            let v = grads[i];
            bytes.push((v % 0x100) as u8);
            bytes.push(((v / 0x100) % 0x100) as u8);
            bytes.push(((v / 0x1_0000) % 0x100) as u8);
            bytes.push((v / 0x100_0000) as u8);
            i += 1;
        }
        assert(bytes@ =~= spec_serialize(grads@));
        bytes
    }

    /// Values from their binary form; bytes that make no whole value are an error.
    pub fn deserialize_gradients(bytes: &[u8]) -> (r: Result<Vec<u32>, ClusterError>)
        ensures
            match r {
                Ok(v) => bytes@.len() % 4 == 0 && v@ == spec_deserialize(bytes@),
                Err(e) => bytes@.len() % 4 != 0 && e == (ClusterError::PartialGradientBytes {
                    len: bytes@.len() as usize,
                }),
            },
    {
        let len = bytes.len();
        if len % F32_BYTES != 0 {
            return Err(ClusterError::PartialGradientBytes { len });
        }
        let n = len / F32_BYTES;
        let mut values: Vec<u32> = Vec::new();
        let mut i: usize = 0;
        while i < n
            invariant
                i <= n,
                4 * n == len,
                len == bytes@.len(),
                values@.len() == i,
                forall|k: int| 0 <= k < i ==> #[trigger] values@[k] == value_at(bytes@, 4 * k),
            decreases n - i,
        {
            let at = 4 * i;
            values.push(
                bytes[at] as u32 + 0x100 * (bytes[at + 1] as u32) + 0x1_0000 * (bytes[at
                    + 2] as u32) + 0x100_0000 * (bytes[at + 3] as u32),
            );
            i += 1;
        }
        assert(values@ =~= spec_deserialize(bytes@));
        Ok(values)
    }
}

/// Gradients come back from their binary form as they were.
pub proof fn law_gradients_survive_serialization(grads: Seq<u32>)
    ensures
        spec_serialize(grads).len() % 4 == 0,
        spec_deserialize(spec_serialize(grads)) == grads,
{
    let bytes = spec_serialize(grads);
    assert forall|i: int| 0 <= i < grads.len() implies spec_deserialize(bytes)[i] == grads[i] by {
        let v = grads[i];
        assert((4 * i) / 4 == i && (4 * i) % 4 == 0);
        assert((4 * i + 1) / 4 == i && (4 * i + 1) % 4 == 1);
        assert((4 * i + 2) / 4 == i && (4 * i + 2) % 4 == 2);
        assert((4 * i + 3) / 4 == i && (4 * i + 3) % 4 == 3);
        assert(bytes[4 * i] == byte_of(v, 0));
        assert(bytes[4 * i + 1] == byte_of(v, 1));
        assert(bytes[4 * i + 2] == byte_of(v, 2));
        assert(bytes[4 * i + 3] == byte_of(v, 3));
    }
    assert(spec_deserialize(bytes) =~= grads);
}

proof fn lemma_bytes_of_value(a: u8, b: u8, c: u8, d: u8, v: u32)
    requires
        v == a + 0x100 * b + 0x1_0000 * c + 0x100_0000 * d,
    ensures
        byte_of(v, 0) == a,
        byte_of(v, 1) == b,
        byte_of(v, 2) == c,
        byte_of(v, 3) == d,
{
    let x = v as int;
    assert(x / 0x100 == b + 0x100 * c + 0x1_0000 * d);
    assert(x / 0x1_0000 == c + 0x100 * d);
    assert(x / 0x100_0000 == d);
}

/// Bytes that make whole values come back from the values as they were.
pub proof fn law_bytes_survive_deserialization(bytes: Seq<u8>)
    requires
        bytes.len() % 4 == 0,
    ensures
        spec_serialize(spec_deserialize(bytes)) == bytes,
{
    let grads = spec_deserialize(bytes);
    assert forall|i: int| 0 <= i < bytes.len() implies spec_serialize(grads)[i] == bytes[i] by {
        let k = i / 4;
        let v = grads[k];
        assert(0 <= k < grads.len());
        assert(v == value_at(bytes, 4 * k));
        lemma_bytes_of_value(
            bytes[4 * k],
            bytes[4 * k + 1],
            bytes[4 * k + 2],
            bytes[4 * k + 3],
            v,
        );
        assert(i == 4 * k + i % 4);
        assert(spec_serialize(grads)[i] == byte_of(v, i % 4));
    }
    assert(spec_serialize(grads) =~= bytes);
}

/// The nodes of a cluster and the step that they are at.
#[derive(Debug)]
pub struct ClusterCoordinator {
    pub role: NodeRole,
    /// The size for which the cluster is meant; the real one follows from the registered nodes.
    pub world_size: usize,
    pub current_step: u32,
    /// By rising rank; no two nodes share a rank or a name.
    pub workers: Vec<WorkerInfo>,
}

pub open spec fn workers_view(s: Seq<WorkerInfo>) -> Seq<WorkerView> {
    Seq::new(s.len(), |i: int| s[i]@)
}

/// Nodes by rising rank, ranks from 1 on, no name twice.
pub open spec fn registry_ok(ws: Seq<WorkerView>) -> bool {
    &&& forall|i: int| 0 <= i < ws.len() ==> FIRST_WORKER_RANK <= (#[trigger] ws[i]).rank
    &&& forall|i: int, j: int|
        0 <= i < j < ws.len() ==> (#[trigger] ws[i]).rank < (#[trigger] ws[j]).rank
    &&& forall|i: int, j: int|
        0 <= i < j < ws.len() ==> (#[trigger] ws[i]).worker_id != (#[trigger] ws[j]).worker_id
}

/// The position of a node.
pub open spec fn worker_index(ws: Seq<WorkerView>, id: Seq<char>, n: int) -> Option<int>
    decreases n,
{
    if n <= 0 {
        None
    } else {
        match worker_index(ws, id, n - 1) {
            Some(i) => Some(i),
            None => if ws[n - 1].worker_id == id {
                Some(n - 1)
            } else {
                None
            },
        }
    }
}

/// The first position at which the rank is not the next in the row: there the lowest free rank
/// belongs.
pub open spec fn first_gap(ws: Seq<WorkerView>, from: int) -> int
    decreases ws.len() - from,
{
    if from < ws.len() && ws[from].rank == from + 1 {
        first_gap(ws, from + 1)
    } else {
        from
    }
}

/// The rank that a node gets: its old one, or the lowest that is free.
pub open spec fn spec_rank(ws: Seq<WorkerView>, id: Seq<char>) -> int {
    match worker_index(ws, id, ws.len() as int) {
        Some(i) => ws[i].rank as int,
        None => first_gap(ws, 0) + 1,
    }
}

/// The nodes after a registration.
pub open spec fn spec_register(ws: Seq<WorkerView>, info: WorkerView) -> Seq<WorkerView> {
    let placed = WorkerView { rank: spec_rank(ws, info.worker_id) as usize, ..info };
    match worker_index(ws, info.worker_id, ws.len() as int) {
        Some(i) => ws.update(i, placed),
        None => ws.insert(first_gap(ws, 0), placed),
    }
}

/// The latency that a heartbeat shows. A node whose clock is ahead shows none.
pub open spec fn spec_latency(client_ts: Option<u64>, server_ts: u64) -> Option<u64> {
    match client_ts {
        Some(client) => if client <= server_ts {
            Some((server_ts - client) as u64)
        } else {
            None
        },
        None => None,
    }
}

/// The node after a heartbeat.
pub open spec fn spec_heartbeat(w: WorkerView, client_ts: Option<u64>, server_ts: u64) -> WorkerView {
    WorkerView {
        last_seen_ms: server_ts,
        latency_ms: match spec_latency(client_ts, server_ts) {
            Some(ms) => Some(Latency::Measured(ms)),
            None => w.latency_ms,
        },
        ..w
    }
}

proof fn lemma_worker_index(ws: Seq<WorkerView>, id: Seq<char>, n: int)
    requires
        n <= ws.len(),
    ensures
        match worker_index(ws, id, n) {
            Some(i) => 0 <= i < n && ws[i].worker_id == id,
            None => forall|i: int| 0 <= i < n ==> (#[trigger] ws[i]).worker_id != id,
        },
    decreases n,
{
    if n > 0 {
        lemma_worker_index(ws, id, n - 1);
    }
}

proof fn lemma_first_gap(ws: Seq<WorkerView>, from: int)
    requires
        0 <= from <= ws.len(),
        forall|i: int| 0 <= i < from ==> (#[trigger] ws[i]).rank == i + 1,
    ensures
        from <= first_gap(ws, from) <= ws.len(),
        forall|i: int| 0 <= i < first_gap(ws, from) ==> (#[trigger] ws[i]).rank == i + 1,
        first_gap(ws, from) < ws.len() ==> ws[first_gap(ws, from)].rank != first_gap(ws, from) + 1,
    decreases ws.len() - from,
{
    if from < ws.len() && ws[from].rank == from + 1 {
        lemma_first_gap(ws, from + 1);
    }
}

/// Whether a node has this rank.
pub open spec fn rank_taken(ws: Seq<WorkerView>, r: int) -> bool {
    exists|k: int| 0 <= k < ws.len() && (#[trigger] ws[k]).rank == r
}

/// A node that registers again keeps its rank; a new one gets the lowest that no node has.
pub proof fn law_rank_is_kept_or_lowest_free(ws: Seq<WorkerView>, id: Seq<char>, i: int)
    requires
        registry_ok(ws),
        0 <= i < ws.len(),
    ensures
        ws[i].worker_id == id ==> spec_rank(ws, id) == ws[i].rank,
        ws[i].worker_id != id ==> spec_rank(ws, id) != ws[i].rank,
        worker_index(ws, id, ws.len() as int) is None ==> forall|r: int|
            FIRST_WORKER_RANK <= r < spec_rank(ws, id) ==> #[trigger] rank_taken(ws, r),
{
    lemma_worker_index(ws, id, ws.len() as int);
    lemma_first_gap(ws, 0);
    if worker_index(ws, id, ws.len() as int) is None {
        let gap = first_gap(ws, 0);
        assert forall|r: int|
            FIRST_WORKER_RANK <= r < spec_rank(ws, id) implies #[trigger] rank_taken(ws, r) by {
            assert(ws[r - 1].rank == r);
        }
        if i >= gap {
            lemma_ranks_grow(ws, gap);
        }
    }
}

proof fn lemma_ranks_grow(ws: Seq<WorkerView>, k: int)
    requires
        registry_ok(ws),
        0 <= k,
        forall|i: int| 0 <= i < k ==> (#[trigger] ws[i]).rank == i + 1,
        k < ws.len() ==> ws[k].rank != k + 1,
    ensures
        forall|i: int| k <= i < ws.len() ==> (#[trigger] ws[i]).rank > k + 1,
{
    if k < ws.len() {
        if k > 0 {
            assert(ws[k - 1].rank < ws[k].rank);
        }
        assert(ws[k].rank > k + 1);
        assert forall|i: int| k <= i < ws.len() implies (#[trigger] ws[i]).rank > k + 1 by {
            if i > k {
                assert(ws[k].rank < ws[i].rank);
            }
        }
    }
}

/// A registration leaves the registry in order: ranks rise, and no node is there twice.
pub proof fn law_registration_keeps_order(ws: Seq<WorkerView>, info: WorkerView)
    requires
        registry_ok(ws),
        ws.len() < usize::MAX,
    ensures
        registry_ok(spec_register(ws, info)),
        spec_register(ws, info).len() == ws.len() + (if worker_index(
            ws,
            info.worker_id,
            ws.len() as int,
        ) is Some {
            0int
        } else {
            1
        }),
{
    let id = info.worker_id;
    lemma_worker_index(ws, id, ws.len() as int);
    lemma_first_gap(ws, 0);
    let after = spec_register(ws, info);
    match worker_index(ws, id, ws.len() as int) {
        Some(k) => {
            assert forall|i: int, j: int| 0 <= i < j < after.len() implies (#[trigger] after[i]).rank
                < (#[trigger] after[j]).rank && after[i].worker_id != after[j].worker_id by {
                assert(ws[i].rank < ws[j].rank && ws[i].worker_id != ws[j].worker_id);
            }
            assert forall|i: int| 0 <= i < after.len() implies FIRST_WORKER_RANK <= (
            #[trigger] after[i]).rank by {
                assert(FIRST_WORKER_RANK <= ws[i].rank);
            }
        },
        None => {
            let gap = first_gap(ws, 0);
            lemma_ranks_grow(ws, gap);
            assert forall|i: int, j: int| 0 <= i < j < after.len() implies (#[trigger] after[i]).rank
                < (#[trigger] after[j]).rank && after[i].worker_id != after[j].worker_id by {
                let a = if i < gap {
                    i
                } else {
                    i - 1
                };
                let b = if j < gap {
                    j
                } else {
                    j - 1
                };
                if i != gap {
                    assert(after[i] == ws[a]);
                }
                if j != gap {
                    assert(after[j] == ws[b]);
                }
                if i != gap && j != gap {
                    assert(ws[a].rank < ws[b].rank && ws[a].worker_id != ws[b].worker_id);
                }
            }
            assert forall|i: int| 0 <= i < after.len() implies FIRST_WORKER_RANK <= (
            #[trigger] after[i]).rank by {
                if i < gap {
                    assert(after[i] == ws[i]);
                } else if i > gap {
                    assert(after[i] == ws[i - 1]);
                }
            }
        },
    }
}

/// The nodes after the first `n` of a row of registrations.
pub open spec fn registered(calls: Seq<WorkerView>, n: int) -> Seq<WorkerView>
    decreases n,
{
    if n <= 0 {
        Seq::empty()
    } else {
        spec_register(registered(calls, n - 1), calls[n - 1])
    }
}

/// The names of the first `n` of a row of registrations.
pub open spec fn registered_ids(calls: Seq<WorkerView>, n: int) -> Set<Seq<char>>
    decreases n,
{
    if n <= 0 {
        Set::empty()
    } else {
        registered_ids(calls, n - 1).insert(calls[n - 1].worker_id)
    }
}

/// What a registration says of its own rank does not count.
pub proof fn law_own_rank_does_not_count(ws: Seq<WorkerView>, info: WorkerView, rank: usize)
    ensures
        spec_register(ws, WorkerView { rank, ..info }) == spec_register(ws, info),
{
}

/// The nodes after one more registration: the names that were there, and the new one.
proof fn lemma_ids_after(ws: Seq<WorkerView>, info: WorkerView, id: Seq<char>)
    requires
        registry_ok(ws),
    ensures
        ({
            let after = spec_register(ws, info);
            worker_index(after, id, after.len() as int) is Some <==> (id == info.worker_id
                || worker_index(ws, id, ws.len() as int) is Some)
        }),
{
    let after = spec_register(ws, info);
    lemma_worker_index(ws, id, ws.len() as int);
    lemma_worker_index(ws, info.worker_id, ws.len() as int);
    lemma_worker_index(after, id, after.len() as int);
    lemma_first_gap(ws, 0);
    let gap = first_gap(ws, 0);
    match worker_index(ws, info.worker_id, ws.len() as int) {
        Some(k) => {
            assert(after[k].worker_id == info.worker_id);
            assert forall|i: int| 0 <= i < ws.len() implies (#[trigger] after[i]).worker_id
                == ws[i].worker_id by {}
            if worker_index(ws, id, ws.len() as int) is Some {
                let i = worker_index(ws, id, ws.len() as int)->0;
                assert(after[i].worker_id == id);
            }
            if worker_index(after, id, after.len() as int) is Some {
                let i = worker_index(after, id, after.len() as int)->0;
                assert(ws[i].worker_id == id);
            }
        },
        None => {
            assert(after[gap].worker_id == info.worker_id);
            if worker_index(ws, id, ws.len() as int) is Some {
                let i = worker_index(ws, id, ws.len() as int)->0;
                if i < gap {
                    assert(after[i].worker_id == id);
                } else {
                    assert(after[i + 1].worker_id == id);
                }
            }
            if worker_index(after, id, after.len() as int) is Some {
                let i = worker_index(after, id, after.len() as int)->0;
                if i < gap {
                    assert(ws[i].worker_id == id);
                } else if i > gap {
                    assert(ws[i - 1].worker_id == id);
                }
            }
        },
    }
}

/// After any row of registrations the ranks rise and no node is there twice; the nodes are those
/// that registered, so that their number is that of the different names.
pub proof fn law_registrations_leave_the_registered(
    calls: Seq<WorkerView>,
    n: int,
    id: Seq<char>,
)
    requires
        0 <= n <= calls.len(),
        n < usize::MAX,
    ensures
        registry_ok(registered(calls, n)),
        registered_ids(calls, n).finite(),
        registered(calls, n).len() == registered_ids(calls, n).len(),
        registered(calls, n).len() <= n,
        worker_index(registered(calls, n), id, registered(calls, n).len() as int) is Some
            <==> registered_ids(calls, n).contains(id),
    decreases n,
{
    if n > 0 {
        let info = calls[n - 1];
        let ws = registered(calls, n - 1);
        law_registrations_leave_the_registered(calls, n - 1, id);
        law_registrations_leave_the_registered(calls, n - 1, info.worker_id);
        law_registration_keeps_order(ws, info);
        lemma_ids_after(ws, info, id);
    }
}

/// In any row of registrations a node that was there before gets the rank that it had, and a new
/// one the lowest that no node has.
pub proof fn law_rank_after_registrations(calls: Seq<WorkerView>, n: int)
    requires
        0 <= n < calls.len(),
        n < usize::MAX - 1,
    ensures
        ({
            let ws = registered(calls, n);
            let id = calls[n].worker_id;
            let rank = spec_rank(ws, id);
            &&& FIRST_WORKER_RANK <= rank
            &&& registered_ids(calls, n).contains(id) ==> exists|k: int|
                0 <= k < ws.len() && (#[trigger] ws[k]).worker_id == id && ws[k].rank == rank
            &&& !registered_ids(calls, n).contains(id) ==> !rank_taken(ws, rank) && forall|r: int|
                FIRST_WORKER_RANK <= r < rank ==> #[trigger] rank_taken(ws, r)
        }),
{
    let ws = registered(calls, n);
    let id = calls[n].worker_id;
    law_registrations_leave_the_registered(calls, n, id);
    lemma_worker_index(ws, id, ws.len() as int);
    lemma_first_gap(ws, 0);
    match worker_index(ws, id, ws.len() as int) {
        Some(k) => {
            assert(ws[k].worker_id == id);
        },
        None => {
            let rank = spec_rank(ws, id);
            lemma_ranks_grow(ws, first_gap(ws, 0));
            if rank_taken(ws, rank) {
                let k = choose|k: int| 0 <= k < ws.len() && (#[trigger] ws[k]).rank == rank;
                assert(ws[k].rank == rank);
            }
            assert forall|r: int| FIRST_WORKER_RANK <= r < rank implies #[trigger] rank_taken(
                ws,
                r,
            ) by {
                assert(ws[r - 1].rank == r);
            }
        },
    }
}

/// A registration changes nobody else's rank.
pub proof fn law_registration_keeps_other_ranks(ws: Seq<WorkerView>, info: WorkerView, k: int)
    requires
        registry_ok(ws),
        0 <= k < ws.len(),
    ensures
        exists|j: int|
            0 <= j < spec_register(ws, info).len() && (#[trigger] spec_register(
                ws,
                info,
            )[j]).worker_id == ws[k].worker_id && spec_register(ws, info)[j].rank == ws[k].rank,
{
    let after = spec_register(ws, info);
    lemma_worker_index(ws, info.worker_id, ws.len() as int);
    lemma_first_gap(ws, 0);
    match worker_index(ws, info.worker_id, ws.len() as int) {
        Some(i) => {
            assert(after[k].worker_id == ws[k].worker_id && after[k].rank == ws[k].rank);
        },
        None => {
            let j = if k < first_gap(ws, 0) {
                k
            } else {
                k + 1
            };
            assert(after[j] == ws[k]);
        },
    }
}

impl View for ClusterCoordinator {
    type V = Seq<WorkerView>;

    open spec fn view(&self) -> Seq<WorkerView> {
        workers_view(self.workers@)
    }
}

impl ClusterCoordinator {
    pub open spec fn wf(self) -> bool {
        registry_ok(self@) && self@.len() < usize::MAX
    }

    /// What stays when only the nodes change.
    pub open spec fn same_plan(self, other: Self) -> bool {
        self.role == other.role && self.world_size == other.world_size && self.current_step
            == other.current_step
    }

    pub fn new(role: NodeRole, world_size: usize) -> (r: Self)
        ensures
            r.wf(),
            r@ == Seq::<WorkerView>::empty(),
            r.role == role,
            r.world_size == world_size,
            r.current_step == 0,
    {
        let r = ClusterCoordinator { role, world_size, current_step: 0, workers: Vec::new() };
        assert(r@ =~= Seq::<WorkerView>::empty());
        r
    }

    fn find(&self, id: &str) -> (r: Option<usize>)
        ensures
            match r {
                Some(i) => i < self.workers@.len() && worker_index(
                    self@,
                    id@,
                    self@.len() as int,
                ) == Some(i as int),
                None => worker_index(self@, id@, self@.len() as int) is None,
            },
    {
        let wanted = id.to_owned();
        let ghost ws = self@;
        let mut i: usize = 0;
        while i < self.workers.len()
            invariant
                i <= self.workers@.len(),
                wanted@ == id@,
                ws == workers_view(self.workers@),
                worker_index(ws, id@, i as int) is None,
            decreases self.workers@.len() - i,
        {
            assert(ws[i as int].worker_id == self.workers@[i as int].worker_id@);
            if self.workers[i].worker_id == wanted {
                proof {
                    lemma_worker_index_kept(ws, id@, i + 1, ws.len() as int);
                }
                return Some(i);
            }
            i += 1;
        }
        None
    }

    /// Registers a node. The rank in `info` does not count: a node that registers again keeps its
    /// rank, a new one gets the lowest that is free.
    pub fn register_worker(&mut self, info: WorkerInfo) -> (r: ClusterMessage)
        requires
            old(self).wf(),
            old(self)@.len() < usize::MAX - 1,
        ensures
            final(self).wf(),
            final(self).same_plan(*old(self)),
            final(self)@ == spec_register(old(self)@, info@),
            r matches ClusterMessage::RegisterAck(ack) && ack.status@ == "ok"@ && ack.worker_id@
                == info.worker_id@ && ack.rank == spec_rank(old(self)@, info.worker_id@)
                && ack.world_size == final(self)@.len() + 1,
    {
        let ghost ws = self@;
        let ghost view = info@;
        proof {
            lemma_worker_index(ws, view.worker_id, ws.len() as int);
            lemma_first_gap(ws, 0);
            law_registration_keeps_order(ws, view);
        }
        let worker_id = info.worker_id.clone();
        let mut info = info;
        let rank: usize;
        match self.find(worker_id.as_str()) {
            Some(i) => {
                rank = self.workers[i].rank;
                info.rank = rank;
                self.workers.set(i, info);
                assert(workers_view(self.workers@) =~= spec_register(ws, view));
            },
            None => {
                let mut gap: usize = 0;
                while gap < self.workers.len() && self.workers[gap].rank == gap + 1
                    invariant
                        gap <= self.workers@.len(),
                        self.workers@.len() < usize::MAX - 1,
                        ws == workers_view(self.workers@),
                        first_gap(ws, gap as int) == first_gap(ws, 0),
                    decreases self.workers@.len() - gap,
                {
                    gap += 1;
                }
                rank = gap + 1;
                info.rank = rank;
                self.workers.insert(gap, info);
                assert(workers_view(self.workers@) =~= spec_register(ws, view));
            },
        }
        let world_size = self.workers.len() + 1;
        ClusterMessage::RegisterAck(
            RegisterAck { status: "ok".to_owned(), worker_id, rank, world_size },
        )
    }

    /// The nodes by rising rank.
    pub fn list_workers(&self) -> (r: Vec<WorkerInfo>)
        ensures
            workers_view(r@) == self@,
    {
        let mut list: Vec<WorkerInfo> = Vec::new();
        let mut i: usize = 0;
        while i < self.workers.len()
            invariant
                i <= self.workers@.len(),
                list@.len() == i,
                forall|k: int| 0 <= k < i ==> (#[trigger] list@[k])@ == self.workers@[k]@,
            decreases self.workers@.len() - i,
        {
            list.push(self.workers[i].duplicate());
            i += 1;
        }
        assert(workers_view(list@) =~= self@);
        list
    }

    /// Marks a node as online. The latency follows from the node's own time; if its clock is ahead,
    /// none is made up.
    pub fn handle_heartbeat(
        &mut self,
        worker_id: &str,
        client_ts: Option<u64>,
        server_ts: u64,
    ) -> (r: Result<ClusterMessage, ClusterError>)
        requires
            old(self).wf(),
        ensures
            final(self).wf(),
            final(self).same_plan(*old(self)),
            match worker_index(old(self)@, worker_id@, old(self)@.len() as int) {
                Some(i) => final(self)@ == old(self)@.update(
                    i,
                    spec_heartbeat(old(self)@[i], client_ts, server_ts),
                ) && (r matches Ok(ClusterMessage::HeartbeatAck(ack)) && ack.client_timestamp_ms
                    == client_ts && ack.server_timestamp_ms == server_ts && ack.latency_ms
                    == spec_latency(client_ts, server_ts)),
                None => final(self)@ == old(self)@ && (r matches Err(
                    ClusterError::WorkerNotRegistered(id),
                ) && id@ == worker_id@),
            },
    {
        let ghost ws = self@;
        proof {
            lemma_worker_index(ws, worker_id@, ws.len() as int);
        }
        let latency_ms = match client_ts {
            Some(client) => if client <= server_ts {
                Some(server_ts - client)
            } else {
                None
            },
            None => None,
        };
        let i = match self.find(worker_id) {
            Some(i) => i,
            None => return Err(ClusterError::WorkerNotRegistered(worker_id.to_owned())),
        };
        let mut worker = self.workers[i].duplicate();
        worker.last_seen_ms = server_ts;
        if let Some(ms) = latency_ms {
            worker.latency_ms = Some(Latency::Measured(ms));
        }
        self.workers.set(i, worker);
        proof {
            let after = ws.update(i as int, spec_heartbeat(ws[i as int], client_ts, server_ts));
            assert(workers_view(self.workers@) =~= after);
            assert(registry_ok(after)) by {
                assert forall|a: int, b: int| 0 <= a < b < after.len() implies (
                #[trigger] after[a]).rank < (#[trigger] after[b]).rank && after[a].worker_id
                    != after[b].worker_id by {
                    assert(ws[a].rank < ws[b].rank && ws[a].worker_id != ws[b].worker_id);
                }
                assert forall|a: int| 0 <= a < after.len() implies FIRST_WORKER_RANK <= (
                #[trigger] after[a]).rank by {
                    assert(FIRST_WORKER_RANK <= ws[a].rank);
                }
            }
        }
        Ok(
            ClusterMessage::HeartbeatAck(
                HeartbeatAck {
                    client_timestamp_ms: client_ts,
                    server_timestamp_ms: server_ts,
                    latency_ms,
                },
            ),
        )
    }

    /// Goes on to a step. Returns the message that tells all nodes.
    pub fn coordinate_step_sync(
        &mut self,
        step: u32,
        epoch: u32,
        micro_batch_idx: usize,
        total_micro_batches: usize,
    ) -> (r: ClusterMessage)
        ensures
            final(self)@ == old(self)@,
            final(self).role == old(self).role,
            final(self).world_size == old(self).world_size,
            final(self).current_step == step,
            r == (ClusterMessage::SyncStep { step, epoch, micro_batch_idx, total_micro_batches }),
    {
        self.current_step = step;
        ClusterMessage::SyncStep { step, epoch, micro_batch_idx, total_micro_batches }
    }

    /// The message that lets all nodes pass a barrier.
    pub fn trigger_barrier(&self, step: u32, name: &str) -> (r: ClusterMessage)
        ensures
            r matches ClusterMessage::Barrier { step: at, name: of } && at == step && of@ == name@,
    {
        ClusterMessage::Barrier { step, name: name.to_owned() }
    }
}

proof fn lemma_worker_index_kept(ws: Seq<WorkerView>, id: Seq<char>, k: int, n: int)
    requires
        k <= n,
        worker_index(ws, id, k) is Some,
    ensures
        worker_index(ws, id, n) == worker_index(ws, id, k),
    decreases n - k,
{
    if k < n {
        lemma_worker_index_kept(ws, id, k, n - 1);
    }
}

} // verus!
