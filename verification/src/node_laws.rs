//! What nodes and their gradients keep: the order of bytes, what a registration and a heartbeat change,
//! and where a layer stands.

use vstd::prelude::*;

use crate::cluster;
use crate::cluster::Latency;
use crate::lora;
use crate::lora::LoraLayer;
use crate::text;

verus! {

/// The bytes of a gradient come with the lowest first: four of them spell its bits.
pub proof fn law_gradients_are_written_lowest_byte_first(grads: Seq<u32>, i: int)
    requires
        0 <= i < grads.len(),
    ensures
        ({
            let bytes = cluster::spec_serialize(grads);
            &&& bytes.len() == 4 * grads.len()
            &&& grads[i] == bytes[4 * i] + 0x100 * bytes[4 * i + 1] + 0x1_0000 * bytes[4 * i + 2]
                + 0x100_0000 * bytes[4 * i + 3]
        }),
{
    let bytes = cluster::spec_serialize(grads);
    let v = grads[i] as int;
    assert((4 * i) / 4 == i && (4 * i) % 4 == 0);
    assert((4 * i + 1) / 4 == i && (4 * i + 1) % 4 == 1);
    assert((4 * i + 2) / 4 == i && (4 * i + 2) % 4 == 2);
    assert((4 * i + 3) / 4 == i && (4 * i + 3) % 4 == 3);
    assert(bytes[4 * i] == v % 0x100);
    assert(bytes[4 * i + 1] == (v / 0x100) % 0x100);
    assert(bytes[4 * i + 2] == (v / 0x1_0000) % 0x100);
    assert(bytes[4 * i + 3] == v / 0x100_0000);
}

/// Bits are those of a finite number exactly below the bits of infinity, the sign aside; a number is
/// not negative without the sign, or where it is zero.
pub proof fn law_finite_numbers(bits: u32)
    ensures
        cluster::finite_bits(bits) <==> bits as int % 0x8000_0000 < 0x7f80_0000,
        cluster::non_negative_bits(bits) <==> bits < 0x7f80_0000 || bits == 0x8000_0000,
{
}

/// A node is online until it was silent for longer than the time allowed, 15 seconds as a rule.
pub proof fn law_silent_node_goes_offline(w: cluster::WorkerView, now_ms: u64)
    ensures
        now_ms <= w.last_seen_ms + 15_000 <==> cluster::online(
            w,
            now_ms,
            cluster::WORKER_TIMEOUT_MS,
        ),
{
}

/// A heartbeat renews the time at which a node was seen. It measures the way where the node's clock is
/// not ahead, and else keeps what was measured; nothing else changes.
pub proof fn law_heartbeat_renews_the_node(
    w: cluster::WorkerView,
    client_ts: Option<u64>,
    server_ts: u64,
)
    ensures
        ({
            let after = cluster::spec_heartbeat(w, client_ts, server_ts);
            &&& after.last_seen_ms == server_ts
            &&& client_ts matches Some(sent) ==> sent <= server_ts ==> (
            after.latency_ms matches Some(Latency::Measured(ms)) && sent + ms == server_ts)
            &&& client_ts matches Some(sent) ==> sent > server_ts ==> after.latency_ms
                == w.latency_ms
            &&& client_ts is None ==> after.latency_ms == w.latency_ms
            &&& after == (cluster::WorkerView {
                last_seen_ms: after.last_seen_ms,
                latency_ms: after.latency_ms,
                ..w
            })
        }),
{
}

proof fn lemma_worker_index(ws: Seq<cluster::WorkerView>, id: Seq<char>, n: int)
    requires
        0 <= n <= ws.len(),
    ensures
        match cluster::worker_index(ws, id, n) {
            Some(i) => 0 <= i < n && ws[i].worker_id == id,
            None => forall|i: int| 0 <= i < n ==> (#[trigger] ws[i]).worker_id != id,
        },
    decreases n,
{
    if n > 0 {
        lemma_worker_index(ws, id, n - 1);
    }
}

proof fn lemma_gap_is_inside(ws: Seq<cluster::WorkerView>, from: int)
    requires
        0 <= from <= ws.len(),
    ensures
        from <= cluster::first_gap(ws, from) <= ws.len(),
    decreases ws.len() - from,
{
    if from < ws.len() && ws[from].rank == from + 1 {
        lemma_gap_is_inside(ws, from + 1);
    }
}

/// A registration puts down what the node says of itself but for the rank, and leaves every other node
/// as it was.
pub proof fn law_registration_puts_down_the_node(
    ws: Seq<cluster::WorkerView>,
    info: cluster::WorkerView,
    k: int,
)
    requires
        ws.len() < usize::MAX,
    ensures
        ({
            let after = cluster::spec_register(ws, info);
            &&& exists|j: int|
                0 <= j < after.len() && #[trigger] after[j] == (cluster::WorkerView {
                    rank: after[j].rank,
                    ..info
                }) && after[j].rank == cluster::spec_rank(ws, info.worker_id) as usize
            &&& 0 <= k < ws.len() && ws[k].worker_id != info.worker_id ==> after.contains(ws[k])
        }),
{
    let after = cluster::spec_register(ws, info);
    lemma_worker_index(ws, info.worker_id, ws.len() as int);
    lemma_gap_is_inside(ws, 0);
    let placed = cluster::WorkerView {
        rank: cluster::spec_rank(ws, info.worker_id) as usize,
        ..info
    };
    match cluster::worker_index(ws, info.worker_id, ws.len() as int) {
        Some(i) => {
            assert(after[i] == placed);
            if 0 <= k < ws.len() && ws[k].worker_id != info.worker_id {
                assert(after[k] == ws[k]);
            }
        },
        None => {
            let at = cluster::first_gap(ws, 0);
            assert(after[at] == placed);
            if 0 <= k < ws.len() {
                if k < at {
                    assert(after[k] == ws[k]);
                } else {
                    assert(after[k + 1] == ws[k]);
                }
            }
        },
    }
}

/// The first length that differs is told; without one all are the same.
pub proof fn law_first_other_length_is_told(lens: Seq<usize>, len: usize, n: int)
    requires
        0 <= n <= lens.len(),
    ensures
        match cluster::first_mismatch(lens, len, n) {
            None => forall|i: int| 0 <= i < n ==> #[trigger] lens[i] == len,
            Some(other) => other != len && exists|k: int|
                0 <= k < n && #[trigger] lens[k] == other && forall|i: int|
                    0 <= i < k ==> #[trigger] lens[i] == len,
        },
    decreases n,
{
    if n > 0 {
        law_first_other_length_is_told(lens, len, n - 1);
        if let Some(other) = cluster::first_mismatch(lens, len, n - 1) {
            let k = choose|k: int|
                0 <= k < n - 1 && #[trigger] lens[k] == other && forall|i: int|
                    0 <= i < k ==> #[trigger] lens[i] == len;
            assert(lens[k] == other);
        } else if lens[n - 1] != len {
            assert(lens[n - 1] == cluster::first_mismatch(lens, len, n)->0);
        }
    }
}

// ---------- layers ----------

proof fn lemma_place(layers: Seq<(String, LoraLayer)>, name: Seq<char>, k: int)
    requires
        0 <= k <= layers.len(),
    ensures
        k <= lora::place(layers, name, k) <= layers.len(),
        forall|i: int|
            k <= i < lora::place(layers, name, k) ==> text::before((#[trigger] layers[i]).0@, name),
        lora::place(layers, name, k) < layers.len() ==> !text::before(
            layers[lora::place(layers, name, k)].0@,
            name,
        ),
    decreases layers.len() - k,
{
    if k < layers.len() && text::before(layers[k].0@, name) {
        lemma_place(layers, name, k + 1);
    }
}

/// A layer that is put in is there, in the place of one of the same name if there was one; every other
/// layer stays.
pub proof fn law_layer_is_put_in(
    layers: Seq<(String, LoraLayer)>,
    item: (String, LoraLayer),
    k: int,
)
    requires
        lora::names_rise(layers),
    ensures
        ({
            let after = lora::with_layer(layers, item);
            &&& after.contains(item)
            &&& 0 <= k < layers.len() && layers[k].0@ != item.0@ ==> after.contains(layers[k])
            &&& (exists|j: int| 0 <= j < layers.len() && (#[trigger] layers[j]).0@ == item.0@)
                <==> after.len() == layers.len()
            &&& after.len() == layers.len() || after.len() == layers.len() + 1
        }),
{
    let name = item.0@;
    let after = lora::with_layer(layers, item);
    lemma_place(layers, name, 0);
    let at = lora::place(layers, name, 0);
    if at < layers.len() && layers[at].0@ == name {
        assert(after[at] == item);
        if 0 <= k < layers.len() && layers[k].0@ != name {
            assert(after[k] == layers[k]);
        }
    } else {
        assert(after[at] == item);
        if 0 <= k < layers.len() {
            if k < at {
                assert(after[k] == layers[k]);
            } else {
                assert(after[k + 1] == layers[k]);
            }
        }
        if exists|j: int| 0 <= j < layers.len() && (#[trigger] layers[j]).0@ == name {
            let j = choose|j: int| 0 <= j < layers.len() && (#[trigger] layers[j]).0@ == name;
            text::lemma_before_is_total(name, name);
            if j < at {
                assert(text::before(layers[j].0@, name));
            } else if j > at {
                assert(text::before(layers[at].0@, layers[j].0@));
                text::lemma_before_is_total(layers[at].0@, name);
            }
        }
    }
}

/// The numbers of a model's layers add up: two matrices for each, as wide as the rank.
pub proof fn law_parameters_add_up(layers: Seq<(String, LoraLayer)>, n: int)
    requires
        0 <= n < layers.len(),
        lora::trainable(layers[n].1),
    ensures
        lora::parameter_sum(layers, 0) == 0,
        lora::parameter_sum(layers, n + 1) == lora::parameter_sum(layers, n)
            + layers[n].1.in_features * layers[n].1.rank + layers[n].1.rank
            * layers[n].1.out_features,
{
}

} // verus!
