//! What the nodes of the cluster are answered.

use vstd::prelude::*;

use crate::answers;
use crate::answers::{maybe_double, maybe_number, number, push_row};
use crate::cluster;
use crate::cluster::{HeartbeatAck, RegisterAck, WorkerInfo, WORKER_TIMEOUT_MS};
use crate::cluster_api::ClusterSummary;
use crate::json;
use crate::json::{from_str, Json, JsonObject, Number};

verus! {

pub open spec fn registered_view(ack: RegisterAck) -> json::JsonView {
    let o = json::with(json::no_fields(), "status"@, answers::word(ack.status@));
    let o = json::with(o, "workerId"@, answers::word(ack.worker_id@));
    let o = json::with(o, "rank"@, answers::count(ack.rank as int));
    let o = json::with(o, "worldSize"@, answers::count(ack.world_size as int));
    json::JsonView::Object(
        json::with(o, "message"@, answers::word("Узел зарегистрирован в кластере"@)),
    )
}

/// A node is registered.
pub fn register_answer(ack: &RegisterAck) -> (r: Json)
    ensures
        r@ == registered_view(*ack),
{
    let mut o = JsonObject::new();
    o.insert("status", from_str(ack.status.as_str()));
    o.insert("workerId", from_str(ack.worker_id.as_str()));
    o.insert("rank", number(ack.rank as u64));
    o.insert("worldSize", number(ack.world_size as u64));
    o.insert("message", from_str("Узел зарегистрирован в кластере"));
    Json::Object(o)
}

pub open spec fn heartbeat_view(ack: HeartbeatAck, latency: Option<u64>) -> json::JsonView {
    let o = json::with(
        json::no_fields(),
        "clientTimestampMs"@,
        answers::maybe_count(ack.client_timestamp_ms),
    );
    let o = json::with(o, "serverTimestampMs"@, answers::count(ack.server_timestamp_ms as int));
    json::JsonView::Object(json::with(o, "latencyMs"@, answers::maybe_real(latency)))
}

/// A node has been heard. `latency` holds the bits of the latency of the acknowledgement.
pub fn heartbeat_answer(ack: &HeartbeatAck, latency: Option<u64>) -> (r: Json)
    ensures
        r@ == heartbeat_view(*ack, latency),
{
    let mut o = JsonObject::new();
    o.insert("clientTimestampMs", maybe_number(ack.client_timestamp_ms));
    o.insert("serverTimestampMs", number(ack.server_timestamp_ms));
    o.insert("latencyMs", maybe_double(latency));
    Json::Object(o)
}

pub open spec fn doubles(s: Seq<u64>, n: int) -> Seq<json::JsonView> {
    Seq::new(n as nat, |k: int| json::JsonView::Number(Number::Float(s[k])))
}

pub open spec fn averaged_view(step: u32, mean: Seq<u64>) -> json::JsonView {
    let o = json::with(json::no_fields(), "status"@, answers::word("ok"@));
    let o = json::with(o, "step"@, answers::count(step as int));
    let o = json::with(o, "gradientCount"@, answers::count(mean.len() as int));
    json::JsonView::Object(
        json::with(o, "gradients"@, json::JsonView::Array(doubles(mean, mean.len() as int))),
    )
}

/// The averaged gradients of a step, by the bits of their doubles.
pub fn averaged_answer(step: u32, mean: &Vec<u64>) -> (r: Json)
    ensures
        r@ == averaged_view(step, mean@),
{
    let mut rows: Vec<Json> = Vec::new();
    let mut i: usize = 0;
    while i < mean.len()
        invariant
            i <= mean@.len(),
            json::items_view(rows@) == doubles(mean@, i as int),
        decreases mean@.len() - i,
    {
        push_row(&mut rows, Json::Number(Number::Float(mean[i])));
        assert(doubles(mean@, i + 1) =~= doubles(mean@, i as int).push(
            json::JsonView::Number(Number::Float(mean@[i as int])),
        ));
        i += 1;
    }
    let mut o = JsonObject::new();
    o.insert("status", from_str("ok"));
    o.insert("step", number(step as u64));
    o.insert("gradientCount", number(mean.len() as u64));
    o.insert("gradients", Json::Array(rows));
    Json::Object(o)
}

/// A node in the list of the cluster. `latency` holds the bits of its latency.
pub open spec fn worker_row(w: cluster::WorkerView, latency: Option<u64>, now: u64) -> json::JsonView {
    let online = cluster::online(w, now, WORKER_TIMEOUT_MS);
    let o = json::with(json::no_fields(), "workerId"@, answers::word(w.worker_id));
    let o = json::with(o, "rank"@, answers::count(w.rank as int));
    let o = json::with(o, "ip"@, answers::word(w.ip));
    let o = json::with(o, "gpuName"@, answers::word(w.gpu_name));
    let o = json::with(o, "vramMb"@, answers::count(w.vram_mb as int));
    let o = json::with(o, "latencyMs"@, answers::maybe_real(latency));
    let o = json::with(o, "lastSeenMs"@, answers::count(w.last_seen_ms as int));
    json::JsonView::Object(
        json::with(
            o,
            "status"@,
            answers::word(
                if online {
                    "online"@
                } else {
                    "offline"@
                },
            ),
        ),
    )
}

fn row_of_worker(w: &WorkerInfo, latency: Option<u64>, now: u64) -> (r: Json)
    ensures
        r@ == worker_row(w@, latency, now),
{
    let status = if w.is_online(now, WORKER_TIMEOUT_MS) {
        "online"
    } else {
        "offline"
    };
    let mut o = JsonObject::new();
    o.insert("workerId", from_str(w.worker_id.as_str()));
    o.insert("rank", number(w.rank as u64));
    o.insert("ip", from_str(w.ip.as_str()));
    o.insert("gpuName", from_str(w.gpu_name.as_str()));
    o.insert("vramMb", number(w.vram_mb));
    o.insert("latencyMs", maybe_double(latency));
    o.insert("lastSeenMs", number(w.last_seen_ms));
    o.insert("status", from_str(status));
    Json::Object(o)
}

pub open spec fn worker_rows(
    ws: Seq<cluster::WorkerView>,
    latencies: Seq<Option<u64>>,
    now: u64,
    n: int,
) -> Seq<json::JsonView> {
    Seq::new(n as nat, |k: int| worker_row(ws[k], latencies[k], now))
}

pub open spec fn status_view(
    summary: ClusterSummary,
    rows: Seq<json::JsonView>,
    step: u32,
    master_vram_mb: Option<u64>,
    average_latency: Option<u64>,
) -> json::JsonView {
    let o = json::with(json::no_fields(), "role"@, answers::word("master"@));
    let o = json::with(o, "worldSize"@, answers::count(summary.world_size as int));
    let o = json::with(o, "onlineWorkers"@, answers::count(summary.online_workers as int));
    let o = json::with(o, "currentStep"@, answers::count(step as int));
    let o = json::with(o, "workers"@, json::JsonView::Array(rows));
    let o = json::with(o, "masterVramMb"@, answers::maybe_count(master_vram_mb));
    let o = json::with(o, "totalVramMb"@, answers::maybe_count(summary.total_vram_mb));
    let o = json::with(o, "allReduceReady"@, answers::flag(summary.all_reduce_ready));
    json::JsonView::Object(
        json::with(o, "averageLatencyMs"@, answers::maybe_real(average_latency)),
    )
}

/// The state of the cluster. `latencies` hold the bits of the latency of each node,
/// `average_latency` those of their mean.
pub fn status_answer(
    summary: &ClusterSummary,
    workers: &Vec<WorkerInfo>,
    latencies: &Vec<Option<u64>>,
    now: u64,
    step: u32,
    master_vram_mb: Option<u64>,
    average_latency: Option<u64>,
) -> (r: Json)
    requires
        latencies@.len() == workers@.len(),
    ensures
        r@ == status_view(
            *summary,
            worker_rows(
                cluster::workers_view(workers@),
                latencies@,
                now,
                workers@.len() as int,
            ),
            step,
            master_vram_mb,
            average_latency,
        ),
{
    let ghost view = cluster::workers_view(workers@);
    let mut rows: Vec<Json> = Vec::new();
    let mut i: usize = 0;
    while i < workers.len()
        invariant
            i <= workers@.len(),
            latencies@.len() == workers@.len(),
            view == cluster::workers_view(workers@),
            json::items_view(rows@) == worker_rows(view, latencies@, now, i as int),
        decreases workers@.len() - i,
    {
        assert(view[i as int] == workers@[i as int]@);
        push_row(&mut rows, row_of_worker(&workers[i], latencies[i], now));
        assert(worker_rows(view, latencies@, now, i + 1) =~= worker_rows(
            view,
            latencies@,
            now,
            i as int,
        ).push(worker_row(view[i as int], latencies@[i as int], now)));
        i += 1;
    }
    let mut o = JsonObject::new();
    o.insert("role", from_str("master"));
    o.insert("worldSize", number(summary.world_size as u64));
    o.insert("onlineWorkers", number(summary.online_workers as u64));
    o.insert("currentStep", number(step as u64));
    o.insert("workers", Json::Array(rows));
    o.insert("masterVramMb", maybe_number(master_vram_mb));
    o.insert("totalVramMb", maybe_number(summary.total_vram_mb));
    o.insert("allReduceReady", Json::Bool(summary.all_reduce_ready));
    o.insert("averageLatencyMs", maybe_double(average_latency));
    Json::Object(o)
}

} // verus!
