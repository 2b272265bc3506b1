//! Decisions of the cluster endpoints: what is registered, which gradients are averaged, and what
//! the status says.

use vstd::prelude::*;

use crate::cluster;
use crate::cluster::{
    AllReduceEngine, ClusterError, Latency, StepGradients, WorkerInfo, MAX_GPU_NAME_CHARS,
    MAX_WORKER_ID_CHARS, MAX_WORKER_VRAM_MB, WORKER_TIMEOUT_MS,
};
use crate::error;
use crate::error::{ApiError, ApiResult};
use crate::text;

verus! {

#[derive(Debug)]
pub struct RegisterWorkerRequest {
    pub worker_id: String,
    /// Where it is missing, the address of the connection is taken.
    pub ip: Option<String>,
    pub gpu_name: String,
    pub vram_mb: u64,
    /// A 32-bit floating-point value, held as its bits.
    pub latency_ms: Option<u32>,
}

#[derive(Debug)]
pub struct HeartbeatRequest {
    pub worker_id: String,
    /// The node's own time in milliseconds: the latency follows from it.
    pub timestamp_ms: Option<u64>,
}

/// The text of an error.
pub open spec fn cluster_message(e: ClusterError) -> Seq<char> {
    match e {
        ClusterError::GradientLengthMismatch { master_len, worker_len } =>
            "Gradient length mismatch: master has "@ + text::decimal_of(master_len as int)
            + ", worker has "@ + text::decimal_of(worker_len as int),
        ClusterError::WorkerNotRegistered(id) => "Worker not registered: "@ + id@,
        ClusterError::BarrierTimeout { step, name } => "Timeout waiting for barrier at step "@
            + text::decimal_of(step as int) + ": "@ + name@,
        ClusterError::Network(detail) => "Network error: "@ + detail@,
        ClusterError::PartialGradientBytes { len } => "Binary gradient payload of "@
            + text::decimal_of(len as int) + " bytes is not a whole number of float32 values"@,
        ClusterError::NonFiniteGradient { index } => "Gradient at index "@ + text::decimal_of(
            index as int,
        ) + " is NaN or infinite"@,
    }
}

/// The text of an error.
pub fn message(e: &ClusterError) -> (r: String)
    ensures
        r@ == cluster_message(*e),
{
    match e {
        ClusterError::GradientLengthMismatch { master_len, worker_len } => {
            let mut s = text::join3(
                "Gradient length mismatch: master has ",
                text::decimal(*master_len as u64).as_str(),
                ", worker has ",
            );
            s.append(text::decimal(*worker_len as u64).as_str());
            s
        },
        ClusterError::WorkerNotRegistered(id) => text::join2(
            "Worker not registered: ",
            id.as_str(),
        ),
        ClusterError::BarrierTimeout { step, name } => {
            let mut s = text::join3(
                "Timeout waiting for barrier at step ",
                text::decimal(*step as u64).as_str(),
                ": ",
            );
            s.append(name.as_str());
            s
        },
        ClusterError::Network(detail) => text::join2("Network error: ", detail.as_str()),
        ClusterError::PartialGradientBytes { len } => text::join3(
            "Binary gradient payload of ",
            text::decimal(*len as u64).as_str(),
            " bytes is not a whole number of float32 values",
        ),
        ClusterError::NonFiniteGradient { index } => text::join3(
            "Gradient at index ",
            text::decimal(*index as u64).as_str(),
            " is NaN or infinite",
        ),
    }
}

/// What a client is told of an error.
pub open spec fn cluster_api_error(e: ClusterError) -> error::ApiErrorView {
    match e {
        ClusterError::GradientLengthMismatch { master_len, worker_len } => error::ApiErrorView {
            status: 400,
            detail: "Число градиентов узла ("@ + text::decimal_of(worker_len as int)
                + ") не совпадает с мастером ("@ + text::decimal_of(master_len as int) + ")"@,
        },
        ClusterError::PartialGradientBytes { len } => error::ApiErrorView {
            status: 400,
            detail: "Двоичные градиенты ("@ + text::decimal_of(len as int)
                + " байт) не делятся на целые значения float32"@,
        },
        ClusterError::NonFiniteGradient { index } => error::ApiErrorView {
            status: 400,
            detail: "Градиент №"@ + text::decimal_of(index as int) + " — NaN или бесконечность"@,
        },
        other => error::ApiErrorView { status: 500, detail: cluster_message(other) },
    }
}

/// What a client is told of an error with gradients.
pub fn gradient_error(e: &ClusterError) -> (r: ApiError)
    ensures
        r@ == cluster_api_error(*e),
{
    match e {
        ClusterError::GradientLengthMismatch { master_len, worker_len } => {
            let mut s = text::join3(
                "Число градиентов узла (",
                text::decimal(*worker_len as u64).as_str(),
                ") не совпадает с мастером (",
            );
            s.append(text::decimal(*master_len as u64).as_str());
            s.append(")");
            ApiError::bad_request(s)
        },
        ClusterError::PartialGradientBytes { len } => ApiError::bad_request(
            text::join3(
                "Двоичные градиенты (",
                text::decimal(*len as u64).as_str(),
                " байт) не делятся на целые значения float32",
            ),
        ),
        ClusterError::NonFiniteGradient { index } => ApiError::bad_request(
            text::join3(
                "Градиент №",
                text::decimal(*index as u64).as_str(),
                " — NaN или бесконечность",
            ),
        ),
        _ => ApiError::internal(message(e)),
    }
}

/// What a client is told when a heartbeat fails.
pub fn heartbeat_error(e: &ClusterError) -> (r: ApiError)
    ensures
        match *e {
            ClusterError::WorkerNotRegistered(id) => r@ == (error::ApiErrorView {
                status: 404,
                detail: "Узел "@ + id@ + " не зарегистрирован в кластере"@,
            }),
            other => r@ == (error::ApiErrorView { status: 500, detail: cluster_message(other) }),
        },
{
    match e {
        ClusterError::WorkerNotRegistered(id) => ApiError::not_found(
            text::join3("Узел ", id.as_str(), " не зарегистрирован в кластере"),
        ),
        _ => ApiError::internal(message(e)),
    }
}

/// The error of a text field that is empty or too long.
pub open spec fn text_field_error(field: Seq<char>, max_chars: int) -> error::ApiErrorView {
    error::ApiErrorView {
        status: 422,
        detail: "Поле "@ + field + " должно быть непустым и не длиннее "@ + text::decimal_of(
            max_chars,
        ) + " символов"@,
    }
}

pub open spec fn usable_text(value: Seq<char>, max_chars: int) -> bool {
    0 < text::trimmed(value).len() <= max_chars
}

/// A text that is neither empty nor too long, without the white space at its ends.
pub fn required_text(field: &str, value: &str, max_chars: usize) -> (r: ApiResult<String>)
    ensures
        match r {
            Ok(v) => usable_text(value@, max_chars as int) && v@ == text::trimmed(value@),
            Err(e) => !usable_text(value@, max_chars as int) && e@ == text_field_error(
                field@,
                max_chars as int,
            ),
        },
{
    let value = text::trim(value);
    if value.as_str().is_empty() || value.as_str().unicode_len() > max_chars {
        let mut s = text::join3("Поле ", field, " должно быть непустым и не длиннее ");
        s.append(text::decimal(max_chars as u64).as_str());
        s.append(" символов");
        return Err(ApiError::unprocessable(s));
    }
    Ok(value)
}

/// The address that a node asks for, if it names one.
pub open spec fn spec_requested_address(ip: Option<String>) -> Option<Seq<char>> {
    match ip {
        Some(s) => if text::trimmed(s@).len() == 0 {
            None
        } else {
            Some(text::trimmed(s@))
        },
        None => None,
    }
}

/// The address that has to be parsed, if the node names one.
pub fn requested_address(ip: &Option<String>) -> (r: Option<String>)
    ensures
        match r {
            Some(s) => spec_requested_address(*ip) == Some(s@),
            None => spec_requested_address(*ip) is None,
        },
{
    match ip {
        Some(s) => {
            let s = text::trim(s.as_str());
            if s.as_str().is_empty() {
                None
            } else {
                Some(s)
            }
        },
        None => None,
    }
}

/// The address of a node: the one that it names, as the parser wrote it, or that of its connection.
pub open spec fn spec_address(
    requested: Option<Seq<char>>,
    parsed: Option<Seq<char>>,
    connection: Option<Seq<char>>,
) -> Result<Seq<char>, error::ApiErrorView> {
    match requested {
        Some(asked) => match parsed {
            Some(ip) => Ok(ip),
            None => Err(
                error::ApiErrorView {
                    status: 422,
                    detail: "Некорректный IP-адрес узла: «"@ + asked + "»"@,
                },
            ),
        },
        None => match connection {
            Some(ip) => Ok(ip),
            None => Err(
                error::ApiErrorView { status: 422, detail: "Не указан IP-адрес узла"@ },
            ),
        },
    }
}

/// What a registration leads to: the node, its rank still open, or an error.
pub open spec fn spec_check_registration(
    request: RegisterWorkerRequest,
    parsed: Option<Seq<char>>,
    connection: Option<Seq<char>>,
    now_ms: u64,
) -> Result<cluster::WorkerView, error::ApiErrorView> {
    if !usable_text(request.worker_id@, MAX_WORKER_ID_CHARS as int) {
        Err(text_field_error("worker_id"@, MAX_WORKER_ID_CHARS as int))
    } else if !usable_text(request.gpu_name@, MAX_GPU_NAME_CHARS as int) {
        Err(text_field_error("gpu_name"@, MAX_GPU_NAME_CHARS as int))
    } else if !(1 <= request.vram_mb <= MAX_WORKER_VRAM_MB) {
        Err(
            error::ApiErrorView {
                status: 422,
                detail: "Поле vram_mb должно быть от 1 до "@ + text::decimal_of(
                    MAX_WORKER_VRAM_MB as int,
                ),
            },
        )
    } else {
        match spec_address(spec_requested_address(request.ip), parsed, connection) {
            Err(e) => Err(e),
            Ok(ip) => Ok(
                cluster::WorkerView {
                    worker_id: text::trimmed(request.worker_id@),
                    rank: 0,
                    ip,
                    gpu_name: text::trimmed(request.gpu_name@),
                    vram_mb: request.vram_mb,
                    latency_ms: match request.latency_ms {
                        Some(bits) => if cluster::non_negative_bits(bits) {
                            Some(Latency::Reported(bits))
                        } else {
                            None
                        },
                        None => None,
                    },
                    last_seen_ms: now_ms,
                },
            ),
        }
    }
}

pub open spec fn opt(o: Option<String>) -> Option<Seq<char>> {
    match o {
        Some(s) => Some(s@),
        None => None,
    }
}

/// Checks a registration. `parsed` is what the parser made of `requested_address`, if that was an IP
/// address; `connection` is the address that the request came from, if it is known.
pub fn check_registration(
    request: &RegisterWorkerRequest,
    parsed: Option<String>,
    connection: Option<String>,
    now_ms: u64,
) -> (r: ApiResult<WorkerInfo>)
    ensures
        match spec_check_registration(*request, opt(parsed), opt(connection), now_ms) {
            Ok(w) => r is Ok && r->Ok_0@ == w,
            Err(e) => r is Err && r->Err_0@ == e,
        },
{
    let worker_id = required_text("worker_id", request.worker_id.as_str(), MAX_WORKER_ID_CHARS)?;
    let gpu_name = required_text("gpu_name", request.gpu_name.as_str(), MAX_GPU_NAME_CHARS)?;
    if !(1 <= request.vram_mb && request.vram_mb <= MAX_WORKER_VRAM_MB) {
        return Err(
            ApiError::unprocessable(
                text::join2(
                    "Поле vram_mb должно быть от 1 до ",
                    text::decimal(MAX_WORKER_VRAM_MB).as_str(),
                ),
            ),
        );
    }
    let ip = match requested_address(&request.ip) {
        Some(asked) => match parsed {
            Some(ip) => ip,
            None => return Err(
                ApiError::unprocessable(
                    text::join3("Некорректный IP-адрес узла: «", asked.as_str(), "»"),
                ),
            ),
        },
        None => match connection {
            Some(ip) => ip,
            None => return Err(ApiError::unprocessable("Не указан IP-адрес узла".to_owned())),
        },
    };
    let latency_ms = match request.latency_ms {
        Some(bits) => if (bits / 0x80_0000) % 0x100 != 0xff && bits <= 0x8000_0000 {
            Some(Latency::Reported(bits))
        } else {
            None
        },
        None => None,
    };
    Ok(
        WorkerInfo {
            worker_id,
            rank: 0,
            ip,
            gpu_name,
            vram_mb: request.vram_mb,
            latency_ms,
            last_seen_ms: now_ms,
        },
    )
}

/// The number of a step in a header, where the header is there.
pub fn step_header(value: Option<Option<String>>) -> (r: ApiResult<Option<u32>>)
    ensures
        match value {
            None => r == Ok::<Option<u32>, ApiError>(None),
            Some(v) => match v {
                Some(s) => match text::parsed_number(text::trimmed(s@), u32::MAX as int) {
                    Some(n) => r == Ok::<Option<u32>, ApiError>(Some(n as u32)),
                    None => r is Err && r->Err_0@ == step_header_error(),
                },
                None => r is Err && r->Err_0@ == step_header_error(),
            },
        },
{
    match value {
        None => Ok(None),
        Some(v) => {
            if let Some(s) = v {
                let s = text::trim(s.as_str());
                if let Some(n) = text::parse_number(s.as_str(), u32::MAX as u64) {
                    return Ok(Some(n as u32));
                }
            }
            Err(
                ApiError::bad_request(
                    "Заголовок x-sloth-step должен быть номером шага".to_owned(),
                ),
            )
        },
    }
}

pub open spec fn step_header_error() -> error::ApiErrorView {
    error::ApiErrorView {
        status: 400,
        detail: "Заголовок x-sloth-step должен быть номером шага"@,
    }
}

/// The first value among the first `n` that is not finite.
pub open spec fn first_not_finite(grads: Seq<u32>, n: int) -> Option<int>
    decreases n,
{
    if n <= 0 {
        None
    } else {
        match first_not_finite(grads, n - 1) {
            Some(i) => Some(i),
            None => if cluster::finite_bits(grads[n - 1]) {
                None
            } else {
                Some(n - 1)
            },
        }
    }
}

proof fn lemma_first_not_finite(grads: Seq<u32>, k: int, n: int)
    requires
        0 <= k <= n <= grads.len(),
        forall|i: int| 0 <= i < k ==> cluster::finite_bits(#[trigger] grads[i]),
        k < n ==> !cluster::finite_bits(grads[k]),
    ensures
        first_not_finite(grads, n) == if k < n {
            Some(k)
        } else {
            None
        },
    decreases n,
{
    if n > 0 {
        if k < n {
            lemma_first_not_finite(grads, k, n - 1);
        } else {
            lemma_first_not_finite(grads, k - 1, n - 1);
        }
    }
}

/// Why gradients of a node are not averaged with the master's.
pub open spec fn spec_check_sync(
    worker_step: Option<u32>,
    grads: Seq<u32>,
    master: Option<StepGradients>,
) -> Option<error::ApiErrorView> {
    if grads.len() == 0 {
        Some(error::ApiErrorView { status: 400, detail: "Узел прислал пустой набор градиентов"@ })
    } else if let Some(index) = first_not_finite(grads, grads.len() as int) {
        Some(cluster_api_error(ClusterError::NonFiniteGradient { index: index as usize }))
    } else {
        match master {
            None => Some(
                error::ApiErrorView {
                    status: 409,
                    detail: "У мастера нет градиентов текущего шага: распределённое обучение появится на этапе 3 дорожной карты"@,
                },
            ),
            Some(m) => if worker_step is Some && worker_step->0 != m.step {
                Some(
                    error::ApiErrorView {
                        status: 409,
                        detail: "Шаг узла "@ + text::decimal_of(worker_step->0 as int)
                            + " не совпадает с текущим шагом мастера "@ + text::decimal_of(
                            m.step as int,
                        ),
                    },
                )
            } else if m.gradients@.len() != grads.len() {
                Some(
                    cluster_api_error(
                        ClusterError::GradientLengthMismatch {
                            master_len: m.gradients@.len() as usize,
                            worker_len: grads.len() as usize,
                        },
                    ),
                )
            } else {
                None
            },
        }
    }
}

/// Whether gradients of a node can be averaged with the master's.
pub fn check_sync(
    worker_step: Option<u32>,
    grads: &Vec<u32>,
    master: &Option<StepGradients>,
) -> (r: ApiResult<()>)
    ensures
        match spec_check_sync(worker_step, grads@, *master) {
            None => r is Ok,
            Some(e) => r is Err && r->Err_0@ == e,
        },
{
    if grads.len() == 0 {
        return Err(ApiError::bad_request("Узел прислал пустой набор градиентов".to_owned()));
    }
    match AllReduceEngine::ensure_finite(grads.as_slice()) {
        Ok(_) => {
            proof {
                lemma_first_not_finite(grads@, grads@.len() as int, grads@.len() as int);
            }
        },
        Err(e) => {
            proof {
                let k = choose|k: int|
                    0 <= k < grads@.len() && !cluster::finite_bits(#[trigger] grads@[k]) && (forall|
                        i: int,
                    |
                        0 <= i < k ==> cluster::finite_bits(#[trigger] grads@[i])) && e == (
                    ClusterError::NonFiniteGradient { index: k as usize });
                lemma_first_not_finite(grads@, k, grads@.len() as int);
            }
            return Err(gradient_error(&e));
        },
    }
    match master {
        None => Err(
            ApiError::conflict(
                "У мастера нет градиентов текущего шага: распределённое обучение появится на этапе 3 дорожной карты".to_owned(),
            ),
        ),
        Some(m) => {
            if let Some(step) = worker_step {
                if step != m.step {
                    let mut s = text::join3(
                        "Шаг узла ",
                        text::decimal(step as u64).as_str(),
                        " не совпадает с текущим шагом мастера ",
                    );
                    s.append(text::decimal(m.step as u64).as_str());
                    return Err(ApiError::conflict(s));
                }
            }
            match AllReduceEngine::check_two(m.gradients.len(), grads.len()) {
                Ok(_) => Ok(()),
                Err(e) => Err(gradient_error(&e)),
            }
        },
    }
}

/// What the status of the cluster says of the cluster as a whole.
#[derive(Debug)]
pub struct ClusterSummary {
    pub world_size: usize,
    pub online_workers: usize,
    /// Video memory of all nodes and of the master, where the master's is known.
    pub total_vram_mb: Option<u64>,
    /// A node is online, and there is an engine.
    pub all_reduce_ready: bool,
}

pub open spec fn vram_sum(ws: Seq<cluster::WorkerView>, n: int) -> int
    decreases n,
{
    if n <= 0 {
        0
    } else {
        vram_sum(ws, n - 1) + ws[n - 1].vram_mb
    }
}

pub open spec fn online_count(ws: Seq<cluster::WorkerView>, now_ms: u64, n: int) -> int
    decreases n,
{
    if n <= 0 {
        0
    } else {
        online_count(ws, now_ms, n - 1) + if cluster::online(
            ws[n - 1],
            now_ms,
            WORKER_TIMEOUT_MS,
        ) {
            1int
        } else {
            0
        }
    }
}

proof fn lemma_vram_sum_grows(ws: Seq<cluster::WorkerView>, k: int, n: int)
    requires
        0 <= k <= n,
    ensures
        0 <= vram_sum(ws, k) <= vram_sum(ws, n),
    decreases n,
{
    if n > 0 {
        if k < n {
            lemma_vram_sum_grows(ws, k, n - 1);
        } else {
            lemma_vram_sum_grows(ws, k - 1, n - 1);
        }
    }
}

/// Counts the nodes and their video memory.
pub fn cluster_summary(
    workers: &Vec<WorkerInfo>,
    now_ms: u64,
    master_vram_mb: Option<u64>,
    engine_available: bool,
) -> (r: ClusterSummary)
    requires
        workers@.len() < usize::MAX,
        vram_sum(cluster::workers_view(workers@), workers@.len() as int) + (match master_vram_mb {
            Some(m) => m as int,
            None => 0,
        }) <= u64::MAX,
    ensures
        r.world_size == workers@.len() + 1,
        r.online_workers == online_count(
            cluster::workers_view(workers@),
            now_ms,
            workers@.len() as int,
        ),
        match master_vram_mb {
            Some(m) => r.total_vram_mb == Some(
                (m + vram_sum(cluster::workers_view(workers@), workers@.len() as int)) as u64,
            ),
            None => r.total_vram_mb is None,
        },
        r.all_reduce_ready == (r.online_workers > 0 && engine_available),
{
    let ghost ws = cluster::workers_view(workers@);
    let mut online: usize = 0;
    let mut vram: u64 = 0;
    let mut i: usize = 0;
    while i < workers.len()
        invariant
            i <= workers@.len(),
            ws == cluster::workers_view(workers@),
            online <= i,
            online == online_count(ws, now_ms, i as int),
            vram == vram_sum(ws, i as int),
            vram_sum(ws, workers@.len() as int) <= u64::MAX,
        decreases workers@.len() - i,
    {
        assert(ws[i as int] == workers@[i as int]@);
        proof {
            lemma_vram_sum_grows(ws, i + 1, workers@.len() as int);
        }
        if workers[i].is_online(now_ms, WORKER_TIMEOUT_MS) {
            online += 1;
        }
        vram += workers[i].vram_mb;
        i += 1;
    }
    ClusterSummary {
        world_size: workers.len() + 1,
        online_workers: online,
        total_vram_mb: match master_vram_mb {
            Some(m) => Some(m + vram),
            None => None,
        },
        all_reduce_ready: online > 0 && engine_available,
    }
}

} // verus!
