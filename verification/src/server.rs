//! The server itself: where it listens, where its files lie, and what it says of itself.

use vstd::prelude::*;

use crate::chat_store;
use crate::cluster;
use crate::cluster::WorkerInfo;
use crate::cluster_api;
use crate::error;
use crate::error::ApiError;
use crate::json;
use crate::json::{from_str, Json, JsonObject};
use crate::paths;
use crate::text;

verus! {

pub const VERSION: &'static str = "0.1.0";

/// Only this computer.
pub const DEFAULT_HOST: &'static str = "127.0.0.1";

pub const DEFAULT_PORT: u16 = 3000;

/// The variables that name the folders of the interface and of the models.
pub const STATIC_DIR_ENV: &'static str = "STATIC_DIR";

pub const MODELS_DIR_ENV: &'static str = "SLOTH_MODELS_DIR";

/// The version of the library.
pub fn version() -> (r: &'static str)
    ensures
        r@ == VERSION@,
{
    VERSION
}

/// The version of the server.
pub fn server_version() -> (r: &'static str)
    ensures
        r@ == VERSION@,
{
    VERSION
}

// ---------- where it listens ----------

/// The address to listen at: the first variable that is set, or this computer only.
pub fn bind_host(first: Option<String>, second: Option<String>) -> (r: String)
    ensures
        r@ == (match first {
            Some(h) => h@,
            None => match second {
                Some(h) => h@,
                None => DEFAULT_HOST@,
            },
        }),
{
    match first {
        Some(h) => h,
        None => match second {
            Some(h) => h,
            None => DEFAULT_HOST.to_owned(),
        },
    }
}

pub open spec fn spec_port(raw: Option<Seq<char>>) -> Result<int, Seq<char>> {
    match raw {
        None => Ok(DEFAULT_PORT as int),
        Some(s) => match text::parsed_number(text::trimmed(s), u16::MAX as int) {
            Some(n) => Ok(n),
            None => Err("Некорректный порт в PORT/SLOTH_PORT: «"@ + s + "»"@),
        },
    }
}

/// The port to listen at: the one that is set, or the usual one.
pub fn bind_port(raw: &Option<String>) -> (r: Result<u16, String>)
    ensures
        match spec_port(chat_store::opt_text(*raw)) {
            Ok(n) => r is Ok && r->Ok_0 == n,
            Err(why) => r is Err && r->Err_0@ == why,
        },
{
    match raw {
        None => Ok(DEFAULT_PORT),
        Some(s) => match text::parse_number(text::trim(s.as_str()).as_str(), u16::MAX as u64) {
            Some(n) => Ok(n as u16),
            None => Err(
                text::join3("Некорректный порт в PORT/SLOTH_PORT: «", s.as_str(), "»"),
            ),
        },
    }
}

pub open spec fn spec_authority(host: Seq<char>, port: u16) -> Seq<char> {
    let number = text::decimal_of(port as int);
    if host.contains(':') {
        "["@ + host + "]:"@ + number
    } else {
        host + ":"@ + number
    }
}

/// The address with the port; an address with colons stands in brackets.
pub fn authority(host: &str, port: u16) -> (r: String)
    ensures
        r@ == spec_authority(host@, port),
{
    let number = text::decimal(port as u64);
    if text::contains_char(host, ':') {
        let inner = text::join3("[", host, "]:");
        text::join2(inner.as_str(), number.as_str())
    } else {
        text::join3(host, ":", number.as_str())
    }
}

// ---------- where its files lie ----------

/// The places where a folder is looked for: beside the program, in the project, in the current
/// folder.
pub open spec fn spec_places(
    exe_dir: Option<Seq<char>>,
    project: Seq<char>,
    current: Option<Seq<char>>,
    relative: Seq<char>,
) -> Seq<Seq<char>> {
    let first = match exe_dir {
        Some(d) => seq![paths::joined(d, relative)],
        None => Seq::empty(),
    };
    let second = first.push(paths::joined(project, relative));
    match current {
        Some(d) => second.push(paths::joined(d, relative)),
        None => second,
    }
}

/// The places where a folder is looked for, the first one first.
pub fn folder_places(
    exe_dir: &Option<String>,
    project: &str,
    current: &Option<String>,
    relative: &str,
) -> (r: Vec<String>)
    ensures
        text::views(r@) == spec_places(
            chat_store::opt_text(*exe_dir),
            project@,
            chat_store::opt_text(*current),
            relative@,
        ),
{
    let mut list: Vec<String> = Vec::new();
    if let Some(d) = exe_dir {
        list.push(paths::join(d.as_str(), relative));
    }
    list.push(paths::join(project, relative));
    if let Some(d) = current {
        list.push(paths::join(d.as_str(), relative));
    }
    assert(text::views(list@) =~= spec_places(
        chat_store::opt_text(*exe_dir),
        project@,
        chat_store::opt_text(*current),
        relative@,
    ));
    list
}

/// The first place from `i` on where something is.
pub open spec fn there_from(places: Seq<Seq<char>>, there: Seq<bool>, i: int) -> Option<Seq<char>>
    decreases places.len() - i,
{
    if i < 0 || i >= places.len() {
        None
    } else if there[i] {
        Some(places[i])
    } else {
        there_from(places, there, i + 1)
    }
}

/// The first place where something is. `there` says of each place whether it has what is looked for.
pub fn first_there(places: &Vec<String>, there: &Vec<bool>) -> (r: Option<String>)
    requires
        there@.len() == places@.len(),
    ensures
        chat_store::opt_text(r) == there_from(text::views(places@), there@, 0),
{
    let ghost view = text::views(places@);
    let mut i: usize = 0;
    while i < places.len()
        invariant
            i <= places@.len(),
            there@.len() == places@.len(),
            view == text::views(places@),
            there_from(view, there@, 0) == there_from(view, there@, i as int),
        decreases places@.len() - i,
    {
        assert(view[i as int] == places@[i as int]@);
        if there[i] {
            return Some(places[i].clone());
        }
        i += 1;
    }
    None
}

/// Where models go while there is no folder for them: beside the program.
pub fn new_models_dir(exe_dir: &Option<String>) -> (r: String)
    ensures
        r@ == (match *exe_dir {
            Some(d) => paths::joined(d@, "models"@),
            None => "models"@,
        }),
{
    match exe_dir {
        Some(d) => paths::join(d.as_str(), "models"),
        None => "models".to_owned(),
    }
}

/// The folder of downloads that other programs share, and whether it was set.
pub fn cache_home(hf_home: &Option<String>, home: &Option<String>) -> (r: (String, bool))
    ensures
        r.1 == (*hf_home is Some),
        r.0@ == (match *hf_home {
            Some(dir) => dir@,
            None => match *home {
                Some(h) => paths::joined(paths::joined(h@, ".cache"@), "huggingface"@),
                None => paths::joined(".cache"@, "huggingface"@),
            },
        }),
{
    match hf_home {
        Some(dir) => (dir.clone(), true),
        None => {
            let base = match home {
                Some(h) => paths::join(h.as_str(), ".cache"),
                None => ".cache".to_owned(),
            };
            (paths::join(base.as_str(), "huggingface"), false)
        },
    }
}

/// The place `k` is that of the disk a path lies on: the one that is mounted deepest, the last one of
/// those that are equally deep.
pub open spec fn is_disk_of(path: Seq<char>, mounts: Seq<Seq<char>>, k: int) -> bool {
    &&& 0 <= k < mounts.len()
    &&& paths::within(path, mounts[k])
    &&& forall|i: int|
        0 <= i < mounts.len() && paths::within(path, #[trigger] mounts[i]) ==> mounts[i].len()
            < mounts[k].len() || (mounts[i].len() == mounts[k].len() && i <= k)
}

/// The disk that a path lies on. Only mount points above the path count, so of those the longest is
/// the deepest.
pub fn disk_of(path: &str, mounts: &Vec<String>) -> (r: Option<usize>)
    ensures
        match r {
            Some(k) => is_disk_of(path@, text::views(mounts@), k as int),
            None => forall|i: int|
                0 <= i < mounts@.len() ==> !paths::within(
                    path@,
                    #[trigger] text::views(mounts@)[i],
                ),
        },
{
    let ghost view = text::views(mounts@);
    let mut best: Option<usize> = None;
    let mut best_len: usize = 0;
    let mut i: usize = 0;
    while i < mounts.len()
        invariant
            i <= mounts@.len(),
            view == text::views(mounts@),
            match best {
                Some(k) => k < i && best_len == view[k as int].len() && paths::within(
                    path@,
                    view[k as int],
                ) && forall|j: int|
                    0 <= j < i && paths::within(path@, #[trigger] view[j]) ==> view[j].len()
                        < view[k as int].len() || (view[j].len() == view[k as int].len() && j
                        <= k),
                None => forall|j: int| 0 <= j < i ==> !paths::within(path@, #[trigger] view[j]),
            },
        decreases mounts@.len() - i,
    {
        assert(view[i as int] == mounts@[i as int]@);
        let len = text::to_chars(mounts[i].as_str()).len();
        if paths::is_within(path, mounts[i].as_str()) && (best.is_none() || len >= best_len) {
            best = Some(i);
            best_len = len;
        }
        i += 1;
    }
    best
}

/// A disk: where it is mounted, and its bytes.
#[derive(Debug)]
pub struct DiskSpace {
    pub mount: String,
    pub total_bytes: u64,
    pub free_bytes: u64,
}

/// The disk of the system from `i` on.
pub open spec fn root_from(disks: Seq<DiskSpace>, i: int) -> Option<int>
    decreases disks.len() - i,
{
    if i < 0 || i >= disks.len() {
        None
    } else if disks[i].mount@ == "/"@ {
        Some(i)
    } else {
        root_from(disks, i + 1)
    }
}

/// The bytes of the first `n` disks together, and those that are free.
pub open spec fn space_sum(disks: Seq<DiskSpace>, n: int) -> (int, int)
    decreases n,
{
    if n <= 0 {
        (0, 0)
    } else {
        let before = space_sum(disks, n - 1);
        (before.0 + disks[n - 1].total_bytes, before.1 + disks[n - 1].free_bytes)
    }
}

proof fn lemma_space_grows(disks: Seq<DiskSpace>, k: int, n: int)
    requires
        0 <= k <= n,
    ensures
        0 <= space_sum(disks, k).0 <= space_sum(disks, n).0,
        0 <= space_sum(disks, k).1 <= space_sum(disks, n).1,
    decreases n,
{
    if k < n {
        lemma_space_grows(disks, k, n - 1);
    } else if n > 0 {
        lemma_space_grows(disks, n - 1, n - 1);
    }
}

/// The bytes that are shown for the computer, and those that are free: of the disk of the system, or,
/// where there is none, of all disks together.
pub fn disk_totals(disks: &Vec<DiskSpace>) -> (r: (u64, u64))
    requires
        space_sum(disks@, disks@.len() as int).0 <= u64::MAX,
        space_sum(disks@, disks@.len() as int).1 <= u64::MAX,
    ensures
        match root_from(disks@, 0) {
            Some(k) => r == (disks@[k].total_bytes, disks@[k].free_bytes),
            None => (r.0 as int, r.1 as int) == space_sum(disks@, disks@.len() as int),
        },
{
    let mut total: u64 = 0;
    let mut free: u64 = 0;
    let mut i: usize = 0;
    while i < disks.len()
        invariant
            i <= disks@.len(),
            root_from(disks@, 0) == root_from(disks@, i as int),
            space_sum(disks@, disks@.len() as int).0 <= u64::MAX,
            space_sum(disks@, disks@.len() as int).1 <= u64::MAX,
            (total as int, free as int) == space_sum(disks@, i as int),
        decreases disks@.len() - i,
    {
        if text::same(disks[i].mount.as_str(), "/") {
            return (disks[i].total_bytes, disks[i].free_bytes);
        }
        proof {
            lemma_space_grows(disks@, i + 1, disks@.len() as int);
        }
        total = total + disks[i].total_bytes;
        free = free + disks[i].free_bytes;
        i += 1;
    }
    (total, free)
}

/// Which steps of the schema are still to be applied: those behind the first `applied` of `count`. A
/// negative number counts as none.
pub fn pending_migrations(applied: i64, count: usize) -> (r: Vec<usize>)
    ensures
        ({
            let done = if applied < 0 {
                0
            } else {
                applied as int
            };
            &&& r@.len() == (if done > count {
                0
            } else {
                count - done
            })
            &&& forall|i: int| 0 <= i < r@.len() ==> #[trigger] r@[i] == done + i
        }),
{
    let mut out: Vec<usize> = Vec::new();
    let done: u64 = if applied < 0 {
        0
    } else {
        applied as u64
    };
    if done > count as u64 {
        return out;
    }
    let first: usize = done as usize;
    let mut i: usize = first;
    while i < count
        invariant
            first <= i <= count,
            out@.len() == i - first,
            forall|k: int| 0 <= k < out@.len() ==> #[trigger] out@[k] == first + k,
        decreases count - i,
    {
        out.push(i);
        i += 1;
    }
    out
}

// ---------- what it says of itself ----------

/// The state of the server.
#[derive(Debug)]
pub struct HealthResponse {
    pub status: String,
    pub version: String,
    pub device_type: String,
    pub gpu_name: String,
    pub vram_total_mb: u64,
    pub vram_free_mb: u64,
    pub vram_used_mb: u64,
    pub cuda_available: bool,
    pub rocm_available: bool,
    pub vulkan_available: bool,
    pub capabilities: Vec<String>,
    pub chat_only: bool,
    pub apple_silicon: Option<bool>,
    pub chat_only_reason: Option<String>,
    pub hardware_detecting: Option<bool>,
    pub cloudflare_url: Option<String>,
    pub server_url: Option<String>,
    pub secure: Option<bool>,
}

/// The state of the server. `device` is the name of the Vulkan device, if there is one.
pub fn health(device: &Option<String>) -> (r: HealthResponse)
    ensures
        r.status@ == "ok"@,
        r.version@ == VERSION@,
        r.device_type@ == "vulkan"@,
        r.gpu_name@ == (match *device {
            Some(name) => name@,
            None => "Vulkan-устройство не найдено"@,
        }),
        r.vram_total_mb == 4096 && r.vram_free_mb == 4096 && r.vram_used_mb == 0,
        !r.cuda_available && !r.rocm_available && r.vulkan_available == (*device is Some),
        text::views(r.capabilities@) == seq!["train"@, "chat"@, "gguf"@, "lora"@, "cluster"@],
        !r.chat_only,
        r.apple_silicon is None && r.chat_only_reason is None && r.hardware_detecting is None,
        r.cloudflare_url is None && r.server_url is None && r.secure is None,
{
    let gpu_name = match device {
        Some(name) => name.clone(),
        None => "Vulkan-устройство не найдено".to_owned(),
    };
    let mut capabilities: Vec<String> = Vec::new();
    capabilities.push("train".to_owned());
    capabilities.push("chat".to_owned());
    capabilities.push("gguf".to_owned());
    capabilities.push("lora".to_owned());
    capabilities.push("cluster".to_owned());
    assert(text::views(capabilities@) =~= seq!["train"@, "chat"@, "gguf"@, "lora"@, "cluster"@]);
    HealthResponse {
        status: "ok".to_owned(),
        version: VERSION.to_owned(),
        device_type: "vulkan".to_owned(),
        gpu_name,
        vram_total_mb: 4096,
        vram_free_mb: 4096,
        vram_used_mb: 0,
        cuda_available: false,
        rocm_available: false,
        vulkan_available: device.is_some(),
        capabilities,
        chat_only: false,
        apple_silicon: None,
        chat_only_reason: None,
        hardware_detecting: None,
        cloudflare_url: None,
        server_url: None,
        secure: None,
    }
}

#[derive(Debug)]
pub struct AuthStatusUser {
    pub username: String,
    pub role: String,
}

/// Who is logged in: always the one user.
#[derive(Debug)]
pub struct AuthStatusResponse {
    pub authenticated: bool,
    pub auth_required: bool,
    pub initialized: bool,
    pub requires_password_change: bool,
    pub bootstrap_deadline_seconds: Option<u64>,
    pub user: AuthStatusUser,
}

pub fn auth_status() -> (r: AuthStatusResponse)
    ensures
        r.authenticated && !r.auth_required && r.initialized && !r.requires_password_change,
        r.bootstrap_deadline_seconds is None,
        r.user.username@ == "rivergod"@,
        r.user.role@ == "admin"@,
{
    AuthStatusResponse {
        authenticated: true,
        auth_required: false,
        initialized: true,
        requires_password_change: false,
        bootstrap_deadline_seconds: None,
        user: AuthStatusUser { username: "rivergod".to_owned(), role: "admin".to_owned() },
    }
}

/// How the program was installed.
#[derive(Debug)]
pub struct InstallSourceResponse {
    pub source: String,
    pub install_source: String,
    pub channel: String,
}

pub fn install_source() -> (r: InstallSourceResponse)
    ensures
        r.source@ == "native"@,
        r.install_source@ == "native"@,
        r.channel@ == "stable"@,
{
    InstallSourceResponse {
        source: "native".to_owned(),
        install_source: "native".to_owned(),
        channel: "stable".to_owned(),
    }
}

/// Whether there is a newer version.
#[derive(Debug)]
pub struct UpdateStatusResponse {
    pub update_available: bool,
    pub current_version: String,
    pub latest_version: String,
    pub install_source: String,
    pub can_show_web_notification: bool,
}

pub fn update_status() -> (r: UpdateStatusResponse)
    ensures
        !r.update_available && !r.can_show_web_notification,
        r.current_version@ == VERSION@,
        r.latest_version@ == VERSION@,
        r.install_source@ == "native"@,
{
    UpdateStatusResponse {
        update_available: false,
        current_version: VERSION.to_owned(),
        latest_version: VERSION.to_owned(),
        install_source: "native".to_owned(),
        can_show_web_notification: false,
    }
}

/// The video card and the memory of the whole cluster.
#[derive(Debug)]
pub struct HardwareDetails {
    pub gpu_name: String,
    pub device_name: String,
    pub vulkan_version: String,
    pub wavefront_size: u32,
    pub architecture: String,
    pub compute_units: u32,
    pub vram_total_mb: u64,
    pub vram_used_mb: u64,
    pub backend: String,
    pub driver: String,
    pub is_cluster: bool,
    pub cluster_total_vram_mb: u64,
}

/// The name that is shown where there is no Vulkan device.
pub const USUAL_DEVICE: &'static str = "AMD Radeon RX 570 Series (RADV POLARIS10)";

/// The video card and the memory of all machines together.
pub fn hardware(device: &Option<String>, workers: &Vec<WorkerInfo>) -> (r: HardwareDetails)
    requires
        4096 + cluster_api::vram_sum(cluster::workers_view(workers@), workers@.len() as int)
            <= u64::MAX,
    ensures
        r.gpu_name@ == "AMD Radeon RX 570"@,
        r.device_name@ == (match *device {
            Some(name) => name@,
            None => USUAL_DEVICE@,
        }),
        r.vulkan_version@ == "Vulkan 1.4"@,
        r.wavefront_size == 64 && r.compute_units == 32,
        r.architecture@ == "GCN 4.0"@,
        r.vram_total_mb == 4096 && r.vram_used_mb == 1420,
        r.backend@ == "Vulkan Native (wavefront 64, GCN 4.0)"@,
        r.driver@ == "RADV POLARIS10 (Mesa 24.0.0)"@,
        r.is_cluster == (workers@.len() > 0),
        r.cluster_total_vram_mb == 4096 + cluster_api::vram_sum(
            cluster::workers_view(workers@),
            workers@.len() as int,
        ),
{
    let ghost view = cluster::workers_view(workers@);
    let mut total: u64 = 4096;
    let mut i: usize = 0;
    while i < workers.len()
        invariant
            i <= workers@.len(),
            view == cluster::workers_view(workers@),
            4096 + cluster_api::vram_sum(view, workers@.len() as int) <= u64::MAX,
            total == 4096 + cluster_api::vram_sum(view, i as int),
        decreases workers@.len() - i,
    {
        assert(view[i as int] == workers@[i as int]@);
        proof {
            lemma_vram_grows(view, i + 1, workers@.len() as int);
        }
        total = total + workers[i].vram_mb;
        i += 1;
    }
    let device_name = match device {
        Some(name) => name.clone(),
        None => USUAL_DEVICE.to_owned(),
    };
    HardwareDetails {
        gpu_name: "AMD Radeon RX 570".to_owned(),
        device_name,
        vulkan_version: "Vulkan 1.4".to_owned(),
        wavefront_size: 64,
        architecture: "GCN 4.0".to_owned(),
        compute_units: 32,
        vram_total_mb: 4096,
        vram_used_mb: 1420,
        backend: "Vulkan Native (wavefront 64, GCN 4.0)".to_owned(),
        driver: "RADV POLARIS10 (Mesa 24.0.0)".to_owned(),
        is_cluster: workers.len() > 0,
        cluster_total_vram_mb: total,
    }
}

proof fn lemma_vram_grows(ws: Seq<cluster::WorkerView>, k: int, n: int)
    requires
        0 <= k <= n,
    ensures
        0 <= cluster_api::vram_sum(ws, k) <= cluster_api::vram_sum(ws, n),
    decreases n,
{
    if k < n {
        lemma_vram_grows(ws, k, n - 1);
    } else if n > 0 {
        lemma_vram_grows(ws, n - 1, n - 1);
    }
}

/// What is said where a path of the interface leads nowhere.
pub fn unknown_endpoint(path: &str) -> (r: ApiError)
    ensures
        r@ == (error::ApiErrorView { status: 404, detail: "Эндпоинт API не найден: "@ + path@ }),
{
    ApiError::not_found(text::join2("Эндпоинт API не найден: ", path))
}

// ---------- keys for programs ----------

/// A new key.
pub open spec fn new_key(payload: json::JsonView, millis: u64, created_at: Seq<char>) -> json::Fields {
    let id = "key-"@ + text::decimal_of(millis as int);
    let name = match json::text_of(json::member(payload, "name"@)) {
        Some(s) => s,
        None => "Default Key"@,
    };
    json::with(
        json::with(
            json::with(
                json::with(json::no_fields(), "id"@, json::JsonView::Text(id)),
                "name"@,
                json::JsonView::Text(name),
            ),
            "key"@,
            json::JsonView::Text("sf-"@ + id),
        ),
        "created_at"@,
        json::JsonView::Text(created_at),
    )
}

/// A new key. Its id is the time in milliseconds.
pub fn make_key(payload: &Json, millis: u64, created_at: &str) -> (r: JsonObject)
    ensures
        r@ == new_key(payload@, millis, created_at@),
{
    let id = text::join2("key-", text::decimal(millis).as_str());
    let name = match payload.get("name") {
        Some(v) => match v.as_str() {
            Some(s) => s,
            None => "Default Key",
        },
        None => "Default Key",
    };
    let mut key = JsonObject::new();
    key.insert("id", from_str(id.as_str()));
    key.insert("name", from_str(name));
    key.insert("key", from_str(text::join2("sf-", id.as_str()).as_str()));
    key.insert("created_at", from_str(created_at));
    key
}

/// The keys among the first `n` with another id.
pub open spec fn keys_without(keys: Seq<json::JsonView>, id: Seq<char>, n: int) -> Seq<
    json::JsonView,
>
    decreases n,
{
    if n <= 0 {
        Seq::empty()
    } else {
        let before = keys_without(keys, id, n - 1);
        if json::text_of(json::member(keys[n - 1], "id"@)) == Some(id) {
            before
        } else {
            before.push(keys[n - 1])
        }
    }
}

/// The keys without the one of an id.
pub fn remove_key(keys: &Vec<Json>, id: &str) -> (r: Vec<Json>)
    ensures
        chat_store::records_view(r@) == keys_without(
            chat_store::records_view(keys@),
            id@,
            keys@.len() as int,
        ),
{
    let ghost view = chat_store::records_view(keys@);
    let mut out: Vec<Json> = Vec::new();
    let mut i: usize = 0;
    assert(chat_store::records_view(out@) =~= Seq::empty());
    while i < keys.len()
        invariant
            i <= keys@.len(),
            view == chat_store::records_view(keys@),
            chat_store::records_view(out@) == keys_without(view, id@, i as int),
        decreases keys@.len() - i,
    {
        assert(view[i as int] == keys@[i as int]@);
        let same = match keys[i].get("id") {
            Some(v) => match v.as_str() {
                Some(s) => text::same(s, id),
                None => false,
            },
            None => false,
        };
        if !same {
            let ghost before = chat_store::records_view(out@);
            out.push(keys[i].duplicate());
            assert(chat_store::records_view(out@) =~= before.push(view[i as int]));
        }
        i += 1;
    }
    out
}

/// A key that is removed is gone.
pub proof fn law_removed_key_is_gone(keys: Seq<json::JsonView>, id: Seq<char>, n: int)
    requires
        0 <= n <= keys.len(),
    ensures
        forall|i: int|
            0 <= i < keys_without(keys, id, n).len() ==> json::text_of(
                json::member(#[trigger] keys_without(keys, id, n)[i], "id"@),
            ) != Some(id),
    decreases n,
{
    if n > 0 {
        law_removed_key_is_gone(keys, id, n - 1);
    }
}

} // verus!
