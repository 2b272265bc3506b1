//! Which model a request means, what it needs of memory, and what a request to load it is answered.

use vstd::prelude::*;

use crate::chat_store;
use crate::decimals;
use crate::decimals::format_parameters;
use crate::error;
use crate::error::{ApiError, ApiResult};
use crate::ggml;
use crate::ggml::GGMLType;
use crate::hub;
use crate::inventory;
use crate::inventory::{kv_cache_bytes, GgufSummary};
use crate::model_scan;
use crate::model_scan::LocalModel;
use crate::names;
use crate::settings_api;
use crate::text;

verus! {

/// The context length for an estimate where neither the request nor the file names one.
pub const FALLBACK_CONTEXT_LENGTH: u64 = 4096;

/// A rough estimate of the buffers for computing.
pub const COMPUTE_BUFFER_ESTIMATE_BYTES: u64 = 268_435_456;

/// The fields of a request about a model that are used.
#[derive(Debug)]
pub struct ModelRequest {
    pub model_path: Option<String>,
    pub gguf_variant: Option<String>,
    pub include_chat_template: bool,
    pub n_ctx: Option<u64>,
    pub cache_type_kv: Option<String>,
    pub n_parallel: Option<u64>,
}

/// A request for the size of the cache of a model.
#[derive(Debug)]
pub struct KvCacheQuery {
    pub repo_id: String,
    pub quant: Option<String>,
    pub n_ctx: Option<u64>,
    pub cache_type_kv: Option<String>,
}

/// What a request's name of a model stands for.
#[derive(Debug)]
pub enum ModelRef {
    /// A model on disk: its place in the list.
    Local(usize),
    /// A repository whose file is not on disk.
    NotDownloaded(String),
    /// A path or a name that is not in the models' folders.
    Missing,
}

#[verifier::ext_equal]
pub enum RefView {
    Local(int),
    NotDownloaded(Seq<char>),
    Missing,
}

impl View for ModelRef {
    type V = RefView;

    open spec fn view(&self) -> RefView {
        match self {
            ModelRef::Local(i) => RefView::Local(*i as int),
            ModelRef::NotDownloaded(s) => RefView::NotDownloaded(s@),
            ModelRef::Missing => RefView::Missing,
        }
    }
}

/// The model that has this file, from `i` on.
pub open spec fn model_with_file(s: Seq<model_scan::ModelView>, path: Seq<char>, i: int) -> Option<
    int,
>
    decreases s.len() - i,
{
    if i < 0 || i >= s.len() {
        None
    } else if s[i].path == path || s[i].shard_paths.contains(path) {
        Some(i)
    } else {
        model_with_file(s, path, i + 1)
    }
}

pub open spec fn of_repo(
    m: model_scan::ModelView,
    repo_id: Seq<char>,
    variant: Option<Seq<char>>,
) -> bool {
    hub::like(model_scan::spec_repo_id(m), repo_id) && (variant is Some ==> hub::like(
        names::spec_quant(model_scan::spec_path_in_repo(m)),
        variant->Some_0,
    ))
}

/// The model of a repository and, if one is named, of a variant, from `i` on.
pub open spec fn model_of_repo(
    s: Seq<model_scan::ModelView>,
    repo_id: Seq<char>,
    variant: Option<Seq<char>>,
    i: int,
) -> Option<int>
    decreases s.len() - i,
{
    if i < 0 || i >= s.len() {
        None
    } else if of_repo(s[i], repo_id, variant) {
        Some(i)
    } else {
        model_of_repo(s, repo_id, variant, i + 1)
    }
}

/// Whether a name looks like `org/repo`.
pub open spec fn looks_like_repo(s: Seq<char>, is_full: bool) -> bool {
    s.contains('/') && !is_full && !text::has_suffix(text::lower(s), ".gguf"@)
}

/// A variant that is not blank.
pub open spec fn named_variant(v: Option<Seq<char>>) -> Option<Seq<char>> {
    match v {
        Some(s) => if text::trimmed(s).len() > 0 {
            Some(text::trimmed(s))
        } else {
            None
        },
        None => None,
    }
}

pub open spec fn spec_resolve_model(
    models: Seq<model_scan::ModelView>,
    identifier: Seq<char>,
    is_full: bool,
    variant: Option<Seq<char>>,
    file: Option<Seq<char>>,
) -> Result<RefView, error::ApiErrorView> {
    let id = text::trimmed(identifier);
    let by_file = match file {
        Some(path) => model_with_file(models, path, 0),
        None => None,
    };
    if id.len() == 0 {
        Err(error::ApiErrorView { status: 400, detail: "Не указана модель (model_path)"@ })
    } else if by_file is Some {
        Ok(RefView::Local(by_file->Some_0))
    } else if looks_like_repo(id, is_full) {
        match model_of_repo(models, id, named_variant(variant), 0) {
            Some(i) => Ok(RefView::Local(i)),
            None => Ok(RefView::NotDownloaded(id)),
        }
    } else {
        Ok(RefView::Missing)
    }
}

fn holds_path(list: &Vec<String>, path: &str) -> (r: bool)
    ensures
        r == text::views(list@).contains(path@),
{
    chat_store::holds(list, path)
}

fn find_by_file(models: &Vec<LocalModel>, path: &str) -> (r: Option<usize>)
    ensures
        model_with_file(model_scan::models_view(models@), path@, 0) == (match r {
            Some(i) => Some(i as int),
            None => None,
        }),
        r matches Some(i) ==> i < models@.len(),
{
    let ghost view = model_scan::models_view(models@);
    let mut i: usize = 0;
    while i < models.len()
        invariant
            i <= models@.len(),
            view == model_scan::models_view(models@),
            model_with_file(view, path@, i as int) == model_with_file(view, path@, 0),
        decreases models@.len() - i,
    {
        assert(view[i as int] == models@[i as int]@);
        if text::same(models[i].path.as_str(), path) || holds_path(&models[i].shard_paths, path) {
            return Some(i);
        }
        i += 1;
    }
    None
}

fn find_by_repo(models: &Vec<LocalModel>, repo_id: &str, variant: &Option<String>) -> (r: Option<
    usize,
>)
    ensures
        model_of_repo(
            model_scan::models_view(models@),
            repo_id@,
            chat_store::opt_text(*variant),
            0,
        ) == (match r {
            Some(i) => Some(i as int),
            None => None,
        }),
        r matches Some(i) ==> i < models@.len(),
{
    let ghost view = model_scan::models_view(models@);
    let ghost v = chat_store::opt_text(*variant);
    let mut i: usize = 0;
    while i < models.len()
        invariant
            i <= models@.len(),
            view == model_scan::models_view(models@),
            v == chat_store::opt_text(*variant),
            model_of_repo(view, repo_id@, v, i as int) == model_of_repo(view, repo_id@, v, 0),
        decreases models@.len() - i,
    {
        assert(view[i as int] == models@[i as int]@);
        let repo = models[i].repo_id();
        if text::same_ignoring_case(repo.as_str(), repo_id) {
            let fits = match variant {
                Some(q) => text::same_ignoring_case(models[i].quant().as_str(), q.as_str()),
                None => true,
            };
            if fits {
                return Some(i);
            }
        }
        i += 1;
    }
    None
}

/// Which model a request means. `is_full` says whether the system takes the name as a full path;
/// `file` is the file that the name leads to, if there is one in the models' folders.
pub fn resolve_model(
    models: &Vec<LocalModel>,
    identifier: &str,
    is_full: bool,
    variant: &Option<String>,
    file: &Option<String>,
) -> (r: ApiResult<ModelRef>)
    ensures
        match spec_resolve_model(
            model_scan::models_view(models@),
            identifier@,
            is_full,
            chat_store::opt_text(*variant),
            chat_store::opt_text(*file),
        ) {
            Ok(v) => r is Ok && r->Ok_0@ == v,
            Err(e) => r is Err && r->Err_0@ == e,
        },
        r is Ok && r->Ok_0 is Local ==> r->Ok_0->Local_0 < models@.len(),
{
    let id = text::trim(identifier);
    if id.as_str().is_empty() {
        return Err(ApiError::bad_request("Не указана модель (model_path)".to_owned()));
    }
    if let Some(path) = file {
        if let Some(i) = find_by_file(models, path.as_str()) {
            return Ok(ModelRef::Local(i));
        }
    }
    let is_repo = text::contains_char(id.as_str(), '/') && !is_full && !text::ends_with(
        text::to_lower(id.as_str()).as_str(),
        ".gguf",
    );
    if is_repo {
        let wanted = match variant {
            Some(v) => {
                let t = text::trim(v.as_str());
                if t.as_str().is_empty() {
                    None
                } else {
                    Some(t)
                }
            },
            None => None,
        };
        return match find_by_repo(models, id.as_str(), &wanted) {
            Some(i) => Ok(ModelRef::Local(i)),
            None => Ok(ModelRef::NotDownloaded(id)),
        };
    }
    Ok(ModelRef::Missing)
}

// ---------- estimate of memory ----------

pub open spec fn cache_type_name(requested: Option<Seq<char>>) -> Seq<char> {
    match named_variant(requested) {
        Some(s) => s,
        None => "f16"@,
    }
}

pub open spec fn spec_cache_type(requested: Option<Seq<char>>) -> Result<
    (GGMLType, Seq<char>),
    error::ApiErrorView,
> {
    let name = cache_type_name(requested);
    match ggml::type_of_name(name, 0) {
        Some(t) => Ok((t, text::lower(name))),
        None => Err(settings_api::unprocessable("Неизвестный тип KV-кэша: "@ + name)),
    }
}

/// The type of the cache: the one that is asked for, or the usual one.
pub fn parse_cache_type(requested: &Option<String>) -> (r: ApiResult<(GGMLType, String)>)
    ensures
        match spec_cache_type(chat_store::opt_text(*requested)) {
            Ok((t, name)) => r is Ok && r->Ok_0.0 == t && r->Ok_0.1@ == name,
            Err(e) => r is Err && r->Err_0@ == e,
        },
{
    let name = match requested {
        Some(s) => {
            let t = text::trim(s.as_str());
            if t.as_str().is_empty() {
                "f16".to_owned()
            } else {
                t
            }
        },
        None => "f16".to_owned(),
    };
    match GGMLType::from_name(name.as_str()) {
        Some(t) => Ok((t, text::to_lower(name.as_str()))),
        None => Err(
            ApiError::unprocessable(text::join2("Неизвестный тип KV-кэша: ", name.as_str())),
        ),
    }
}

/// The context length of an estimate: of the request, else of the file, else the usual one.
pub open spec fn spec_context(requested: Option<u64>, native: Option<u64>) -> u64 {
    match requested {
        Some(n) => if n > 0 {
            n
        } else {
            match native {
                Some(m) => m,
                None => FALLBACK_CONTEXT_LENGTH,
            }
        },
        None => match native {
            Some(m) => m,
            None => FALLBACK_CONTEXT_LENGTH,
        },
    }
}

fn context_of(requested: Option<u64>, native: Option<u64>) -> (r: u64)
    ensures
        r == spec_context(requested, native),
{
    if let Some(n) = requested {
        if n > 0 {
            return n;
        }
    }
    match native {
        Some(m) => m,
        None => FALLBACK_CONTEXT_LENGTH,
    }
}

/// What a model needs of memory.
#[derive(Debug, Clone, Copy, PartialEq, Eq, Structural)]
pub struct SizeEstimate {
    pub weights_bytes: u64,
    /// Nothing where the cache cannot be sized.
    pub kv_bytes: Option<u64>,
    pub compute_bytes: u64,
    pub total_bytes: u64,
    pub n_ctx: u64,
}

pub open spec fn or_zero(n: Option<u64>) -> int {
    match n {
        Some(v) => v as int,
        None => 0,
    }
}

/// Weights by the size of the files, the cache by the formula, the buffers by an estimate; the sum
/// is held at the largest number.
pub open spec fn spec_size(
    size_bytes: u64,
    summary: inventory::SummaryView,
    n_ctx: Option<u64>,
    cache_type: GGMLType,
) -> SizeEstimate {
    let context = spec_context(n_ctx, summary.context_length);
    let kv = inventory::spec_kv_cache(summary, context, cache_type);
    SizeEstimate {
        weights_bytes: size_bytes,
        kv_bytes: kv,
        compute_bytes: COMPUTE_BUFFER_ESTIMATE_BYTES,
        total_bytes: inventory::held(size_bytes + or_zero(kv) + COMPUTE_BUFFER_ESTIMATE_BYTES),
        n_ctx: context,
    }
}

/// What a model needs of memory.
pub fn size_estimate(
    size_bytes: u64,
    summary: &GgufSummary,
    n_ctx: Option<u64>,
    cache_type: GGMLType,
) -> (r: SizeEstimate)
    ensures
        r == spec_size(size_bytes, summary@, n_ctx, cache_type),
{
    let context = context_of(n_ctx, summary.context_length);
    let kv_bytes = kv_cache_bytes(summary, context, cache_type);
    let kv: u64 = match kv_bytes {
        Some(n) => n,
        None => 0,
    };
    let total_bytes = size_bytes.saturating_add(kv).saturating_add(COMPUTE_BUFFER_ESTIMATE_BYTES);
    SizeEstimate {
        weights_bytes: size_bytes,
        kv_bytes,
        compute_bytes: COMPUTE_BUFFER_ESTIMATE_BYTES,
        total_bytes,
        n_ctx: context,
    }
}

/// An estimate of the memory that a model needs, or why there is none.
#[derive(Debug)]
pub enum MemoryEstimate {
    /// Why there is none.
    Unavailable(&'static str),
    Sized {
        size: SizeEstimate,
        cache_type_kv: String,
        n_parallel: u64,
        layer_count: Option<u64>,
    },
}

#[verifier::ext_equal]
pub enum EstimateView {
    Unavailable(Seq<char>),
    Sized {
        size: SizeEstimate,
        cache_type_kv: Seq<char>,
        n_parallel: u64,
        layer_count: Option<u64>,
    },
}

impl View for MemoryEstimate {
    type V = EstimateView;

    open spec fn view(&self) -> EstimateView {
        match self {
            MemoryEstimate::Unavailable(why) => EstimateView::Unavailable(why@),
            MemoryEstimate::Sized { size, cache_type_kv, n_parallel, layer_count } =>
                EstimateView::Sized {
                size: *size,
                cache_type_kv: cache_type_kv@,
                n_parallel: *n_parallel,
                layer_count: *layer_count,
            },
        }
    }
}

pub open spec fn parallel(n: Option<u64>) -> u64 {
    match n {
        Some(v) => if v > 0 {
            v
        } else {
            1
        },
        None => 1,
    }
}

/// The size of a model whose files are all there; nothing of another one.
pub open spec fn whole_size(model: Option<model_scan::ModelView>) -> Option<u64> {
    match model {
        Some(m) => if m.complete {
            Some(m.size_bytes)
        } else {
            None
        },
        None => None,
    }
}

pub open spec fn spec_estimate(
    model: Option<model_scan::ModelView>,
    summary: Option<inventory::SummaryView>,
    n_ctx: Option<u64>,
    cache_type_kv: Option<Seq<char>>,
    n_parallel: Option<u64>,
) -> Result<EstimateView, error::ApiErrorView> {
    match (whole_size(model), summary) {
        (None, _) => Ok(EstimateView::Unavailable("not_downloaded"@)),
        (Some(_), None) => Ok(EstimateView::Unavailable("unsizable"@)),
        (Some(size), Some(s)) => match spec_cache_type(cache_type_kv) {
            Err(e) => Err(e),
            Ok((t, name)) => Ok(
                EstimateView::Sized {
                    size: spec_size(size, s, n_ctx, t),
                    cache_type_kv: name,
                    n_parallel: parallel(n_parallel),
                    layer_count: s.block_count,
                },
            ),
        },
    }
}

pub open spec fn opt_model(m: Option<&LocalModel>) -> Option<model_scan::ModelView> {
    match m {
        Some(v) => Some(v@),
        None => None,
    }
}

pub open spec fn opt_summary(s: Option<&GgufSummary>) -> Option<inventory::SummaryView> {
    match s {
        Some(v) => Some(v@),
        None => None,
    }
}

/// The memory that a model needs. `model` is the local model that the request means, `summary`
/// what its headers say, if they could be read.
pub fn estimate_memory(
    request: &ModelRequest,
    model: Option<&LocalModel>,
    summary: Option<&GgufSummary>,
) -> (r: ApiResult<MemoryEstimate>)
    ensures
        match spec_estimate(
            opt_model(model),
            opt_summary(summary),
            request.n_ctx,
            chat_store::opt_text(request.cache_type_kv),
            request.n_parallel,
        ) {
            Ok(v) => r is Ok && r->Ok_0@ == v,
            Err(e) => r is Err && r->Err_0@ == e,
        },
{
    let model = match model {
        Some(m) => m,
        None => return Ok(MemoryEstimate::Unavailable("not_downloaded")),
    };
    if !model.complete {
        return Ok(MemoryEstimate::Unavailable("not_downloaded"));
    }
    let summary = match summary {
        Some(s) => s,
        None => return Ok(MemoryEstimate::Unavailable("unsizable")),
    };
    let (cache_type, name) = match parse_cache_type(&request.cache_type_kv) {
        Ok(pair) => pair,
        Err(e) => return Err(e),
    };
    let n_parallel = match request.n_parallel {
        Some(n) => if n > 0 {
            n
        } else {
            1
        },
        None => 1,
    };
    Ok(
        MemoryEstimate::Sized {
            size: size_estimate(model.size_bytes, summary, request.n_ctx, cache_type),
            cache_type_kv: name,
            n_parallel,
            layer_count: summary.block_count,
        },
    )
}

/// The size of the cache for the card of a model; nothing for one that is not on disk.
pub fn kv_cache_estimate(
    query: &KvCacheQuery,
    model: Option<&LocalModel>,
    summary: Option<&GgufSummary>,
) -> (r: ApiResult<Option<SizeEstimate>>)
    ensures
        match (whole_size(opt_model(model)), opt_summary(summary)) {
            (Some(size), Some(s)) => match spec_cache_type(
                chat_store::opt_text(query.cache_type_kv),
            ) {
                Ok((t, _)) => r is Ok && r->Ok_0 == Some(spec_size(size, s, query.n_ctx, t)),
                Err(e) => r is Err && r->Err_0@ == e,
            },
            _ => r is Ok && r->Ok_0 is None,
        },
{
    let (model, summary) = match (model, summary) {
        (Some(m), Some(s)) => (m, s),
        _ => return Ok(None),
    };
    if !model.complete {
        return Ok(None);
    }
    match parse_cache_type(&query.cache_type_kv) {
        Ok((cache_type, _)) => Ok(
            Some(size_estimate(model.size_bytes, summary, query.n_ctx, cache_type)),
        ),
        Err(e) => Err(e),
    }
}

// ---------- loading ----------

pub open spec fn missing_text(identifier: Seq<char>) -> Seq<char> {
    "Модель «"@ + identifier + "» не найдена в папках моделей"@
}

pub fn missing_detail(identifier: &str) -> (r: String)
    ensures
        r@ == missing_text(identifier@),
{
    text::join3("Модель «", identifier, "» не найдена в папках моделей")
}

pub open spec fn not_downloaded_text(repo_id: Seq<char>) -> Seq<char> {
    "Модель "@ + repo_id + " ещё не скачана: сначала загрузите её во вкладке Hub"@
}

pub fn not_downloaded_detail(repo_id: &str) -> (r: String)
    ensures
        r@ == not_downloaded_text(repo_id@),
{
    text::join3(
        "Модель ",
        repo_id,
        " ещё не скачана: сначала загрузите её во вкладке Hub",
    )
}

/// What is said of a model that was read but cannot be loaded, as there is no engine yet.
pub open spec fn read_text(name: Seq<char>, s: inventory::SummaryView) -> Seq<char> {
    let architecture = match s.architecture {
        Some(a) => a,
        None => "архитектура не указана"@,
    };
    let layers = match s.block_count {
        Some(n) => text::decimal_of(n as int),
        None => "?"@,
    };
    "Модель «"@ + name + "» ("@ + architecture + ", слоёв: "@ + layers + ", весов: "@
        + decimals::spec_format_parameters(s.parameter_count as int)
        + ") прочитана, но загрузить её некуда: движок инференса SlothForge подключится на этапе 2 дорожной карты"@
}

fn read_detail(name: &str, s: &GgufSummary) -> (r: String)
    ensures
        r@ == read_text(name@, s@),
{
    let architecture = match &s.architecture {
        Some(a) => a.clone(),
        None => "архитектура не указана".to_owned(),
    };
    let layers = match s.block_count {
        Some(n) => text::decimal(n),
        None => "?".to_owned(),
    };
    let a = text::join3("Модель «", name, "» (");
    let b = text::join3(a.as_str(), architecture.as_str(), ", слоёв: ");
    let c = text::join3(b.as_str(), layers.as_str(), ", весов: ");
    let d = text::join2(c.as_str(), format_parameters(s.parameter_count).as_str());
    text::join2(
        d.as_str(),
        ") прочитана, но загрузить её некуда: движок инференса SlothForge подключится на этапе 2 дорожной карты",
    )
}

/// What the headers of a model say, or why they could not be read.
pub open spec fn spec_load(
    models: Seq<model_scan::ModelView>,
    reference: RefView,
    identifier: Seq<char>,
    summary: Result<inventory::SummaryView, error::ApiErrorView>,
) -> error::ApiErrorView {
    match reference {
        RefView::Local(i) => if !models[i].complete {
            settings_api::unprocessable(
                "Модель «"@ + models[i].display_name
                    + "» скачана не полностью: не хватает части файлов"@,
            )
        } else {
            match summary {
                Ok(s) => error::ApiErrorView {
                    status: 503,
                    detail: read_text(models[i].display_name, s),
                },
                Err(e) => e,
            }
        },
        RefView::NotDownloaded(repo_id) => error::ApiErrorView {
            status: 404,
            detail: not_downloaded_text(repo_id),
        },
        RefView::Missing => error::ApiErrorView { status: 404, detail: missing_text(identifier) },
    }
}

pub open spec fn summary_result(r: Result<GgufSummary, ApiError>) -> Result<
    inventory::SummaryView,
    error::ApiErrorView,
> {
    match r {
        Ok(s) => Ok(s@),
        Err(e) => Err(e@),
    }
}

/// What a request to load a model is answered: the file is checked, but there is no engine that
/// could take it. `summary` is what the headers of a local model say, or why they are not read.
pub fn load_model(
    models: &Vec<LocalModel>,
    reference: &ModelRef,
    identifier: &str,
    summary: Result<GgufSummary, ApiError>,
) -> (r: ApiError)
    requires
        reference is Local ==> reference->Local_0 < models@.len(),
    ensures
        r@ == spec_load(
            model_scan::models_view(models@),
            reference@,
            identifier@,
            summary_result(summary),
        ),
{
    match reference {
        ModelRef::Local(i) => {
            let model = &models[*i];
            assert(model_scan::models_view(models@)[*i as int] == model@);
            if !model.complete {
                return ApiError::unprocessable(
                    text::join3(
                        "Модель «",
                        model.display_name.as_str(),
                        "» скачана не полностью: не хватает части файлов",
                    ),
                );
            }
            match summary {
                Ok(s) => ApiError::service_unavailable(
                    read_detail(model.display_name.as_str(), &s),
                ),
                Err(e) => e,
            }
        },
        ModelRef::NotDownloaded(repo_id) => ApiError::not_found(
            not_downloaded_detail(repo_id.as_str()),
        ),
        ModelRef::Missing => ApiError::not_found(missing_detail(identifier)),
    }
}

// ---------- checking ----------

/// What was found where a model was checked.
#[derive(Debug, Clone, Copy, PartialEq, Eq, Structural)]
pub enum CheckKind {
    /// The model is on disk, and its headers were read.
    Read,
    /// The model is on disk, but its headers could not be read.
    Unread,
    NotDownloaded,
    Missing,
}

/// The answer to a request to check a model.
#[derive(Debug)]
pub struct ModelCheck {
    pub kind: CheckKind,
    pub valid: bool,
    pub message: String,
    pub identifier: String,
    pub display_name: Option<String>,
    pub is_gguf: bool,
    pub is_vision: bool,
    pub context_length: Option<u64>,
    pub layer_count: Option<u64>,
    pub moe_layer_count: Option<u64>,
    pub chat_template: Option<String>,
}

#[verifier::ext_equal]
pub struct CheckView {
    pub kind: CheckKind,
    pub valid: bool,
    pub message: Seq<char>,
    pub identifier: Seq<char>,
    pub display_name: Option<Seq<char>>,
    pub is_gguf: bool,
    pub is_vision: bool,
    pub context_length: Option<u64>,
    pub layer_count: Option<u64>,
    pub moe_layer_count: Option<u64>,
    pub chat_template: Option<Seq<char>>,
}

impl View for ModelCheck {
    type V = CheckView;

    open spec fn view(&self) -> CheckView {
        CheckView {
            kind: self.kind,
            valid: self.valid,
            message: self.message@,
            identifier: self.identifier@,
            display_name: chat_store::opt_text(self.display_name),
            is_gguf: self.is_gguf,
            is_vision: self.is_vision,
            context_length: self.context_length,
            layer_count: self.layer_count,
            moe_layer_count: self.moe_layer_count,
            chat_template: chat_store::opt_text(self.chat_template),
        }
    }
}

/// An answer that says nothing of the headers.
pub open spec fn bare_check(
    kind: CheckKind,
    valid: bool,
    message: Seq<char>,
    identifier: Seq<char>,
    display_name: Option<Seq<char>>,
    is_gguf: bool,
) -> CheckView {
    CheckView {
        kind,
        valid,
        message,
        identifier,
        display_name,
        is_gguf,
        is_vision: false,
        context_length: None,
        layer_count: None,
        moe_layer_count: None,
        chat_template: None,
    }
}

pub open spec fn moe_layers(s: inventory::SummaryView) -> Option<u64> {
    match s.expert_count {
        Some(experts) => if experts > 0 {
            s.block_count
        } else {
            Some(0)
        },
        None => Some(0u64),
    }
}

pub open spec fn spec_check(
    models: Seq<model_scan::ModelView>,
    reference: RefView,
    identifier: Seq<char>,
    summary: Result<inventory::SummaryView, error::ApiErrorView>,
    has_projector: bool,
    include_chat_template: bool,
) -> CheckView {
    match reference {
        RefView::Local(i) => {
            let m = models[i];
            match summary {
                Ok(s) => CheckView {
                    kind: CheckKind::Read,
                    valid: m.complete,
                    message: if m.complete {
                        "Модель найдена на диске"@
                    } else {
                        "Модель скачана не полностью: не хватает части файлов"@
                    },
                    identifier: m.path,
                    display_name: Some(m.display_name),
                    is_gguf: true,
                    is_vision: has_projector,
                    context_length: s.context_length,
                    layer_count: s.block_count,
                    moe_layer_count: moe_layers(s),
                    chat_template: if include_chat_template {
                        s.chat_template
                    } else {
                        None
                    },
                },
                Err(e) => bare_check(
                    CheckKind::Unread,
                    false,
                    e.detail,
                    m.path,
                    Some(m.display_name),
                    true,
                ),
            }
        },
        RefView::NotDownloaded(repo_id) => bare_check(
            CheckKind::NotDownloaded,
            true,
            "Модель ещё не скачана"@,
            repo_id,
            Some(text::last_piece(repo_id, '/')),
            text::has_suffix(text::lower(repo_id), "-gguf"@),
        ),
        RefView::Missing => bare_check(
            CheckKind::Missing,
            false,
            missing_text(identifier),
            identifier,
            None,
            false,
        ),
    }
}

fn bare(
    kind: CheckKind,
    valid: bool,
    message: String,
    identifier: String,
    display_name: Option<String>,
    is_gguf: bool,
) -> (r: ModelCheck)
    ensures
        r@ == bare_check(
            kind,
            valid,
            message@,
            identifier@,
            chat_store::opt_text(display_name),
            is_gguf,
        ),
{
    ModelCheck {
        kind,
        valid,
        message,
        identifier,
        display_name,
        is_gguf,
        is_vision: false,
        context_length: None,
        layer_count: None,
        moe_layer_count: None,
        chat_template: None,
    }
}

/// What a request to check a model is answered.
pub fn validate_model(
    models: &Vec<LocalModel>,
    reference: &ModelRef,
    identifier: &str,
    summary: Result<GgufSummary, ApiError>,
    has_projector: bool,
    include_chat_template: bool,
) -> (r: ModelCheck)
    requires
        reference is Local ==> reference->Local_0 < models@.len(),
    ensures
        r@ == spec_check(
            model_scan::models_view(models@),
            reference@,
            identifier@,
            summary_result(summary),
            has_projector,
            include_chat_template,
        ),
{
    match reference {
        ModelRef::Local(i) => {
            let model = &models[*i];
            assert(model_scan::models_view(models@)[*i as int] == model@);
            match summary {
                Ok(s) => {
                    let message = if model.complete {
                        "Модель найдена на диске".to_owned()
                    } else {
                        "Модель скачана не полностью: не хватает части файлов".to_owned()
                    };
                    let moe_layer_count = s.moe_layer_count();
                    ModelCheck {
                        kind: CheckKind::Read,
                        valid: model.complete,
                        message,
                        identifier: model.id(),
                        display_name: Some(model.display_name.clone()),
                        is_gguf: true,
                        is_vision: has_projector,
                        context_length: s.context_length,
                        layer_count: s.block_count,
                        moe_layer_count,
                        chat_template: if include_chat_template {
                            s.chat_template
                        } else {
                            None
                        },
                    }
                },
                Err(e) => bare(
                    CheckKind::Unread,
                    false,
                    e.detail,
                    model.id(),
                    Some(model.display_name.clone()),
                    true,
                ),
            }
        },
        ModelRef::NotDownloaded(repo_id) => bare(
            CheckKind::NotDownloaded,
            true,
            "Модель ещё не скачана".to_owned(),
            repo_id.clone(),
            Some(text::after_last(repo_id.as_str(), '/')),
            text::ends_with(text::to_lower(repo_id.as_str()).as_str(), "-gguf"),
        ),
        ModelRef::Missing => bare(
            CheckKind::Missing,
            false,
            missing_detail(identifier),
            identifier.to_owned(),
            None,
            false,
        ),
    }
}

} // verus!
