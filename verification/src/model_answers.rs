//! What requests about a model are answered: the memory it needs, whether it can be used, and the
//! folders it may lie in.

use vstd::prelude::*;

use crate::answers;
use crate::answers::{maybe_double, maybe_number, maybe_text, number, push_row, text_list};
use crate::browse;
use crate::browse::{BrowseEntry, BrowseListing};
use crate::chat_store;
use crate::inference;
use crate::inference::{CheckKind, MemoryEstimate, ModelCheck, SizeEstimate};
use crate::json;
use crate::json::{from_str, Json, JsonObject};
use crate::text;

verus! {

/// The bits of the usual strength of an adapter, 32.
pub const USUAL_ALPHA: u64 = 0x4040_0000_0000_0000;

/// The bits of zero.
pub const NO_DROPOUT: u64 = 0;

// ---------- memory ----------

/// The parts of an estimate.
pub open spec fn estimate_fields(
    reason: Option<Seq<char>>,
    weights: u64,
    kv: Option<u64>,
    compute: u64,
    total: u64,
    n_ctx: u64,
    cache_type: Option<Seq<char>>,
    n_parallel: u64,
    layers: Option<u64>,
) -> json::JsonView {
    let zero = answers::count(0);
    let off = answers::flag(false);
    let available = reason is None;
    let o = json::with(json::no_fields(), "available"@, answers::flag(available));
    let o = json::with(o, "reason"@, answers::maybe_word(reason));
    let o = json::with(o, "weights_bytes"@, answers::count(weights as int));
    let o = json::with(o, "kv_bytes"@, answers::count(inference::or_zero(kv) as int));
    let o = json::with(o, "compute_bytes"@, answers::count(compute as int));
    let o = json::with(o, "drafter_runtime_bytes"@, zero);
    let o = json::with(o, "drafter_runtime_gpu_bytes"@, zero);
    let o = json::with(o, "projector_runtime_bytes"@, zero);
    let o = json::with(o, "drafter_kv_unsized"@, off);
    let o = json::with(o, "adapters_unsized"@, off);
    let o = json::with(o, "total_bytes"@, answers::count(total as int));
    let o = json::with(o, "gpu_bytes"@, answers::count(total as int));
    let o = json::with(o, "kv_estimable"@, answers::flag(kv is Some));
    let o = json::with(o, "kv_on_gpu"@, answers::flag(true));
    let o = json::with(o, "n_ctx"@, answers::count(n_ctx as int));
    let o = json::with(o, "cache_type_kv"@, answers::maybe_word(cache_type));
    let o = json::with(o, "n_parallel"@, answers::count(n_parallel as int));
    let o = json::with(o, "layer_count"@, answers::maybe_count(layers));
    let o = json::with(o, "gpu_layers"@, json::JsonView::Null);
    json::JsonView::Object(json::with(o, "moe_offload_unmodelled"@, off))
}

fn estimate_object(
    reason: Option<&str>,
    weights: u64,
    kv: Option<u64>,
    compute: u64,
    total: u64,
    n_ctx: u64,
    cache_type: Option<&str>,
    n_parallel: u64,
    layers: Option<u64>,
) -> (r: Json)
    ensures
        r@ == estimate_fields(
            match reason {
                Some(s) => Some(s@),
                None => None,
            },
            weights,
            kv,
            compute,
            total,
            n_ctx,
            match cache_type {
                Some(s) => Some(s@),
                None => None,
            },
            n_parallel,
            layers,
        ),
{
    let kv_bytes: u64 = match kv {
        Some(n) => n,
        None => 0,
    };
    let mut o = JsonObject::new();
    o.insert("available", Json::Bool(reason.is_none()));
    o.insert("reason", maybe_text(reason));
    o.insert("weights_bytes", number(weights));
    o.insert("kv_bytes", number(kv_bytes));
    o.insert("compute_bytes", number(compute));
    o.insert("drafter_runtime_bytes", number(0));
    o.insert("drafter_runtime_gpu_bytes", number(0));
    o.insert("projector_runtime_bytes", number(0));
    o.insert("drafter_kv_unsized", Json::Bool(false));
    o.insert("adapters_unsized", Json::Bool(false));
    o.insert("total_bytes", number(total));
    o.insert("gpu_bytes", number(total));
    o.insert("kv_estimable", Json::Bool(kv.is_some()));
    o.insert("kv_on_gpu", Json::Bool(true));
    o.insert("n_ctx", number(n_ctx));
    o.insert("cache_type_kv", maybe_text(cache_type));
    o.insert("n_parallel", number(n_parallel));
    o.insert("layer_count", maybe_number(layers));
    o.insert("gpu_layers", Json::Null);
    o.insert("moe_offload_unmodelled", Json::Bool(false));
    Json::Object(o)
}

pub open spec fn estimate_json(e: inference::EstimateView) -> json::JsonView {
    match e {
        inference::EstimateView::Unavailable(reason) => estimate_fields(
            Some(reason),
            0,
            None,
            0,
            0,
            0,
            None,
            1,
            None,
        ),
        inference::EstimateView::Sized { size, cache_type_kv, n_parallel, layer_count } =>
            estimate_fields(
                None,
                size.weights_bytes,
                size.kv_bytes,
                size.compute_bytes,
                size.total_bytes,
                size.n_ctx,
                Some(cache_type_kv),
                n_parallel,
                layer_count,
            ),
    }
}

/// The memory that a model needs, or why nobody knows.
pub fn estimate_answer(estimate: &MemoryEstimate) -> (r: Json)
    ensures
        r@ == estimate_json(estimate@),
{
    match estimate {
        MemoryEstimate::Unavailable(reason) => estimate_object(
            Some(*reason),
            0,
            None,
            0,
            0,
            0,
            None,
            1,
            None,
        ),
        MemoryEstimate::Sized { size, cache_type_kv, n_parallel, layer_count } => estimate_object(
            None,
            size.weights_bytes,
            size.kv_bytes,
            size.compute_bytes,
            size.total_bytes,
            size.n_ctx,
            Some(cache_type_kv.as_str()),
            *n_parallel,
            *layer_count,
        ),
    }
}

pub open spec fn kv_json(size: Option<SizeEstimate>, n_ctx: Option<u64>, native: Option<u64>) ->
    json::JsonView {
    let null = json::JsonView::Null;
    let total = match size {
        Some(s) => answers::count(s.total_bytes as int),
        None => null,
    };
    let o = json::with(
        json::no_fields(),
        "kv_bytes"@,
        match size {
            Some(s) => answers::maybe_count(s.kv_bytes),
            None => null,
        },
    );
    let o = json::with(
        o,
        "weights_bytes"@,
        match size {
            Some(s) => answers::count(s.weights_bytes as int),
            None => null,
        },
    );
    let o = json::with(
        o,
        "native_context"@,
        match size {
            Some(_) => answers::maybe_count(native),
            None => null,
        },
    );
    let o = json::with(o, "spec_bytes"@, null);
    let o = json::with(
        o,
        "n_ctx"@,
        match size {
            Some(s) => answers::count(s.n_ctx as int),
            None => answers::maybe_count(n_ctx),
        },
    );
    let o = json::with(o, "projector_bytes"@, null);
    let o = json::with(o, "spec_unpriced"@, answers::flag(false));
    let o = json::with(o, "kv_checkpoint_bytes"@, null);
    let o = json::with(o, "spec_fixed_bytes"@, null);
    let o = json::with(
        o,
        "compute_bytes"@,
        match size {
            Some(s) => answers::count(s.compute_bytes as int),
            None => null,
        },
    );
    let o = json::with(o, "gpu_bytes"@, total);
    let o = json::with(o, "total_bytes"@, total);
    let o = json::with(o, "gpu_floor_bytes"@, null);
    let o = json::with(o, "context_is_pinned"@, answers::flag(false));
    json::JsonView::Object(json::with(o, "inherited_device_pin"@, answers::flag(false)))
}

/// The memory that the cache of a model needs. `n_ctx` is the context that the request asks for,
/// `native` the one that the model names.
pub fn kv_answer(size: &Option<SizeEstimate>, n_ctx: Option<u64>, native: Option<u64>) -> (r: Json)
    ensures
        r@ == kv_json(*size, n_ctx, native),
{
    let (kv, weights, context, shown, compute, total) = match size {
        Some(s) => (
            s.kv_bytes,
            Some(s.weights_bytes),
            native,
            Some(s.n_ctx),
            Some(s.compute_bytes),
            Some(s.total_bytes),
        ),
        None => (None, None, None, n_ctx, None, None),
    };
    let mut o = JsonObject::new();
    o.insert("kv_bytes", maybe_number(kv));
    o.insert("weights_bytes", maybe_number(weights));
    o.insert("native_context", maybe_number(context));
    o.insert("spec_bytes", Json::Null);
    o.insert("n_ctx", maybe_number(shown));
    o.insert("projector_bytes", Json::Null);
    o.insert("spec_unpriced", Json::Bool(false));
    o.insert("kv_checkpoint_bytes", Json::Null);
    o.insert("spec_fixed_bytes", Json::Null);
    o.insert("compute_bytes", maybe_number(compute));
    o.insert("gpu_bytes", maybe_number(total));
    o.insert("total_bytes", maybe_number(total));
    o.insert("gpu_floor_bytes", Json::Null);
    o.insert("context_is_pinned", Json::Bool(false));
    o.insert("inherited_device_pin", Json::Bool(false));
    Json::Object(o)
}

// ---------- whether it can be used ----------

/// What every answer says.
pub open spec fn check_start(c: inference::CheckView) -> json::Fields {
    let o = json::with(json::no_fields(), "valid"@, answers::flag(c.valid));
    let o = json::with(o, "message"@, answers::word(c.message));
    json::with(o, "identifier"@, answers::word(c.identifier))
}

/// What is said of a model that has a name.
pub open spec fn check_named(c: inference::CheckView) -> json::Fields {
    let o = json::with(check_start(c), "display_name"@, answers::maybe_word(c.display_name));
    json::with(o, "is_gguf"@, answers::flag(c.is_gguf))
}

/// What is said of a model whose parts are known, or known to be unknown.
pub open spec fn check_facts(c: inference::CheckView) -> json::Fields {
    let o = json::with(check_named(c), "is_lora"@, answers::flag(false));
    let o = json::with(o, "is_vision"@, answers::flag(c.is_vision));
    let o = json::with(o, "context_length"@, answers::maybe_count(c.context_length));
    let o = json::with(o, "layer_count"@, answers::maybe_count(c.layer_count));
    let o = json::with(o, "moe_layer_count"@, answers::maybe_count(c.moe_layer_count));
    json::with(o, "chat_template"@, answers::maybe_word(c.chat_template))
}

pub open spec fn check_json(c: inference::CheckView) -> json::JsonView {
    json::JsonView::Object(
        match c.kind {
            CheckKind::Missing => check_start(c),
            CheckKind::Unread => check_named(c),
            CheckKind::NotDownloaded => check_facts(c),
            CheckKind::Read => {
                let o = json::with(check_facts(c), "is_diffusion"@, answers::flag(false));
                let o = json::with(o, "diffusion_unknown"@, answers::flag(false));
                json::with(o, "requires_trust_remote_code"@, answers::flag(false))
            },
        },
    )
}

fn optional(s: &Option<String>) -> (r: Json)
    ensures
        r@ == answers::maybe_word(chat_store::opt_text(*s)),
{
    match s {
        Some(v) => from_str(v.as_str()),
        None => Json::Null,
    }
}

/// What a request to check a model is answered.
pub fn check_answer(check: &ModelCheck) -> (r: Json)
    ensures
        r@ == check_json(check@),
{
    let mut o = JsonObject::new();
    o.insert("valid", Json::Bool(check.valid));
    o.insert("message", from_str(check.message.as_str()));
    o.insert("identifier", from_str(check.identifier.as_str()));
    if let CheckKind::Missing = check.kind {
        return Json::Object(o);
    }
    o.insert("display_name", optional(&check.display_name));
    o.insert("is_gguf", Json::Bool(check.is_gguf));
    if let CheckKind::Unread = check.kind {
        return Json::Object(o);
    }
    o.insert("is_lora", Json::Bool(false));
    o.insert("is_vision", Json::Bool(check.is_vision));
    o.insert("context_length", maybe_number(check.context_length));
    o.insert("layer_count", maybe_number(check.layer_count));
    o.insert("moe_layer_count", maybe_number(check.moe_layer_count));
    o.insert("chat_template", optional(&check.chat_template));
    if let CheckKind::NotDownloaded = check.kind {
        return Json::Object(o);
    }
    o.insert("is_diffusion", Json::Bool(false));
    o.insert("diffusion_unknown", Json::Bool(false));
    o.insert("requires_trust_remote_code", Json::Bool(false));
    Json::Object(o)
}

// ---------- folders ----------

pub open spec fn folder_row(e: browse::BrowseView) -> json::JsonView {
    let o = json::with(json::no_fields(), "name"@, answers::word(e.name));
    let o = json::with(o, "has_models"@, answers::flag(e.has_models));
    json::JsonView::Object(json::with(o, "hidden"@, answers::flag(e.hidden)))
}

fn row_of_folder(e: &BrowseEntry) -> (r: Json)
    ensures
        r@ == folder_row(e@),
{
    let mut o = JsonObject::new();
    o.insert("name", from_str(e.name.as_str()));
    o.insert("has_models", Json::Bool(e.has_models));
    o.insert("hidden", Json::Bool(e.hidden));
    Json::Object(o)
}

pub open spec fn listing_json(l: BrowseListing, suggestions: Seq<Seq<char>>) -> json::JsonView {
    let rows = browse::browse_view(l.entries@);
    let o = json::with(json::no_fields(), "current"@, answers::word(l.current@));
    let o = json::with(o, "parent"@, answers::maybe_word(chat_store::opt_text(l.parent)));
    let o = json::with(
        o,
        "entries"@,
        json::JsonView::Array(Seq::new(rows.len(), |i: int| folder_row(rows[i]))),
    );
    let o = json::with(o, "suggestions"@, answers::words(suggestions));
    let o = json::with(o, "truncated"@, answers::flag(l.truncated));
    json::JsonView::Object(
        json::with(o, "model_files_here"@, answers::count(l.model_files_here as int)),
    )
}

/// A folder as the interface gets it, with the folders of models beside it.
pub fn listing_answer(listing: &BrowseListing, suggestions: &Vec<String>) -> (r: Json)
    ensures
        r@ == listing_json(*listing, text::views(suggestions@)),
{
    let ghost view = browse::browse_view(listing.entries@);
    let mut rows: Vec<Json> = Vec::new();
    let mut i: usize = 0;
    while i < listing.entries.len()
        invariant
            i <= listing.entries@.len(),
            view == browse::browse_view(listing.entries@),
            json::items_view(rows@) == Seq::new(i as nat, |k: int| folder_row(view[k])),
        decreases listing.entries@.len() - i,
    {
        assert(view[i as int] == listing.entries@[i as int]@);
        push_row(&mut rows, row_of_folder(&listing.entries[i]));
        assert(Seq::new((i + 1) as nat, |k: int| folder_row(view[k])) =~= Seq::new(
            i as nat,
            |k: int| folder_row(view[k]),
        ).push(folder_row(view[i as int])));
        i += 1;
    }
    let mut o = JsonObject::new();
    o.insert("current", from_str(listing.current.as_str()));
    o.insert("parent", optional(&listing.parent));
    o.insert("entries", Json::Array(rows));
    o.insert("suggestions", text_list(suggestions));
    o.insert("truncated", Json::Bool(listing.truncated));
    o.insert("model_files_here", number(listing.model_files_here as u64));
    Json::Object(o)
}

// ---------- a model and its configuration ----------

/// The usual values of a training, by the bits of their doubles where they are not whole.
pub open spec fn training_defaults() -> json::JsonView {
    let o = json::with(json::no_fields(), "max_seq_length"@, answers::count(2048));
    let o = json::with(o, "num_epochs"@, answers::count(3));
    let o = json::with(o, "learning_rate"@, answers::word("2e-4"@));
    let o = json::with(o, "batch_size"@, answers::count(1));
    let o = json::with(o, "gradient_accumulation_steps"@, answers::count(4));
    let o = json::with(o, "lora_r"@, answers::count(16));
    let o = json::with(o, "lora_alpha"@, answers::maybe_real(Some(USUAL_ALPHA)));
    let o = json::with(o, "lora_dropout"@, answers::maybe_real(Some(NO_DROPOUT)));
    json::JsonView::Object(
        json::with(json::no_fields(), "training"@, json::JsonView::Object(o)),
    )
}

fn usual_training() -> (r: Json)
    ensures
        r@ == training_defaults(),
{
    let mut o = JsonObject::new();
    o.insert("max_seq_length", number(2048));
    o.insert("num_epochs", number(3));
    o.insert("learning_rate", from_str("2e-4"));
    o.insert("batch_size", number(1));
    o.insert("gradient_accumulation_steps", number(4));
    o.insert("lora_r", number(16));
    o.insert("lora_alpha", maybe_double(Some(USUAL_ALPHA)));
    o.insert("lora_dropout", maybe_double(Some(NO_DROPOUT)));
    let mut config = JsonObject::new();
    config.insert("training", Json::Object(o));
    Json::Object(config)
}

pub open spec fn config_view(
    id: Seq<char>,
    size_bytes: Option<u64>,
    context_length: Option<u64>,
    is_vision: bool,
) -> json::JsonView {
    let off = answers::flag(false);
    let o = json::with(json::no_fields(), "id"@, answers::word(id));
    let o = json::with(o, "model_name"@, answers::word(id));
    let o = json::with(o, "model_type"@, answers::word("text"@));
    let o = json::with(o, "model_size_bytes"@, answers::maybe_count(size_bytes));
    let o = json::with(o, "max_position_embeddings"@, answers::maybe_count(context_length));
    let o = json::with(o, "is_vision"@, answers::flag(is_vision));
    let o = json::with(o, "is_embedding"@, off);
    let o = json::with(o, "is_audio"@, off);
    let o = json::with(o, "is_lora"@, off);
    json::JsonView::Object(json::with(o, "config"@, training_defaults()))
}

/// What is known of a model. Size and context are null for one that is not on disk.
pub fn config_answer(
    id: &str,
    size_bytes: Option<u64>,
    context_length: Option<u64>,
    is_vision: bool,
) -> (r: Json)
    ensures
        r@ == config_view(id@, size_bytes, context_length, is_vision),
{
    let mut o = JsonObject::new();
    o.insert("id", from_str(id));
    o.insert("model_name", from_str(id));
    o.insert("model_type", from_str("text"));
    o.insert("model_size_bytes", maybe_number(size_bytes));
    o.insert("max_position_embeddings", maybe_number(context_length));
    o.insert("is_vision", Json::Bool(is_vision));
    o.insert("is_embedding", Json::Bool(false));
    o.insert("is_audio", Json::Bool(false));
    o.insert("is_lora", Json::Bool(false));
    o.insert("config", usual_training());
    Json::Object(o)
}

// ---------- deletion ----------

pub open spec fn impact_view(
    repo_id: Seq<char>,
    variant: Option<Seq<char>>,
    freed: u64,
) -> json::JsonView {
    let none = json::JsonView::Array(Seq::empty());
    let o = json::with(json::no_fields(), "repo_id"@, answers::word(repo_id));
    let o = json::with(o, "variant"@, answers::maybe_word(variant));
    let o = json::with(o, "reclaimed_bytes"@, answers::count(freed as int));
    let o = json::with(o, "freed_bytes"@, answers::count(freed as int));
    let o = json::with(o, "affected_models"@, none);
    let o = json::with(o, "retained_companions"@, none);
    let o = json::with(o, "freeable_companions"@, none);
    json::JsonView::Object(json::with(o, "blocked_by"@, none))
}

/// What the deletion of a model would free.
pub fn impact_answer(repo_id: &str, variant: Option<&str>, freed: u64) -> (r: Json)
    ensures
        r@ == impact_view(
            repo_id@,
            match variant {
                Some(v) => Some(v@),
                None => None,
            },
            freed,
        ),
{
    let mut o = JsonObject::new();
    o.insert("repo_id", from_str(repo_id));
    o.insert("variant", maybe_text(variant));
    o.insert("reclaimed_bytes", number(freed));
    o.insert("freed_bytes", number(freed));
    o.insert("affected_models", Json::Array(Vec::new()));
    o.insert("retained_companions", Json::Array(Vec::new()));
    o.insert("freeable_companions", Json::Array(Vec::new()));
    o.insert("blocked_by", Json::Array(Vec::new()));
    Json::Object(o)
}

} // verus!
