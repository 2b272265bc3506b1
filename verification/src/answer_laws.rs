//! What is shown of the library's values: each answer says what the value holds.

use vstd::prelude::*;

use crate::answers;
use crate::browse;
use crate::cluster;
use crate::cluster::{HeartbeatAck, RegisterAck};
use crate::cluster_answers;
use crate::cluster_api::ClusterSummary;
use crate::download_answers;
use crate::download_jobs;
use crate::download_jobs::JobState;
use crate::gguf_variants;
use crate::hub;
use crate::inference;
use crate::inference::{CheckKind, SizeEstimate};
use crate::json;
use crate::json::Number;
use crate::model_answers;
use crate::model_scan;
use crate::profile_answers;
use crate::profile_stats::{DailyStat, LongestChat, ModelStat, ProfileStats, TrainingStats};
use crate::settings_answers;
use crate::training_session;

verus! {

proof fn lemma_fields_are_read_back()
    ensures
        forall|o: json::Fields, key: Seq<char>, value: json::JsonView, other: Seq<char>|
            #[trigger] json::field(json::with(o, key, value), other) == (if other == key {
                Some(value)
            } else {
                json::field(o, other)
            }),
{
    assert forall|o: json::Fields, key: Seq<char>, value: json::JsonView, other: Seq<char>|
        #[trigger] json::field(json::with(o, key, value), other) == (if other == key {
            Some(value)
        } else {
            json::field(o, other)
        }) by {
        json::law_set_field_is_read_back(o, key, value, other);
    }
}

/// A model is offered under its path, with its name.
pub proof fn law_model_is_offered_by_its_path(m: model_scan::ModelView)
    ensures
        ({
            let shown = answers::model_row(m);
            &&& json::text_of(json::member(shown, "id"@)) == Some(m.path)
            &&& json::text_of(json::member(shown, "name"@)) == Some(m.display_name)
            &&& json::bool_of(json::member(shown, "is_gguf"@)) == Some(true)
            &&& json::bool_of(json::member(shown, "is_lora"@)) == Some(false)
        }),
{
    lemma_fields_are_read_back();
    reveal_strlit("id");
    reveal_strlit("name");
    reveal_strlit("is_vision");
    reveal_strlit("is_lora");
    reveal_strlit("is_gguf");
    reveal_strlit("is_mlx");
    reveal_strlit("is_audio");
    assert("id"@.len() == 2 && "name"@.len() == 4 && "is_vision"@.len() == 9);
    assert("is_lora"@.len() == 7 && "is_gguf"@.len() == 7 && "is_mlx"@.len() == 6);
    assert("is_audio"@.len() == 8);
    assert("is_lora"@[3] != "is_gguf"@[3]);
}

/// A model on disk is shown with its path, its name, its repository, where it was found and whether parts
/// of it are missing.
pub proof fn law_local_model_is_shown(m: model_scan::ModelView)
    ensures
        ({
            let shown = answers::local_row(m);
            &&& json::text_of(json::member(shown, "id"@)) == Some(m.path)
            &&& json::text_of(json::member(shown, "path"@)) == Some(m.path)
            &&& json::text_of(json::member(shown, "display_name"@)) == Some(m.display_name)
            &&& json::text_of(json::member(shown, "model_id"@)) == Some(model_scan::spec_repo_id(m))
            &&& json::text_of(json::member(shown, "source"@)) == Some((if m.root_index == 0 {
                    "models_dir"@
                } else {
                    "custom"@
                }))
            &&& json::bool_of(json::member(shown, "partial"@)) == Some(!m.complete)
            &&& json::u64_of(json::member(shown, "updated_at"@)) == m.modified_secs
        }),
{
    lemma_fields_are_read_back();
    reveal_strlit("id");
    reveal_strlit("display_name");
    reveal_strlit("path");
    reveal_strlit("source");
    reveal_strlit("model_id");
    reveal_strlit("model_format");
    reveal_strlit("partial");
    reveal_strlit("updated_at");
    reveal_strlit("task");
    reveal_strlit("audio_type");
    assert("id"@.len() == 2 && "display_name"@.len() == 12 && "path"@.len() == 4);
    assert("source"@.len() == 6 && "model_id"@.len() == 8 && "model_format"@.len() == 12);
    assert("partial"@.len() == 7 && "updated_at"@.len() == 10 && "task"@.len() == 4);
    assert("audio_type"@.len() == 10);
    assert("display_name"@[0] != "model_format"@[0]);
    assert("path"@[0] != "task"@[0]);
    assert("updated_at"@[0] != "audio_type"@[0]);
}

/// A program sees a model by its name, with the time of its file.
pub proof fn law_program_sees_the_name(m: model_scan::ModelView)
    ensures
        ({
            let shown = answers::program_row(m);
            &&& json::text_of(json::member(shown, "id"@)) == Some(m.display_name)
            &&& json::text_of(json::member(shown, "object"@)) == Some("model"@)
            &&& json::u64_of(json::member(shown, "created"@)) == Some((match m.modified_secs {
                    Some(n) => n,
                    None => 0u64,
                }))
        }),
{
    lemma_fields_are_read_back();
    reveal_strlit("id");
    reveal_strlit("object");
    reveal_strlit("created");
    reveal_strlit("owned_by");
    assert("id"@.len() == 2 && "object"@.len() == 6 && "created"@.len() == 7);
    assert("owned_by"@.len() == 8);
}

/// A file on disk is shown with its repository, name, quantization, size, place and time.
pub proof fn law_cached_file_is_shown(f: hub::ScannedView)
    ensures
        ({
            let shown = answers::cached_row(f);
            &&& json::text_of(json::member(shown, "repo_id"@)) == Some(f.repo_id)
            &&& json::text_of(json::member(shown, "load_id"@)) == Some(f.filename)
            &&& json::text_of(json::member(shown, "format_variant"@)) == Some(f.quant)
            &&& json::u64_of(json::member(shown, "size_bytes"@)) == Some(f.size_bytes)
            &&& json::text_of(json::member(shown, "cache_path"@)) == Some(f.path)
            &&& json::u64_of(json::member(shown, "last_modified"@)) == Some(f.mtime)
            &&& json::bool_of(json::member(shown, "partial"@)) == Some(false)
        }),
{
    lemma_fields_are_read_back();
    reveal_strlit("repo_id");
    reveal_strlit("load_id");
    reveal_strlit("model_format");
    reveal_strlit("runtime");
    reveal_strlit("format_variant");
    reveal_strlit("size_bytes");
    reveal_strlit("cache_path");
    reveal_strlit("last_modified");
    reveal_strlit("partial");
    reveal_strlit("pipeline_tag");
    reveal_strlit("task");
    reveal_strlit("capabilities");
    assert("repo_id"@.len() == 7 && "load_id"@.len() == 7 && "model_format"@.len() == 12);
    assert("runtime"@.len() == 7 && "format_variant"@.len() == 14 && "size_bytes"@.len() == 10);
    assert("cache_path"@.len() == 10 && "last_modified"@.len() == 13 && "partial"@.len() == 7);
    assert("pipeline_tag"@.len() == 12 && "task"@.len() == 4 && "capabilities"@.len() == 12);
    assert("repo_id"@[0] != "load_id"@[0]);
    assert("repo_id"@[1] != "runtime"@[1]);
    assert("load_id"@[0] != "runtime"@[0]);
    assert("size_bytes"@[0] != "cache_path"@[0]);
    assert("repo_id"@[0] != "partial"@[0]);
    assert("load_id"@[0] != "partial"@[0]);
    assert("runtime"@[0] != "partial"@[0]);
    assert("model_format"@[0] != "pipeline_tag"@[0]);
    assert("model_format"@[0] != "capabilities"@[0]);
    assert("pipeline_tag"@[0] != "capabilities"@[0]);
}

/// A file of the folder of models is shown by its name, below `models/`, with its size and quantization.
pub proof fn law_file_of_the_folder_is_shown(f: hub::ScannedView)
    ensures
        ({
            let shown = answers::folder_row(f);
            &&& json::text_of(json::member(shown, "id"@)) == Some(f.filename)
            &&& json::text_of(json::member(shown, "load_id"@)) == Some(f.filename)
            &&& json::text_of(json::member(shown, "display_name"@)) == Some(f.display_name)
            &&& json::text_of(json::member(shown, "path"@)) == Some("models/"@ + f.filename)
            &&& json::u64_of(json::member(shown, "size_bytes"@)) == Some(f.size_bytes)
            &&& json::text_of(json::member(shown, "format_variant"@)) == Some(f.quant)
        }),
{
    lemma_fields_are_read_back();
    reveal_strlit("id");
    reveal_strlit("load_id");
    reveal_strlit("display_name");
    reveal_strlit("path");
    reveal_strlit("size_bytes");
    reveal_strlit("model_format");
    reveal_strlit("runtime");
    reveal_strlit("format_variant");
    reveal_strlit("source");
    reveal_strlit("pipeline_tag");
    reveal_strlit("task");
    reveal_strlit("capabilities");
    assert("id"@.len() == 2 && "load_id"@.len() == 7 && "display_name"@.len() == 12);
    assert("path"@.len() == 4 && "size_bytes"@.len() == 10 && "model_format"@.len() == 12);
    assert("runtime"@.len() == 7 && "format_variant"@.len() == 14 && "source"@.len() == 6);
    assert("pipeline_tag"@.len() == 12 && "task"@.len() == 4 && "capabilities"@.len() == 12);
    assert("display_name"@[0] != "model_format"@[0]);
    assert("load_id"@[0] != "runtime"@[0]);
    assert("display_name"@[0] != "pipeline_tag"@[0]);
    assert("model_format"@[0] != "pipeline_tag"@[0]);
    assert("path"@[0] != "task"@[0]);
    assert("display_name"@[0] != "capabilities"@[0]);
    assert("model_format"@[0] != "capabilities"@[0]);
    assert("pipeline_tag"@[0] != "capabilities"@[0]);
}

/// A variant is shown with its file, quantization, label, size and whether it is there.
pub proof fn law_variant_of_the_hub_is_shown(v: hub::VariantView)
    ensures
        ({
            let shown = answers::entry_row(v);
            &&& json::text_of(json::member(shown, "filename"@)) == Some(v.filename)
            &&& json::text_of(json::member(shown, "quant"@)) == Some(v.quant)
            &&& json::text_of(json::member(shown, "display_label"@)) == Some(v.label)
            &&& json::u64_of(json::member(shown, "size_bytes"@)) == Some(v.size_bytes)
            &&& json::u64_of(json::member(shown, "download_size_bytes"@)) == Some(v.size_bytes)
            &&& json::bool_of(json::member(shown, "downloaded"@)) == Some(v.downloaded)
            &&& json::u64_of(json::member(shown, "shard_count"@)) == v.shard_count
            &&& (v.files.len() > 0 ==> json::member(shown, "files"@) == Some(
                json::JsonView::Array(
                    Seq::new(v.files.len(), |i: int| json::JsonView::Text(v.files[i])),
                ),
            ))
        }),
{
    lemma_fields_are_read_back();
    reveal_strlit("filename");
    reveal_strlit("quant");
    reveal_strlit("display_label");
    reveal_strlit("size_bytes");
    reveal_strlit("download_size_bytes");
    reveal_strlit("downloaded");
    reveal_strlit("files");
    reveal_strlit("shard_count");
    assert("filename"@.len() == 8 && "quant"@.len() == 5 && "display_label"@.len() == 13);
    assert("size_bytes"@.len() == 10 && "download_size_bytes"@.len() == 19 && "downloaded"@.len() == 10);
    assert("files"@.len() == 5 && "shard_count"@.len() == 11);
    assert("size_bytes"@[0] != "downloaded"@[0]);
    assert("quant"@[0] != "files"@[0]);
    assert(Seq::new(v.files.len(), |i: int| answers::word(v.files[i])) =~= Seq::new(
        v.files.len(),
        |i: int| json::JsonView::Text(v.files[i]),
    ));
}

/// An offer is shown with its repository, its default, its context and whether it was found on disk.
pub proof fn law_offer_of_the_hub_is_shown(a: hub::AnswerView)
    ensures
        ({
            let shown = answers::variants_json(a);
            &&& json::text_of(json::member(shown, "repo_id"@)) == Some(a.repo_id)
            &&& json::bool_of(json::member(shown, "has_vision"@)) == Some(a.has_vision)
            &&& json::text_of(json::member(shown, "default_variant"@)) == Some(a.default_variant)
            &&& json::u64_of(json::member(shown, "context_length"@)) == Some(a.context_length)
            &&& json::bool_of(json::member(shown, "resolved_locally"@)) == Some(a.resolved_locally)
            &&& json::member(shown, "variants"@) == Some(json::JsonView::Array(
                    Seq::new(a.variants.len(), |i: int| answers::entry_row(a.variants[i])),
                ))
        }),
{
    lemma_fields_are_read_back();
    reveal_strlit("repo_id");
    reveal_strlit("has_vision");
    reveal_strlit("default_variant");
    reveal_strlit("context_length");
    reveal_strlit("resolved_locally");
    reveal_strlit("variants");
    assert("repo_id"@.len() == 7 && "has_vision"@.len() == 10 && "default_variant"@.len() == 15);
    assert("context_length"@.len() == 14 && "resolved_locally"@.len() == 16 && "variants"@.len() == 8);
}

/// An estimate is shown with its parts: the weights, the cache, the buffers and their sum.
pub proof fn law_estimate_is_shown(
    size: SizeEstimate,
    cache_type_kv: Seq<char>,
    n_parallel: u64,
    layer_count: Option<u64>,
)
    ensures
        ({
            let shown = model_answers::estimate_json(
                inference::EstimateView::Sized { size, cache_type_kv, n_parallel, layer_count },
            );
            &&& json::bool_of(json::member(shown, "available"@)) == Some(true)
            &&& json::u64_of(json::member(shown, "weights_bytes"@)) == Some(size.weights_bytes)
            &&& json::u64_of(json::member(shown, "kv_bytes"@)) == Some((match size.kv_bytes {
                    Some(n) => n,
                    None => 0u64,
                }))
            &&& json::bool_of(json::member(shown, "kv_estimable"@)) == Some(size.kv_bytes is Some)
            &&& json::u64_of(json::member(shown, "compute_bytes"@)) == Some(size.compute_bytes)
            &&& json::u64_of(json::member(shown, "total_bytes"@)) == Some(size.total_bytes)
            &&& json::u64_of(json::member(shown, "n_ctx"@)) == Some(size.n_ctx)
            &&& json::text_of(json::member(shown, "cache_type_kv"@)) == Some(cache_type_kv)
            &&& json::u64_of(json::member(shown, "n_parallel"@)) == Some(n_parallel)
            &&& json::u64_of(json::member(shown, "layer_count"@)) == layer_count
        }),
{
    lemma_fields_are_read_back();
    reveal_strlit("available");
    reveal_strlit("reason");
    reveal_strlit("weights_bytes");
    reveal_strlit("kv_bytes");
    reveal_strlit("compute_bytes");
    reveal_strlit("drafter_runtime_bytes");
    reveal_strlit("drafter_runtime_gpu_bytes");
    reveal_strlit("projector_runtime_bytes");
    reveal_strlit("drafter_kv_unsized");
    reveal_strlit("adapters_unsized");
    reveal_strlit("total_bytes");
    reveal_strlit("gpu_bytes");
    reveal_strlit("kv_estimable");
    reveal_strlit("kv_on_gpu");
    reveal_strlit("n_ctx");
    reveal_strlit("cache_type_kv");
    reveal_strlit("n_parallel");
    reveal_strlit("layer_count");
    reveal_strlit("gpu_layers");
    reveal_strlit("moe_offload_unmodelled");
    assert("available"@.len() == 9 && "reason"@.len() == 6 && "weights_bytes"@.len() == 13);
    assert("kv_bytes"@.len() == 8 && "compute_bytes"@.len() == 13 && "drafter_runtime_bytes"@.len() == 21);
    assert("drafter_runtime_gpu_bytes"@.len() == 25 && "projector_runtime_bytes"@.len() == 23 && "drafter_kv_unsized"@.len() == 18);
    assert("adapters_unsized"@.len() == 16 && "total_bytes"@.len() == 11 && "gpu_bytes"@.len() == 9);
    assert("kv_estimable"@.len() == 12 && "kv_on_gpu"@.len() == 9 && "n_ctx"@.len() == 5);
    assert("cache_type_kv"@.len() == 13 && "n_parallel"@.len() == 10 && "layer_count"@.len() == 11);
    assert("gpu_layers"@.len() == 10 && "moe_offload_unmodelled"@.len() == 22);
    assert("weights_bytes"@[0] != "compute_bytes"@[0]);
    assert("available"@[0] != "gpu_bytes"@[0]);
    assert("available"@[0] != "kv_on_gpu"@[0]);
    assert("gpu_bytes"@[0] != "kv_on_gpu"@[0]);
    assert("weights_bytes"@[0] != "cache_type_kv"@[0]);
    assert("compute_bytes"@[1] != "cache_type_kv"@[1]);
    assert("total_bytes"@[0] != "layer_count"@[0]);
    assert("n_parallel"@[0] != "gpu_layers"@[0]);
}

/// Where nothing can be estimated, the reason is shown.
pub proof fn law_missing_estimate_has_a_reason(reason: Seq<char>)
    ensures
        ({
            let shown = model_answers::estimate_json(inference::EstimateView::Unavailable(reason));
            &&& json::bool_of(json::member(shown, "available"@)) == Some(false)
            &&& json::text_of(json::member(shown, "reason"@)) == Some(reason)
            &&& json::u64_of(json::member(shown, "total_bytes"@)) == Some(0u64)
            &&& json::u64_of(json::member(shown, "weights_bytes"@)) == Some(0u64)
            &&& json::u64_of(json::member(shown, "kv_bytes"@)) == Some(0u64)
            &&& json::u64_of(json::member(shown, "compute_bytes"@)) == Some(0u64)
            &&& json::u64_of(json::member(shown, "n_ctx"@)) == Some(0u64)
            &&& json::u64_of(json::member(shown, "n_parallel"@)) == Some(1u64)
            &&& json::bool_of(json::member(shown, "kv_estimable"@)) == Some(false)
        }),
{
    lemma_fields_are_read_back();
    reveal_strlit("available");
    reveal_strlit("reason");
    reveal_strlit("weights_bytes");
    reveal_strlit("kv_bytes");
    reveal_strlit("compute_bytes");
    reveal_strlit("drafter_runtime_bytes");
    reveal_strlit("drafter_runtime_gpu_bytes");
    reveal_strlit("projector_runtime_bytes");
    reveal_strlit("drafter_kv_unsized");
    reveal_strlit("adapters_unsized");
    reveal_strlit("total_bytes");
    reveal_strlit("gpu_bytes");
    reveal_strlit("kv_estimable");
    reveal_strlit("kv_on_gpu");
    reveal_strlit("n_ctx");
    reveal_strlit("cache_type_kv");
    reveal_strlit("n_parallel");
    reveal_strlit("layer_count");
    reveal_strlit("gpu_layers");
    reveal_strlit("moe_offload_unmodelled");
    assert("available"@.len() == 9 && "reason"@.len() == 6 && "weights_bytes"@.len() == 13);
    assert("kv_bytes"@.len() == 8 && "compute_bytes"@.len() == 13 && "drafter_runtime_bytes"@.len() == 21);
    assert("drafter_runtime_gpu_bytes"@.len() == 25 && "projector_runtime_bytes"@.len() == 23 && "drafter_kv_unsized"@.len() == 18);
    assert("adapters_unsized"@.len() == 16 && "total_bytes"@.len() == 11 && "gpu_bytes"@.len() == 9);
    assert("kv_estimable"@.len() == 12 && "kv_on_gpu"@.len() == 9 && "n_ctx"@.len() == 5);
    assert("cache_type_kv"@.len() == 13 && "n_parallel"@.len() == 10 && "layer_count"@.len() == 11);
    assert("gpu_layers"@.len() == 10 && "moe_offload_unmodelled"@.len() == 22);
    assert("weights_bytes"@[0] != "compute_bytes"@[0]);
    assert("available"@[0] != "gpu_bytes"@[0]);
    assert("available"@[0] != "kv_on_gpu"@[0]);
    assert("gpu_bytes"@[0] != "kv_on_gpu"@[0]);
    assert("weights_bytes"@[0] != "cache_type_kv"@[0]);
    assert("compute_bytes"@[1] != "cache_type_kv"@[1]);
    assert("total_bytes"@[0] != "layer_count"@[0]);
    assert("n_parallel"@[0] != "gpu_layers"@[0]);
}

/// The memory of a model is shown with its parts.
pub proof fn law_memory_of_a_model_is_shown(size: SizeEstimate, n_ctx: Option<u64>, native: Option<u64>)
    ensures
        ({
            let shown = model_answers::kv_json(Some(size), n_ctx, native);
            &&& json::u64_of(json::member(shown, "kv_bytes"@)) == size.kv_bytes
            &&& json::u64_of(json::member(shown, "weights_bytes"@)) == Some(size.weights_bytes)
            &&& json::u64_of(json::member(shown, "native_context"@)) == native
            &&& json::u64_of(json::member(shown, "n_ctx"@)) == Some(size.n_ctx)
            &&& json::u64_of(json::member(shown, "compute_bytes"@)) == Some(size.compute_bytes)
            &&& json::u64_of(json::member(shown, "total_bytes"@)) == Some(size.total_bytes)
        }),
{
    lemma_fields_are_read_back();
    reveal_strlit("kv_bytes");
    reveal_strlit("weights_bytes");
    reveal_strlit("native_context");
    reveal_strlit("spec_bytes");
    reveal_strlit("n_ctx");
    reveal_strlit("projector_bytes");
    reveal_strlit("spec_unpriced");
    reveal_strlit("kv_checkpoint_bytes");
    reveal_strlit("spec_fixed_bytes");
    reveal_strlit("compute_bytes");
    reveal_strlit("gpu_bytes");
    reveal_strlit("total_bytes");
    reveal_strlit("gpu_floor_bytes");
    reveal_strlit("context_is_pinned");
    reveal_strlit("inherited_device_pin");
    assert("kv_bytes"@.len() == 8 && "weights_bytes"@.len() == 13 && "native_context"@.len() == 14);
    assert("spec_bytes"@.len() == 10 && "n_ctx"@.len() == 5 && "projector_bytes"@.len() == 15);
    assert("spec_unpriced"@.len() == 13 && "kv_checkpoint_bytes"@.len() == 19 && "spec_fixed_bytes"@.len() == 16);
    assert("compute_bytes"@.len() == 13 && "gpu_bytes"@.len() == 9 && "total_bytes"@.len() == 11);
    assert("gpu_floor_bytes"@.len() == 15 && "context_is_pinned"@.len() == 17 && "inherited_device_pin"@.len() == 20);
    assert("weights_bytes"@[0] != "spec_unpriced"@[0]);
    assert("weights_bytes"@[0] != "compute_bytes"@[0]);
    assert("spec_unpriced"@[0] != "compute_bytes"@[0]);
    assert("projector_bytes"@[0] != "gpu_floor_bytes"@[0]);
}

/// A model that was read is shown with what its headers say.
pub proof fn law_checked_model_is_shown(c: inference::CheckView)
    requires
        c.kind == CheckKind::Read,
    ensures
        ({
            let shown = model_answers::check_json(c);
            &&& json::bool_of(json::member(shown, "valid"@)) == Some(c.valid)
            &&& json::text_of(json::member(shown, "message"@)) == Some(c.message)
            &&& json::text_of(json::member(shown, "identifier"@)) == Some(c.identifier)
            &&& json::text_of(json::member(shown, "display_name"@)) == c.display_name
            &&& json::bool_of(json::member(shown, "is_vision"@)) == Some(c.is_vision)
            &&& json::u64_of(json::member(shown, "context_length"@)) == c.context_length
            &&& json::u64_of(json::member(shown, "layer_count"@)) == c.layer_count
            &&& json::u64_of(json::member(shown, "moe_layer_count"@)) == c.moe_layer_count
            &&& json::text_of(json::member(shown, "chat_template"@)) == c.chat_template
        }),
{
    lemma_fields_are_read_back();
    reveal_strlit("valid");
    reveal_strlit("message");
    reveal_strlit("identifier");
    reveal_strlit("display_name");
    reveal_strlit("is_gguf");
    reveal_strlit("is_lora");
    reveal_strlit("is_vision");
    reveal_strlit("context_length");
    reveal_strlit("layer_count");
    reveal_strlit("moe_layer_count");
    reveal_strlit("chat_template");
    reveal_strlit("is_diffusion");
    reveal_strlit("diffusion_unknown");
    reveal_strlit("requires_trust_remote_code");
    assert("valid"@.len() == 5 && "message"@.len() == 7 && "identifier"@.len() == 10);
    assert("display_name"@.len() == 12 && "is_gguf"@.len() == 7 && "is_lora"@.len() == 7);
    assert("is_vision"@.len() == 9 && "context_length"@.len() == 14 && "layer_count"@.len() == 11);
    assert("moe_layer_count"@.len() == 15 && "chat_template"@.len() == 13 && "is_diffusion"@.len() == 12);
    assert("diffusion_unknown"@.len() == 17 && "requires_trust_remote_code"@.len() == 26);
    assert("message"@[0] != "is_gguf"@[0]);
    assert("message"@[0] != "is_lora"@[0]);
    assert("is_gguf"@[3] != "is_lora"@[3]);
    assert("display_name"@[0] != "is_diffusion"@[0]);
}

/// A folder is shown with its name and whether it holds models.
pub proof fn law_folder_is_shown(e: browse::BrowseView)
    ensures
        ({
            let shown = model_answers::folder_row(e);
            &&& json::text_of(json::member(shown, "name"@)) == Some(e.name)
            &&& json::bool_of(json::member(shown, "has_models"@)) == Some(e.has_models)
            &&& json::bool_of(json::member(shown, "hidden"@)) == Some(e.hidden)
        }),
{
    lemma_fields_are_read_back();
    reveal_strlit("name");
    reveal_strlit("has_models");
    reveal_strlit("hidden");
    assert("name"@.len() == 4 && "has_models"@.len() == 10 && "hidden"@.len() == 6);
}

/// The settings of a model are shown with its size and its context.
pub proof fn law_settings_of_a_model_are_shown(
    id: Seq<char>,
    size_bytes: Option<u64>,
    context_length: Option<u64>,
    is_vision: bool,
)
    ensures
        ({
            let shown = model_answers::config_view(id, size_bytes, context_length, is_vision);
            &&& json::text_of(json::member(shown, "id"@)) == Some(id)
            &&& json::text_of(json::member(shown, "model_name"@)) == Some(id)
            &&& json::u64_of(json::member(shown, "model_size_bytes"@)) == size_bytes
            &&& json::u64_of(json::member(shown, "max_position_embeddings"@)) == context_length
            &&& json::bool_of(json::member(shown, "is_vision"@)) == Some(is_vision)
            &&& json::member(shown, "config"@) == Some(model_answers::training_defaults())
        }),
{
    lemma_fields_are_read_back();
    reveal_strlit("id");
    reveal_strlit("model_name");
    reveal_strlit("model_type");
    reveal_strlit("model_size_bytes");
    reveal_strlit("max_position_embeddings");
    reveal_strlit("is_vision");
    reveal_strlit("is_embedding");
    reveal_strlit("is_audio");
    reveal_strlit("is_lora");
    reveal_strlit("config");
    assert("id"@.len() == 2 && "model_name"@.len() == 10 && "model_type"@.len() == 10);
    assert("model_size_bytes"@.len() == 16 && "max_position_embeddings"@.len() == 23 && "is_vision"@.len() == 9);
    assert("is_embedding"@.len() == 12 && "is_audio"@.len() == 8 && "is_lora"@.len() == 7);
    assert("config"@.len() == 6);
    assert("model_name"@[6] != "model_type"@[6]);
}

/// The usual training of a model: three epochs of sequences of 2048 tokens, one at a time, summed up over
/// four, with adapters of rank sixteen and alpha 32.
pub proof fn law_usual_training_is_shown(o: json::JsonView)
    ensures
        ({
            let shown = model_answers::training_defaults();
            &&& json::member(shown, "training"@) == Some(o) ==> {
                &&& json::u64_of(json::member(o, "max_seq_length"@)) == Some(2048u64)
                &&& json::u64_of(json::member(o, "num_epochs"@)) == Some(3u64)
                &&& json::text_of(json::member(o, "learning_rate"@)) == Some("2e-4"@)
                &&& json::u64_of(json::member(o, "batch_size"@)) == Some(1u64)
                &&& json::u64_of(json::member(o, "gradient_accumulation_steps"@)) == Some(4u64)
                &&& json::u64_of(json::member(o, "lora_r"@)) == Some(16u64)
                &&& json::member(o, "lora_alpha"@) == Some(
                    json::JsonView::Number(Number::Float(0x4040_0000_0000_0000)),
                )
                &&& json::member(o, "lora_dropout"@) == Some(json::JsonView::Number(Number::Float(0)))
            }
            &&& json::member(shown, "training"@) is Some
        }),
{
    lemma_fields_are_read_back();
    reveal_strlit("training");
    reveal_strlit("max_seq_length");
    reveal_strlit("num_epochs");
    reveal_strlit("learning_rate");
    reveal_strlit("batch_size");
    reveal_strlit("gradient_accumulation_steps");
    reveal_strlit("lora_r");
    reveal_strlit("lora_alpha");
    reveal_strlit("lora_dropout");
    assert("training"@.len() == 8 && "max_seq_length"@.len() == 14 && "num_epochs"@.len() == 10);
    assert("learning_rate"@.len() == 13 && "batch_size"@.len() == 10 && "gradient_accumulation_steps"@.len() == 27);
    assert("lora_r"@.len() == 6 && "lora_alpha"@.len() == 10 && "lora_dropout"@.len() == 12);
    assert("num_epochs"@[0] != "batch_size"@[0]);
    assert("num_epochs"@[0] != "lora_alpha"@[0]);
    assert("batch_size"@[0] != "lora_alpha"@[0]);
}

/// A deletion is shown with what it frees.
pub proof fn law_deletion_is_shown(repo_id: Seq<char>, variant: Option<Seq<char>>, freed: u64)
    ensures
        ({
            let shown = model_answers::impact_view(repo_id, variant, freed);
            &&& json::text_of(json::member(shown, "repo_id"@)) == Some(repo_id)
            &&& json::text_of(json::member(shown, "variant"@)) == variant
            &&& json::u64_of(json::member(shown, "reclaimed_bytes"@)) == Some(freed)
            &&& json::u64_of(json::member(shown, "freed_bytes"@)) == Some(freed)
        }),
{
    lemma_fields_are_read_back();
    reveal_strlit("repo_id");
    reveal_strlit("variant");
    reveal_strlit("reclaimed_bytes");
    reveal_strlit("freed_bytes");
    reveal_strlit("affected_models");
    reveal_strlit("retained_companions");
    reveal_strlit("freeable_companions");
    reveal_strlit("blocked_by");
    assert("repo_id"@.len() == 7 && "variant"@.len() == 7 && "reclaimed_bytes"@.len() == 15);
    assert("freed_bytes"@.len() == 11 && "affected_models"@.len() == 15 && "retained_companions"@.len() == 19);
    assert("freeable_companions"@.len() == 19 && "blocked_by"@.len() == 10);
    assert("repo_id"@[0] != "variant"@[0]);
    assert("reclaimed_bytes"@[0] != "affected_models"@[0]);
    assert("retained_companions"@[0] != "freeable_companions"@[0]);
}

/// A registration is answered with the place of the node and the number of nodes.
pub proof fn law_registration_is_answered(ack: RegisterAck)
    ensures
        ({
            let shown = cluster_answers::registered_view(ack);
            &&& json::text_of(json::member(shown, "status"@)) == Some(ack.status@)
            &&& json::text_of(json::member(shown, "workerId"@)) == Some(ack.worker_id@)
            &&& json::u64_of(json::member(shown, "rank"@)) == Some(ack.rank as u64)
            &&& json::u64_of(json::member(shown, "worldSize"@)) == Some(ack.world_size as u64)
        }),
{
    lemma_fields_are_read_back();
    reveal_strlit("status");
    reveal_strlit("workerId");
    reveal_strlit("rank");
    reveal_strlit("worldSize");
    reveal_strlit("message");
    assert("status"@.len() == 6 && "workerId"@.len() == 8 && "rank"@.len() == 4);
    assert("worldSize"@.len() == 9 && "message"@.len() == 7);
}

/// A heartbeat is answered with both clocks and the delay.
pub proof fn law_heartbeat_is_answered(ack: HeartbeatAck, latency: Option<u64>)
    ensures
        ({
            let shown = cluster_answers::heartbeat_view(ack, latency);
            &&& json::u64_of(json::member(shown, "clientTimestampMs"@)) == ack.client_timestamp_ms
            &&& json::u64_of(json::member(shown, "serverTimestampMs"@)) == Some(ack.server_timestamp_ms)
            &&& json::member(shown, "latencyMs"@) == Some((match latency {
                    Some(bits) => json::JsonView::Number(Number::Float(bits)),
                    None => json::JsonView::Null,
                }))
        }),
{
    lemma_fields_are_read_back();
    reveal_strlit("clientTimestampMs");
    reveal_strlit("serverTimestampMs");
    reveal_strlit("latencyMs");
    assert("clientTimestampMs"@.len() == 17 && "serverTimestampMs"@.len() == 17 && "latencyMs"@.len() == 9);
    assert("clientTimestampMs"@[0] != "serverTimestampMs"@[0]);
}

/// The mean of the gradients is answered with the step and each number in its place.
pub proof fn law_mean_is_answered(step: u32, mean: Seq<u64>)
    ensures
        ({
            let shown = cluster_answers::averaged_view(step, mean);
            &&& json::u64_of(json::member(shown, "step"@)) == Some(step as u64)
            &&& json::u64_of(json::member(shown, "gradientCount"@)) == Some(mean.len() as u64)
            &&& json::member(shown, "gradients"@) == Some(json::JsonView::Array(
                    Seq::new(mean.len(), |k: int| json::JsonView::Number(Number::Float(mean[k]))),
                ))
        }),
{
    lemma_fields_are_read_back();
    reveal_strlit("status");
    reveal_strlit("step");
    reveal_strlit("gradientCount");
    reveal_strlit("gradients");
    assert("status"@.len() == 6 && "step"@.len() == 4 && "gradientCount"@.len() == 13);
    assert("gradients"@.len() == 9);
}

/// A node is shown with its place, address, card, memory and whether it was heard of in time.
pub proof fn law_node_is_shown(w: cluster::WorkerView, latency: Option<u64>, now: u64)
    ensures
        ({
            let shown = cluster_answers::worker_row(w, latency, now);
            &&& json::text_of(json::member(shown, "workerId"@)) == Some(w.worker_id)
            &&& json::u64_of(json::member(shown, "rank"@)) == Some(w.rank as u64)
            &&& json::text_of(json::member(shown, "ip"@)) == Some(w.ip)
            &&& json::text_of(json::member(shown, "gpuName"@)) == Some(w.gpu_name)
            &&& json::u64_of(json::member(shown, "vramMb"@)) == Some(w.vram_mb)
            &&& json::u64_of(json::member(shown, "lastSeenMs"@)) == Some(w.last_seen_ms)
            &&& json::text_of(json::member(shown, "status"@)) == Some((if now - w.last_seen_ms <= 15_000 {
                    "online"@
                } else {
                    "offline"@
                }))
        }),
{
    lemma_fields_are_read_back();
    reveal_strlit("workerId");
    reveal_strlit("rank");
    reveal_strlit("ip");
    reveal_strlit("gpuName");
    reveal_strlit("vramMb");
    reveal_strlit("latencyMs");
    reveal_strlit("lastSeenMs");
    reveal_strlit("status");
    assert("workerId"@.len() == 8 && "rank"@.len() == 4 && "ip"@.len() == 2);
    assert("gpuName"@.len() == 7 && "vramMb"@.len() == 6 && "latencyMs"@.len() == 9);
    assert("lastSeenMs"@.len() == 10 && "status"@.len() == 6);
    assert("vramMb"@[0] != "status"@[0]);
}

/// The cluster is shown with its counts, its step and its memory.
pub proof fn law_cluster_is_shown(
    summary: ClusterSummary,
    rows: Seq<json::JsonView>,
    step: u32,
    master_vram_mb: Option<u64>,
    average_latency: Option<u64>,
)
    ensures
        ({
            let shown = cluster_answers::status_view(summary, rows, step, master_vram_mb, average_latency);
            &&& json::u64_of(json::member(shown, "worldSize"@)) == Some(summary.world_size as u64)
            &&& json::u64_of(json::member(shown, "onlineWorkers"@)) == Some(summary.online_workers as u64)
            &&& json::u64_of(json::member(shown, "currentStep"@)) == Some(step as u64)
            &&& json::member(shown, "workers"@) == Some(json::JsonView::Array(rows))
            &&& json::u64_of(json::member(shown, "masterVramMb"@)) == master_vram_mb
            &&& json::u64_of(json::member(shown, "totalVramMb"@)) == summary.total_vram_mb
            &&& json::bool_of(json::member(shown, "allReduceReady"@)) == Some(summary.all_reduce_ready)
        }),
{
    lemma_fields_are_read_back();
    reveal_strlit("role");
    reveal_strlit("worldSize");
    reveal_strlit("onlineWorkers");
    reveal_strlit("currentStep");
    reveal_strlit("workers");
    reveal_strlit("masterVramMb");
    reveal_strlit("totalVramMb");
    reveal_strlit("allReduceReady");
    reveal_strlit("averageLatencyMs");
    assert("role"@.len() == 4 && "worldSize"@.len() == 9 && "onlineWorkers"@.len() == 13);
    assert("currentStep"@.len() == 11 && "workers"@.len() == 7 && "masterVramMb"@.len() == 12);
    assert("totalVramMb"@.len() == 11 && "allReduceReady"@.len() == 14 && "averageLatencyMs"@.len() == 16);
    assert("currentStep"@[0] != "totalVramMb"@[0]);
}

/// An accepted download is answered with its key, its state and its number.
pub proof fn law_accepted_download_is_answered(
    key: Seq<char>,
    state: JobState,
    generation: Option<u64>,
    attached: bool,
)
    ensures
        ({
            let shown = download_answers::start_json(key, state, generation, attached);
            &&& json::text_of(json::member(shown, "state"@)) == Some(download_jobs::state_name(state))
            &&& json::bool_of(json::member(shown, "accepted"@)) == Some(true)
            &&& json::u64_of(json::member(shown, "generation"@)) == generation
            &&& json::bool_of(json::member(shown, "attached"@)) == Some(attached)
            &&& json::text_of(json::member(shown, "job_key"@)) == Some(key)
            &&& json::text_of(json::member(shown, "transport"@)) == Some("http"@)
        }),
{
    lemma_fields_are_read_back();
    reveal_strlit("state");
    reveal_strlit("accepted");
    reveal_strlit("generation");
    reveal_strlit("attached");
    reveal_strlit("transport");
    reveal_strlit("cancel_transport");
    reveal_strlit("job_key");
    assert("state"@.len() == 5 && "accepted"@.len() == 8 && "generation"@.len() == 10);
    assert("attached"@.len() == 8 && "transport"@.len() == 9 && "cancel_transport"@.len() == 16);
    assert("job_key"@.len() == 7);
    assert("accepted"@[1] != "attached"@[1]);
}

/// A download is shown with its state, its error and its bytes; a complete one has the whole share, one.
pub proof fn law_download_is_shown(job: download_jobs::JobView, received: u64)
    ensures
        ({
            let shown = download_answers::job_json(job, received);
            &&& json::text_of(json::member(shown, "state"@)) == Some(download_jobs::state_name(job.state))
            &&& json::text_of(json::member(shown, "error"@)) == job.error
            &&& json::u64_of(json::member(shown, "generation"@)) == Some(job.generation)
            &&& json::u64_of(json::member(shown, "downloaded_bytes"@)) == Some(job.downloaded_bytes as u64)
            &&& json::u64_of(json::member(shown, "total_bytes"@)) == Some(job.total_bytes as u64)
            &&& json::member(shown, "progress"@) == Some(json::JsonView::Number(
                    Number::Float(
                        if job.state == JobState::Complete {
                            0x3ff0_0000_0000_0000
                        } else {
                            received
                        },
                    ),
                ))
        }),
{
    lemma_fields_are_read_back();
    reveal_strlit("state");
    reveal_strlit("error");
    reveal_strlit("generation");
    reveal_strlit("downloaded_bytes");
    reveal_strlit("total_bytes");
    reveal_strlit("progress");
    assert("state"@.len() == 5 && "error"@.len() == 5 && "generation"@.len() == 10);
    assert("downloaded_bytes"@.len() == 16 && "total_bytes"@.len() == 11 && "progress"@.len() == 8);
    assert("state"@[0] != "error"@[0]);
}

/// The progress of a download is shown with the bytes that are there and those that are expected.
pub proof fn law_progress_is_shown(p: download_jobs::ProgressView, received: u64)
    ensures
        ({
            let shown = download_answers::spec_progress_json(p, received);
            &&& json::u64_of(json::member(shown, "downloaded_bytes"@)) == Some(p.downloaded_bytes as u64)
            &&& json::u64_of(json::member(shown, "completed_bytes"@)) == Some(p.completed_bytes as u64)
            &&& json::bool_of(json::member(shown, "complete_on_disk"@)) == Some(p.complete_on_disk)
            &&& json::u64_of(json::member(shown, "expected_bytes"@)) == Some(p.expected_bytes as u64)
            &&& json::bool_of(json::member(shown, "target_present"@)) == Some(p.target_present)
            &&& json::text_of(json::member(shown, "cache_path"@)) == p.cache_path
            &&& json::member(shown, "progress"@) == Some(json::JsonView::Number(
                    Number::Float(
                        if p.complete_on_disk {
                            0x3ff0_0000_0000_0000
                        } else {
                            received
                        },
                    ),
                ))
        }),
{
    lemma_fields_are_read_back();
    reveal_strlit("downloaded_bytes");
    reveal_strlit("completed_bytes");
    reveal_strlit("complete_on_disk");
    reveal_strlit("expected_bytes");
    reveal_strlit("progress");
    reveal_strlit("target_present");
    reveal_strlit("cache_path");
    reveal_strlit("cache_measured");
    assert("downloaded_bytes"@.len() == 16 && "completed_bytes"@.len() == 15 && "complete_on_disk"@.len() == 16);
    assert("expected_bytes"@.len() == 14 && "progress"@.len() == 8 && "target_present"@.len() == 14);
    assert("cache_path"@.len() == 10 && "cache_measured"@.len() == 14);
    assert("downloaded_bytes"@[0] != "complete_on_disk"@[0]);
    assert("expected_bytes"@[0] != "target_present"@[0]);
    assert("expected_bytes"@[0] != "cache_measured"@[0]);
    assert("target_present"@[0] != "cache_measured"@[0]);
}

/// A running download is shown with its repository, its variant and its files.
pub proof fn law_running_download_is_shown(job: download_jobs::JobView)
    ensures
        ({
            let shown = download_answers::active_row(job);
            &&& json::text_of(json::member(shown, "repo_id"@)) == Some(job.repo_id)
            &&& json::text_of(json::member(shown, "variant"@)) == Some(job.variant)
            &&& json::text_of(json::member(shown, "state"@)) == Some(download_jobs::state_name(job.state))
            &&& json::u64_of(json::member(shown, "generation"@)) == Some(job.generation)
            &&& json::member(shown, "files"@) == Some(json::JsonView::Array(
                    Seq::new(job.files.len(), |i: int| json::JsonView::Text(job.files[i].path)),
                ))
        }),
{
    lemma_fields_are_read_back();
    reveal_strlit("repo_id");
    reveal_strlit("variant");
    reveal_strlit("transport");
    reveal_strlit("cancel_transport");
    reveal_strlit("state");
    reveal_strlit("generation");
    reveal_strlit("files");
    assert("repo_id"@.len() == 7 && "variant"@.len() == 7 && "transport"@.len() == 9);
    assert("cancel_transport"@.len() == 16 && "state"@.len() == 5 && "generation"@.len() == 10);
    assert("files"@.len() == 5);
    assert("repo_id"@[0] != "variant"@[0]);
    assert("state"@[0] != "files"@[0]);
    let paths = download_answers::paths_of(job.files);
    assert(Seq::new(paths.len(), |i: int| answers::word(paths[i])) =~= Seq::new(
        job.files.len(),
        |i: int| json::JsonView::Text(job.files[i].path),
    ));
}

/// A variant of a repository is shown with its file, its size, what is left of it and whether it is there,
/// whole or in part.
pub proof fn law_variant_is_shown(v: gguf_variants::VariantView)
    ensures
        ({
            let shown = download_answers::variant_json(v);
            &&& json::text_of(json::member(shown, "filename"@)) == Some(v.filename)
            &&& json::text_of(json::member(shown, "quant"@)) == Some(v.quant)
            &&& json::u64_of(json::member(shown, "size_bytes"@)) == Some(v.size_bytes as u64)
            &&& json::u64_of(json::member(shown, "shard_count"@)) == Some(v.shard_count as u64)
            &&& json::u64_of(json::member(shown, "download_remaining_bytes"@)) == (match v.remaining_bytes {
                    Some(n) => Some(n as u64),
                    None => None,
                })
            &&& json::bool_of(json::member(shown, "downloaded"@)) == Some(v.downloaded)
            &&& json::bool_of(json::member(shown, "partial"@)) == Some(v.partial)
            &&& json::bool_of(json::member(shown, "partial_resumable"@)) == Some(v.partial)
            &&& json::text_of(json::member(shown, "partial_transport"@)) == (if v.partial {
                    Some("http"@)
                } else {
                    None
                })
        }),
{
    lemma_fields_are_read_back();
    reveal_strlit("filename");
    reveal_strlit("quant");
    reveal_strlit("display_label");
    reveal_strlit("size_bytes");
    reveal_strlit("download_size_bytes");
    reveal_strlit("shard_count");
    reveal_strlit("download_remaining_bytes");
    reveal_strlit("downloaded");
    reveal_strlit("update_available");
    reveal_strlit("partial");
    reveal_strlit("partial_transport");
    reveal_strlit("partial_resumable");
    reveal_strlit("dependency_key");
    assert("filename"@.len() == 8 && "quant"@.len() == 5 && "display_label"@.len() == 13);
    assert("size_bytes"@.len() == 10 && "download_size_bytes"@.len() == 19 && "shard_count"@.len() == 11);
    assert("download_remaining_bytes"@.len() == 24 && "downloaded"@.len() == 10 && "update_available"@.len() == 16);
    assert("partial"@.len() == 7 && "partial_transport"@.len() == 17 && "partial_resumable"@.len() == 17);
    assert("dependency_key"@.len() == 14);
    assert("size_bytes"@[0] != "downloaded"@[0]);
    assert("partial_transport"@[8] != "partial_resumable"@[8]);
}

/// The variants of a repository are answered in their order, with one of them as the default.
pub proof fn law_variants_are_answered(
    repo_id: Seq<char>,
    variants: Seq<gguf_variants::VariantView>,
    has_vision: bool,
    context_length: Option<u64>,
)
    ensures
        ({
            let shown = download_answers::respond_json(repo_id, variants, has_vision, context_length);
            &&& json::text_of(json::member(shown, "repo_id"@)) == Some(repo_id)
            &&& json::bool_of(json::member(shown, "has_vision"@)) == Some(has_vision)
            &&& json::u64_of(json::member(shown, "context_length"@)) == context_length
            &&& json::member(shown, "variants"@) == Some(json::JsonView::Array(
                    Seq::new(variants.len(), |i: int| download_answers::variant_json(variants[i])),
                ))
        }),
{
    lemma_fields_are_read_back();
    reveal_strlit("repo_id");
    reveal_strlit("variants");
    reveal_strlit("has_vision");
    reveal_strlit("default_variant");
    reveal_strlit("context_length");
    assert("repo_id"@.len() == 7 && "variants"@.len() == 8 && "has_vision"@.len() == 10);
    assert("default_variant"@.len() == 15 && "context_length"@.len() == 14);
}

/// A run is shown under its own name, else under that of its model, with its steps, seconds and loss.
pub proof fn law_run_is_shown(run: training_session::RunView, loss: Option<u64>)
    ensures
        ({
            let shown = profile_answers::run_row(run, loss);
            &&& json::text_of(json::member(shown, "id"@)) == Some(run.id)
            &&& json::text_of(json::member(shown, "name"@)) == Some((match run.display_name {
                    Some(name) => name,
                    None => run.model_name,
                }))
            &&& json::text_of(json::member(shown, "modelLabel"@)) == Some(run.model_name)
            &&& json::text_of(json::member(shown, "datasetLabel"@)) == Some(run.dataset_name)
            &&& json::text_of(json::member(shown, "status"@)) == Some(run.status)
            &&& json::u64_of(json::member(shown, "steps"@)) == Some((match run.final_step {
                    Some(n) => n as u64,
                    None => 0u64,
                }))
            &&& json::u64_of(json::member(shown, "seconds"@)) == Some((match run.duration_seconds {
                    Some(n) => n as u64,
                    None => 0u64,
                }))
            &&& json::text_of(json::member(shown, "startedAt"@)) == Some(run.started_at)
        }),
{
    lemma_fields_are_read_back();
    reveal_strlit("id");
    reveal_strlit("name");
    reveal_strlit("modelLabel");
    reveal_strlit("datasetLabel");
    reveal_strlit("status");
    reveal_strlit("finalLoss");
    reveal_strlit("steps");
    reveal_strlit("seconds");
    reveal_strlit("startedAt");
    assert("id"@.len() == 2 && "name"@.len() == 4 && "modelLabel"@.len() == 10);
    assert("datasetLabel"@.len() == 12 && "status"@.len() == 6 && "finalLoss"@.len() == 9);
    assert("steps"@.len() == 5 && "seconds"@.len() == 7 && "startedAt"@.len() == 9);
    assert("finalLoss"@[0] != "startedAt"@[0]);
}

/// The training of a profile is shown with its counts.
pub proof fn law_training_is_shown(
    stats: TrainingStats,
    runs: Seq<training_session::RunView>,
    losses: Seq<Option<u64>>,
    best_loss: Option<u64>,
)
    ensures
        ({
            let shown = profile_answers::training_view(stats, runs, losses, best_loss);
            &&& json::u64_of(json::member(shown, "runs"@)) == Some(stats.runs as u64)
            &&& json::u64_of(json::member(shown, "completed"@)) == Some(stats.completed as u64)
            &&& json::u64_of(json::member(shown, "steps"@)) == Some(stats.steps as u64)
            &&& json::u64_of(json::member(shown, "seconds"@)) == Some(stats.seconds as u64)
            &&& json::u64_of(json::member(shown, "models"@)) == Some(stats.models as u64)
            &&& json::u64_of(json::member(shown, "datasets"@)) == Some(stats.datasets as u64)
        }),
{
    lemma_fields_are_read_back();
    reveal_strlit("runs");
    reveal_strlit("completed");
    reveal_strlit("steps");
    reveal_strlit("tokens");
    reveal_strlit("seconds");
    reveal_strlit("models");
    reveal_strlit("datasets");
    reveal_strlit("bestLoss");
    reveal_strlit("recent");
    assert("runs"@.len() == 4 && "completed"@.len() == 9 && "steps"@.len() == 5);
    assert("tokens"@.len() == 6 && "seconds"@.len() == 7 && "models"@.len() == 6);
    assert("datasets"@.len() == 8 && "bestLoss"@.len() == 8 && "recent"@.len() == 6);
    assert("tokens"@[0] != "models"@[0]);
    assert("datasets"@[0] != "bestLoss"@[0]);
    assert("tokens"@[0] != "recent"@[0]);
    assert("models"@[0] != "recent"@[0]);
}

/// The totals of a profile are shown: threads, messages by who wrote them, and active days.
pub proof fn law_totals_are_shown(s: ProfileStats)
    ensures
        ({
            let shown = profile_answers::totals_view(s);
            &&& json::u64_of(json::member(shown, "threads"@)) == Some(s.threads as u64)
            &&& json::u64_of(json::member(shown, "messages"@)) == Some(s.messages as u64)
            &&& json::u64_of(json::member(shown, "userMessages"@)) == Some(s.user_messages as u64)
            &&& json::u64_of(json::member(shown, "assistantMessages"@)) == Some(s.assistant_messages as u64)
            &&& json::u64_of(json::member(shown, "activeDays"@)) == Some(s.active_days as u64)
        }),
{
    lemma_fields_are_read_back();
    reveal_strlit("threads");
    reveal_strlit("messages");
    reveal_strlit("userMessages");
    reveal_strlit("assistantMessages");
    reveal_strlit("promptTokens");
    reveal_strlit("completionTokens");
    reveal_strlit("totalTokens");
    reveal_strlit("chatPromptTokens");
    reveal_strlit("chatCompletionTokens");
    reveal_strlit("chatTokens");
    reveal_strlit("apiPromptTokens");
    reveal_strlit("apiCompletionTokens");
    reveal_strlit("apiTokens");
    reveal_strlit("cachedTokens");
    reveal_strlit("toolCalls");
    reveal_strlit("attachments");
    reveal_strlit("activeDays");
    reveal_strlit("chatSeconds");
    assert("threads"@.len() == 7 && "messages"@.len() == 8 && "userMessages"@.len() == 12);
    assert("assistantMessages"@.len() == 17 && "promptTokens"@.len() == 12 && "completionTokens"@.len() == 16);
    assert("totalTokens"@.len() == 11 && "chatPromptTokens"@.len() == 16 && "chatCompletionTokens"@.len() == 20);
    assert("chatTokens"@.len() == 10 && "apiPromptTokens"@.len() == 15 && "apiCompletionTokens"@.len() == 19);
    assert("apiTokens"@.len() == 9 && "cachedTokens"@.len() == 12 && "toolCalls"@.len() == 9);
    assert("attachments"@.len() == 11 && "activeDays"@.len() == 10 && "chatSeconds"@.len() == 11);
    assert("userMessages"@[0] != "promptTokens"@[0]);
    assert("completionTokens"@[1] != "chatPromptTokens"@[1]);
    assert("userMessages"@[0] != "cachedTokens"@[0]);
    assert("promptTokens"@[0] != "cachedTokens"@[0]);
    assert("apiTokens"@[0] != "toolCalls"@[0]);
    assert("totalTokens"@[0] != "attachments"@[0]);
    assert("chatTokens"@[0] != "activeDays"@[0]);
    assert("totalTokens"@[0] != "chatSeconds"@[0]);
    assert("attachments"@[0] != "chatSeconds"@[0]);
}

/// The streak of a profile is shown: the current one, the longest and the last active day.
pub proof fn law_streak_is_shown(s: ProfileStats)
    ensures
        ({
            let shown = profile_answers::streak_view(s);
            &&& json::u64_of(json::member(shown, "current"@)) == Some(s.current_streak as u64)
            &&& json::u64_of(json::member(shown, "longest"@)) == Some(s.longest_streak as u64)
            &&& json::text_of(json::member(shown, "lastActiveDay"@)) == profile_answers::opt_view(s.last_active_day)
        }),
{
    lemma_fields_are_read_back();
    reveal_strlit("current");
    reveal_strlit("longest");
    reveal_strlit("lastActiveDay");
    assert("current"@.len() == 7 && "longest"@.len() == 7 && "lastActiveDay"@.len() == 13);
    assert("current"@[0] != "longest"@[0]);
}

/// The longest chat is shown with its thread, its title, its time and its messages.
pub proof fn law_longest_chat_is_shown(c: LongestChat)
    ensures
        ({
            let shown = profile_answers::chat_view(Some(c));
            &&& json::text_of(json::member(shown, "threadId"@)) == Some(c.thread_id@)
            &&& json::text_of(json::member(shown, "title"@)) == profile_answers::opt_view(c.title)
            &&& json::u64_of(json::member(shown, "messages"@)) == Some(c.messages as u64)
        }),
{
    lemma_fields_are_read_back();
    reveal_strlit("threadId");
    reveal_strlit("title");
    reveal_strlit("seconds");
    reveal_strlit("messages");
    assert("threadId"@.len() == 8 && "title"@.len() == 5 && "seconds"@.len() == 7);
    assert("messages"@.len() == 8);
    assert("threadId"@[0] != "messages"@[0]);
}

/// A day is shown with its date, its messages and its chats.
pub proof fn law_day_is_shown(d: DailyStat)
    ensures
        ({
            let shown = profile_answers::day_row(d);
            &&& json::text_of(json::member(shown, "date"@)) == Some(d.date@)
            &&& json::u64_of(json::member(shown, "messages"@)) == Some(d.messages as u64)
            &&& json::u64_of(json::member(shown, "chats"@)) == Some(d.chats as u64)
        }),
{
    lemma_fields_are_read_back();
    reveal_strlit("date");
    reveal_strlit("tokens");
    reveal_strlit("messages");
    reveal_strlit("chats");
    assert("date"@.len() == 4 && "tokens"@.len() == 6 && "messages"@.len() == 8);
    assert("chats"@.len() == 5);
}

/// A profile is shown with its parts: totals, streak, longest chat, days, models and training.
pub proof fn law_profile_is_shown(s: ProfileStats, training: json::JsonView)
    ensures
        ({
            let shown = profile_answers::profile_view(s, training);
            &&& json::member(shown, "totals"@) == Some(profile_answers::totals_view(s))
            &&& json::member(shown, "streak"@) == Some(profile_answers::streak_view(s))
            &&& json::member(shown, "longestChat"@) == Some(profile_answers::chat_view(s.longest_chat))
            &&& json::member(shown, "daily"@) == Some(json::JsonView::Array(
                    Seq::new(s.daily@.len(), |k: int| profile_answers::day_row(s.daily@[k])),
                ))
            &&& json::member(shown, "models"@) == Some(json::JsonView::Array(
                    Seq::new(s.models@.len(), |k: int| profile_answers::model_row(s.models@[k])),
                ))
            &&& json::member(shown, "training"@) == Some(training)
            &&& json::member(shown, "days"@) == Some(json::whole(30))
        }),
{
    lemma_fields_are_read_back();
    reveal_strlit("generatedAt");
    reveal_strlit("days");
    reveal_strlit("totals");
    reveal_strlit("streak");
    reveal_strlit("peakDay");
    reveal_strlit("longestChat");
    reveal_strlit("daily");
    reveal_strlit("models");
    reveal_strlit("speed");
    reveal_strlit("training");
    assert("generatedAt"@.len() == 11 && "days"@.len() == 4 && "totals"@.len() == 6);
    assert("streak"@.len() == 6 && "peakDay"@.len() == 7 && "longestChat"@.len() == 11);
    assert("daily"@.len() == 5 && "models"@.len() == 6 && "speed"@.len() == 5);
    assert("training"@.len() == 8);
    assert("totals"@[0] != "streak"@[0]);
    assert("generatedAt"@[0] != "longestChat"@[0]);
    assert("totals"@[0] != "models"@[0]);
    assert("streak"@[0] != "models"@[0]);
    assert("daily"@[0] != "speed"@[0]);
}

/// A model of a profile is shown by its name with its messages.
pub proof fn law_model_of_a_profile_is_shown(m: ModelStat)
    ensures
        ({
            let shown = profile_answers::model_row(m);
            &&& json::text_of(json::member(shown, "id"@)) == Some(m.id@)
            &&& json::text_of(json::member(shown, "label"@)) == Some(m.id@)
            &&& json::u64_of(json::member(shown, "messages"@)) == Some(m.messages as u64)
        }),
{
    lemma_fields_are_read_back();
    reveal_strlit("id");
    reveal_strlit("label");
    reveal_strlit("messages");
    reveal_strlit("tokens");
    assert("id"@.len() == 2 && "label"@.len() == 5 && "messages"@.len() == 8);
    assert("tokens"@.len() == 6);
}

/// The limit of uploads is shown in megabytes and in bytes, with the values that are allowed.
pub proof fn law_upload_limit_is_shown(mb: u64)
    ensures
        ({
            let shown = settings_answers::limit_view(mb);
            &&& json::u64_of(json::member(shown, "max_upload_size_mb"@)) == Some(mb)
            &&& json::u64_of(json::member(shown, "max_upload_size_bytes"@)) == Some((mb * 1_048_576) as u64)
        }),
{
    lemma_fields_are_read_back();
    reveal_strlit("max_upload_size_mb");
    reveal_strlit("max_upload_size_bytes");
    reveal_strlit("max_upload_size_label");
    reveal_strlit("default_upload_size_mb");
    reveal_strlit("min_upload_size_mb");
    reveal_strlit("max_allowed_upload_size_mb");
    assert("max_upload_size_mb"@.len() == 18 && "max_upload_size_bytes"@.len() == 21 && "max_upload_size_label"@.len() == 21);
    assert("default_upload_size_mb"@.len() == 22 && "min_upload_size_mb"@.len() == 18 && "max_allowed_upload_size_mb"@.len() == 26);
    assert("max_upload_size_bytes"@[16] != "max_upload_size_label"@[16]);
    assert("max_upload_size_mb"@[1] != "min_upload_size_mb"@[1]);
}

/// The settings of the memory are shown as they are.
pub proof fn law_memory_settings_are_shown(keep_resident: bool, no_ram_reserve: bool)
    ensures
        ({
            let shown = settings_answers::memory_view(keep_resident, no_ram_reserve);
            &&& json::bool_of(json::member(shown, "keep_resident"@)) == Some(keep_resident)
            &&& json::bool_of(json::member(shown, "no_ram_reserve"@)) == Some(no_ram_reserve)
        }),
{
    lemma_fields_are_read_back();
    reveal_strlit("keep_resident");
    reveal_strlit("no_ram_reserve");
    reveal_strlit("default_keep_resident");
    reveal_strlit("default_no_ram_reserve");
    reveal_strlit("mlock_active");
    reveal_strlit("reload_required");
    reveal_strlit("memlock_limit_bytes");
    assert("keep_resident"@.len() == 13 && "no_ram_reserve"@.len() == 14 && "default_keep_resident"@.len() == 21);
    assert("default_no_ram_reserve"@.len() == 22 && "mlock_active"@.len() == 12 && "reload_required"@.len() == 15);
    assert("memlock_limit_bytes"@.len() == 19);
}

/// The transport is shown; without a choice files come by HTTP.
pub proof fn law_transport_is_shown(mode: Seq<char>)
    ensures
        ({
            let shown = settings_answers::transport_view(mode);
            &&& json::text_of(json::member(shown, "mode"@)) == Some(mode)
            &&& json::bool_of(json::member(shown, "xet_available"@)) == Some(false)
            &&& json::text_of(json::member(shown, "auto_resolves_to"@)) == Some("http"@)
        }),
{
    lemma_fields_are_read_back();
    reveal_strlit("mode");
    reveal_strlit("xet_available");
    reveal_strlit("xet_unavailable_reason");
    reveal_strlit("auto_resolves_to");
    reveal_strlit("auto_reason");
    assert("mode"@.len() == 4 && "xet_available"@.len() == 13 && "xet_unavailable_reason"@.len() == 22);
    assert("auto_resolves_to"@.len() == 16 && "auto_reason"@.len() == 11);
}

/// A token is shown, and whether there is one.
pub proof fn law_token_is_shown(token: Option<Seq<char>>)
    ensures
        ({
            let shown = settings_answers::token_view(token);
            &&& json::bool_of(json::member(shown, "has_token"@)) == Some(token is Some)
            &&& json::text_of(json::member(shown, "token"@)) == token
        }),
{
    lemma_fields_are_read_back();
    reveal_strlit("has_token");
    reveal_strlit("token");
    assert("has_token"@.len() == 9 && "token"@.len() == 5);
}

/// The list of models offers the complete ones in their order: one more is put at the end, one with missing
/// parts is left out.
pub proof fn law_complete_models_are_offered(models: Seq<model_scan::ModelView>, m: model_scan::ModelView)
    ensures
        ({
            let before = answers::model_rows(models, models.len() as int);
            let after = answers::model_rows(models.push(m), (models.len() + 1) as int);
            &&& m.complete ==> after == before.push(answers::model_row(m))
            &&& !m.complete ==> after == before
        }),
        ({
            let before = answers::program_rows(models, models.len() as int);
            let after = answers::program_rows(models.push(m), (models.len() + 1) as int);
            &&& m.complete ==> after == before.push(answers::program_row(m))
            &&& !m.complete ==> after == before
        }),
{
    lemma_rows_before(models, m, models.len() as int);
}

proof fn lemma_rows_before(models: Seq<model_scan::ModelView>, m: model_scan::ModelView, n: int)
    requires
        0 <= n <= models.len(),
    ensures
        answers::model_rows(models.push(m), n) == answers::model_rows(models, n),
        answers::program_rows(models.push(m), n) == answers::program_rows(models, n),
    decreases n,
{
    if n > 0 {
        lemma_rows_before(models, m, n - 1);
    }
}

} // verus!
