//! Lists of models and of their variants as the interface gets them.

use vstd::prelude::*;

use crate::hub;
use crate::hub::{ScannedGgufFile, VariantEntry, VariantsAnswer};
use crate::json;
use crate::json::{from_str, Json, JsonObject, Number};
use crate::local_files;
use crate::local_files::total_size;
use crate::model_scan;
use crate::model_scan::LocalModel;
use crate::text;

verus! {

// ---------- values ----------

pub open spec fn word(s: Seq<char>) -> json::JsonView {
    json::JsonView::Text(s)
}

pub open spec fn flag(b: bool) -> json::JsonView {
    json::JsonView::Bool(b)
}

pub open spec fn count(n: int) -> json::JsonView {
    json::JsonView::Number(Number::Unsigned(n as u64))
}

/// A number, or null.
pub open spec fn maybe_count(n: Option<u64>) -> json::JsonView {
    match n {
        Some(v) => count(v as int),
        None => json::JsonView::Null,
    }
}

/// A text, or null.
pub open spec fn maybe_word(s: Option<Seq<char>>) -> json::JsonView {
    match s {
        Some(v) => word(v),
        None => json::JsonView::Null,
    }
}

/// A double by its bits, or null.
pub open spec fn maybe_real(bits: Option<u64>) -> json::JsonView {
    match bits {
        Some(b) => json::JsonView::Number(Number::Float(b)),
        None => json::JsonView::Null,
    }
}

/// A double by its bits, or null.
pub fn maybe_double(bits: Option<u64>) -> (r: Json)
    ensures
        r@ == maybe_real(bits),
{
    match bits {
        Some(b) => Json::Number(Number::Float(b)),
        None => Json::Null,
    }
}

pub fn number(n: u64) -> (r: Json)
    ensures
        r@ == count(n as int),
{
    Json::Number(Number::Unsigned(n))
}

/// A number, or null.
pub fn maybe_number(n: Option<u64>) -> (r: Json)
    ensures
        r@ == maybe_count(n),
{
    match n {
        Some(v) => number(v),
        None => Json::Null,
    }
}

/// A text, or null.
pub fn maybe_text(s: Option<&str>) -> (r: Json)
    ensures
        r@ == maybe_word(
            match s {
                Some(v) => Some(v@),
                None => None,
            },
        ),
{
    match s {
        Some(v) => from_str(v),
        None => Json::Null,
    }
}

/// Adds a row to a list.
pub(crate) fn push_row(rows: &mut Vec<Json>, row: Json)
    ensures
        json::items_view(final(rows)@) == json::items_view(old(rows)@).push(row@),
{
    let ghost before = rows@;
    let ghost value = row;
    rows.push(row);
    assert(rows@.drop_last() =~= before);
    assert(rows@.last() == value);
}

pub open spec fn words(s: Seq<Seq<char>>) -> json::JsonView {
    json::JsonView::Array(Seq::new(s.len(), |i: int| word(s[i])))
}

/// A list of texts.
pub fn text_list(items: &Vec<String>) -> (r: Json)
    ensures
        r@ == words(text::views(items@)),
{
    let ghost view = text::views(items@);
    let mut rows: Vec<Json> = Vec::new();
    let mut i: usize = 0;
    while i < items.len()
        invariant
            i <= items@.len(),
            view == text::views(items@),
            json::items_view(rows@) == Seq::new(i as nat, |k: int| word(view[k])),
        decreases items@.len() - i,
    {
        assert(view[i as int] == items@[i as int]@);
        push_row(&mut rows, from_str(items[i].as_str()));
        assert(Seq::new((i + 1) as nat, |k: int| word(view[k])) =~= Seq::new(
            i as nat,
            |k: int| word(view[k]),
        ).push(word(view[i as int])));
        i += 1;
    }
    Json::Array(rows)
}

// ---------- models on disk ----------

/// A model in the list for the choice of a model.
pub open spec fn model_row(m: model_scan::ModelView) -> json::JsonView {
    let o = json::with(json::no_fields(), "id"@, word(m.path));
    let o = json::with(o, "name"@, word(m.display_name));
    let o = json::with(o, "is_vision"@, flag(false));
    let o = json::with(o, "is_lora"@, flag(false));
    let o = json::with(o, "is_gguf"@, flag(true));
    let o = json::with(o, "is_mlx"@, flag(false));
    let o = json::with(o, "is_audio"@, flag(false));
    json::JsonView::Object(o)
}

fn row_of_model(model: &LocalModel) -> (r: Json)
    ensures
        r@ == model_row(model@),
{
    let mut o = JsonObject::new();
    o.insert("id", from_str(model.path.as_str()));
    o.insert("name", from_str(model.display_name.as_str()));
    o.insert("is_vision", Json::Bool(false));
    o.insert("is_lora", Json::Bool(false));
    o.insert("is_gguf", Json::Bool(true));
    o.insert("is_mlx", Json::Bool(false));
    o.insert("is_audio", Json::Bool(false));
    Json::Object(o)
}

/// The whole ones among the first `n` models.
pub open spec fn model_rows(models: Seq<model_scan::ModelView>, n: int) -> Seq<json::JsonView>
    decreases n,
{
    if n <= 0 {
        Seq::empty()
    } else {
        let before = model_rows(models, n - 1);
        if models[n - 1].complete {
            before.push(model_row(models[n - 1]))
        } else {
            before
        }
    }
}

pub open spec fn models_answer(models: Seq<model_scan::ModelView>) -> json::JsonView {
    let rows = model_rows(models, models.len() as int);
    let o = json::with(json::no_fields(), "models"@, json::JsonView::Array(rows));
    json::JsonView::Object(
        json::with(o, "default_models"@, json::JsonView::Array(Seq::empty())),
    )
}

/// The models that can be chosen: the whole ones on disk, and no others.
pub fn list_models(models: &Vec<LocalModel>) -> (r: Json)
    ensures
        r@ == models_answer(model_scan::models_view(models@)),
{
    let ghost view = model_scan::models_view(models@);
    let mut rows: Vec<Json> = Vec::new();
    let mut i: usize = 0;
    while i < models.len()
        invariant
            i <= models@.len(),
            view == model_scan::models_view(models@),
            json::items_view(rows@) == model_rows(view, i as int),
        decreases models@.len() - i,
    {
        assert(view[i as int] == models@[i as int]@);
        if models[i].complete {
            push_row(&mut rows, row_of_model(&models[i]));
        }
        i += 1;
    }
    let mut o = JsonObject::new();
    o.insert("models", Json::Array(rows));
    o.insert("default_models", Json::Array(Vec::new()));
    Json::Object(o)
}

/// A model in the list of local models, whole or not.
pub open spec fn local_row(m: model_scan::ModelView) -> json::JsonView {
    let o = json::with(json::no_fields(), "id"@, word(m.path));
    let o = json::with(o, "display_name"@, word(m.display_name));
    let o = json::with(o, "path"@, word(m.path));
    let o = json::with(
        o,
        "source"@,
        word(
            if m.root_index == 0 {
                "models_dir"@
            } else {
                "custom"@
            },
        ),
    );
    let o = json::with(o, "model_id"@, word(model_scan::spec_repo_id(m)));
    let o = json::with(o, "model_format"@, word("gguf"@));
    let o = json::with(o, "partial"@, flag(!m.complete));
    let o = json::with(o, "updated_at"@, maybe_count(m.modified_secs));
    let o = json::with(o, "task"@, word("text-generation"@));
    let o = json::with(o, "audio_type"@, json::JsonView::Null);
    json::JsonView::Object(o)
}

fn row_of_local(model: &LocalModel) -> (r: Json)
    ensures
        r@ == local_row(model@),
{
    let mut o = JsonObject::new();
    o.insert("id", from_str(model.path.as_str()));
    o.insert("display_name", from_str(model.display_name.as_str()));
    o.insert("path", from_str(model.path.as_str()));
    let source = if model.root_index == 0 {
        "models_dir"
    } else {
        "custom"
    };
    o.insert("source", from_str(source));
    o.insert("model_id", from_str(model.repo_id().as_str()));
    o.insert("model_format", from_str("gguf"));
    o.insert("partial", Json::Bool(!model.complete));
    o.insert("updated_at", maybe_number(model.modified_secs));
    o.insert("task", from_str("text-generation"));
    o.insert("audio_type", Json::Null);
    Json::Object(o)
}

pub open spec fn local_answer(models: Seq<model_scan::ModelView>, models_dir: Seq<char>) ->
    json::JsonView {
    let o = json::with(json::no_fields(), "models_dir"@, word(models_dir));
    let o = json::with(o, "hf_cache_dir"@, json::JsonView::Null);
    let o = json::with(o, "lmstudio_dirs"@, json::JsonView::Array(Seq::empty()));
    json::JsonView::Object(
        json::with(
            o,
            "models"@,
            json::JsonView::Array(Seq::new(models.len(), |i: int| local_row(models[i]))),
        ),
    )
}

/// The models on disk, also those that are not whole.
pub fn list_local_models(models: &Vec<LocalModel>, models_dir: &str) -> (r: Json)
    ensures
        r@ == local_answer(model_scan::models_view(models@), models_dir@),
{
    let ghost view = model_scan::models_view(models@);
    let mut rows: Vec<Json> = Vec::new();
    let mut i: usize = 0;
    while i < models.len()
        invariant
            i <= models@.len(),
            view == model_scan::models_view(models@),
            json::items_view(rows@) == Seq::new(i as nat, |k: int| local_row(view[k])),
        decreases models@.len() - i,
    {
        assert(view[i as int] == models@[i as int]@);
        push_row(&mut rows, row_of_local(&models[i]));
        assert(Seq::new((i + 1) as nat, |k: int| local_row(view[k])) =~= Seq::new(
            i as nat,
            |k: int| local_row(view[k]),
        ).push(local_row(view[i as int])));
        i += 1;
    }
    let mut o = JsonObject::new();
    o.insert("models_dir", from_str(models_dir));
    o.insert("hf_cache_dir", Json::Null);
    o.insert("lmstudio_dirs", Json::Array(Vec::new()));
    o.insert("models", Json::Array(rows));
    Json::Object(o)
}

/// A model in the list for programs.
pub open spec fn program_row(m: model_scan::ModelView) -> json::JsonView {
    let o = json::with(json::no_fields(), "id"@, word(m.display_name));
    let o = json::with(o, "object"@, word("model"@));
    let o = json::with(
        o,
        "created"@,
        count(
            match m.modified_secs {
                Some(n) => n as int,
                None => 0,
            },
        ),
    );
    json::JsonView::Object(json::with(o, "owned_by"@, word("slothforge"@)))
}

fn row_for_programs(model: &LocalModel) -> (r: Json)
    ensures
        r@ == program_row(model@),
{
    let created: u64 = match model.modified_secs {
        Some(n) => n,
        None => 0,
    };
    let mut o = JsonObject::new();
    o.insert("id", from_str(model.display_name.as_str()));
    o.insert("object", from_str("model"));
    o.insert("created", number(created));
    o.insert("owned_by", from_str("slothforge"));
    Json::Object(o)
}

/// The whole ones among the first `n` models, for programs.
pub open spec fn program_rows(models: Seq<model_scan::ModelView>, n: int) -> Seq<json::JsonView>
    decreases n,
{
    if n <= 0 {
        Seq::empty()
    } else {
        let before = program_rows(models, n - 1);
        if models[n - 1].complete {
            before.push(program_row(models[n - 1]))
        } else {
            before
        }
    }
}

/// The models that can be chosen, for programs.
pub fn openai_models(models: &Vec<LocalModel>) -> (r: Json)
    ensures
        r@ == json::JsonView::Object(
            json::with(
                json::with(json::no_fields(), "object"@, word("list"@)),
                "data"@,
                json::JsonView::Array(
                    program_rows(model_scan::models_view(models@), models@.len() as int),
                ),
            ),
        ),
{
    let ghost view = model_scan::models_view(models@);
    let mut rows: Vec<Json> = Vec::new();
    let mut i: usize = 0;
    while i < models.len()
        invariant
            i <= models@.len(),
            view == model_scan::models_view(models@),
            json::items_view(rows@) == program_rows(view, i as int),
        decreases models@.len() - i,
    {
        assert(view[i as int] == models@[i as int]@);
        if models[i].complete {
            push_row(&mut rows, row_for_programs(&models[i]));
        }
        i += 1;
    }
    let mut o = JsonObject::new();
    o.insert("object", from_str("list"));
    o.insert("data", Json::Array(rows));
    Json::Object(o)
}

// ---------- files of models ----------

/// What can be done with a file of a model.
pub open spec fn capabilities() -> json::JsonView {
    let o = json::with(json::no_fields(), "can_train"@, flag(true));
    let o = json::with(o, "can_chat"@, flag(true));
    let o = json::with(o, "can_delete"@, flag(true));
    let o = json::with(o, "can_download"@, flag(false));
    let o = json::with(o, "requires_variant"@, flag(false));
    let o = json::with(o, "supports_lora"@, flag(true));
    json::JsonView::Object(json::with(o, "supports_vision"@, flag(false)))
}

fn capabilities_json() -> (r: Json)
    ensures
        r@ == capabilities(),
{
    let mut o = JsonObject::new();
    o.insert("can_train", Json::Bool(true));
    o.insert("can_chat", Json::Bool(true));
    o.insert("can_delete", Json::Bool(true));
    o.insert("can_download", Json::Bool(false));
    o.insert("requires_variant", Json::Bool(false));
    o.insert("supports_lora", Json::Bool(true));
    o.insert("supports_vision", Json::Bool(false));
    Json::Object(o)
}

/// A file in the list of what is downloaded.
pub open spec fn cached_row(f: hub::ScannedView) -> json::JsonView {
    let o = json::with(json::no_fields(), "repo_id"@, word(f.repo_id));
    let o = json::with(o, "load_id"@, word(f.filename));
    let o = json::with(o, "model_format"@, word("gguf"@));
    let o = json::with(o, "runtime"@, word("llama_cpp"@));
    let o = json::with(o, "format_variant"@, word(f.quant));
    let o = json::with(o, "size_bytes"@, count(f.size_bytes as int));
    let o = json::with(o, "cache_path"@, word(f.path));
    let o = json::with(o, "last_modified"@, count(f.mtime as int));
    let o = json::with(o, "partial"@, flag(false));
    let o = json::with(o, "pipeline_tag"@, word("text-generation"@));
    let o = json::with(o, "task"@, word("text-generation"@));
    json::JsonView::Object(json::with(o, "capabilities"@, capabilities()))
}

fn row_of_cached(f: &ScannedGgufFile) -> (r: Json)
    ensures
        r@ == cached_row(f@),
{
    let mut o = JsonObject::new();
    o.insert("repo_id", from_str(f.repo_id.as_str()));
    o.insert("load_id", from_str(f.filename.as_str()));
    o.insert("model_format", from_str("gguf"));
    o.insert("runtime", from_str("llama_cpp"));
    o.insert("format_variant", from_str(f.quant.as_str()));
    o.insert("size_bytes", number(f.size_bytes));
    o.insert("cache_path", from_str(f.path.as_str()));
    o.insert("last_modified", number(f.mtime_epoch_secs));
    o.insert("partial", Json::Bool(false));
    o.insert("pipeline_tag", from_str("text-generation"));
    o.insert("task", from_str("text-generation"));
    o.insert("capabilities", capabilities_json());
    Json::Object(o)
}

/// The files of models that are downloaded, and their size together.
pub fn cached_models(files: &Vec<ScannedGgufFile>) -> (r: Json)
    requires
        local_files::size_sum(hub::scanned_view(files@), files@.len() as int) <= u64::MAX,
    ensures
        r@ == json::JsonView::Object(
            json::with(
                json::with(
                    json::no_fields(),
                    "cached"@,
                    json::JsonView::Array(
                        Seq::new(files@.len(), |i: int| cached_row(files@[i]@)),
                    ),
                ),
                "total_size_bytes"@,
                count(local_files::size_sum(hub::scanned_view(files@), files@.len() as int)),
            ),
        ),
{
    let mut rows: Vec<Json> = Vec::new();
    let mut i: usize = 0;
    while i < files.len()
        invariant
            i <= files@.len(),
            json::items_view(rows@) == Seq::new(i as nat, |k: int| cached_row(files@[k]@)),
        decreases files@.len() - i,
    {
        push_row(&mut rows, row_of_cached(&files[i]));
        assert(Seq::new((i + 1) as nat, |k: int| cached_row(files@[k]@)) =~= Seq::new(
            i as nat,
            |k: int| cached_row(files@[k]@),
        ).push(cached_row(files@[i as int]@)));
        i += 1;
    }
    let mut o = JsonObject::new();
    o.insert("cached", Json::Array(rows));
    o.insert("total_size_bytes", number(total_size(files)));
    Json::Object(o)
}

/// A file in the list of the models' folder.
pub open spec fn folder_row(f: hub::ScannedView) -> json::JsonView {
    let o = json::with(json::no_fields(), "id"@, word(f.filename));
    let o = json::with(o, "load_id"@, word(f.filename));
    let o = json::with(o, "display_name"@, word(f.display_name));
    let o = json::with(o, "path"@, word("models/"@ + f.filename));
    let o = json::with(o, "size_bytes"@, count(f.size_bytes as int));
    let o = json::with(o, "model_format"@, word("gguf"@));
    let o = json::with(o, "runtime"@, word("llama_cpp"@));
    let o = json::with(o, "format_variant"@, word(f.quant));
    let o = json::with(o, "source"@, word("models_dir"@));
    let o = json::with(o, "pipeline_tag"@, word("text-generation"@));
    let o = json::with(o, "task"@, word("text-generation"@));
    json::JsonView::Object(json::with(o, "capabilities"@, capabilities()))
}

fn row_of_folder(f: &ScannedGgufFile) -> (r: Json)
    ensures
        r@ == folder_row(f@),
{
    let mut o = JsonObject::new();
    o.insert("id", from_str(f.filename.as_str()));
    o.insert("load_id", from_str(f.filename.as_str()));
    o.insert("display_name", from_str(f.display_name.as_str()));
    o.insert("path", from_str(text::join2("models/", f.filename.as_str()).as_str()));
    o.insert("size_bytes", number(f.size_bytes));
    o.insert("model_format", from_str("gguf"));
    o.insert("runtime", from_str("llama_cpp"));
    o.insert("format_variant", from_str(f.quant.as_str()));
    o.insert("source", from_str("models_dir"));
    o.insert("pipeline_tag", from_str("text-generation"));
    o.insert("task", from_str("text-generation"));
    o.insert("capabilities", capabilities_json());
    Json::Object(o)
}

pub open spec fn folder_answer(files: Seq<hub::ScannedView>, models_dir: Seq<char>) ->
    json::JsonView {
    let none = json::JsonView::Array(Seq::empty());
    let o = json::with(json::no_fields(), "models_dir"@, word(models_dir));
    let o = json::with(o, "lmstudio_dirs"@, none);
    let o = json::with(o, "ollama_dirs"@, none);
    let o = json::with(o, "hermes_dirs"@, none);
    let o = json::with(o, "count"@, count(files.len() as int));
    json::JsonView::Object(
        json::with(
            o,
            "models"@,
            json::JsonView::Array(Seq::new(files.len(), |i: int| folder_row(files[i]))),
        ),
    )
}

/// The files of models in the models' folder.
pub fn hub_local(files: &Vec<ScannedGgufFile>, models_dir: &str) -> (r: Json)
    ensures
        r@ == folder_answer(hub::scanned_view(files@), models_dir@),
{
    let ghost view = hub::scanned_view(files@);
    let mut rows: Vec<Json> = Vec::new();
    let mut i: usize = 0;
    while i < files.len()
        invariant
            i <= files@.len(),
            view == hub::scanned_view(files@),
            json::items_view(rows@) == Seq::new(i as nat, |k: int| folder_row(view[k])),
        decreases files@.len() - i,
    {
        assert(view[i as int] == files@[i as int]@);
        push_row(&mut rows, row_of_folder(&files[i]));
        assert(Seq::new((i + 1) as nat, |k: int| folder_row(view[k])) =~= Seq::new(
            i as nat,
            |k: int| folder_row(view[k]),
        ).push(folder_row(view[i as int])));
        i += 1;
    }
    let mut o = JsonObject::new();
    o.insert("models_dir", from_str(models_dir));
    o.insert("lmstudio_dirs", Json::Array(Vec::new()));
    o.insert("ollama_dirs", Json::Array(Vec::new()));
    o.insert("hermes_dirs", Json::Array(Vec::new()));
    o.insert("count", number(files.len() as u64));
    o.insert("models", Json::Array(rows));
    Json::Object(o)
}

// ---------- variants ----------

/// A variant of a repository. Its files are named where the repository lists them, and the number of
/// its parts where it is known.
pub open spec fn entry_row(v: hub::VariantView) -> json::JsonView {
    let o = json::with(json::no_fields(), "filename"@, word(v.filename));
    let o = json::with(o, "quant"@, word(v.quant));
    let o = json::with(o, "display_label"@, word(v.label));
    let o = json::with(o, "size_bytes"@, count(v.size_bytes as int));
    let o = json::with(o, "download_size_bytes"@, count(v.size_bytes as int));
    let o = json::with(o, "downloaded"@, flag(v.downloaded));
    let o = if v.files.len() > 0 {
        json::with(o, "files"@, words(v.files))
    } else {
        o
    };
    json::JsonView::Object(
        match v.shard_count {
            Some(n) => json::with(o, "shard_count"@, count(n as int)),
            None => o,
        },
    )
}

fn row_of_entry(v: &VariantEntry) -> (r: Json)
    ensures
        r@ == entry_row(v@),
{
    let mut o = JsonObject::new();
    o.insert("filename", from_str(v.filename.as_str()));
    o.insert("quant", from_str(v.quant.as_str()));
    o.insert("display_label", from_str(v.display_label.as_str()));
    o.insert("size_bytes", number(v.size_bytes));
    o.insert("download_size_bytes", number(v.size_bytes));
    o.insert("downloaded", Json::Bool(v.downloaded));
    if v.files.len() > 0 {
        o.insert("files", text_list(&v.files));
    }
    if let Some(n) = v.shard_count {
        o.insert("shard_count", number(n));
    }
    Json::Object(o)
}

pub open spec fn variants_json(a: hub::AnswerView) -> json::JsonView {
    let o = json::with(json::no_fields(), "repo_id"@, word(a.repo_id));
    let o = json::with(o, "has_vision"@, flag(a.has_vision));
    let o = json::with(o, "default_variant"@, word(a.default_variant));
    let o = json::with(o, "context_length"@, count(a.context_length as int));
    let o = json::with(o, "resolved_locally"@, flag(a.resolved_locally));
    json::JsonView::Object(
        json::with(
            o,
            "variants"@,
            json::JsonView::Array(
                Seq::new(a.variants.len(), |i: int| entry_row(a.variants[i])),
            ),
        ),
    )
}

/// The variants of a repository.
pub fn repo_variants(answer: &VariantsAnswer) -> (r: Json)
    ensures
        r@ == variants_json(answer@),
{
    let ghost view = hub::variants_view(answer.variants@);
    let mut rows: Vec<Json> = Vec::new();
    let mut i: usize = 0;
    while i < answer.variants.len()
        invariant
            i <= answer.variants@.len(),
            view == hub::variants_view(answer.variants@),
            json::items_view(rows@) == Seq::new(i as nat, |k: int| entry_row(view[k])),
        decreases answer.variants@.len() - i,
    {
        assert(view[i as int] == answer.variants@[i as int]@);
        push_row(&mut rows, row_of_entry(&answer.variants[i]));
        assert(Seq::new((i + 1) as nat, |k: int| entry_row(view[k])) =~= Seq::new(
            i as nat,
            |k: int| entry_row(view[k]),
        ).push(entry_row(view[i as int])));
        i += 1;
    }
    let mut o = JsonObject::new();
    o.insert("repo_id", from_str(answer.repo_id.as_str()));
    o.insert("has_vision", Json::Bool(answer.has_vision));
    o.insert("default_variant", from_str(answer.default_variant.as_str()));
    o.insert("context_length", number(answer.context_length));
    o.insert("resolved_locally", Json::Bool(answer.resolved_locally));
    o.insert("variants", Json::Array(rows));
    Json::Object(o)
}

} // verus!
