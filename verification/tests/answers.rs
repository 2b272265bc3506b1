use serde_json::Value;
use slothforge::answers::{
    cached_models, hub_local, list_local_models, list_models, openai_models, repo_variants,
};
use slothforge::browse::{list_browse_entries, DirEntry, DirKind};
use slothforge::chat_api::settings_patch;
use slothforge::dataset::DatasetError;
use slothforge::download_answers::{
    active_downloads, begin_download, cancel_response, idle_status, job_status, plan_download,
    progress_json, respond, start_response, transport_status, WHOLE_SHARE,
};
use slothforge::download_jobs::{idle_progress, Change, DownloadRegistry, JobState, StartRequest};
use slothforge::downloads::{answer_action, tree_failure, RemoteFile, ResponseAction};
use slothforge::error::ApiError;
use slothforge::gguf::{GGMLType, GGUFError, GGUFFile};
use slothforge::gguf_variants::remote_variants;
use slothforge::hub::{
    answer_from_disk, answer_from_hub, requested_file, requested_repo, scan_local_gguf_files,
    FileEntry, NamedFile, Probe, RepoVariantsQuery, DEFAULT_REPO,
};
use slothforge::hub_tree::{tree_variants, TreeItem};
use slothforge::inference::{
    estimate_memory, kv_cache_estimate, validate_model, KvCacheQuery, ModelRef, ModelRequest,
};
use slothforge::inventory::GgufSummary;
use slothforge::json::{Json, JsonObject, Number};
use slothforge::lora::LoraError;
use slothforge::messages::{dataset_message, gguf_message, lora_message, type_text};
use slothforge::model_answers::{check_answer, estimate_answer, kv_answer, listing_answer};
use slothforge::model_scan::LocalModel;
use slothforge::server::{disk_totals, DiskSpace};

fn convert(value: &Value) -> Json {
    match value {
        Value::Null => Json::Null,
        Value::Bool(b) => Json::Bool(*b),
        Value::Number(n) => Json::Number(match (n.as_u64(), n.as_i64()) {
            (Some(u), _) => Number::Unsigned(u),
            (None, Some(i)) => Number::Negative(i),
            _ => Number::Float(n.as_f64().unwrap().to_bits()),
        }),
        Value::String(s) => Json::Text(s.clone()),
        Value::Array(items) => Json::Array(items.iter().map(convert).collect()),
        Value::Object(map) => {
            let mut object = JsonObject::new();
            for (k, v) in map {
                object.insert(k, convert(v));
            }
            Json::Object(object)
        }
    }
}

fn json(text: &str) -> Json {
    convert(&serde_json::from_str::<Value>(text).unwrap())
}

fn at<'a>(value: &'a Json, key: &str) -> &'a Json {
    value.get(key).unwrap_or(&Json::Null)
}

fn items(value: &Json) -> &Vec<Json> {
    match value {
        Json::Array(items) => items,
        _ => panic!("a list was expected"),
    }
}

fn local(relative: &str, complete: bool, root_index: usize) -> LocalModel {
    let file_name = relative.rsplit('/').next().unwrap().to_string();
    let path = format!("/m/{relative}");
    LocalModel {
        display_name: file_name.trim_end_matches(".gguf").to_string(),
        shard_paths: vec![path.clone()],
        path,
        file_name,
        size_bytes: 1000,
        complete,
        modified_secs: Some(7),
        root_index,
        relative_path: relative.to_string(),
    }
}

fn remote(path: &str, size: u64) -> RemoteFile {
    RemoteFile {
        path: path.to_string(),
        size: Some(size),
    }
}

// ---------- lists of models ----------

#[test]
fn lists_show_whole_models() {
    let models = vec![
        local("org/repo/a-Q8_0.gguf", true, 0),
        local("org/repo/b-Q8_0.gguf", false, 1),
    ];
    assert!(list_models(&models).same(&json(
        "{\"models\": [{\"id\": \"/m/org/repo/a-Q8_0.gguf\", \"name\": \"a-Q8_0\", \"is_vision\": false, \"is_lora\": false, \"is_gguf\": true, \"is_mlx\": false, \"is_audio\": false}], \"default_models\": []}"
    )));
    let all = list_local_models(&models, "/m");
    let rows = items(at(&all, "models"));
    assert_eq!(rows.len(), 2);
    assert_eq!(at(&rows[0], "source").as_str(), Some("models_dir"));
    assert_eq!(at(&rows[1], "source").as_str(), Some("custom"));
    assert_eq!(at(&rows[1], "partial").as_bool(), Some(true));
    assert_eq!(at(&rows[1], "model_id").as_str(), Some("org/repo"));
    assert_eq!(at(&all, "models_dir").as_str(), Some("/m"));
    assert!(openai_models(&models).same(&json(
        "{\"object\": \"list\", \"data\": [{\"id\": \"a-Q8_0\", \"object\": \"model\", \"created\": 7, \"owned_by\": \"slothforge\"}]}"
    )));
}

#[test]
fn lists_show_files_and_their_size() {
    let files = scan_local_gguf_files(&vec![FileEntry {
        path: "/m/x-Q8_0.gguf".to_string(),
        filename: "x-Q8_0.gguf".to_string(),
        size_bytes: 10,
        mtime_epoch_secs: 3,
    }]);
    let cached = cached_models(&files);
    assert_eq!(at(&cached, "total_size_bytes").as_u64(), Some(10));
    let row = &items(at(&cached, "cached"))[0];
    assert_eq!(at(row, "cache_path").as_str(), Some("/m/x-Q8_0.gguf"));
    assert_eq!(at(row, "last_modified").as_u64(), Some(3));
    assert_eq!(
        at(at(row, "capabilities"), "can_delete").as_bool(),
        Some(true)
    );
    let here = hub_local(&files, "/m");
    assert_eq!(at(&here, "count").as_u64(), Some(1));
    assert_eq!(
        at(&items(at(&here, "models"))[0], "path").as_str(),
        Some("models/x-Q8_0.gguf")
    );
}

// ---------- variants ----------

#[test]
fn variants_come_from_disk_before_the_hub() {
    let query = |repo: Option<&str>, path: Option<&str>, prefer: Option<bool>| RepoVariantsQuery {
        repo_id: repo.map(|s| s.to_string()),
        local_path: path.map(|s| s.to_string()),
        prefer_local_cache: prefer,
    };
    assert_eq!(requested_repo(&query(None, None, None)), DEFAULT_REPO);
    assert_eq!(requested_file(&query(Some("o/r"), None, None)), "o/r");
    assert_eq!(requested_file(&query(Some("o/r"), Some("/x"), None)), "/x");

    let named = || {
        Some(NamedFile {
            filename: "m-Q8_0.gguf".to_string(),
            size_bytes: 9,
            context_length: None,
        })
    };
    let by_file = answer_from_disk(&query(Some("o/r"), None, None), named(), &vec![]).unwrap();
    assert_eq!(by_file.repo_id, "o/r");
    assert_eq!(by_file.context_length, 131_072);
    let shown = repo_variants(&by_file);
    let row = &items(at(&shown, "variants"))[0];
    assert_eq!(at(row, "display_label").as_str(), Some("Q8_0 (Downloaded)"));
    assert_eq!(at(row, "shard_count").as_u64(), Some(1));
    assert!(row.get("files").is_none());
    assert!(answer_from_disk(&query(Some("o/r"), None, Some(true)), None, &vec![]).is_none());

    let nothing = Probe {
        exists: false,
        size_bytes: None,
    };
    let guessed = answer_from_hub(&query(Some("o/my-1b"), None, None), None, &vec![], nothing, nothing);
    assert_eq!(guessed.repo_id, "o/my-1b");
    assert_eq!(guessed.variants[0].filename, "my-1b-Q4_K_M.gguf");
    assert!(items(at(&repo_variants(&guessed), "variants"))[0]
        .get("shard_count")
        .is_none());

    let listed = tree_variants(
        &"o/r".to_string(),
        &vec![TreeItem {
            entry_type: "file".to_string(),
            path: "m-Q4_K_M.gguf".to_string(),
            size: None,
            lfs_size: Some(5),
            on_disk: false,
        }],
        &vec![],
    );
    let answer = answer_from_hub(&query(Some("o/r"), None, None), listed, &vec![], nothing, nothing);
    let shown = repo_variants(&answer);
    let row = &items(at(&shown, "variants"))[0];
    assert_eq!(at(row, "size_bytes").as_u64(), Some(5));
    assert_eq!(items(at(row, "files"))[0].as_str(), Some("m-Q4_K_M.gguf"));
}

#[test]
fn variants_say_what_is_left() {
    let variants = remote_variants(&vec![remote("m-Q8_0.gguf", 300)], &vec![], &vec![]);
    let answer = respond("o/r", &variants, true, Some(4096));
    assert_eq!(at(&answer, "default_variant").as_str(), Some("Q8_0"));
    assert_eq!(at(&answer, "context_length").as_u64(), Some(4096));
    assert!(items(at(&answer, "variants"))[0].same(&json(
        "{\"filename\": \"m-Q8_0.gguf\", \"quant\": \"Q8_0\", \"display_label\": null, \"size_bytes\": 300, \"download_size_bytes\": 300, \"shard_count\": 1, \"download_remaining_bytes\": null, \"downloaded\": false, \"update_available\": false, \"partial\": false, \"partial_transport\": null, \"partial_resumable\": false, \"dependency_key\": null}"
    )));
}

// ---------- downloads ----------

fn request(variant: &str, files: Option<Vec<String>>) -> StartRequest {
    StartRequest {
        repo_id: Some("o/r".to_string()),
        gguf_variant: Some(variant.to_string()),
        hf_token: None,
        files,
    }
}

#[test]
fn a_download_is_planned_and_begun_once() {
    let files = vec![remote("m-Q8_0.gguf", 300), remote("m-Q4_K_M.gguf", 100)];
    let plan = || plan_download(&request("Q8_0", None), "o/r".to_string(), &files).unwrap();
    assert_eq!(plan().files.len(), 1);
    assert_eq!(plan().variant, "Q8_0");

    let mut registry = DownloadRegistry::new();
    let whole = begin_download(&mut registry, plan(), &vec![Some(300)]);
    assert_eq!((whole.state, whole.generation), (JobState::Complete, None));
    assert!(registry.snapshot(&whole.job_key).is_none());

    let first = begin_download(&mut registry, plan(), &vec![None]);
    assert!(!first.attached);
    let second = begin_download(&mut registry, plan(), &vec![Some(10)]);
    assert!(second.attached);
    assert_eq!(first.generation, second.generation);
    let shown = start_response(&second);
    assert_eq!(at(&shown, "state").as_str(), Some("running"));
    assert_eq!(at(&shown, "transport").as_str(), Some("http"));
    assert_eq!(at(&shown, "accepted").as_bool(), Some(true));

    let working = active_downloads(&registry, "");
    let row = &items(at(&working, "downloads"))[0];
    assert_eq!(at(row, "repo_id").as_str(), Some("o/r"));
    assert_eq!(items(at(row, "files"))[0].as_str(), Some("m-Q8_0.gguf"));
    assert!(items(at(&active_downloads(&registry, "x/y"), "downloads")).is_empty());

    let generation = first.generation.unwrap();
    let half = 0.5f64.to_bits();
    let job = registry.snapshot(&first.job_key).unwrap();
    assert!(matches!(
        at(&job_status(job, half), "progress"),
        Json::Number(Number::Float(bits)) if *bits == half
    ));
    registry.update(&first.job_key, generation, Change::Finished);
    let job = registry.snapshot(&first.job_key).unwrap();
    assert!(matches!(
        at(&job_status(job, half), "progress"),
        Json::Number(Number::Float(WHOLE_SHARE))
    ));
    assert_eq!(f64::from_bits(WHOLE_SHARE), 1.0);
}

#[test]
fn plans_that_cannot_be_met_are_refused() {
    let files = vec![remote("m-Q8_0.gguf", 300)];
    let wrong = plan_download(&request("Q2_K", None), "o/r".to_string(), &files).unwrap_err();
    assert_eq!(
        (wrong.status, wrong.detail.as_str()),
        (422, "Вариант Q2_K не найден в репозитории")
    );
    let foreign = plan_download(
        &request("Q8_0", Some(vec!["x.gguf".to_string()])),
        "o/r".to_string(),
        &files,
    )
    .unwrap_err();
    assert_eq!(
        foreign.detail,
        "Запрошенные файлы не относятся к выбранному варианту"
    );
}

#[test]
fn states_without_a_job() {
    assert!(cancel_response("k", None).same(&json("{\"job_key\": \"k\", \"state\": \"idle\"}")));
    assert!(cancel_response("k", Some(JobState::Cancelling))
        .same(&json("{\"job_key\": \"k\", \"state\": \"cancelling\"}")));
    assert!(idle_status(true).same(&json(
        "{\"state\": \"complete\", \"error\": null, \"generation\": null}"
    )));
    assert!(transport_status(0).same(&json(
        "{\"has_partial\": false, \"last_transport\": null, \"resumable\": true}"
    )));
    assert!(transport_status(5).same(&json(
        "{\"has_partial\": true, \"last_transport\": \"http\", \"resumable\": true}"
    )));
    let progress = progress_json(&idle_progress(None, 7, Some(10), None), 0.7f64.to_bits());
    assert_eq!(at(&progress, "downloaded_bytes").as_u64(), Some(7));
    assert_eq!(at(&progress, "expected_bytes").as_u64(), Some(10));
    assert_eq!(at(&progress, "cache_measured").as_bool(), Some(true));
}

#[test]
fn statuses_are_said_in_words() {
    assert_eq!(
        tree_failure(500, "o/r").as_deref(),
        Some("Hugging Face ответил HTTP 500 Internal Server Error на список файлов")
    );
    assert_eq!(tree_failure(204, "o/r"), None);
    match answer_action(418, &remote("m.gguf", 5), 0) {
        ResponseAction::Fail(why) => assert_eq!(
            why,
            "Hugging Face ответил HTTP 418 I'm a teapot на файл m.gguf"
        ),
        _ => panic!("the answer is no file"),
    }
    match answer_action(599, &remote("m.gguf", 5), 0) {
        ResponseAction::Fail(why) => assert_eq!(
            why,
            "Hugging Face ответил HTTP 599 <unknown status code> на файл m.gguf"
        ),
        _ => panic!("the answer is no file"),
    }
}

// ---------- requests about a model ----------

fn summary() -> GgufSummary {
    GgufSummary {
        architecture: Some("llama".to_string()),
        context_length: Some(8192),
        block_count: Some(16),
        embedding_length: Some(2048),
        head_count: Some(32),
        head_count_kv: Some(8),
        key_length: Some(64),
        value_length: Some(64),
        expert_count: None,
        uses_sliding_window: false,
        shares_kv_between_layers: false,
        parameter_count: 0,
        tensor_count: 0,
        chat_template: Some("t".to_string()),
    }
}

#[test]
fn memory_is_answered() {
    let request = ModelRequest {
        model_path: None,
        gguf_variant: None,
        include_chat_template: false,
        n_ctx: Some(4096),
        cache_type_kv: None,
        n_parallel: None,
    };
    let none = estimate_answer(&estimate_memory(&request, None, None).unwrap());
    assert_eq!(at(&none, "available").as_bool(), Some(false));
    assert_eq!(at(&none, "reason").as_str(), Some("not_downloaded"));
    assert_eq!(at(&none, "n_parallel").as_u64(), Some(1));
    let model = local("a.gguf", true, 0);
    let sized =
        estimate_answer(&estimate_memory(&request, Some(&model), Some(&summary())).unwrap());
    assert_eq!(at(&sized, "available").as_bool(), Some(true));
    assert!(at(&sized, "reason").is_null());
    assert_eq!(at(&sized, "kv_bytes").as_u64(), Some(134_217_728));
    assert_eq!(at(&sized, "cache_type_kv").as_str(), Some("f16"));

    let query = KvCacheQuery {
        repo_id: "a".to_string(),
        quant: None,
        n_ctx: None,
        cache_type_kv: None,
    };
    let size = kv_cache_estimate(&query, Some(&model), Some(&summary())).unwrap();
    let shown = kv_answer(&size, query.n_ctx, Some(8192));
    assert_eq!(at(&shown, "n_ctx").as_u64(), Some(8192));
    assert_eq!(at(&shown, "native_context").as_u64(), Some(8192));
    assert_eq!(at(&shown, "weights_bytes").as_u64(), Some(1000));
    let unknown = kv_answer(&None, Some(5), None);
    assert_eq!(at(&unknown, "n_ctx").as_u64(), Some(5));
    assert!(at(&unknown, "total_bytes").is_null());
}

#[test]
fn checks_say_only_what_is_known() {
    let models = vec![local("a.gguf", true, 0)];
    let read = check_answer(&validate_model(
        &models,
        &ModelRef::Local(0),
        "a",
        Ok(summary()),
        false,
        true,
    ));
    assert_eq!(at(&read, "chat_template").as_str(), Some("t"));
    assert_eq!(at(&read, "is_diffusion").as_bool(), Some(false));
    let unread = check_answer(&validate_model(
        &models,
        &ModelRef::Local(0),
        "a",
        Err(ApiError::internal("сломан".to_string())),
        false,
        true,
    ));
    assert!(unread.same(&json(
        "{\"valid\": false, \"message\": \"сломан\", \"identifier\": \"/m/a.gguf\", \"display_name\": \"a\", \"is_gguf\": true}"
    )));
    let elsewhere = check_answer(&validate_model(
        &models,
        &ModelRef::NotDownloaded("o/r-GGUF".to_string()),
        "o/r-GGUF",
        Err(ApiError::internal("unread".to_string())),
        false,
        true,
    ));
    assert!(elsewhere.same(&json(
        "{\"valid\": true, \"message\": \"Модель ещё не скачана\", \"display_name\": \"r-GGUF\", \"is_gguf\": true, \"identifier\": \"o/r-GGUF\", \"is_lora\": false, \"is_vision\": false, \"context_length\": null, \"layer_count\": null, \"moe_layer_count\": null, \"chat_template\": null}"
    )));
    let missing = check_answer(&validate_model(
        &models,
        &ModelRef::Missing,
        "x",
        Err(ApiError::internal("unread".to_string())),
        false,
        true,
    ));
    assert!(missing.same(&json(
        "{\"valid\": false, \"message\": \"Модель «x» не найдена в папках моделей\", \"identifier\": \"x\"}"
    )));
}

#[test]
fn a_listed_folder_is_answered() {
    let listing = list_browse_entries(
        "/m/sub",
        &Some("/m".to_string()),
        &vec!["/m".to_string()],
        false,
        &vec![DirEntry {
            name: "a".to_string(),
            kind: DirKind::Folder,
            names: vec!["x.gguf".to_string()],
        }],
    );
    assert!(listing_answer(&listing, &vec!["/m".to_string()]).same(&json(
        "{\"current\": \"/m/sub\", \"parent\": \"/m\", \"entries\": [{\"name\": \"a\", \"has_models\": true, \"hidden\": false}], \"suggestions\": [\"/m\"], \"truncated\": false, \"model_files_here\": 0}"
    )));
}

#[test]
fn chat_settings_are_an_object() {
    assert!(settings_patch(json("{\"a\": 1}")).is_ok());
    let refused = settings_patch(json("[]")).unwrap_err();
    assert_eq!(
        (refused.status, refused.detail.as_str()),
        (400, "Настройки чата должны быть JSON-объектом")
    );
}

#[test]
fn the_disk_of_the_system_is_shown() {
    let disk = |mount: &str, total: u64, free: u64| DiskSpace {
        mount: mount.to_string(),
        total_bytes: total,
        free_bytes: free,
    };
    assert_eq!(
        disk_totals(&vec![disk("/home", 5, 1), disk("/", 7, 2)]),
        (7, 2)
    );
    assert_eq!(disk_totals(&vec![disk("/a", 5, 1), disk("/b", 7, 2)]), (12, 3));
    assert_eq!(disk_totals(&vec![]), (0, 0));
}

// ---------- words ----------

#[test]
fn errors_have_words() {
    let not_gguf = GGUFFile::from_bytes(b"PK\x03\x04rest").map(|_| ()).unwrap_err();
    assert_eq!(
        gguf_message(&not_gguf, ""),
        "Это не GGUF-файл: магическое число 0x04034b50 вместо 0x46554747"
    );
    assert_eq!(
        gguf_message(&GGUFError::UnsupportedVersion(9), ""),
        "Версия GGUF 9 не поддерживается (нужна 2 или 3)"
    );
    assert_eq!(
        gguf_message(
            &GGUFError::CountTooLarge {
                what: "метаданные",
                count: 5
            },
            ""
        ),
        "Слишком большое число записей (5) для метаданные: файл повреждён"
    );
    assert_eq!(
        gguf_message(
            &GGUFError::PartialBlock {
                name: "w".to_string(),
                elements: 33,
                tensor_type: "Q8_0"
            },
            ""
        ),
        "Число элементов тензора «w» (33) не кратно размеру блока типа Q8_0"
    );
    assert_eq!(
        gguf_message(
            &GGUFError::TooManyDimensions {
                name: "w".to_string(),
                dims: 5
            },
            ""
        ),
        "У тензора «w» 5 измерений (максимум 4)"
    );
    assert_eq!(
        gguf_message(&GGUFError::TensorNotFound("w".to_string()), ""),
        "Тензор «w» не найден"
    );
    assert_eq!(
        lora_message(&LoraError::DimensionMismatch {
            expected: 12,
            actual: 11
        }),
        "Dimension mismatch: expected 12, got 11"
    );
    assert_eq!(
        lora_message(&LoraError::LayerNotFound("q".to_string())),
        "Layer 'q' not found"
    );
    assert_eq!(
        dataset_message(&DatasetError::EmptyDataset),
        "Empty dataset provided"
    );
    assert_eq!(type_text(GGMLType::Unknown(99)), "unknown(99)");
    assert_eq!(type_text(GGMLType::Q4_K), "Q4_K");
}
