use serde_json::Value;
use slothforge::browse::{
    contains_gguf, list_browse_entries, requested_dir, show_hidden, DirEntry, DirKind,
    MAX_BROWSE_ENTRIES,
};
use slothforge::decimals::{format_bytes, format_parameters};
use slothforge::deletion::{calculate_delete_impact, delete_request, delete_targets};
use slothforge::error::ApiError;
use slothforge::ggml::GGMLType;
use slothforge::hub::{
    cached_file_variants, local_attempts, local_file_variants, offline_guess, offline_variants,
    scan_local_gguf_files, FileEntry, Probe,
};
use slothforge::hub_tree::{tree_variants, TreeItem};
use slothforge::inference::{
    estimate_memory, kv_cache_estimate, load_model, parse_cache_type, resolve_model,
    validate_model, KvCacheQuery, MemoryEstimate, ModelRef, ModelRequest,
    COMPUTE_BUFFER_ESTIMATE_BYTES,
};
use slothforge::inventory::{kv_cache_bytes, GgufSummary};
use slothforge::json::{Json, JsonObject, Number};
use slothforge::local_files::{
    cached_model_path, cached_model_place, cached_model_request, described_model, model_roots,
    resolve_local_gguf_file, total_size,
};
use slothforge::model_scan::{
    enters_folder, has_projector, is_projector_name, scan_models, split_shard_name, EntryKind,
    Folder, FolderEntry, LocalModel, MAX_SCAN_DEPTH,
};
use slothforge::models::{discover_models, ModelFile, ModelHeader};
use slothforge::names::{
    estimate_model_quant_sizes, extract_quant_from_path, file_matches_repo_and_quant,
    infer_repo_id_from_gguf_filename, is_auxiliary_gguf_file,
};
use slothforge::paths::{
    is_plain_file_name, join, path_candidates, resolve_existing_dir_within,
    resolve_existing_file_within, resolve_existing_within, Found, PathKind, PathRejection,
};
use slothforge::scan_folders::{
    add_folder, append_folder, drop_folder, folder_status, remove_folder, requested_folder,
    validate_folder, AddFolderRequest, FolderProbe, ReadOutcome, ScanFolderEntry, StoredFolders,
};

fn convert(value: &Value) -> Json {
    match value {
        Value::Null => Json::Null,
        Value::Bool(b) => Json::Bool(*b),
        Value::Number(n) => Json::Number(match (n.as_u64(), n.as_i64()) {
            (Some(u), _) => Number::Unsigned(u),
            (None, Some(i)) => Number::Negative(i),
            _ => Number::Float(n.as_f64().unwrap().to_bits()),
        }),
        Value::String(s) => Json::Text(s.clone()),
        Value::Array(items) => Json::Array(items.iter().map(convert).collect()),
        Value::Object(map) => {
            let mut object = JsonObject::new();
            for (k, v) in map {
                object.insert(k, convert(v));
            }
            Json::Object(object)
        }
    }
}

fn json(text: &str) -> Json {
    convert(&serde_json::from_str::<Value>(text).unwrap())
}

fn texts(items: &[&str]) -> Vec<String> {
    items.iter().map(|s| s.to_string()).collect()
}

// ---------- files of models ----------

#[test]
fn parses_shard_names() {
    assert_eq!(
        split_shard_name("DeepSeek-UD-Q4_K_XL-00002-of-00005.gguf"),
        Some(("DeepSeek-UD-Q4_K_XL".to_string(), 2, 5))
    );
    assert_eq!(split_shard_name("Llama-3.2-1B-Instruct-Q4_K_M.gguf"), None);
    assert_eq!(split_shard_name("model-2-of-5.gguf"), None);
    assert_eq!(split_shard_name("model-00006-of-00005.gguf"), None);
}

fn file(dir: &str, name: &str, size: u64) -> FolderEntry {
    FolderEntry {
        name: name.to_string(),
        kind: EntryKind::File,
        canonical: Some(format!("{dir}/{name}")),
        opens_as_file: true,
        size: Some(size),
        modified: Some(1),
    }
}

fn folder(path: &str, entries: Vec<FolderEntry>) -> FolderEntry {
    FolderEntry {
        name: path.rsplit('/').next().unwrap().to_string(),
        kind: EntryKind::Folder(Folder {
            path: path.to_string(),
            entries,
        }),
        canonical: Some(path.to_string()),
        opens_as_file: false,
        size: None,
        modified: None,
    }
}

fn models_folder() -> Folder {
    let shards = (1..=3)
        .map(|i| file("/m/org/repo/UD-Q4", &format!("big-{i:05}-of-00003.gguf"), 8))
        .collect();
    Folder {
        path: "/m".to_string(),
        entries: vec![
            file("/m", "single-Q8_0.gguf", 4),
            file("/m", "mmproj-F16.gguf", 4),
            file("/m", "notes.txt", 1),
            folder(
                "/m/org",
                vec![folder(
                    "/m/org/repo",
                    vec![folder("/m/org/repo/UD-Q4", shards)],
                )],
            ),
            folder(
                "/m/partial",
                vec![file("/m/partial", "half-00001-of-00002.gguf", 4)],
            ),
        ],
    }
}

#[test]
fn scans_nested_folders_shards_and_skips_projectors() {
    let models = scan_models(&vec![Some(models_folder()), Some(models_folder())]);
    let names: Vec<&str> = models.iter().map(|m| m.display_name.as_str()).collect();
    assert_eq!(names, ["big", "half", "single-Q8_0"]);

    let big = &models[0];
    assert_eq!(big.shard_paths.len(), 3);
    assert_eq!(big.size_bytes, 24);
    assert!(big.complete);
    assert!(!models[1].complete);

    assert_eq!(big.repo_id(), "org/repo");
    assert_eq!(big.path_in_repo(), "UD-Q4/big-00001-of-00003.gguf");
    assert!(scan_models(&vec![None]).is_empty());

    let once = scan_models(&vec![Some(models_folder()), None]);
    let again = scan_models(&vec![Some(models_folder()), None, Some(models_folder())]);
    assert_eq!(format!("{once:?}"), format!("{again:?}"));
    assert!(enters_folder("repo", 0, false));
    assert!(enters_folder(".cache", 0, true));
    assert!(!enters_folder(".cache", 0, false));
    assert!(!enters_folder("repo", MAX_SCAN_DEPTH, true));
}

#[test]
fn a_projector_is_no_model_and_parts_are_one() {
    let dir = Folder {
        path: "/m".to_string(),
        entries: vec![
            file("/m", "big-MMProj-Q8_0.gguf", 4),
            file("/m", ".hidden.gguf", 4),
            file("/m", "part-00001-of-00003.gguf", 5),
            file("/m", "part-00003-of-00003.gguf", 7),
        ],
    };
    let models = scan_models(&vec![Some(dir)]);
    assert_eq!(models.len(), 1);
    assert_eq!(models[0].display_name, "part");
    assert!(!models[0].complete);
    assert_eq!(models[0].size_bytes, 12);
    assert_eq!(models[0].shard_paths.len(), 2);
}

#[test]
fn projectors_are_known_by_their_names() {
    assert!(is_projector_name("mmproj-F16.gguf"));
    assert!(!is_projector_name("model.gguf"));
    assert!(has_projector(&texts(&["a.gguf", "model-MMPROJ.gguf"])));
    assert!(!has_projector(&texts(&["mmproj.txt"])));
}

fn llama_like() -> GgufSummary {
    GgufSummary {
        architecture: Some("llama".to_string()),
        context_length: None,
        block_count: Some(16),
        embedding_length: Some(2048),
        head_count: Some(32),
        head_count_kv: Some(8),
        key_length: Some(64),
        value_length: Some(64),
        expert_count: None,
        uses_sliding_window: false,
        shares_kv_between_layers: false,
        parameter_count: 0,
        tensor_count: 0,
        chat_template: None,
    }
}

#[test]
fn kv_cache_matches_llama_cpp_for_llama_3_2_1b() {
    let bytes = kv_cache_bytes(&llama_like(), 4096, GGMLType::F16).unwrap();
    assert_eq!(bytes, 128 * 1024 * 1024);
    let q8 = kv_cache_bytes(&llama_like(), 4096, GGMLType::Q8_0).unwrap();
    assert_eq!(q8, 128 * 1024 * 1024 / 2 * 34 / 32);
}

#[test]
fn kv_cache_is_not_invented_for_complex_architectures() {
    let mut gemma_like = llama_like();
    gemma_like.uses_sliding_window = true;
    assert_eq!(kv_cache_bytes(&gemma_like, 4096, GGMLType::F16), None);

    let mut missing_dims = llama_like();
    missing_dims.head_count_kv = None;
    missing_dims.head_count = None;
    assert_eq!(kv_cache_bytes(&missing_dims, 4096, GGMLType::F16), None);
}

#[test]
fn kv_cache_never_overflows_silently() {
    assert_eq!(kv_cache_bytes(&llama_like(), u64::MAX, GGMLType::F16), None);
    assert_eq!(
        kv_cache_bytes(&llama_like(), 4096, GGMLType::Unknown(99)),
        None
    );
    let mut shared = llama_like();
    shared.shares_kv_between_layers = true;
    assert_eq!(kv_cache_bytes(&shared, 4096, GGMLType::F16), None);
    assert_eq!(shared.moe_layer_count(), Some(0));
    shared.expert_count = Some(8);
    assert_eq!(shared.moe_layer_count(), Some(16));
}

#[test]
fn formats_parameter_counts() {
    assert_eq!(format_parameters(1_235_814_432), "1.24 млрд");
    assert_eq!(format_parameters(350_000_000), "350 млн");
}

#[test]
fn parameter_counts_are_rounded_as_doubles_are() {
    let mut seed: u64 = 88172645463325252;
    for k in 0..20_000u64 {
        seed ^= seed << 13;
        seed ^= seed >> 7;
        seed ^= seed << 17;
        let n = if k % 2 == 0 { seed >> (k % 60) } else { k * 2_500_000 };
        let expected = if n >= 1_000_000_000 {
            format!("{:.2} млрд", n as f64 / 1_000_000_000.0)
        } else {
            format!("{:.0} млн", n as f64 / 1_000_000.0)
        };
        assert_eq!(format_parameters(n), expected);
    }
}

#[test]
fn sizes_are_rounded_as_doubles_are() {
    let mut seed: u64 = 123456789;
    for k in 0..20_000u64 {
        seed ^= seed << 13;
        seed ^= seed >> 7;
        seed ^= seed << 17;
        let n = seed >> (k % 60);
        let expected = if n >= 1 << 30 {
            format!("{:.2} GB", n as f64 / (1024.0 * 1024.0 * 1024.0))
        } else if n >= 1 << 20 {
            format!("{:.1} MB", n as f64 / (1024.0 * 1024.0))
        } else {
            format!("{n} B")
        };
        assert_eq!(format_bytes(n), expected);
    }
    assert_eq!(format_bytes(0), "0 B");
}

// ---------- the engine's answers ----------

fn local(path: &str, relative: &str, complete: bool) -> LocalModel {
    let name = relative.rsplit('/').next().unwrap().to_string();
    LocalModel {
        path: path.to_string(),
        display_name: name.trim_end_matches(".gguf").to_string(),
        file_name: name,
        shard_paths: vec![path.to_string()],
        size_bytes: 1000,
        complete,
        modified_secs: None,
        root_index: 0,
        relative_path: relative.to_string(),
    }
}

#[test]
fn parses_kv_cache_types() {
    assert_eq!(parse_cache_type(&None).unwrap().0, GGMLType::F16);
    assert_eq!(
        parse_cache_type(&Some("q8_0".to_string())).unwrap().0,
        GGMLType::Q8_0
    );
    assert!(parse_cache_type(&Some("turbo".to_string())).is_err());
}

#[test]
fn models_are_found_by_file_and_by_repository() {
    let models = vec![
        local("/m/org/repo/a-Q8_0.gguf", "org/repo/a-Q8_0.gguf", true),
        local("/m/org/repo/a-Q4_K_M.gguf", "org/repo/a-Q4_K_M.gguf", true),
    ];
    let by_file = resolve_model(
        &models,
        "/m/org/repo/a-Q4_K_M.gguf",
        true,
        &None,
        &Some("/m/org/repo/a-Q4_K_M.gguf".to_string()),
    );
    assert!(matches!(by_file, Ok(ModelRef::Local(1))));
    let by_variant = resolve_model(&models, "ORG/Repo", false, &Some(" q4_k_m ".to_string()), &None);
    assert!(matches!(by_variant, Ok(ModelRef::Local(1))));
    let any = resolve_model(&models, "org/repo", false, &None, &None);
    assert!(matches!(any, Ok(ModelRef::Local(0))));
    match resolve_model(&models, "org/other", false, &None, &None) {
        Ok(ModelRef::NotDownloaded(id)) => assert_eq!(id, "org/other"),
        _ => panic!("the repository is not on disk"),
    }
    assert!(matches!(
        resolve_model(&models, "word", false, &None, &None),
        Ok(ModelRef::Missing)
    ));
    assert_eq!(
        resolve_model(&models, "  ", false, &None, &None).unwrap_err().status,
        400
    );
}

#[test]
fn memory_is_estimated_from_the_header() {
    let model = local("/m/a.gguf", "a.gguf", true);
    let request = ModelRequest {
        model_path: Some("/m/a.gguf".to_string()),
        gguf_variant: None,
        include_chat_template: false,
        n_ctx: Some(4096),
        cache_type_kv: None,
        n_parallel: Some(0),
    };
    match estimate_memory(&request, Some(&model), Some(&llama_like())).unwrap() {
        MemoryEstimate::Sized {
            size,
            n_parallel,
            layer_count,
            ..
        } => {
            assert_eq!(size.weights_bytes, 1000);
            assert_eq!(size.kv_bytes, Some(134_217_728));
            assert_eq!(
                size.total_bytes,
                1000 + 134_217_728 + COMPUTE_BUFFER_ESTIMATE_BYTES
            );
            assert_eq!(n_parallel, 1);
            assert_eq!(layer_count, Some(16));
        }
        MemoryEstimate::Unavailable(_) => panic!("the model can be sized"),
    }
    assert!(matches!(
        estimate_memory(&request, None, None).unwrap(),
        MemoryEstimate::Unavailable("not_downloaded")
    ));
    assert!(matches!(
        estimate_memory(&request, Some(&model), None).unwrap(),
        MemoryEstimate::Unavailable("unsizable")
    ));
    let query = KvCacheQuery {
        repo_id: "a".to_string(),
        quant: None,
        n_ctx: None,
        cache_type_kv: Some("turbo".to_string()),
    };
    assert!(kv_cache_estimate(&query, Some(&model), Some(&llama_like())).is_err());
    assert!(kv_cache_estimate(&query, None, None).unwrap().is_none());
}

#[test]
fn loading_and_checking_say_what_is_wrong() {
    let models = vec![
        local("/m/a.gguf", "a.gguf", true),
        local("/m/b.gguf", "b.gguf", false),
    ];
    let missing = load_model(
        &models,
        &ModelRef::Missing,
        "x",
        Err(ApiError::internal("unread".to_string())),
    );
    assert_eq!(missing.status, 404);
    assert_eq!(missing.detail, "Модель «x» не найдена в папках моделей");
    let elsewhere = load_model(
        &models,
        &ModelRef::NotDownloaded("o/r".to_string()),
        "o/r",
        Err(ApiError::internal("unread".to_string())),
    );
    assert_eq!(
        elsewhere.detail,
        "Модель o/r ещё не скачана: сначала загрузите её во вкладке Hub"
    );
    let loaded = load_model(&models, &ModelRef::Local(0), "a", Ok(llama_like()));
    assert_eq!(loaded.status, 503);
    let good = validate_model(&models, &ModelRef::Local(0), "a", Ok(llama_like()), true, true);
    assert!(good.valid && good.is_gguf && good.is_vision);
    assert_eq!(good.layer_count, Some(16));
    let partial = validate_model(&models, &ModelRef::Local(1), "b", Ok(llama_like()), false, false);
    assert!(!partial.valid);
    let gone = validate_model(
        &models,
        &ModelRef::Missing,
        "x",
        Err(ApiError::internal("unread".to_string())),
        false,
        false,
    );
    assert!(!gone.valid);
    assert_eq!(gone.message, "Модель «x» не найдена в папках моделей");
}

// ---------- paths ----------

const ROOT: &str = "/base/models";

fn roots() -> Vec<String> {
    vec![ROOT.to_string()]
}

fn found(path: &str, kind: PathKind) -> Vec<Option<Found>> {
    vec![Some(Found {
        path: path.to_string(),
        kind,
    })]
}

#[test]
fn accepts_relative_file_inside_root() {
    assert_eq!(
        path_candidates(&roots(), "model.gguf", false).unwrap(),
        ["/base/models/model.gguf"]
    );
    let resolved = resolve_existing_file_within(
        &roots(),
        "model.gguf",
        &found("/base/models/model.gguf", PathKind::File),
    )
    .unwrap();
    assert_eq!(resolved.path, join(ROOT, "model.gguf"));
}

#[test]
fn accepts_absolute_file_inside_root() {
    let absolute = "/base/models/model.gguf";
    assert_eq!(path_candidates(&roots(), absolute, true).unwrap(), [absolute]);
    assert!(
        resolve_existing_file_within(&roots(), absolute, &found(absolute, PathKind::File)).is_ok()
    );
}

#[test]
fn rejects_absolute_path_outside_root() {
    let outside = "/base/secret.txt";
    let result = resolve_existing_within(&roots(), outside, &found(outside, PathKind::File));
    assert!(matches!(result, Err(PathRejection::OutsideRoots)));
}

#[test]
fn rejects_parent_traversal() {
    let result = resolve_existing_within(
        &roots(),
        "../secret.txt",
        &found("/base/secret.txt", PathKind::File),
    );
    assert!(matches!(result, Err(PathRejection::OutsideRoots)));
}

#[test]
fn reports_missing_and_invalid() {
    assert!(matches!(
        resolve_existing_within(&roots(), "nope.gguf", &vec![None]),
        Err(PathRejection::NotFound)
    ));
    assert!(matches!(
        resolve_existing_within(&roots(), "   ", &vec![]),
        Err(PathRejection::Invalid)
    ));
    assert!(matches!(
        resolve_existing_file_within(
            &roots(),
            "sub",
            &found("/base/models/sub", PathKind::Folder)
        ),
        Err(PathRejection::Invalid)
    ));
}

#[test]
fn rejects_symlink_escaping_root() {
    let result = resolve_existing_within(
        &roots(),
        "link.gguf",
        &found("/base/secret.txt", PathKind::File),
    );
    assert!(matches!(result, Err(PathRejection::OutsideRoots)));
}

#[test]
fn plain_file_name_check() {
    assert!(is_plain_file_name("Q4_K_M.gguf"));
    assert!(!is_plain_file_name("../Q4_K_M.gguf"));
    assert!(!is_plain_file_name("sub/Q4_K_M.gguf"));
    assert!(!is_plain_file_name(".."));
    assert!(!is_plain_file_name(""));
}

#[test]
fn a_neighbour_with_the_same_start_is_outside() {
    let near = "/base/models2/x.gguf";
    assert!(matches!(
        resolve_existing_within(&roots(), near, &found(near, PathKind::File)),
        Err(PathRejection::OutsideRoots)
    ));
    assert!(resolve_existing_dir_within(
        &roots(),
        "sub",
        &found("/base/models/sub", PathKind::Folder)
    )
    .is_ok());
    assert!(matches!(
        resolve_existing_within(&roots(), "a\0b", &vec![]),
        Err(PathRejection::Invalid)
    ));
    assert_eq!(
        ApiError::from_path_rejection(PathRejection::OutsideRoots, "файл").status,
        403
    );
    assert_eq!(
        ApiError::from_path_rejection(PathRejection::NotFound, "файл").status,
        404
    );
    assert_eq!(
        ApiError::from_path_rejection(PathRejection::Invalid, "файл").status,
        400
    );
}

// ---------- folders of the user ----------

#[test]
fn folders_are_added_and_removed_under_new_numbers() {
    let mut stored = StoredFolders {
        next_id: 0,
        folders: vec![],
    };
    let main = Some("/m".to_string());
    let at = "2026-09-13T00:00:00Z".to_string();
    assert_eq!(
        add_folder(&mut stored, &main, &"/a".to_string(), &at).unwrap(),
        1
    );
    assert_eq!(
        add_folder(&mut stored, &main, &"/b".to_string(), &at).unwrap(),
        2
    );
    assert_eq!(
        add_folder(&mut stored, &main, &"/a".to_string(), &at)
            .unwrap_err()
            .status,
        409
    );
    assert_eq!(
        add_folder(&mut stored, &main, &"/m".to_string(), &at)
            .unwrap_err()
            .status,
        409
    );
    for same in ["/m/", "//m", "/./a/", "/b/."] {
        assert_eq!(
            add_folder(&mut stored, &main, &same.to_string(), &at)
                .unwrap_err()
                .status,
            409
        );
    }
    remove_folder(&mut stored, 2).unwrap();
    assert_eq!(
        add_folder(&mut stored, &main, &"/c".to_string(), &at).unwrap(),
        3
    );
    assert_eq!(remove_folder(&mut stored, 9).unwrap_err().status, 404);
    assert_eq!(
        model_roots("/m", &stored.folders),
        ["/m", "/a", "/c"]
    );

    let mut listed: Vec<ScanFolderEntry> = vec![];
    append_folder(&mut listed, "/x".to_string(), at.clone());
    append_folder(&mut listed, "/y".to_string(), at);
    assert_eq!(listed[1].id, 2);
    drop_folder(&mut listed, 1);
    assert_eq!(listed.len(), 1);
    assert_eq!(listed[0].path, "/y");
}

#[test]
fn requested_folders_are_checked() {
    let request = |path: Option<&str>| AddFolderRequest {
        path: path.map(|p| p.to_string()),
    };
    assert_eq!(requested_folder(&request(Some(" /a ")), true).unwrap(), "/a");
    assert_eq!(
        requested_folder(&request(None), false).unwrap_err().detail,
        "Укажите путь к папке"
    );
    assert_eq!(
        requested_folder(&request(Some("a")), false).unwrap_err().detail,
        "Нужен полный путь к папке, а не «a»"
    );
    let probe = |is_folder: bool, unreadable: Option<&str>| FolderProbe::Found {
        canonical: "/real".to_string(),
        is_folder,
        is_root: false,
        unreadable: unreadable.map(|s| s.to_string()),
    };
    assert_eq!(validate_folder("/a", &probe(true, None)).unwrap(), "/real");
    assert_eq!(
        validate_folder("/a", &FolderProbe::NotFound).unwrap_err().status,
        400
    );
    assert_eq!(
        validate_folder("/a", &FolderProbe::PermissionDenied)
            .unwrap_err()
            .status,
        403
    );
    assert!(validate_folder("/a", &FolderProbe::Failed("io".to_string())).is_err());
    assert!(validate_folder("/a", &probe(false, None)).is_err());
    assert!(validate_folder("/a", &probe(true, Some("io"))).is_err());
    let root = FolderProbe::Found {
        canonical: "/".to_string(),
        is_folder: true,
        is_root: true,
        unreadable: None,
    };
    assert_eq!(validate_folder("/", &root).unwrap_err().status, 400);
    assert_eq!(folder_status(ReadOutcome::Read), "ok");
    assert_eq!(folder_status(ReadOutcome::NotFound), "missing");
    assert_eq!(folder_status(ReadOutcome::PermissionDenied), "permission_denied");
    assert_eq!(folder_status(ReadOutcome::Other), "unreadable");
}

#[test]
fn folders_are_browsed() {
    assert!(show_hidden(&json("{\"show_hidden\": \"true\"}")));
    assert!(!show_hidden(&json("{}")));
    assert_eq!(
        requested_dir(&json("{\"path\": \"/\"}"), "/m", true, &None).unwrap(),
        "/m"
    );
    assert_eq!(
        requested_dir(&json("{}"), "/m", false, &Some("/home".to_string())).unwrap(),
        "/home"
    );
    assert_eq!(
        requested_dir(&json("{\"path\": \" /x \"}"), "/m", true, &None).unwrap(),
        "/x"
    );
    assert!(requested_dir(&json("{}"), "/m", false, &None).is_err());
    assert!(contains_gguf(&texts(&["x", "M.GGUF"])));

    let dir = |name: &str, kind: DirKind, names: &[&str]| DirEntry {
        name: name.to_string(),
        kind,
        names: texts(names),
    };
    let entries = vec![
        dir("zeta", DirKind::Folder, &["a.gguf"]),
        dir("Alpha", DirKind::Folder, &[]),
        dir(".git", DirKind::Folder, &[]),
        dir("m.gguf", DirKind::File, &[]),
        dir("link", DirKind::Other, &[]),
    ];
    let listing = list_browse_entries(
        "/base/models",
        &Some("/base".to_string()),
        &roots(),
        false,
        &entries,
    );
    assert_eq!(listing.parent, None);
    assert_eq!(listing.model_files_here, 1);
    assert!(!listing.truncated);
    assert_eq!(listing.entries.len(), 2);
    assert!(listing
        .entries
        .iter()
        .any(|e| e.name == "zeta" && e.has_models && !e.hidden));
    let all = list_browse_entries(
        "/base/models/sub",
        &Some("/base/models".to_string()),
        &roots(),
        true,
        &entries,
    );
    assert_eq!(all.parent.as_deref(), Some("/base/models"));
    assert_eq!(all.entries.len(), 3);

    let many: Vec<DirEntry> = (0..MAX_BROWSE_ENTRIES + 1)
        .map(|i| dir(&format!("d{i}"), DirKind::Folder, &[]))
        .collect();
    let cut = list_browse_entries("/base/models", &None, &roots(), false, &many);
    assert!(cut.truncated);
    assert_eq!(cut.entries.len(), MAX_BROWSE_ENTRIES);
}

// ---------- names ----------

#[test]
fn quantizations_and_repositories_are_read_from_names() {
    assert_eq!(extract_quant_from_path("m-UD-Q4_K_XL.gguf"), "UD-Q4_K_XL");
    assert_eq!(extract_quant_from_path("m-q8_0.gguf"), "m-q8_0");
    assert_eq!(extract_quant_from_path("q8_0/m.gguf"), "Q8_0");
    assert!(is_auxiliary_gguf_file("mmproj-F16.gguf"));
    assert!(is_auxiliary_gguf_file("Модель-MMPROJ.gguf"));
    assert!(!is_auxiliary_gguf_file("Q4_K_M/m-00001-of-00002.gguf"));
    assert_eq!(
        infer_repo_id_from_gguf_filename("Llama-3.2-1B-Instruct-Q4_K_M.gguf"),
        "unsloth/Llama-3.2-1B-Instruct-GGUF"
    );
    assert!(file_matches_repo_and_quant(
        "Llama-3.2-1B-Instruct-Q4_K_M.gguf",
        "unsloth/Llama-3.2-1B-Instruct-GGUF",
        "Q4_K_M"
    ));
    let (q4, q8, _) = estimate_model_quant_sizes("org/model-1B");
    assert!(0 < q4 && q4 < q8);
    assert_eq!(estimate_model_quant_sizes("model-1b"), (950_000_000, 1_700_000_000, true));
    for same in ["org/model-1B", "a/b/MODEL-1b", "70b/model-1B", "ΣΑΣ/MODEL-1B", "яЯ/model-1b"] {
        assert_eq!(
            estimate_model_quant_sizes(same),
            estimate_model_quant_sizes("model-1b")
        );
    }
}

#[test]
fn scanned_files_come_with_what_their_names_tell() {
    let entry = |name: &str, mtime: u64| FileEntry {
        path: format!("/m/{name}"),
        filename: name.to_string(),
        size_bytes: 10,
        mtime_epoch_secs: mtime,
    };
    let files = scan_local_gguf_files(&vec![
        entry("Llama-3.2-1B-Instruct-Q4_K_M.gguf", 5),
        entry("notes.txt", 6),
        entry("Llama-3.2-1B-Instruct-Q8_0.gguf", 7),
    ]);
    assert_eq!(files.len(), 2);
    assert_eq!(total_size(&files), 20);
    let repo = "unsloth/Llama-3.2-1B-Instruct-GGUF".to_string();
    assert_eq!(calculate_delete_impact(&files, &repo, &None), 20);
    assert_eq!(
        calculate_delete_impact(&files, &repo, &Some("Q8_0".to_string())),
        10
    );
    let answer = cached_file_variants(&files, &repo).unwrap();
    assert_eq!(answer.variants.len(), 2);
    assert!(answer.resolved_locally);
    assert!(answer.variants.iter().all(|v| v.downloaded));
    assert!(cached_file_variants(&files, &"other/repo".to_string()).is_none());
    let one = local_file_variants(&repo, &"m-Q8_0.gguf".to_string(), 7, Some(2048));
    assert_eq!(one.context_length, 2048);
    assert_eq!(one.default_variant, "Q8_0");
    assert_eq!(one.variants[0].size_bytes, 7);

    let request = delete_request(&json(&format!(
        "{{\"repoId\": \"{repo}\", \"quant\": \"Q8_0\"}}"
    )));
    let lookups = files
        .iter()
        .map(|f| {
            vec![Some(Found {
                path: f.path.clone(),
                kind: PathKind::File,
            })]
        })
        .collect();
    let targets = delete_targets(&texts(&["/m"]), &request, &files, &vec![], &lookups).unwrap();
    assert_eq!(targets, ["/m/Llama-3.2-1B-Instruct-Q8_0.gguf"]);
}

#[test]
fn variants_are_guessed_while_offline() {
    let repo = "unsloth/Llama-3.2-1B-Instruct-GGUF".to_string();
    let nothing = Probe {
        exists: false,
        size_bytes: None,
    };
    let there = Probe {
        exists: true,
        size_bytes: Some(77),
    };
    let answer = offline_variants(&repo, offline_guess(&repo), &vec![], nothing, there);
    assert_eq!(answer.variants.len(), 2);
    assert!(!answer.variants[0].downloaded);
    assert!(answer.variants[1].downloaded);
    assert_eq!(answer.variants[1].size_bytes, 77);
}

#[test]
fn variants_are_read_from_a_repository() {
    let item = |path: &str, size: u64, on_disk: bool| TreeItem {
        entry_type: "file".to_string(),
        path: path.to_string(),
        size: Some(size),
        lfs_size: None,
        on_disk,
    };
    let items = vec![
        item("m-Q4_K_M.gguf", 100, false),
        item("m-Q8_0.gguf", 200, true),
        item("mmproj-F16.gguf", 5, false),
        item("README.md", 1, false),
    ];
    let files = scan_local_gguf_files(&vec![FileEntry {
        path: "/m/m-Q8_0.gguf".to_string(),
        filename: "m-Q8_0.gguf".to_string(),
        size_bytes: 200,
        mtime_epoch_secs: 1,
    }]);
    let answer = tree_variants(&"o/m".to_string(), &items, &files).unwrap();
    assert_eq!(answer.variants.len(), 2);
    assert!(answer.has_vision);
    assert!(answer
        .variants
        .iter()
        .any(|v| v.quant == "Q8_0" && v.downloaded && v.size_bytes == 200));
    assert!(tree_variants(&"o/m".to_string(), &vec![], &vec![]).is_none());
}

#[test]
fn local_files_are_found_by_name() {
    let attempts = local_attempts("sub/m.gguf");
    assert!(!attempts.is_empty());
    let lookups: Vec<Vec<Option<Found>>> = attempts
        .iter()
        .enumerate()
        .map(|(i, _)| {
            if i == 0 {
                found("/base/models/sub/m.gguf", PathKind::File)
            } else {
                vec![None]
            }
        })
        .collect();
    assert_eq!(
        resolve_local_gguf_file(&roots(), "sub/m.gguf", &lookups).as_deref(),
        Some("/base/models/sub/m.gguf")
    );
    let outside: Vec<Vec<Option<Found>>> = attempts
        .iter()
        .map(|_| found("/etc/m.gguf", PathKind::File))
        .collect();
    assert_eq!(resolve_local_gguf_file(&roots(), "sub/m.gguf", &outside), None);
}

#[test]
fn cached_models_are_looked_up() {
    let models = vec![local("/m/org/repo/a-Q8_0.gguf", "org/repo/a-Q8_0.gguf", true)];
    let (id, variant) =
        cached_model_request(&json("{\"repoId\": \"org/repo\", \"variant\": \"Q8_0\"}")).unwrap();
    assert_eq!(id, "org/repo");
    let place = cached_model_place(&models, &id, &variant, None).unwrap();
    assert_eq!(place, "/m/org/repo/a-Q8_0.gguf");
    assert_eq!(
        cached_model_path(&texts(&["/m"]), &place, &found(&place, PathKind::File))
            .unwrap()
            .path,
        place
    );
    assert_eq!(
        cached_model_path(&texts(&["/other"]), &place, &found(&place, PathKind::File))
            .unwrap_err()
            .status,
        403
    );
    assert_eq!(cached_model_request(&json("{}")).unwrap_err().status, 400);
    assert!(cached_model_place(&models, "no/such", &None, None).is_err());
    assert!(described_model(&models, "org/repo", &None).is_some());
    assert!(described_model(&models, "no/such", &None).is_none());
}

#[test]
fn the_catalog_shows_what_is_there() {
    let files = vec![ModelFile {
        filename: "My-Q8_0.gguf".to_string(),
        path: "/m/My-Q8_0.gguf".to_string(),
        size_bytes: 1_073_741_824,
        header: Some(ModelHeader {
            architecture: Some("llama".to_string()),
            context_length: 4096,
        }),
    }];
    let cards = discover_models(&files, "/m", &vec![false, false, false, false]);
    let mine = cards.iter().find(|c| c.filename == "My-Q8_0.gguf").unwrap();
    assert!(mine.is_present);
    assert_eq!(mine.context_length, 4096);
    assert_eq!(mine.architecture, "llama");
    assert!(cards.iter().any(|c| !c.is_present));
}
