use slothforge::download_jobs::{
    active_jobs, active_progress, idle_progress, idle_state, local_variant, non_empty,
    CancelRequest, Change, DownloadRegistry, JobRun, JobState, ProgressQuery, RunStep,
    StartRequest,
};
use slothforge::downloads::{
    check_written, file_is_complete, files_complete, job_key, next_step, part_path, partial_bytes,
    repo_dir, repo_gguf_files, requested_files, response_action, resume_offset,
    safe_relative_path, tree_error, validate_repo_id, variant_files, FileStep, RemoteFile,
    ResponseAction, TreeEntry, ACCESS_DENIED_HINT,
};
use slothforge::gguf_variants::{
    default_variant, disk_file, first_copy, has_projector_file, is_projector_path, merge_local,
    model_of_file, models_of_repo, remote_variants, route, wants_local, without_list, DiskEntry,
    DiskFile, Variant, VariantsQuery, VariantsRoute,
};
use slothforge::hf_api::{
    endpoint, file_url, is_fresh, range_header, resolve_token, token_status, tree_cache_key,
    tree_url, DEFAULT_HF_ENDPOINT,
};
use slothforge::model_scan::{EntryKind, Folder, FolderEntry, LocalModel};

fn remote(path: &str, size: u64) -> RemoteFile {
    RemoteFile {
        path: path.to_string(),
        size: Some(size),
    }
}

fn local_model(relative: &str, size_bytes: u64, complete: bool) -> LocalModel {
    let file_name = relative.rsplit('/').next().unwrap().to_string();
    let path = format!("/models/{relative}");
    LocalModel {
        display_name: file_name.trim_end_matches(".gguf").to_string(),
        shard_paths: vec![path.clone()],
        path,
        file_name,
        size_bytes,
        complete,
        modified_secs: None,
        root_index: 0,
        relative_path: relative.to_string(),
    }
}

// ---------- repositories and files ----------

#[test]
fn validates_repo_ids() {
    assert!(validate_repo_id("unsloth/Llama-3.2-1B-Instruct-GGUF").is_ok());
    assert!(validate_repo_id("../etc").is_err());
    assert!(validate_repo_id("a/b/c").is_err());
    assert!(validate_repo_id("org/.hidden").is_err());
    assert!(validate_repo_id("org/repo name").is_err());
}

#[test]
fn rejects_unsafe_file_paths() {
    assert_eq!(
        safe_relative_path("UD-Q4_K_XL/model-00001-of-00002.gguf"),
        Some("UD-Q4_K_XL/model-00001-of-00002.gguf".to_string())
    );
    assert_eq!(safe_relative_path("../escape.gguf"), None);
    assert_eq!(safe_relative_path("/abs.gguf"), None);
    assert_eq!(safe_relative_path(".hidden/x.gguf"), None);
}

#[test]
fn selects_variant_files_and_skips_auxiliary() {
    let files = vec![
        remote("Q4_K_M/m-00001-of-00002.gguf", 10),
        remote("Q4_K_M/m-00002-of-00002.gguf", 5),
        remote("m-Q8_0.gguf", 20),
        remote("mmproj-F16.gguf", 3),
    ];
    let (variant, selected) = variant_files(&files, &Some("q4_k_m".to_string())).unwrap();
    assert_eq!(variant, "q4_k_m");
    assert_eq!(selected.len(), 2);
    assert!(variant_files(&files, &None).is_err());
    assert!(variant_files(&files, &Some("Q2_K".to_string())).is_err());
}

#[test]
fn a_single_variant_needs_no_choice() {
    let files = vec![remote("m-Q8_0.gguf", 20), remote("mmproj-F16.gguf", 3)];
    let (variant, selected) = variant_files(&files, &None).unwrap();
    assert_eq!(variant, "Q8_0");
    assert_eq!(selected.len(), 1);
}

#[test]
fn accepted_paths_stay_inside_the_models_folder() {
    let dir = repo_dir("/models", "org/repo").unwrap();
    assert!(dir.starts_with("/models/"));
    assert_eq!(repo_dir("/models", "../repo"), None);
    assert_eq!(part_path("a/m.gguf"), "a/m.gguf.part");
    assert_eq!(job_key("Org/Repo", Some("Q8_0")), job_key("Org/Repo", Some("Q8_0")));
    assert_ne!(job_key("org/repo", Some("Q8_0")), job_key("org/repo", None));
}

#[test]
fn lists_of_files_are_read_by_path() {
    let entry = |kind: &str, path: &str, size: Option<u64>, lfs: Option<u64>| TreeEntry {
        kind: kind.to_string(),
        path: path.to_string(),
        size,
        lfs_size: lfs,
    };
    let files = repo_gguf_files(&vec![
        entry("file", "z.gguf", Some(1), Some(9)),
        entry("directory", "d.gguf", None, None),
        entry("file", "README.md", Some(1), None),
        entry("file", "a.gguf", Some(5), None),
    ]);
    let seen: Vec<(&str, Option<u64>)> =
        files.iter().map(|f| (f.path.as_str(), f.size)).collect();
    assert_eq!(seen, [("a.gguf", Some(5)), ("z.gguf", Some(9))]);
    assert_eq!(tree_error(200, "200 OK", "o/r"), None);
    assert_eq!(
        tree_error(403, "403 Forbidden", "o/r").as_deref(),
        Some(ACCESS_DENIED_HINT)
    );
    assert_eq!(
        tree_error(404, "404 Not Found", "o/r").as_deref(),
        Some("Репозиторий o/r не найден на Hugging Face")
    );
    assert_eq!(
        tree_error(500, "500 Internal Server Error", "o/r").as_deref(),
        Some("Hugging Face ответил HTTP 500 Internal Server Error на список файлов")
    );
}

#[test]
fn requested_files_have_to_exist() {
    let files = || vec![remote("a.gguf", 1), remote("b.gguf", 2)];
    assert_eq!(requested_files(files(), &None).unwrap().len(), 2);
    let one = requested_files(files(), &Some(vec!["b.gguf".to_string()])).unwrap();
    assert_eq!(one.len(), 1);
    assert_eq!(one[0].path, "b.gguf");
    assert!(requested_files(files(), &Some(vec!["c.gguf".to_string()])).is_err());
}

#[test]
fn a_download_is_continued_or_restarted() {
    assert!(file_is_complete(Some(5), Some(5)));
    assert!(!file_is_complete(Some(4), Some(5)));
    assert!(!file_is_complete(None, Some(5)));
    assert!(files_complete(
        &vec![remote("a", 1), remote("b", 2)],
        &vec![Some(1), Some(2)]
    ));
    assert!(!files_complete(
        &vec![remote("a", 1), remote("b", 2)],
        &vec![Some(1), None]
    ));
    assert_eq!(resume_offset(3, Some(5)), (3, false));
    assert_eq!(resume_offset(9, Some(5)), (0, true));

    let file = remote("m.gguf", 5);
    assert!(matches!(
        response_action(206, "", &file, 3),
        ResponseAction::Write {
            append: true,
            from: 3
        }
    ));
    assert!(matches!(
        response_action(200, "", &file, 3),
        ResponseAction::Write {
            append: false,
            from: 0
        }
    ));
    assert!(matches!(
        response_action(416, "", &file, 5),
        ResponseAction::AlreadyWhole
    ));
    match response_action(401, "401 Unauthorized", &file, 0) {
        ResponseAction::Fail(why) => assert_eq!(why, ACCESS_DENIED_HINT),
        _ => panic!("access is denied"),
    }
    match response_action(416, "416 Range Not Satisfiable", &file, 3) {
        ResponseAction::Fail(why) => assert_eq!(
            why,
            "Hugging Face ответил HTTP 416 Range Not Satisfiable на файл m.gguf"
        ),
        _ => panic!("the range is wrong"),
    }
    assert!(check_written(&file, 5).is_ok());
    assert!(check_written(&file, 4).is_err());
    assert!(matches!(next_step(&file, true, None), FileStep::Cancelled));
    assert!(matches!(next_step(&file, false, Some(5)), FileStep::Skip(5)));
    assert!(matches!(
        next_step(&remote("../x", 1), false, None),
        FileStep::Invalid(_)
    ));
    match next_step(&file, false, Some(4)) {
        FileStep::Download(path) => assert_eq!(path, "m.gguf"),
        _ => panic!("the file is incomplete"),
    }
}

#[test]
fn incomplete_bytes_are_added_up() {
    let part = |name: &str, size: u64| FolderEntry {
        name: name.to_string(),
        kind: EntryKind::File,
        canonical: None,
        opens_as_file: true,
        size: Some(size),
        modified: None,
    };
    let folder = Some(Folder {
        path: "/models/o/r".to_string(),
        entries: vec![
            part("m-Q8_0.gguf.part", 7),
            part("m-Q4_K_M.gguf.part", 5),
            part("m-Q2_K.gguf", 3),
        ],
    });
    assert_eq!(partial_bytes(&folder, None), 12);
    assert_eq!(partial_bytes(&folder, Some("q8_0")), 7);
    assert_eq!(partial_bytes(&None, None), 0);
}

// ---------- jobs ----------

fn start(registry: &mut DownloadRegistry) -> u64 {
    registry
        .start(
            "k".to_string(),
            "o/r".to_string(),
            "Q8_0".to_string(),
            vec![remote("a", 10), remote("b", 20)],
        )
        .generation
        .unwrap()
}

#[test]
fn a_running_download_is_joined() {
    let mut registry = DownloadRegistry::new();
    let first = start(&mut registry);
    let again = registry.start(
        "k".to_string(),
        "o/r".to_string(),
        "Q8_0".to_string(),
        vec![remote("a", 10)],
    );
    assert!(again.attached);
    assert_eq!(again.generation, Some(first));
    assert_eq!(registry.snapshot("k").unwrap().total_bytes, 30);
    assert!(registry.snapshot("other").is_none());
}

#[test]
fn a_replaced_task_changes_nothing() {
    let mut registry = DownloadRegistry::new();
    let first = start(&mut registry);
    registry.update("k", first, Change::Failed("сеть".to_string()));
    assert_eq!(registry.snapshot("k").unwrap().state, JobState::Error);
    assert_eq!(
        registry.snapshot("k").unwrap().error.as_deref(),
        Some("сеть")
    );
    let second = start(&mut registry);
    assert!(second > first);
    registry.update("k", first, Change::Finished);
    assert_eq!(registry.snapshot("k").unwrap().state, JobState::Running);
    registry.update("k", second, Change::Downloaded(15));
    assert_eq!(registry.snapshot("k").unwrap().downloaded_bytes, 15);
    registry.update("k", second, Change::Completed(10));
    assert_eq!(registry.snapshot("k").unwrap().completed_bytes, 10);
    registry.update("k", second, Change::Finished);
    let job = registry.snapshot("k").unwrap();
    assert_eq!(job.state, JobState::Complete);
    assert_eq!((job.downloaded_bytes, job.completed_bytes), (30, 30));
    assert_eq!(job.state.as_str(), "complete");
    assert!(!job.state.is_active());
}

#[test]
fn only_the_current_download_is_cancelled() {
    let mut registry = DownloadRegistry::new();
    assert_eq!(registry.cancel("k", None, true), None);
    let generation = start(&mut registry);
    assert!(!registry.reaches("other", None));
    assert!(!registry.reaches("k", Some(generation + 1)));
    assert!(registry.reaches("k", Some(generation)) && registry.reaches("k", None));
    assert_eq!(
        registry.cancel("k", Some(generation + 1), true),
        Some(JobState::Running)
    );
    assert_eq!(
        registry.cancel("k", Some(generation), true),
        Some(JobState::Cancelling)
    );
    registry.update("k", generation, Change::Cancelled);
    assert_eq!(registry.snapshot("k").unwrap().state, JobState::Cancelled);
    assert!(!registry.reaches("k", Some(generation)));
}

#[test]
fn a_run_goes_through_its_files() {
    let mut run = JobRun::new(vec![remote("a", 10), remote("b", 20)]);
    assert!(matches!(
        run.step(false, Some(10)),
        RunStep::File(FileStep::Skip(10))
    ));
    assert!(matches!(run.file_done(10), Change::Completed(10)));
    assert!(matches!(
        run.step(false, None),
        RunStep::File(FileStep::Download(_))
    ));
    assert!(matches!(run.received(5), Change::Downloaded(15)));
    assert!(matches!(run.file_done(20), Change::Completed(30)));
    assert!(matches!(run.step(false, None), RunStep::Finished));
}

#[test]
fn progress_counts_jobs_or_files() {
    let mut registry = DownloadRegistry::new();
    assert!(active_progress(&registry, "o/r", None, None, None).is_none());
    let generation = start(&mut registry);
    registry.update("k", generation, Change::Downloaded(15));
    assert_eq!(active_jobs(&registry, "O/R"), [0]);
    let progress = active_progress(&registry, "o/r", Some("q8_0"), None, None).unwrap();
    assert_eq!(progress.downloaded_bytes, 15);
    assert_eq!(progress.expected_bytes, 30);
    assert!(!progress.complete_on_disk);

    let model = local_model("o/r/m-Q8_0.gguf", 300, true);
    let done = idle_progress(Some(&model), 0, None, None);
    assert!(done.complete_on_disk && done.target_present);
    assert_eq!(done.downloaded_bytes, 300);
    let partial = idle_progress(None, 7, Some(10), None);
    assert!(!partial.complete_on_disk && partial.target_present);
    assert_eq!((partial.downloaded_bytes, partial.expected_bytes), (7, 10));
    assert_eq!(idle_state(true), "complete");
    assert_eq!(idle_state(false), "idle");
    let models = vec![model];
    assert!(local_variant(&models, "o/r", &Some("Q8_0".to_string())).is_some());
    assert!(local_variant(&models, "o/r", &Some("Q2_K".to_string())).is_none());
}

#[test]
fn requests_name_downloads() {
    assert_eq!(non_empty(&Some("  ".to_string())), None);
    assert_eq!(non_empty(&Some(" a ".to_string())).as_deref(), Some("a"));
    let request = StartRequest {
        repo_id: None,
        gguf_variant: None,
        hf_token: Some(" own ".to_string()),
        files: None,
    };
    assert_eq!(
        request.token(Some("stored".to_string())).as_deref(),
        Some("stored")
    );
    assert_eq!(request.token(None).as_deref(), Some(" own "));
    let cancel = CancelRequest {
        repo_id: Some("o/r".to_string()),
        gguf_variant: Some("Q8_0".to_string()),
        generation: None,
    };
    assert_eq!(cancel.job_key(), job_key("o/r", Some("Q8_0")));
    let query = ProgressQuery {
        repo_id: Some(" o/r ".to_string()),
        gguf_variant: None,
        variant: Some("Q8_0".to_string()),
        expected_bytes: None,
    };
    assert_eq!(query.repo(), "o/r");
    assert_eq!(query.variant().as_deref(), Some("Q8_0"));
}

// ---------- variants ----------

#[test]
fn groups_shards_and_reads_disk_state() {
    let files = vec![
        remote("Q4_K_M/m-00001-of-00002.gguf", 100),
        remote("Q4_K_M/m-00002-of-00002.gguf", 50),
        remote("m-Q8_0.gguf", 300),
        remote("mmproj-F16.gguf", 10),
    ];
    let disk = vec![
        DiskEntry {
            path: "Q4_K_M/m-00001-of-00002.gguf".to_string(),
            file: DiskFile {
                complete: true,
                bytes: 100,
            },
        },
        DiskEntry {
            path: "Q4_K_M/m-00002-of-00002.gguf".to_string(),
            file: DiskFile {
                complete: false,
                bytes: 20,
            },
        },
    ];

    let variants = remote_variants(&files, &disk, &vec![]);
    let quants: Vec<&str> = variants.iter().map(|v| v.quant.as_str()).collect();
    assert_eq!(quants, ["Q4_K_M", "Q8_0"]);

    let q4 = &variants[0];
    assert_eq!((q4.size_bytes, q4.shard_count), (150, 2));
    assert_eq!(q4.filename, "Q4_K_M/m-00001-of-00002.gguf");
    assert!(!q4.downloaded && q4.partial);
    assert_eq!(q4.remaining_bytes, Some(30));
    assert!(!variants[1].downloaded && !variants[1].partial);
    assert_eq!(default_variant(&variants).as_deref(), Some("Q4_K_M"));
}

#[test]
fn manual_files_count_as_downloaded_and_extra_local_quants_are_kept() {
    let files = vec![remote("m-Q8_0.gguf", 300), remote("m-Q4_K_M.gguf", 150)];
    let local = vec![
        local_model("m-Q8_0.gguf", 300, true),
        local_model("m-Q2_K.gguf", 70, true),
    ];
    let variants = remote_variants(&files, &vec![], &local);
    let quants: Vec<&str> = variants.iter().map(|v| v.quant.as_str()).collect();
    assert_eq!(quants, ["Q2_K", "Q4_K_M", "Q8_0"]);
    assert!(variants[2].downloaded && variants[2].local.is_some());
    assert!(!variants[1].downloaded);
    assert_eq!(default_variant(&variants).as_deref(), Some("Q2_K"));
}

#[test]
fn default_prefers_balanced_quant_when_nothing_downloaded() {
    let files = vec![
        remote("m-Q2_K.gguf", 70),
        remote("m-Q4_K_M.gguf", 150),
        remote("m-Q8_0.gguf", 300),
    ];
    let variants = remote_variants(&files, &vec![], &vec![]);
    assert_eq!(default_variant(&variants).as_deref(), Some("Q4_K_M"));
    assert_eq!(default_variant(&vec![]), None);
}

#[test]
fn variants_on_disk_are_shown_without_a_list() {
    let local = vec![
        local_model("o/r/m-Q8_0.gguf", 300, true),
        local_model("o/r/m-Q2_K.gguf", 70, false),
    ];
    let variants = merge_local(vec![], &local);
    assert_eq!(variants.len(), 2);
    assert!(variants[0].partial && variants[0].local.is_none());
    assert_eq!(
        first_copy(&variants).map(|m| m.file_name.as_str()),
        Some("m-Q8_0.gguf")
    );
    let one = Variant::from_local(&local[0]);
    assert!(one.downloaded && !one.partial);
    assert_eq!((one.quant.as_str(), one.size_bytes), ("Q8_0", 300));
    assert_eq!(one.duplicate().filename, one.filename);
    assert!(without_list(&local, "нет сети".to_string()).is_ok());
    let lost = without_list(&vec![], "нет сети".to_string()).unwrap_err();
    assert_eq!((lost.status, lost.detail.as_str()), (502, "нет сети"));
    assert_eq!(models_of_repo(&local, "O/R").len(), 2);
    assert!(
        model_of_file(&local, &Some("/models/o/r/m-Q8_0.gguf".to_string()), "x").is_ok()
    );
    assert_eq!(model_of_file(&local, &None, "x").unwrap_err().status, 404);
    assert!(is_projector_path("sub/mmproj-F16.gguf"));
    assert!(has_projector_file(&vec![remote("mmproj-F16.gguf", 1)]));
    assert!(!has_projector_file(&vec![remote("m.gguf", 1)]));
    assert_eq!(
        disk_file(Some(5), None, Some(5)),
        DiskFile {
            complete: true,
            bytes: 5
        }
    );
    assert_eq!(
        disk_file(None, Some(3), Some(5)),
        DiskFile {
            complete: false,
            bytes: 3
        }
    );
}

#[test]
fn a_request_for_variants_names_a_file_or_a_repository() {
    let query = |repo: Option<&str>, path: Option<&str>, offline: Option<bool>| VariantsQuery {
        repo_id: repo.map(|s| s.to_string()),
        local_path: path.map(|s| s.to_string()),
        prefer_local_cache: None,
        offline,
    };
    assert!(matches!(
        route(&query(None, Some("/m/a.gguf"), None)),
        Ok(VariantsRoute::File { .. })
    ));
    match route(&query(Some("o/r"), None, None)) {
        Ok(VariantsRoute::Repo(repo)) => assert_eq!(repo, "o/r"),
        _ => panic!("a repository is named"),
    }
    assert_eq!(route(&query(None, None, None)).unwrap_err().status, 400);
    let local = vec![local_model("o/r/m-Q8_0.gguf", 300, true)];
    assert!(wants_local(&query(Some("o/r"), None, Some(true)), &local));
    assert!(!wants_local(&query(Some("o/r"), None, None), &local));
}

// ---------- the hub ----------

#[test]
fn addresses_of_the_hub() {
    assert_eq!(endpoint(&None), DEFAULT_HF_ENDPOINT);
    assert_eq!(
        endpoint(&Some("https://mirror.example/".to_string())),
        "https://mirror.example"
    );
    assert_eq!(
        tree_url("https://huggingface.co", "o/r"),
        "https://huggingface.co/api/models/o/r/tree/main?recursive=true"
    );
    assert_eq!(
        file_url("https://huggingface.co", "o/r", "a/b.gguf"),
        "https://huggingface.co/o/r/resolve/main/a/b.gguf"
    );
    assert_eq!(range_header(0), None);
    assert_eq!(range_header(7).as_deref(), Some("bytes=7-"));
    assert_ne!(tree_cache_key("o/r", true), tree_cache_key("o/r", false));
    assert!(is_fresh(599));
    assert!(!is_fresh(600));
    assert_eq!(
        resolve_token(&Some(" own ".to_string()), Some("stored".to_string())).as_deref(),
        Some("own")
    );
    assert_eq!(
        resolve_token(&Some("  ".to_string()), Some("stored".to_string())).as_deref(),
        Some("stored")
    );
    assert_eq!(token_status(200, &None).status, "valid");
    assert_eq!(token_status(401, &None).status, "invalid");
    let limited = token_status(429, &Some(" 30 ".to_string()));
    assert_eq!(limited.status, "rate_limited");
    assert_eq!(limited.retry_after_seconds, Some(30));
    assert_eq!(token_status(500, &None).status, "unavailable");
}
