use slothforge::cluster::{
    AllReduceEngine, ClusterCoordinator, ClusterError, ClusterMessage, HeartbeatAck, Latency,
    NodeRole, RegisterAck, StepGradients, WorkerInfo,
};
use slothforge::cluster_api::{
    check_registration, check_sync, cluster_summary, gradient_error, heartbeat_error, message,
    requested_address, step_header, RegisterWorkerRequest,
};
use slothforge::json::{from_i64, from_str, Json};
use slothforge::lora::{check_len, LoraConfig, LoraError, LoraLayer, LoraModel};
use slothforge::run_store::RunTable;
use slothforge::training::{
    gradient_checkpointing, intensity_of, resolve_hyperparameters, Intensity, TrainStartRequest,
};
use slothforge::training_session::{is_reported, TrainingRunSummary, TrainingSession};

fn bits(values: &[f32]) -> Vec<u32> {
    values.iter().map(|v| v.to_bits()).collect()
}

// ---------- gradients ----------

#[test]
fn gradients_of_different_lengths_are_refused() {
    assert!(AllReduceEngine::check_two(4, 4).is_ok());
    assert!(matches!(
        AllReduceEngine::check_two(4, 1),
        Err(ClusterError::GradientLengthMismatch {
            master_len: 4,
            worker_len: 1
        })
    ));
    assert!(matches!(AllReduceEngine::check_many(&vec![2, 2, 2]), Ok(Some(2))));
    assert!(AllReduceEngine::check_many(&vec![1, 2]).is_err());
    assert!(matches!(AllReduceEngine::check_many(&vec![]), Ok(None)));
}

#[test]
fn test_gradient_serialization_roundtrip() {
    let original = bits(&[0.1234f32, -0.5678, 1.0, 0.0, -100.25]);
    let bytes = AllReduceEngine::serialize_gradients(&original);
    assert_eq!(bytes.len(), original.len() * 4);
    assert_eq!(bytes[8..12].to_vec(), 1.0f32.to_le_bytes().to_vec());

    let recovered = AllReduceEngine::deserialize_gradients(&bytes).unwrap();
    assert_eq!(original, recovered);
    assert!(matches!(
        AllReduceEngine::deserialize_gradients(&bytes[..7]),
        Err(ClusterError::PartialGradientBytes { len: 7 })
    ));
}

#[test]
fn non_finite_gradients_are_rejected() {
    assert!(AllReduceEngine::ensure_finite(&bits(&[1.0, 2.0])).is_ok());
    assert!(matches!(
        AllReduceEngine::ensure_finite(&bits(&[1.0, f32::NAN])),
        Err(ClusterError::NonFiniteGradient { index: 1 })
    ));
    assert!(AllReduceEngine::ensure_finite(&bits(&[f32::INFINITY])).is_err());
    assert!(AllReduceEngine::ensure_finite(&bits(&[f32::MAX, f32::MIN, -0.0])).is_ok());
}

// ---------- nodes ----------

fn worker(id: &str) -> WorkerInfo {
    WorkerInfo {
        worker_id: id.to_string(),
        rank: 0,
        ip: "192.168.1.102".to_string(),
        gpu_name: "AMD Radeon RX 570".to_string(),
        vram_mb: 4096,
        latency_ms: None,
        last_seen_ms: 1_000,
    }
}

fn registered(cluster: &mut ClusterCoordinator, info: WorkerInfo) -> RegisterAck {
    match cluster.register_worker(info) {
        ClusterMessage::RegisterAck(ack) => ack,
        other => panic!("{other:?}"),
    }
}

fn beat(cluster: &mut ClusterCoordinator, client_ts: Option<u64>) -> HeartbeatAck {
    match cluster.handle_heartbeat("a", client_ts, 10_000) {
        Ok(ClusterMessage::HeartbeatAck(ack)) => ack,
        other => panic!("{other:?}"),
    }
}

#[test]
fn steps_and_barriers_are_announced() {
    let mut cluster = ClusterCoordinator::new(NodeRole::Master, 2);
    assert_eq!((cluster.current_step, cluster.world_size), (0, 2));
    assert!(matches!(
        cluster.coordinate_step_sync(5, 1, 2, 4),
        ClusterMessage::SyncStep {
            step: 5,
            epoch: 1,
            micro_batch_idx: 2,
            total_micro_batches: 4
        }
    ));
    assert_eq!(cluster.current_step, 5);
    match cluster.trigger_barrier(6, "end") {
        ClusterMessage::Barrier { step, name } => assert_eq!((step, name.as_str()), (6, "end")),
        other => panic!("{other:?}"),
    }
    assert_eq!(cluster.current_step, 5);
    assert_eq!(cluster.role, NodeRole::Master);
}

#[test]
fn test_cluster_coordinator_worker_registration() {
    let mut registry = ClusterCoordinator::new(NodeRole::Master, 2);
    let first = registered(&mut registry, worker("a"));
    assert_eq!((first.rank, first.world_size), (1, 2));
    let again = registered(&mut registry, worker("a"));
    assert_eq!((again.rank, again.world_size), (1, 2));
    let second = registered(&mut registry, worker("b"));
    assert_eq!((second.rank, second.world_size), (2, 3));

    let list = registry.list_workers();
    let ranks: Vec<usize> = list.iter().map(|w| w.rank).collect();
    assert_eq!(ranks, [1, 2]);
    assert_eq!(list[0].worker_id, "a");
}

#[test]
fn the_rank_that_a_worker_claims_does_not_count() {
    let mut registry = ClusterCoordinator::new(NodeRole::Master, 2);
    for (name, claimed, rank, size) in
        [("a", 9, 1, 2), ("b", 1, 2, 3), ("a", 5, 1, 3), ("c", 0, 3, 4)]
    {
        let mut info = worker(name);
        info.rank = claimed;
        let ack = registered(&mut registry, info);
        assert_eq!((ack.rank, ack.world_size), (rank, size));
        assert_eq!((ack.status.as_str(), ack.worker_id.as_str()), ("ok", name));
    }
}

#[test]
fn heartbeat_updates_known_workers_only() {
    let mut registry = ClusterCoordinator::new(NodeRole::Master, 2);
    registry.register_worker(worker("a"));

    let ack = beat(&mut registry, Some(9_995));
    assert_eq!(ack.latency_ms, Some(5));
    assert_eq!(registry.list_workers()[0].last_seen_ms, 10_000);
    assert_eq!(
        registry.list_workers()[0].latency_ms,
        Some(Latency::Measured(5))
    );
    let ack = beat(&mut registry, Some(70_000));
    assert_eq!(ack.latency_ms, None);
    match registry.handle_heartbeat("ghost", None, 10_000) {
        Err(ClusterError::WorkerNotRegistered(id)) => assert_eq!(id, "ghost"),
        other => panic!("{other:?}"),
    }
}

#[test]
fn worker_online_status_follows_last_heartbeat() {
    let mut info = worker("a");
    info.last_seen_ms = 1_000;
    assert!(info.is_online(10_000, 15_000));
    assert!(!info.is_online(20_000, 15_000));
}

#[test]
fn registrations_are_checked() {
    let request = |id: &str, gpu: &str, vram: u64| RegisterWorkerRequest {
        worker_id: id.to_string(),
        ip: Some(" 10.0.0.2 ".to_string()),
        gpu_name: gpu.to_string(),
        vram_mb: vram,
        latency_ms: Some(1.5f32.to_bits()),
    };
    assert_eq!(
        requested_address(&Some(" 10.0.0.2 ".to_string())).as_deref(),
        Some("10.0.0.2")
    );
    let ok = check_registration(
        &request(" node ", "RX 570", 4096),
        Some("10.0.0.2".to_string()),
        None,
        7,
    )
    .unwrap();
    assert_eq!(ok.worker_id, "node");
    assert_eq!(ok.ip, "10.0.0.2");
    assert_eq!(ok.last_seen_ms, 7);
    assert_eq!(
        check_registration(&request("", "RX 570", 4096), None, None, 7)
            .unwrap_err()
            .status,
        422
    );
    assert_eq!(
        check_registration(&request("n", "RX 570", u64::MAX), None, None, 7)
            .unwrap_err()
            .status,
        422
    );
}

#[test]
fn gradients_of_a_step_are_checked() {
    let master = Some(StepGradients {
        step: 3,
        gradients: bits(&[1.0, 2.0]),
    });
    assert!(check_sync(Some(3), &bits(&[1.0, 2.0]), &master).is_ok());
    assert!(check_sync(None, &bits(&[1.0, 2.0]), &master).is_ok());
    assert_eq!(
        check_sync(Some(3), &vec![], &master).unwrap_err().status,
        400
    );
    assert_eq!(
        check_sync(Some(4), &bits(&[1.0, 2.0]), &master)
            .unwrap_err()
            .detail,
        "Шаг узла 4 не совпадает с текущим шагом мастера 3"
    );
    assert_eq!(
        check_sync(None, &bits(&[1.0, 2.0]), &None)
            .unwrap_err()
            .status,
        409
    );
    assert!(check_sync(None, &bits(&[1.0]), &master).is_err());
    assert!(check_sync(None, &bits(&[1.0, f32::NAN]), &master).is_err());
    assert_eq!(step_header(None).unwrap(), None);
    assert_eq!(step_header(Some(Some(" 12 ".to_string()))).unwrap(), Some(12));
    assert!(step_header(Some(Some("x".to_string()))).is_err());
    assert!(step_header(Some(None)).is_err());
}

#[test]
fn cluster_errors_have_their_words() {
    let unknown = ClusterError::WorkerNotRegistered("w".to_string());
    assert!(message(&unknown).contains('w'));
    assert_eq!(heartbeat_error(&unknown).status, 404);
    let partial = ClusterError::PartialGradientBytes { len: 7 };
    assert!(message(&partial).contains('7'));
    assert!(gradient_error(&partial).status >= 400);
    let late = ClusterError::BarrierTimeout {
        step: 3,
        name: "b".to_string(),
    };
    assert!(message(&late).contains('3'));
    let net = ClusterError::Network("down".to_string());
    assert!(message(&net).contains("down"));
}

#[test]
fn cluster_summary_counts_nodes_and_memory() {
    let mut far = worker("b");
    far.last_seen_ms = 0;
    let workers = vec![worker("a"), far];
    let summary = cluster_summary(&workers, 16_000, Some(4096), true);
    assert_eq!(summary.world_size, 3);
    assert_eq!(summary.online_workers, 1);
    assert_eq!(summary.total_vram_mb, Some(3 * 4096));
    let unknown = cluster_summary(&workers, 16_000, None, false);
    assert_eq!(unknown.total_vram_mb, None);
}

// ---------- LoRA ----------

fn layer(name: &str) -> LoraLayer {
    LoraLayer {
        name: name.to_string(),
        in_features: 4,
        out_features: 4,
        rank: 2,
        alpha: 4.0f32.to_bits(),
        scale: 2.0f32.to_bits(),
        weight_a: bits(&[0.5; 8]),
        weight_b: bits(&[0.1; 8]),
        grad_a: vec![],
        grad_b: vec![],
        m_a: vec![],
        v_a: vec![],
        m_b: vec![],
        v_b: vec![],
        step: 9,
    }
}

#[test]
fn checkpoint_with_wrong_dimensions_is_rejected() {
    let mut broken = layer("q_proj");
    broken.weight_a.pop();
    assert!(matches!(
        broken.restore_training_state(),
        Err(LoraError::DimensionMismatch {
            expected: 8,
            actual: 7
        })
    ));
}

#[test]
fn loaded_layer_starts_its_moments_anew() {
    let mut loaded = layer("q_proj");
    loaded.restore_training_state().unwrap();
    assert_eq!(loaded.step, 0);
    assert_eq!(loaded.grad_a, bits(&[0.0; 8]));
    assert_eq!(loaded.m_b, bits(&[0.0; 8]));
    assert_eq!(loaded.weight_b, bits(&[0.1; 8]));
    assert_eq!(loaded.num_parameters(), 16);
}

#[test]
fn sizes_are_checked_against_the_expected_ones() {
    assert!(check_len(12, 12).is_ok());
    assert_eq!(
        check_len(11, 12),
        Err(LoraError::DimensionMismatch {
            expected: 12,
            actual: 11
        })
    );
}

#[test]
fn flat_gradients_go_round() {
    let ready = |name: &str| {
        let mut l = layer(name);
        l.restore_training_state().unwrap();
        (name.to_string(), l)
    };
    let mut model = LoraModel::new(LoraConfig::default(), vec![ready("v_proj"), ready("v_proj")]);
    assert_eq!(model.layers.len(), 1);
    let (name, l) = ready("q_proj");
    model.insert_layer(name, l);
    assert_eq!(model.config.alpha, 32.0f32.to_bits());
    assert_eq!(model.config.learning_rate, 2e-4f32.to_bits());
    assert_eq!(model.config.weight_decay, 0.01f32.to_bits());
    assert_eq!((model.config.rank, model.config.dropout), (16, 0));
    assert_eq!(model.config.target_modules.len(), 7);
    assert_eq!(model.layers[0].0, "q_proj");
    assert_eq!(model.total_parameters(), 32);
    let grads: Vec<u32> = (0..32).map(|i| (i as f32).to_bits()).collect();
    model.set_flat_gradients(&grads).unwrap();
    assert_eq!(model.get_flat_gradients(), grads);
    let mut longer = grads.clone();
    longer.push(7);
    model.set_flat_gradients(&longer).unwrap();
    assert_eq!(model.get_flat_gradients(), grads);
    assert_eq!(model.layers[1].1.grad_a[0], 16.0f32.to_bits());
    assert!(model.set_flat_gradients(&grads[..31]).is_err());
    model.zero_grad();
    assert_eq!(model.get_flat_gradients(), bits(&[0.0; 32]));
}

// ---------- runs ----------

fn request() -> TrainStartRequest {
    TrainStartRequest {
        mode: None,
        preset: None,
        intensity: None,
        lora_rank: None,
        lora_alpha: None,
        lora_dropout: None,
        target_modules: None,
        micro_batch_size: None,
        gradient_accumulation: None,
        max_seq_length: None,
        sequence_packing: None,
        optimizer: None,
        learning_rate: None,
        weight_decay: None,
        lr_schedule: None,
        warmup_ratio: None,
        gradient_checkpointing: None,
        base_model: None,
        dataset_path: None,
        project_name: None,
        epochs: None,
        total_steps: None,
        start_request_id: None,
    }
}

#[test]
fn learning_rates_are_those_of_floating_point() {
    let presets: Vec<(&str, f32, f32, u32, usize)> = vec![
        ("facts", 1e-4, 64.0, 4, 32),
        ("coding", 1.5e-4, 64.0, 3, 32),
        ("memory_4gb", 2e-4, 16.0, 2, 8),
        ("style", 2e-4, 32.0, 3, 16),
    ];
    for (name, lr, alpha, epochs, rank) in presets {
        let mut req = request();
        req.preset = Some(name.to_string());
        let plain = resolve_hyperparameters(&req);
        assert_eq!(plain.learning_rate, lr.to_bits(), "{name}");
        assert_eq!(plain.alpha, alpha.to_bits());
        assert_eq!(plain.epochs, epochs);
        assert_eq!(plain.rank, rank);
        assert_eq!(plain.total_steps, epochs * 250);
        assert_eq!(plain.weight_decay, 0.01f32.to_bits());
        assert_eq!(plain.mode_name, format!("beginner:{name}"));

        req.intensity = Some(from_str("GENTLE"));
        let gentle = resolve_hyperparameters(&req);
        let mut expected = lr;
        expected *= 0.75;
        assert_eq!(gentle.learning_rate, expected.to_bits());
        assert_eq!(gentle.epochs, (epochs - 1).max(1));

        req.intensity = Some(from_i64(8));
        let strong = resolve_hyperparameters(&req);
        let mut expected = lr;
        expected *= 1.35;
        assert_eq!(strong.learning_rate, expected.to_bits());
        assert_eq!(strong.epochs, epochs + 1);
    }
}

#[test]
fn own_parameters_are_kept_within_limits() {
    let mut req = request();
    req.lora_rank = Some(1_000_000);
    req.epochs = Some(u32::MAX);
    let params = resolve_hyperparameters(&req);
    assert_eq!(params.mode_name, "pro");
    assert_eq!(params.rank, 1024);
    assert_eq!(params.epochs, 1000);
    assert_eq!(params.total_steps, 250_000);
    assert_eq!(params.alpha, 32.0f32.to_bits());
    assert_eq!(params.learning_rate, 2e-4f32.to_bits());
    assert_eq!(
        params.target_modules,
        ["q_proj", "k_proj", "v_proj", "o_proj"]
    );
    req.total_steps = Some(u32::MAX);
    assert_eq!(resolve_hyperparameters(&req).total_steps, 1_000_000);

    let mut named = request();
    named.mode = Some("pro".to_string());
    named.target_modules = Some(vec!["x".to_string()]);
    let params = resolve_hyperparameters(&named);
    assert_eq!(params.rank, 16);
    assert_eq!(params.target_modules, ["x"]);
}

#[test]
fn intensity_is_a_name_or_a_number() {
    assert_eq!(intensity_of(&Some(from_str("Low"))), Intensity::Gentle);
    assert_eq!(intensity_of(&Some(from_str("DEEP"))), Intensity::Aggressive);
    assert_eq!(intensity_of(&Some(from_i64(3))), Intensity::Gentle);
    assert_eq!(intensity_of(&Some(from_i64(5))), Intensity::Normal);
    assert_eq!(intensity_of(&Some(from_i64(-1))), Intensity::Normal);
    assert_eq!(intensity_of(&None), Intensity::Normal);
    assert_eq!(gradient_checkpointing(&Some(from_str("Unsloth"))), Some(true));
    assert_eq!(gradient_checkpointing(&Some(from_str("no"))), Some(false));
    assert_eq!(gradient_checkpointing(&Some(Json::Bool(false))), Some(false));
    assert_eq!(gradient_checkpointing(&Some(Json::Null)), None);
}

#[test]
fn run_starts_proceeds_and_ends() {
    let mut session = TrainingSession::new();
    let mut req = request();
    req.preset = Some("style".to_string());
    req.total_steps = Some(6);
    let answer = session
        .start(&req, 42, "2026-09-13T00:00:00Z".to_string())
        .unwrap();
    assert_eq!(answer.job_id, "job-train-42");
    assert_eq!(answer.session_id, "train-42");
    assert_eq!(answer.status, "queued");
    assert_eq!(session.loss, 2.85f32.to_bits());
    assert_eq!(session.runs.len(), 1);
    assert_eq!(
        session
            .start(&req, 43, "later".to_string())
            .unwrap_err(),
        "A training session is already currently active."
    );
    assert_eq!(session.runs.len(), 1);

    let mut done = 0;
    while session.goes_on(done, 6, false) {
        done = session.advance(done, 6, 2800, 7, 8, false);
    }
    assert_eq!(done, 6);
    assert_eq!(session.step, 6);
    assert_eq!(session.epoch, 4);
    assert_eq!(session.tokens_per_sec, 2862);
    assert_eq!(session.vram_used_mb, 2818);
    assert_eq!(session.loss_history.len(), 6);
    session.finish(done, 6, "2026-09-13T00:01:00Z".to_string(), 60);
    assert!(!session.is_active);
    assert_eq!(session.status_text, "completed");
    assert_eq!(session.runs[0].status, "completed");
    assert_eq!(session.runs[0].final_step, Some(6));
    assert_eq!(session.runs[0].loss_sparkline, Some(vec![7; 6]));
    assert!(is_reported(15, 100));
    assert!(is_reported(100, 100));
    assert!(!is_reported(16, 100));
}

#[test]
fn stopped_run_is_remembered_and_reset_forgets_progress() {
    let mut session = TrainingSession::new();
    session
        .start(&request(), 1, "start".to_string())
        .unwrap();
    session.advance(0, 750, 2800, 5, 6, true);
    assert_eq!(session.tokens_per_sec, 5492);
    let stop = session.stop("end".to_string(), 3);
    assert_eq!(stop.status, "stopped");
    assert_eq!(stop.step, 1);
    assert_eq!(session.runs[0].status, "stopped");
    assert_eq!(session.runs[0].duration_seconds, Some(3));
    assert_eq!(session.stop("again".to_string(), 4).status, "already_stopped");
    let reset = session.reset("x".to_string(), 5);
    assert_eq!(reset.status, "ok");
    assert_eq!(session.step, 0);
    assert_eq!(session.current_job_id, "job-default");
    assert_eq!(session.runs.len(), 1);
}

#[test]
fn history_of_losses_keeps_the_latest_steps() {
    let mut session = TrainingSession::new();
    let mut done = 0;
    for _ in 0..510 {
        done = session.advance(done, 1000, 0, done, 0, false);
    }
    assert_eq!(session.loss_history.len(), 500);
    assert_eq!(session.loss_history[0].step, 11);
    assert_eq!(session.loss_history[499].step, 510);
}

fn run(id: &str, started_at: &str) -> TrainingRunSummary {
    TrainingRunSummary {
        id: id.to_string(),
        status: "completed".to_string(),
        model_name: "llama-1b".to_string(),
        project_name: None,
        dataset_name: "alpaca".to_string(),
        display_name: None,
        started_at: started_at.to_string(),
        ended_at: None,
        total_steps: Some(10),
        final_step: Some(10),
        final_loss: Some(1.5f32.to_bits()),
        output_dir: None,
        can_resume: false,
        resume_blocked_reason: None,
        resumed_later: false,
        has_preview_model: false,
        preview_ref: None,
        preview_sig: None,
        duration_seconds: Some(60),
        error_message: None,
        loss_sparkline: None,
    }
}

#[test]
fn upsert_list_page_and_delete() {
    let mut table = RunTable::new();
    table.upsert(&run("a", "2026-09-10T10:00:00Z"));
    table.upsert(&run("b", "2026-09-12T10:00:00Z"));
    table.upsert(&run("c", "2026-09-11T10:00:00Z"));

    let (page, total) = table.list(2, 0);
    assert_eq!(total, 3);
    let ids: Vec<&str> = page.iter().map(|r| r.id.as_str()).collect();
    assert_eq!(ids, ["b", "c"]);

    let mut updated = run("a", "2026-09-10T10:00:00Z");
    updated.status = "stopped".to_string();
    table.upsert(&updated);
    assert_eq!(
        table.get("a").map(|r| r.status.clone()),
        Some("stopped".to_string())
    );

    assert!(table.delete("a"));
    assert!(table.get("a").is_none());
    assert_eq!(table.all().len(), 2);
    assert!(!table.delete("a"));
}

#[test]
fn runs_of_one_time_are_listed_by_id() {
    let mut table = RunTable::new();
    for id in ["b", "d", "a", "c"] {
        table.upsert(&run(id, "2026-01-01T00:00:00Z"));
    }
    let ids: Vec<String> = table.all().into_iter().map(|r| r.id).collect();
    assert_eq!(ids, ["d", "c", "b", "a"]);
    let (page, total) = table.list(10, 3);
    assert_eq!((page.len(), total), (1, 4));
    assert!(table.list(10, 9).0.is_empty());
}
