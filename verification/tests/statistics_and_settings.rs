use serde_json::Value;
use slothforge::chat_forks::{delete_project, export_all, export_json, get_project, save_project};
use slothforge::chat_store::{get_thread, save_thread, ChatTables};
use slothforge::cluster::{HeartbeatAck, Latency, RegisterAck, WorkerInfo};
use slothforge::cluster_answers::{
    averaged_answer, heartbeat_answer, register_answer, status_answer,
};
use slothforge::cluster_api::cluster_summary;
use slothforge::json::{Json, JsonObject, Number};
use slothforge::model_answers::{config_answer, impact_answer};
use slothforge::profile_answers::{profile_answer, training_answer};
use slothforge::profile_facts::run_facts;
use slothforge::profile_stats::{
    compute_profile_stats, training_stats, MessageFacts, ThreadFacts,
};
use slothforge::settings_answers::{
    chat_preferences_json, download_transport_json, helper_precache_json, hf_token_json,
    keyless_json, keyless_value, model_memory_json, model_memory_value, switch_json,
    upload_limit_json,
};
use slothforge::settings_api::{
    auto_switch_settings, delete_custom_preset, get_download_transport, get_generation_presets,
    get_keyless_api_access, get_upload_limit, put_auto_switch, put_custom_preset,
    put_download_transport, put_hf_token, put_upload_limit, stored_hf_token, stored_model_memory,
    PresetNameQuery,
};
use slothforge::training_session::TrainingRunSummary;

const DAY_MS: i64 = 86_400_000;

fn convert(value: &Value) -> Json {
    match value {
        Value::Null => Json::Null,
        Value::Bool(b) => Json::Bool(*b),
        Value::Number(n) => Json::Number(match (n.as_u64(), n.as_i64()) {
            (Some(u), _) => Number::Unsigned(u),
            (None, Some(i)) => Number::Negative(i),
            _ => Number::Float(n.as_f64().unwrap().to_bits()),
        }),
        Value::String(s) => Json::Text(s.clone()),
        Value::Array(items) => Json::Array(items.iter().map(convert).collect()),
        Value::Object(map) => {
            let mut object = JsonObject::new();
            for (k, v) in map {
                object.insert(k, convert(v));
            }
            Json::Object(object)
        }
    }
}

fn json(text: &str) -> Json {
    convert(&serde_json::from_str::<Value>(text).unwrap())
}

fn at<'a>(value: &'a Json, key: &str) -> &'a Json {
    value.get(key).unwrap_or(&Json::Null)
}

fn run(id: &str, loss: Option<f32>) -> TrainingRunSummary {
    TrainingRunSummary {
        id: id.to_string(),
        status: "completed".to_string(),
        model_name: "llama".to_string(),
        project_name: None,
        dataset_name: "alpaca".to_string(),
        display_name: None,
        started_at: format!("2026-09-1{}T00:00:00Z", id.len()),
        ended_at: None,
        total_steps: Some(10),
        final_step: Some(10),
        final_loss: loss.map(f32::to_bits),
        output_dir: None,
        can_resume: false,
        resume_blocked_reason: None,
        resumed_later: false,
        has_preview_model: false,
        preview_ref: None,
        preview_sig: None,
        duration_seconds: Some(7),
        error_message: None,
        loss_sparkline: None,
    }
}

#[test]
fn switches_are_shown_with_their_first_value() {
    assert!(chat_preferences_json(false).same(&json("{\"show_model_disclaimer\": false}")));
    assert!(switch_json(true, false).same(&json("{\"enabled\": true, \"default_enabled\": false}")));
    assert!(helper_precache_json(true).same(&json(
        "{\"enabled\": true, \"default_enabled\": false, \"disabled_by_env\": false}"
    )));
}

#[test]
fn access_without_a_key_is_read_back() {
    let stored = keyless_value("inference", true);
    assert_eq!(get_keyless_api_access(Some(&stored)), ("inference".to_string(), true));
    assert!(keyless_json("inference", true).same(&json(
        "{\"scope\": \"inference\", \"tools\": true, \"exposure\": null}"
    )));
}

#[test]
fn limit_for_uploads_is_read_back() {
    let mb = put_upload_limit(&json("{\"max_upload_size_mb\": 64}")).unwrap();
    assert_eq!(get_upload_limit(Some(&Json::Number(Number::Unsigned(mb)))), 64);
    assert!(upload_limit_json(64).same(&json(
        "{\"max_upload_size_mb\": 64, \"max_upload_size_bytes\": 67108864,
          \"max_upload_size_label\": \"64MB\", \"default_upload_size_mb\": 500,
          \"min_upload_size_mb\": 50, \"max_allowed_upload_size_mb\": 2048}"
    )));
}

#[test]
fn memory_of_models_is_read_back() {
    assert_eq!(stored_model_memory(Some(&model_memory_value(true, false))), (true, false));
    assert!(model_memory_json(true, false).same(&json(
        "{\"keep_resident\": true, \"no_ram_reserve\": false, \"default_keep_resident\": false,
          \"default_no_ram_reserve\": false, \"mlock_active\": false, \"reload_required\": false,
          \"memlock_limit_bytes\": null}"
    )));
}

#[test]
fn way_of_downloading_and_token_are_read_back() {
    let mode = put_download_transport(&json("{\"mode\": \"http\"}")).unwrap();
    assert_eq!(get_download_transport(Some(&Json::Text(mode.to_string()))), "http");
    let shown = download_transport_json(mode);
    assert_eq!(at(&shown, "mode").as_str(), Some("http"));
    assert_eq!(at(&shown, "xet_available").as_bool(), Some(false));
    assert_eq!(at(&shown, "auto_resolves_to").as_str(), Some("http"));

    let token = put_hf_token(&json("{\"token\": \" abc \"}")).unwrap();
    assert_eq!(stored_hf_token(Some(&Json::Text(token))), Some("abc".to_string()));
    assert!(hf_token_json(Some("abc")).same(&json("{\"has_token\": true, \"token\": \"abc\"}")));
    assert!(hf_token_json(None).same(&json("{\"has_token\": false, \"token\": null}")));
}

#[test]
fn settings_for_switching_are_read_back() {
    let body = json("{\"enabled\": true, \"auto_unload_idle_seconds\": 30}");
    let put = put_auto_switch(None, &body).unwrap();
    let read = auto_switch_settings(Some(Json::Object(put.duplicate())));
    assert!(Json::Object(read).same(&Json::Object(put)));
}

#[test]
fn presets_are_read_back_until_they_are_deleted() {
    let first = put_custom_preset(None, &json("{\"name\": \"a\", \"params\": 1}")).unwrap();
    let second =
        put_custom_preset(Some(Json::Object(first)), &json("{\"name\": \"b\"}")).unwrap();
    let third = put_custom_preset(
        Some(Json::Object(second)),
        &json("{\"name\": \"a\", \"params\": 2}"),
    )
    .unwrap();
    let shown = Json::Object(get_generation_presets(Some(Json::Object(third.duplicate()))));
    assert!(at(&shown, "customPresets").same(&json(
        "[{\"name\": \"a\", \"params\": 2}, {\"name\": \"b\", \"params\": null}]"
    )));
    let query = PresetNameQuery { name: "a".to_string() };
    let (left, deleted) = delete_custom_preset(Some(Json::Object(third)), &query);
    assert!(deleted);
    let shown = Json::Object(get_generation_presets(Some(Json::Object(left))));
    assert!(at(&shown, "customPresets").same(&json("[{\"name\": \"b\", \"params\": null}]")));
}

#[test]
fn statistics_are_shown() {
    let threads = vec![ThreadFacts {
        id: "t".to_string(),
        title: Some("Чат".to_string()),
        model_id: Some("llama".to_string()),
    }];
    let message = |role: &str, created_at: i64| MessageFacts {
        thread_id: "t".to_string(),
        role: role.to_string(),
        created_at,
    };
    let now = 20_709 * DAY_MS + 5_000;
    let messages = vec![message("user", now - 4_000), message("assistant", now - 1_000)];
    let stats = compute_profile_stats(&threads, &messages, 0, now);
    let shown = profile_answer(&stats, Json::Null);
    assert!(at(&shown, "streak").same(&json(
        "{\"current\": 1, \"longest\": 1, \"lastActiveDay\": \"2026-09-13\"}"
    )));
    assert!(at(&shown, "longestChat").same(&json(
        "{\"threadId\": \"t\", \"title\": \"Чат\", \"seconds\": 3, \"messages\": 2}"
    )));
    assert!(at(&shown, "daily").same(&json(
        "[{\"date\": \"2026-09-13\", \"tokens\": 0, \"messages\": 2, \"chats\": 1}]"
    )));
    assert!(at(&shown, "models").same(&json(
        "[{\"id\": \"llama\", \"label\": \"llama\", \"messages\": 2, \"tokens\": 0}]"
    )));
    assert_eq!(at(at(&shown, "totals"), "userMessages").as_u64(), Some(1));
    assert_eq!(at(at(&shown, "totals"), "activeDays").as_u64(), Some(1));
    assert_eq!(at(at(&shown, "speed"), "samples").as_u64(), Some(0));
    assert_eq!(at(&shown, "days").as_i64(), Some(30));
    assert!(at(&shown, "peakDay").is_null());
    assert!(at(&shown, "training").is_null());
}

#[test]
fn statistics_of_training_are_shown() {
    let runs = vec![run("a", Some(0.5)), run("bb", None)];
    let stats = training_stats(&run_facts(&runs));
    let losses = vec![Some(0.5f64.to_bits()), None];
    let best = stats.best_loss.map(|bits| f64::from(f32::from_bits(bits)).to_bits());
    let shown = training_answer(&stats, &runs, &losses, best);
    assert!(shown.same(&json(
        "{\"runs\": 2, \"completed\": 2, \"steps\": 20, \"tokens\": 0, \"seconds\": 14,
          \"models\": 1, \"datasets\": 1, \"bestLoss\": 0.5, \"recent\": [
          {\"id\": \"bb\", \"name\": \"llama\", \"modelLabel\": \"llama\",
           \"datasetLabel\": \"alpaca\", \"status\": \"completed\", \"finalLoss\": null,
           \"steps\": 10, \"seconds\": 7, \"startedAt\": \"2026-09-12T00:00:00Z\"},
          {\"id\": \"a\", \"name\": \"llama\", \"modelLabel\": \"llama\",
           \"datasetLabel\": \"alpaca\", \"status\": \"completed\", \"finalLoss\": 0.5,
           \"steps\": 10, \"seconds\": 7, \"startedAt\": \"2026-09-11T00:00:00Z\"}]}"
    )));
}

#[test]
fn nodes_are_answered() {
    let ack = RegisterAck {
        status: "registered".to_string(),
        worker_id: "w".to_string(),
        rank: 1,
        world_size: 2,
    };
    assert!(register_answer(&ack).same(&json(
        "{\"status\": \"registered\", \"workerId\": \"w\", \"rank\": 1, \"worldSize\": 2,
          \"message\": \"Узел зарегистрирован в кластере\"}"
    )));
    let ack = HeartbeatAck {
        client_timestamp_ms: Some(90),
        server_timestamp_ms: 100,
        latency_ms: Some(10),
    };
    assert!(heartbeat_answer(&ack, Some(10.5f64.to_bits())).same(&json(
        "{\"clientTimestampMs\": 90, \"serverTimestampMs\": 100, \"latencyMs\": 10.5}"
    )));
    let mean = vec![2.5f64.to_bits(), (-1.25f64).to_bits()];
    assert!(averaged_answer(7, &mean).same(&json(
        "{\"status\": \"ok\", \"step\": 7, \"gradientCount\": 2, \"gradients\": [2.5, -1.25]}"
    )));
}

#[test]
fn state_of_the_cluster_is_answered() {
    let worker = |id: &str, last_seen_ms: u64| WorkerInfo {
        worker_id: id.to_string(),
        rank: 1,
        ip: "10.0.0.2".to_string(),
        gpu_name: "RX 570".to_string(),
        vram_mb: 4096,
        latency_ms: Some(Latency::Measured(3)),
        last_seen_ms,
    };
    let workers = vec![worker("near", 20_000), worker("far", 1_000)];
    let summary = cluster_summary(&workers, 21_000, Some(8192), true);
    let latencies = vec![Some(3.5f64.to_bits()), None];
    let shown = status_answer(
        &summary,
        &workers,
        &latencies,
        21_000,
        4,
        Some(8192),
        Some(3.5f64.to_bits()),
    );
    assert!(shown.same(&json(
        "{\"role\": \"master\", \"worldSize\": 3, \"onlineWorkers\": 1, \"currentStep\": 4,
          \"workers\": [
          {\"workerId\": \"near\", \"rank\": 1, \"ip\": \"10.0.0.2\", \"gpuName\": \"RX 570\",
           \"vramMb\": 4096, \"latencyMs\": 3.5, \"lastSeenMs\": 20000, \"status\": \"online\"},
          {\"workerId\": \"far\", \"rank\": 1, \"ip\": \"10.0.0.2\", \"gpuName\": \"RX 570\",
           \"vramMb\": 4096, \"latencyMs\": null, \"lastSeenMs\": 1000, \"status\": \"offline\"}],
          \"masterVramMb\": 8192, \"totalVramMb\": 16384, \"allReduceReady\": true,
          \"averageLatencyMs\": 3.5}"
    )));
}

#[test]
fn models_are_configured_and_weighed() {
    let shown = config_answer("m", Some(5), None, true);
    assert_eq!(at(&shown, "model_name").as_str(), Some("m"));
    assert_eq!(at(&shown, "model_size_bytes").as_u64(), Some(5));
    assert!(at(&shown, "max_position_embeddings").is_null());
    assert_eq!(at(&shown, "is_vision").as_bool(), Some(true));
    assert!(at(at(&shown, "config"), "training").same(&json(
        "{\"max_seq_length\": 2048, \"num_epochs\": 3, \"learning_rate\": \"2e-4\",
          \"batch_size\": 1, \"gradient_accumulation_steps\": 4, \"lora_r\": 16,
          \"lora_alpha\": 32.0, \"lora_dropout\": 0.0}"
    )));
    assert!(impact_answer("org/repo", Some("Q4_K_M"), 9).same(&json(
        "{\"repo_id\": \"org/repo\", \"variant\": \"Q4_K_M\", \"reclaimed_bytes\": 9,
          \"freed_bytes\": 9, \"affected_models\": [], \"retained_companions\": [],
          \"freeable_companions\": [], \"blocked_by\": []}"
    )));
}

#[test]
fn a_deleted_project_leaves_its_threads() {
    let mut tables = ChatTables::new();
    save_project(&mut tables, json("{\"id\": \"p\", \"name\": \"P\"}"), 1).unwrap();
    assert!(get_project(&tables, "p").is_some());
    let thread = json("{\"id\": \"t\", \"title\": \"T\", \"projectId\": \"p\"}");
    save_thread(&mut tables, thread, 1).unwrap();
    delete_project(&mut tables, "p").unwrap();
    assert!(get_project(&tables, "p").is_none());
    let left = get_thread(&tables, "t").unwrap();
    assert!(at(&left, "projectId").is_null());

    let shown = export_json(export_all(&tables), "2026-09-13T00:00:00Z");
    assert_eq!(at(&shown, "exportedAt").as_str(), Some("2026-09-13T00:00:00Z"));
    assert_eq!(at(&shown, "version").as_u64(), Some(1));
    assert_eq!(at(&shown, "threadCount").as_u64(), Some(1));
    assert!(at(&shown, "projects").same(&json("[]")));
    assert!(at(&shown, "messages").same(&json("[]")));
}
