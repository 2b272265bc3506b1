use serde_json::Value;
use slothforge::chat_api::{
    compare_and_set_request, engine_not_ready, fork_request, ids_to_delete, string_list,
    sync_request, ChatMessage, ThreadListQuery, ENGINE_NOT_READY,
};
use slothforge::chat_forks::{
    delete_project, export_all, fork_counts, fork_thread, get_project,
    patch_project, save_project,
};
use slothforge::chat_lists::{
    count_threads, list_messages, list_projects, list_threads, messages_of_thread,
};
use slothforge::chat_ops::{
    clear_all_threads, delete_message, delete_threads, get_message, patch_message, patch_thread,
    put_message, save_message, sync_messages,
};
use slothforge::chat_store::{get_thread, save_thread, ChatError, ChatTables, ThreadFilter};
use slothforge::json::{Json, JsonObject, Number};
use slothforge::profile_facts::{all_messages, all_threads};

const NOW: i64 = 1_000;

fn convert(value: &Value) -> Json {
    match value {
        Value::Null => Json::Null,
        Value::Bool(b) => Json::Bool(*b),
        Value::Number(n) => Json::Number(match (n.as_u64(), n.as_i64()) {
            (Some(u), _) => Number::Unsigned(u),
            (None, Some(i)) => Number::Negative(i),
            _ => Number::Float(n.as_f64().unwrap().to_bits()),
        }),
        Value::String(s) => Json::Text(s.clone()),
        Value::Array(items) => Json::Array(items.iter().map(convert).collect()),
        Value::Object(map) => {
            let mut object = JsonObject::new();
            for (k, v) in map {
                object.insert(k, convert(v));
            }
            Json::Object(object)
        }
    }
}

fn json(text: &str) -> Json {
    convert(&serde_json::from_str::<Value>(text).unwrap())
}

fn at<'a>(value: &'a Json, key: &str) -> &'a Json {
    value.get(key).unwrap_or(&Json::Null)
}

fn text<'a>(value: &'a Json, key: &str) -> Option<&'a str> {
    value.get(key).and_then(|v| v.as_str())
}

fn thread(id: &str, created_at: i64) -> Json {
    json(&format!(
        "{{\"id\": \"{id}\", \"title\": \"Чат {id}\", \"modelType\": \"base\", \"archived\": false, \"createdAt\": {created_at}}}"
    ))
}

fn with(value: Json, key: &str, field: Json) -> Json {
    match value {
        Json::Object(mut o) => {
            o.insert(key, field);
            Json::Object(o)
        }
        other => other,
    }
}

fn message(id: &str, role: &str, created_at: i64) -> Json {
    json(&format!(
        "{{\"id\": \"{id}\", \"role\": \"{role}\", \"content\": [{{\"type\": \"text\", \"text\": \"{id}\"}}], \"createdAt\": {created_at}}}"
    ))
}

fn any() -> ThreadFilter {
    ThreadFilter {
        model_type: None,
        pair_id: None,
        project_id: None,
        include_archived: false,
    }
}

#[test]
fn saves_full_thread_record_and_lists_newest_first() {
    let mut chat = ChatTables::new();
    let record = with(
        with(thread("t1", 100), "pairId", json("\"pair-1\"")),
        "settings",
        json("{\"temperature\": 0.3}"),
    );
    save_thread(&mut chat, record, NOW).unwrap();
    save_thread(&mut chat, thread("t2", 200), NOW).unwrap();

    let saved = get_thread(&chat, "t1").expect("тред не сохранился");
    assert_eq!(text(&saved, "pairId"), Some("pair-1"));
    assert!(at(at(&saved, "settings"), "temperature").same(&json("0.3")));

    let ids: Vec<String> = list_threads(&chat, &any())
        .iter()
        .map(|t| text(t, "id").unwrap().to_string())
        .collect();
    assert_eq!(ids, ["t2", "t1"]);

    let mut by_pair = any();
    by_pair.pair_id = Some("pair-1".to_string());
    assert_eq!(list_threads(&chat, &by_pair).len(), 1);
}

#[test]
fn archived_threads_hidden_unless_requested() {
    let mut chat = ChatTables::new();
    save_thread(
        &mut chat,
        with(thread("old", 1), "archived", Json::Bool(true)),
        NOW,
    )
    .unwrap();
    save_thread(&mut chat, thread("new", 2), NOW).unwrap();
    assert_eq!(list_threads(&chat, &any()).len(), 1);
    let mut all = any();
    all.include_archived = true;
    assert_eq!(list_threads(&chat, &all).len(), 2);
}

#[test]
fn patch_merges_settings_and_checks_expectations() {
    let mut chat = ChatTables::new();
    save_thread(&mut chat, thread("t1", 1), NOW).unwrap();
    save_message(&mut chat, "t1", message("m1", "user", 10), NOW).unwrap();

    let patched = patch_thread(
        &mut chat,
        "t1",
        json("{\"title\": \"Новое\", \"settingsPatch\": {\"topK\": 40}, \"settingsSeq\": 3}"),
        NOW,
    )
    .unwrap();
    assert_eq!(text(&patched, "title"), Some("Новое"));
    assert_eq!(at(at(&patched, "settings"), "topK").as_i64(), Some(40));
    assert!(patched.get("settingsSeq").is_none());

    let conflict = patch_thread(
        &mut chat,
        "t1",
        json("{\"title\": \"X\", \"expectedTitle\": \"Старое\"}"),
        NOW,
    );
    assert!(matches!(conflict, Err(ChatError::Conflict(_))));

    let ok = patch_thread(
        &mut chat,
        "t1",
        json("{\"title\": \"Y\", \"expectedOpeningMessageId\": \"m1\"}"),
        NOW,
    )
    .unwrap();
    assert_eq!(text(&ok, "title"), Some("Y"));

    assert!(matches!(
        patch_thread(&mut chat, "missing", json("{\"title\": \"Z\"}"), NOW),
        Err(ChatError::NotFound(_))
    ));
}

#[test]
fn deleted_thread_cannot_be_resurrected() {
    let mut chat = ChatTables::new();
    save_thread(&mut chat, thread("t1", 1), NOW).unwrap();
    save_message(&mut chat, "t1", message("m1", "user", 1), NOW).unwrap();
    assert_eq!(
        delete_threads(&mut chat, &vec!["t1".to_string(), "never-saved".to_string()]),
        ["t1"]
    );

    assert!(list_messages(&chat, "t1").is_empty());
    assert!(matches!(
        save_thread(&mut chat, thread("t1", 1), NOW),
        Err(ChatError::Deleted(_))
    ));
    assert!(matches!(
        save_thread(&mut chat, thread("never-saved", 1), NOW),
        Err(ChatError::Deleted(_))
    ));
}

#[test]
fn sync_prunes_and_deletes_messages() {
    let mut chat = ChatTables::new();
    save_thread(&mut chat, thread("t1", 1), NOW).unwrap();
    sync_messages(
        &mut chat,
        "t1",
        &vec![
            message("a", "user", 1),
            message("b", "assistant", 2),
            message("c", "user", 3),
        ],
        false,
        &vec![],
        NOW,
    )
    .unwrap();

    let after_delete =
        sync_messages(&mut chat, "t1", &vec![], false, &vec!["b".to_string()], NOW).unwrap();
    assert_eq!(after_delete.len(), 2);

    let pruned = sync_messages(
        &mut chat,
        "t1",
        &vec![message("c", "user", 3)],
        true,
        &vec![],
        NOW,
    )
    .unwrap();
    assert_eq!(pruned.len(), 1);
    assert_eq!(text(&pruned[0], "id"), Some("c"));
    assert_eq!(text(&pruned[0], "threadId"), Some("t1"));

    assert!(matches!(
        sync_messages(&mut chat, "missing", &vec![], false, &vec![], NOW),
        Err(ChatError::NotFound(_))
    ));
}

#[test]
fn fork_copies_messages_up_to_branch_point() {
    let mut chat = ChatTables::new();
    save_thread(
        &mut chat,
        with(
            thread("src", 1),
            "openaiCodeExecContainerId",
            json("\"container-1\""),
        ),
        NOW,
    )
    .unwrap();
    sync_messages(
        &mut chat,
        "src",
        &vec![
            message("m1", "user", 1),
            message("m2", "assistant", 2),
            message("m3", "user", 3),
        ],
        false,
        &vec![],
        NOW,
    )
    .unwrap();

    let (forked, messages) = fork_thread(&mut chat, "src", "m2", "fork", 50, NOW).unwrap();
    assert_eq!(text(&forked, "forkedFromThreadId"), Some("src"));
    assert_eq!(text(&forked, "forkedFromMessageId"), Some("m2"));
    assert!(at(&forked, "openaiCodeExecContainerId").is_null());
    assert_eq!(messages.len(), 2);
    assert!(messages.iter().all(|m| text(m, "threadId") == Some("fork")));
    assert_eq!(list_messages(&chat, "src").len(), 3);

    assert_eq!(fork_counts(&chat, "src").unwrap(), vec![("m2".to_string(), 1)]);
    assert!(matches!(
        fork_thread(&mut chat, "src", "m2", "fork", 60, NOW),
        Err(ChatError::Conflict(_))
    ));
    assert!(matches!(
        fork_thread(&mut chat, "src", "missing", "fork2", 60, NOW),
        Err(ChatError::NotFound(_))
    ));
}

#[test]
fn clear_all_counts_and_tombstones() {
    let mut chat = ChatTables::new();
    save_thread(&mut chat, thread("a", 1), NOW).unwrap();
    save_thread(&mut chat, thread("b", 2), NOW).unwrap();
    assert_eq!(count_threads(&chat), 2);
    let mut deleted = clear_all_threads(&mut chat, &vec!["pending".to_string()]);
    deleted.sort();
    assert_eq!(deleted, ["a", "b"]);
    assert_eq!(count_threads(&chat), 0);
    assert!(matches!(
        save_thread(&mut chat, thread("pending", 3), NOW),
        Err(ChatError::Deleted(_))
    ));
}

#[test]
fn deleting_project_detaches_threads() {
    let mut chat = ChatTables::new();
    save_project(&mut chat, json("{\"id\": \"p1\", \"name\": \"Проект\"}"), NOW).unwrap();
    save_thread(
        &mut chat,
        with(thread("t1", 1), "projectId", json("\"p1\"")),
        NOW,
    )
    .unwrap();

    let patched = patch_project(
        &mut chat,
        "p1",
        json("{\"instructions\": \"Отвечай кратко\"}"),
        NOW,
    )
    .unwrap();
    assert_eq!(text(&patched, "instructions"), Some("Отвечай кратко"));

    delete_project(&mut chat, "p1").unwrap();
    assert!(get_project(&chat, "p1").is_none());
    let left = get_thread(&chat, "t1").expect("тред остаётся");
    assert!(at(&left, "projectId").is_null());
    let mut in_project = any();
    in_project.project_id = Some("p1".to_string());
    assert!(list_threads(&chat, &in_project).is_empty());
    assert!(matches!(
        delete_project(&mut chat, "p1"),
        Err(ChatError::NotFound(_))
    ));
}

#[test]
fn a_fork_point_that_is_no_text_is_an_error() {
    let mut chat = ChatTables::new();
    let forked = with(thread("t1", 1), "forkedFromThreadId", json("\"src\""));
    save_thread(&mut chat, with(forked, "forkedFromMessageId", json("7")), NOW).unwrap();
    assert!(matches!(fork_counts(&chat, "src"), Err(ChatError::Store(_))));
    assert!(fork_counts(&chat, "t1").unwrap().is_empty());
}

#[test]
fn export_contains_everything() {
    let mut chat = ChatTables::new();
    save_thread(&mut chat, thread("t1", 1), NOW).unwrap();
    save_message(&mut chat, "t1", message("m1", "user", 1), NOW).unwrap();
    let exported = export_all(&chat);
    assert_eq!(exported.thread_count, 1);
    assert_eq!(exported.messages.len(), 1);
    assert_eq!(
        all_messages(&chat)
            .iter()
            .filter(|m| m.thread_id == "t1")
            .count(),
        1
    );
    assert!(all_threads(&chat).iter().any(|t| t.id == "t1"));
}

#[test]
fn extracts_text_from_string_and_parts() {
    let plain = ChatMessage {
        role: "user".to_string(),
        content: json("\"привет\""),
    };
    assert_eq!(plain.text_content(""), "привет");

    let parts = ChatMessage {
        role: "user".to_string(),
        content: json(
            "[{\"type\": \"text\", \"text\": \"при\"}, {\"type\": \"text\", \"text\": \"вет\"}]",
        ),
    };
    assert_eq!(parts.text_content(""), "привет");
    let other = ChatMessage {
        role: "user".to_string(),
        content: json("7"),
    };
    assert_eq!(other.text_content("7"), "7");
}

#[test]
fn messages_are_put_patched_and_deleted() {
    let mut chat = ChatTables::new();
    save_thread(&mut chat, thread("t", 1), NOW).unwrap();
    let put = put_message(&mut chat, "t", "m", message("other", "user", 5), NOW).unwrap();
    assert_eq!(text(&put, "id"), Some("m"));
    let patched = patch_message(
        &mut chat,
        "t",
        "m",
        &json("{\"id\": \"x\", \"role\": \"assistant\"}"),
        NOW,
    )
    .unwrap();
    assert_eq!(text(&patched, "id"), Some("m"));
    assert_eq!(text(&patched, "role"), Some("assistant"));
    assert_eq!(
        text(&get_message(&chat, "t", "m").unwrap(), "role"),
        Some("assistant")
    );
    assert!(delete_message(&mut chat, "t", "m"));
    assert!(!delete_message(&mut chat, "t", "m"));
    assert!(get_message(&chat, "t", "m").is_none());
    assert!(matches!(
        save_message(&mut chat, "nowhere", message("m", "user", 1), NOW),
        Err(ChatError::NotFound(_))
    ));
    assert!(matches!(
        patch_message(&mut chat, "t", "gone", &json("{}"), NOW),
        Err(ChatError::NotFound(_))
    ));
}

#[test]
fn records_without_an_id_are_invalid() {
    let mut chat = ChatTables::new();
    assert!(matches!(
        save_thread(&mut chat, json("{\"title\": \"x\"}"), NOW),
        Err(ChatError::Invalid(_))
    ));
    assert!(matches!(
        save_thread(&mut chat, json("[]"), NOW),
        Err(ChatError::Invalid(_))
    ));
    assert!(matches!(
        save_project(&mut chat, json("{}"), NOW),
        Err(ChatError::Invalid(_))
    ));
}

#[test]
fn projects_are_listed_with_and_without_archived_ones() {
    let mut chat = ChatTables::new();
    save_project(&mut chat, json("{\"id\": \"a\", \"createdAt\": 1}"), NOW).unwrap();
    save_project(
        &mut chat,
        json("{\"id\": \"b\", \"createdAt\": 2, \"archived\": true}"),
        NOW,
    )
    .unwrap();
    assert_eq!(list_projects(&chat, false).len(), 1);
    assert_eq!(list_projects(&chat, true).len(), 2);
}

#[test]
fn chat_errors_become_answers() {
    let mut chat = ChatTables::new();
    let missing = patch_thread(&mut chat, "t", json("{}"), NOW).unwrap_err();
    assert_eq!(missing.to_api_error().status, 404);
    delete_threads(&mut chat, &vec!["t".to_string()]);
    let deleted = save_thread(&mut chat, thread("t", 1), NOW).unwrap_err();
    assert_eq!(deleted.to_api_error().status, 410);
    let invalid = save_thread(&mut chat, json("1"), NOW).unwrap_err();
    assert_eq!(invalid.to_api_error().status, 400);
    assert_eq!(engine_not_ready().status, 503);
    assert_eq!(engine_not_ready().detail, ENGINE_NOT_READY);
}

#[test]
fn bodies_of_requests_are_read() {
    assert_eq!(
        string_list(Some(&json("[\"a\", 1, \"b\"]"))),
        ["a", "b"]
    );
    assert!(string_list(None).is_empty());
    assert_eq!(ids_to_delete(&json("{\"ids\": [\"x\"]}")), ["x"]);
    let sync = sync_request(&json(
        "{\"messages\": [{\"id\": \"m\"}], \"pruneMissing\": true, \"deletedMessageIds\": [\"d\"]}",
    ));
    assert_eq!(sync.messages.len(), 1);
    assert!(sync.prune_missing);
    assert_eq!(sync.deleted_ids, ["d"]);
    let (expected, patch) = compare_and_set_request(&json(
        "{\"expected\": {\"a\": 1}, \"expectedAbsent\": [\"b\"], \"patch\": {\"c\": 2}}",
    ));
    assert!(expected.expected.contains_key("a"));
    assert_eq!(expected.expected_absent, ["b"]);
    assert!(patch.contains_key("c"));
    assert!(fork_request(&json("{}"), NOW).is_err());
    let filter = ThreadListQuery {
        model_type: Some("base".to_string()),
        pair_id: None,
        project_id: None,
        include_archived: None,
    }
    .into_filter();
    assert!(!filter.include_archived);
    assert_eq!(filter.model_type.as_deref(), Some("base"));
}

#[test]
fn messages_are_listed_only_of_a_thread_that_is_there() {
    let mut tables = ChatTables::new();
    save_thread(&mut tables, thread("t", 1), NOW).unwrap();
    save_message(&mut tables, "t", message("b", "assistant", 20), NOW).unwrap();
    save_message(&mut tables, "t", message("a", "user", 10), NOW).unwrap();
    let ids: Vec<String> = messages_of_thread(&tables, "t")
        .unwrap()
        .iter()
        .map(|m| text(m, "id").unwrap().to_string())
        .collect();
    assert_eq!(ids, ["a", "b"]);
    match messages_of_thread(&tables, "other") {
        Err(ChatError::NotFound(what)) => assert_eq!(what, "тред other"),
        _ => panic!("a list of messages without a thread"),
    }
}
