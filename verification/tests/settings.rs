use serde_json::Value;
use slothforge::json::{Json, JsonObject, Number};
use slothforge::server::{make_key, remove_key};
use slothforge::settings_api::{
    auto_switch_defaults, auto_switch_json, auto_switch_settings, delete_custom_preset,
    get_download_transport, get_generation_presets, get_keyless_api_access, get_last_local_model,
    get_upload_limit, migrate_chat_preferences, migrate_hf_token, optional_bool, optional_u64,
    preset_key, put_auto_switch, put_custom_preset, put_download_transport, put_generation_presets,
    put_hf_token, put_keyless_api_access, put_last_local_model, put_model_memory,
    put_model_overrides, put_personalization, put_upload_limit, require_bool, stored_hf_token,
    stored_model_memory, upload_limit_bytes, with_saved_flags, PresetNameQuery,
};
use slothforge::settings_store::{
    apply_patch, compare_and_set, get_object, merge_object, path_exists, Expectations,
};

fn convert(value: &Value) -> Json {
    match value {
        Value::Null => Json::Null,
        Value::Bool(b) => Json::Bool(*b),
        Value::Number(n) => Json::Number(match (n.as_u64(), n.as_i64()) {
            (Some(u), _) => Number::Unsigned(u),
            (None, Some(i)) => Number::Negative(i),
            _ => Number::Float(n.as_f64().unwrap().to_bits()),
        }),
        Value::String(s) => Json::Text(s.clone()),
        Value::Array(items) => Json::Array(items.iter().map(convert).collect()),
        Value::Object(map) => {
            let mut object = JsonObject::new();
            for (k, v) in map {
                object.insert(k, convert(v));
            }
            Json::Object(object)
        }
    }
}

fn json(text: &str) -> Json {
    convert(&serde_json::from_str::<Value>(text).unwrap())
}

fn object(text: &str) -> JsonObject {
    match json(text) {
        Json::Object(o) => o,
        _ => panic!("an object was expected"),
    }
}

fn same(o: JsonObject, text: &str) -> bool {
    Json::Object(o).same(&json(text))
}

#[test]
fn merge_replaces_and_null_removes() {
    let stored = merge_object(None, &object("{\"autoTitle\": true, \"ragTopK\": 5}"));
    let merged = merge_object(
        Some(Json::Object(stored)),
        &object("{\"ragTopK\": 8, \"autoTitle\": null}"),
    );
    assert!(same(merged, "{\"ragTopK\": 8}"));
}

#[test]
fn compare_and_set_applies_only_when_current() {
    let stored = merge_object(None, &object("{\"activePreset\": \"default\"}"));

    let stale = Expectations {
        expected: object("{\"activePreset\": \"creative\"}"),
        expected_absent: vec![],
        expected_absent_paths: vec![],
    };
    let (settings, applied) = compare_and_set(
        Some(Json::Object(stored.duplicate())),
        &stale,
        &object("{\"activePreset\": \"x\"}"),
    );
    assert!(!applied);
    assert_eq!(
        settings.get("activePreset").and_then(|v| v.as_str()),
        Some("default")
    );

    let fresh = Expectations {
        expected: object("{\"activePreset\": \"default\"}"),
        expected_absent: vec!["customPresets".to_string()],
        expected_absent_paths: vec![vec![
            "inferenceParamsByModel".to_string(),
            "llama".to_string(),
        ]],
    };
    let (settings, applied) = compare_and_set(
        Some(Json::Object(stored)),
        &fresh,
        &object("{\"activePreset\": \"creative\"}"),
    );
    assert!(applied);
    assert_eq!(
        settings.get("activePreset").and_then(|v| v.as_str()),
        Some("creative")
    );
}

#[test]
fn what_is_no_object_counts_as_empty() {
    assert!(same(get_object(Some(json("[1]"))), "{}"));
    assert!(same(get_object(None), "{}"));
    let mut target = object("{\"a\": 1, \"b\": {\"c\": 2}}");
    apply_patch(&mut target, &object("{\"b\": null, \"d\": -3}"));
    assert!(same(target, "{\"a\": 1, \"d\": -3}"));
    let deep = object("{\"a\": {\"b\": {\"c\": null}}}");
    let path = |names: &[&str]| names.iter().map(|n| n.to_string()).collect::<Vec<String>>();
    assert!(path_exists(&deep, &path(&["a", "b", "c"])));
    assert!(!path_exists(&deep, &path(&["a", "x"])));
}

#[test]
fn values_are_compared_field_by_field() {
    assert!(json("{\"a\": [1, \"x\", null, true, -2, 0.5]}")
        .same(&json("{\"a\": [1, \"x\", null, true, -2, 0.5]}")));
    assert!(json("{\"a\": 1, \"b\": 2}").same(&json("{\"b\": 2, \"a\": 1}")));
    assert!(!json("{\"a\": 1}").same(&json("{\"a\": 1, \"b\": 2}")));
    assert!(!json("1").same(&json("1.0")));
    assert!(!json("\"1\"").same(&json("1")));
    assert_eq!(json("18446744073709551615").as_i64(), None);
    assert_eq!(json("18446744073709551615").as_u64(), Some(u64::MAX));
    assert_eq!(json("-1").as_u64(), None);
    assert_eq!(json("-1").as_i64(), Some(-1));
}

#[test]
fn flags_and_numbers_of_requests_are_checked() {
    let body = json("{\"yes\": true, \"no\": null, \"word\": \"x\", \"n\": 7, \"minus\": -1}");
    assert_eq!(require_bool(&body, "yes").unwrap(), true);
    let missing = require_bool(&body, "gone").unwrap_err();
    assert_eq!(
        (missing.status, missing.detail.as_str()),
        (422, "Поле gone должно быть true или false")
    );
    assert_eq!(optional_bool(&body, "no").unwrap(), None);
    assert_eq!(optional_bool(&body, "yes").unwrap(), Some(true));
    assert_eq!(optional_bool(&body, "word").unwrap_err().status, 422);
    assert_eq!(optional_u64(&body, "n").unwrap(), Some(7));
    assert_eq!(optional_u64(&body, "gone").unwrap(), None);
    let minus = optional_u64(&body, "minus").unwrap_err();
    assert_eq!(
        (minus.status, minus.detail.as_str()),
        (422, "Поле minus должно быть неотрицательным целым числом")
    );
}

#[test]
fn personalization_is_stored_without_its_flags() {
    let stored = put_personalization(json(
        "{\"profile\": {}, \"appearance\": {\"x\": 1}, \"saved\": true, \"paletteSaved\": false}",
    ))
    .unwrap();
    assert!(same(
        stored.duplicate(),
        "{\"profile\": {}, \"appearance\": {\"x\": 1}}"
    ));
    assert!(with_saved_flags(Json::Object(stored), true).same(&json(
        "{\"profile\": {}, \"appearance\": {\"x\": 1}, \"saved\": true, \"customizationSaved\": true, \"paletteSaved\": true, \"greetingSlothSaved\": true}"
    )));
    assert_eq!(put_personalization(json("[]")).unwrap_err().status, 400);
    assert_eq!(
        put_personalization(json("{\"profile\": {}}"))
            .unwrap_err()
            .status,
        422
    );
}

#[test]
fn chat_preferences_move_over_once() {
    let body = json("{\"show_model_disclaimer\": false}");
    assert_eq!(
        migrate_chat_preferences(None, &body).unwrap(),
        Some(false)
    );
    assert_eq!(
        migrate_chat_preferences(Some(&json("true")), &body).unwrap(),
        None
    );
}

#[test]
fn keyless_access_has_three_scopes() {
    assert_eq!(get_keyless_api_access(None), ("off".to_string(), false));
    let stored = json("{\"scope\": \"full\", \"tools\": true}");
    assert_eq!(
        get_keyless_api_access(Some(&stored)),
        ("full".to_string(), true)
    );
    assert_eq!(
        put_keyless_api_access(&json("{\"scope\": \"inference\"}")).unwrap(),
        ("inference".to_string(), false)
    );
    assert_eq!(
        put_keyless_api_access(&json("{\"scope\": \"all\"}"))
            .unwrap_err()
            .detail,
        "scope должен быть off, inference или full"
    );
}

#[test]
fn upload_limit_stays_in_its_bounds() {
    assert_eq!(get_upload_limit(None), 500);
    assert_eq!(get_upload_limit(Some(&json("49"))), 500);
    assert_eq!(get_upload_limit(Some(&json("50"))), 50);
    assert_eq!(
        put_upload_limit(&json("{\"max_upload_size_mb\": 2048}")).unwrap(),
        2048
    );
    assert_eq!(
        put_upload_limit(&json("{\"max_upload_size_mb\": 2049}"))
            .unwrap_err()
            .status,
        422
    );
    assert_eq!(upload_limit_bytes(2048), 2_147_483_648);
}

#[test]
fn presets_are_put_replaced_and_deleted() {
    assert_eq!(
        preset_key("image").unwrap(),
        "settings.generation_presets.image"
    );
    assert_eq!(preset_key("sound").unwrap_err().status, 404);
    assert!(same(
        get_generation_presets(None),
        "{\"customPresets\": [], \"saved\": false}"
    ));
    let one = put_custom_preset(None, &json("{\"name\": \" a \", \"params\": {\"s\": 1}}")).unwrap();
    let two = put_custom_preset(Some(Json::Object(one)), &json("{\"name\": \"b\"}")).unwrap();
    let again =
        put_custom_preset(Some(Json::Object(two)), &json("{\"name\": \"a\", \"params\": 2}"))
            .unwrap();
    assert!(same(
        again.duplicate(),
        "{\"customPresets\": [{\"name\": \"a\", \"params\": 2}, {\"name\": \"b\", \"params\": null}]}"
    ));
    let with_active = put_generation_presets(
        Some(Json::Object(again)),
        &json("{\"activePreset\": \"a\", \"other\": 1}"),
    );
    let query = |name: &str| PresetNameQuery {
        name: name.to_string(),
    };
    let (left, deleted) = delete_custom_preset(Some(Json::Object(with_active)), &query("a"));
    assert!(deleted);
    assert!(same(
        left.duplicate(),
        "{\"activePreset\": \"a\", \"customPresets\": [{\"name\": \"b\", \"params\": null}]}"
    ));
    let (_, deleted) = delete_custom_preset(Some(Json::Object(left)), &query("a"));
    assert!(!deleted);
    assert_eq!(
        put_custom_preset(None, &json("{\"name\": \"  \"}"))
            .unwrap_err()
            .detail,
        "У пресета должно быть имя"
    );
}

#[test]
fn memory_settings_keep_what_is_not_named() {
    assert_eq!(stored_model_memory(None), (false, false));
    let stored = json("{\"keep_resident\": true, \"no_ram_reserve\": true}");
    assert_eq!(
        put_model_memory(Some(&stored), &json("{\"keep_resident\": false}")).unwrap(),
        (false, true)
    );
    assert_eq!(
        put_model_memory(None, &json("{\"no_ram_reserve\": 1}"))
            .unwrap_err()
            .status,
        422
    );
}

#[test]
fn last_local_model_is_recorded() {
    assert!(same(
        get_last_local_model(None, 5),
        "{\"id\": null, \"kind\": null, \"gguf_variant\": null, \"loaded_at\": null, \"server_now\": 5}"
    ));
    let record = put_last_local_model(
        &json("{\"id\": \" m \", \"kind\": \"gguf\", \"gguf_variant\": \"Q8_0\"}"),
        9,
    )
    .unwrap();
    assert!(same(
        record,
        "{\"id\": \"m\", \"kind\": \"gguf\", \"gguf_variant\": \"Q8_0\", \"loaded_at\": 9}"
    ));
    assert_eq!(
        put_last_local_model(&json("{\"kind\": \"gguf\"}"), 9)
            .unwrap_err()
            .detail,
        "Не указан id модели"
    );
    assert_eq!(
        put_last_local_model(&json("{\"id\": \"m\", \"kind\": \"x\"}"), 9)
            .unwrap_err()
            .detail,
        "kind должен быть gguf или model"
    );
}

#[test]
fn auto_switch_settings_are_completed() {
    let defaults = auto_switch_settings(None);
    assert!(Json::Object(defaults).same(&Json::Object(auto_switch_defaults())));
    let stored = put_auto_switch(
        Some(json("{\"unknown\": 1, \"auto_download_model\": true}")),
        &json("{\"enabled\": true, \"auto_unload_idle_seconds\": 60}"),
    )
    .unwrap();
    assert!(stored.get("unknown").is_none());
    let shown = auto_switch_json(stored);
    assert!(same(
        shown,
        "{\"enabled\": true, \"auto_unload_idle_seconds\": 60, \"auto_unload_keep_kv\": true, \"auto_download_model\": true, \"auto_unload_api_only\": false, \"media_auto_unload_idle_seconds\": 0, \"media_auto_switch_model\": false, \"default_enabled\": false, \"idle_unload_active\": false, \"media_idle_unload_active\": false}"
    ));
    assert_eq!(
        put_auto_switch(None, &json("{}")).unwrap_err().detail,
        "Поле enabled должно быть true или false"
    );
    assert_eq!(
        put_auto_switch(None, &json("{\"enabled\": true, \"auto_unload_idle_seconds\": \"x\"}"))
            .unwrap_err()
            .status,
        422
    );
}

#[test]
fn overrides_are_an_object() {
    assert!(put_model_overrides(&json("{\"overrides\": {\"a\": 1}}"))
        .unwrap()
        .same(&json("{\"a\": 1}")));
    assert!(put_model_overrides(&json("{\"a\": 1}"))
        .unwrap()
        .same(&json("{\"a\": 1}")));
    assert_eq!(
        put_model_overrides(&json("{\"overrides\": 1}"))
            .unwrap_err()
            .status,
        422
    );
}

#[test]
fn transport_is_auto_or_http() {
    assert_eq!(get_download_transport(None), "auto");
    assert_eq!(get_download_transport(Some(&json("\"http\""))), "http");
    assert_eq!(
        put_download_transport(&json("{\"mode\": \"http\"}")).unwrap(),
        "http"
    );
    assert_eq!(
        put_download_transport(&json("{\"mode\": \"xet\"}"))
            .unwrap_err()
            .detail,
        "Xet пока не поддерживается в SlothForge: выберите auto или http"
    );
    assert_eq!(
        put_download_transport(&json("{}")).unwrap_err().detail,
        "mode должен быть auto или http"
    );
}

#[test]
fn a_stored_token_is_not_overwritten_by_a_migration() {
    assert_eq!(stored_hf_token(Some(&json("\"\""))), None);
    assert_eq!(
        put_hf_token(&json("{\"token\": \"  hub \"}")).as_deref(),
        Some("hub")
    );
    assert_eq!(put_hf_token(&json("{\"token\": \"  \"}")), None);
    let body = json("{\"token\": \"new\"}");
    assert_eq!(
        migrate_hf_token(Some(&json("\"old\"")), &body).as_deref(),
        Some("old")
    );
    assert_eq!(migrate_hf_token(None, &body).as_deref(), Some("new"));
}

#[test]
fn keys_are_made_and_removed() {
    let key = make_key(&json("{\"name\": \"work\"}"), 7, "2026-09-13T00:00:00Z");
    let id = key.get("id").and_then(|v| v.as_str()).unwrap().to_string();
    let keys = vec![Json::Object(key), json("{\"id\": \"other\"}")];
    let left = remove_key(&keys, &id);
    assert_eq!(left.len(), 1);
    assert_eq!(left[0].get("id").and_then(|v| v.as_str()), Some("other"));
    assert_eq!(remove_key(&left, &id).len(), 1);
}
