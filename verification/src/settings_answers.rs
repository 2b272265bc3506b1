//! How the settings are stored and shown.

use vstd::prelude::*;

use crate::answers;
use crate::answers::{maybe_text, number};
use crate::json;
use crate::json::{from_str, Json, JsonObject};
use crate::settings_api;
use crate::settings_api::{
    upload_limit_bytes, BYTES_PER_MB, DEFAULT_UPLOAD_LIMIT_MB, MAX_UPLOAD_LIMIT_MB,
    MIN_UPLOAD_LIMIT_MB,
};
use crate::text;

verus! {

// ---------- switches ----------

pub open spec fn preferences_view(show: bool) -> json::JsonView {
    json::JsonView::Object(
        json::with(json::no_fields(), "show_model_disclaimer"@, answers::flag(show)),
    )
}

/// The preferences of the chat.
pub fn chat_preferences_json(show_model_disclaimer: bool) -> (r: Json)
    ensures
        r@ == preferences_view(show_model_disclaimer),
{
    let mut o = JsonObject::new();
    o.insert("show_model_disclaimer", Json::Bool(show_model_disclaimer));
    Json::Object(o)
}

pub open spec fn switch_fields(enabled: bool, default: bool) -> json::Fields {
    let o = json::with(json::no_fields(), "enabled"@, answers::flag(enabled));
    json::with(o, "default_enabled"@, answers::flag(default))
}

/// A switch, with what it stands at first.
pub fn switch_json(enabled: bool, default: bool) -> (r: Json)
    ensures
        r@ == json::JsonView::Object(switch_fields(enabled, default)),
{
    let mut o = JsonObject::new();
    o.insert("enabled", Json::Bool(enabled));
    o.insert("default_enabled", Json::Bool(default));
    Json::Object(o)
}

/// The switch for helpers that are loaded ahead; the environment does not turn it off.
pub fn helper_precache_json(enabled: bool) -> (r: Json)
    ensures
        r@ == json::JsonView::Object(
            json::with(switch_fields(enabled, false), "disabled_by_env"@, answers::flag(false)),
        ),
{
    let mut o = JsonObject::new();
    o.insert("enabled", Json::Bool(enabled));
    o.insert("default_enabled", Json::Bool(false));
    o.insert("disabled_by_env", Json::Bool(false));
    Json::Object(o)
}

// ---------- access without a key ----------

pub open spec fn keyless_fields(scope: Seq<char>, tools: bool) -> json::Fields {
    let o = json::with(json::no_fields(), "scope"@, answers::word(scope));
    json::with(o, "tools"@, answers::flag(tools))
}

/// The access without a key as it is stored.
pub fn keyless_value(scope: &str, tools: bool) -> (r: Json)
    ensures
        r@ == json::JsonView::Object(keyless_fields(scope@, tools)),
{
    let mut o = JsonObject::new();
    o.insert("scope", from_str(scope));
    o.insert("tools", Json::Bool(tools));
    Json::Object(o)
}

/// The access without a key as it is shown.
pub fn keyless_json(scope: &str, tools: bool) -> (r: Json)
    ensures
        r@ == json::JsonView::Object(
            json::with(keyless_fields(scope@, tools), "exposure"@, json::JsonView::Null),
        ),
{
    let mut o = JsonObject::new();
    o.insert("scope", from_str(scope));
    o.insert("tools", Json::Bool(tools));
    o.insert("exposure", Json::Null);
    Json::Object(o)
}

// ---------- limit for uploads ----------

pub open spec fn limit_view(mb: u64) -> json::JsonView {
    let o = json::with(json::no_fields(), "max_upload_size_mb"@, answers::count(mb as int));
    let o = json::with(o, "max_upload_size_bytes"@, answers::count(mb * BYTES_PER_MB));
    let o = json::with(o, "max_upload_size_label"@, answers::word(text::decimal_of(mb as int) + "MB"@));
    let o = json::with(
        o,
        "default_upload_size_mb"@,
        answers::count(DEFAULT_UPLOAD_LIMIT_MB as int),
    );
    let o = json::with(o, "min_upload_size_mb"@, answers::count(MIN_UPLOAD_LIMIT_MB as int));
    let o = json::with(
        o,
        "max_allowed_upload_size_mb"@,
        answers::count(MAX_UPLOAD_LIMIT_MB as int),
    );
    json::JsonView::Object(o)
}

/// The limit for uploads as it is shown.
pub fn upload_limit_json(mb: u64) -> (r: Json)
    requires
        settings_api::limit_ok(mb),
    ensures
        r@ == limit_view(mb),
{
    let label = text::join2(text::decimal(mb).as_str(), "MB");
    let mut o = JsonObject::new();
    o.insert("max_upload_size_mb", number(mb));
    o.insert("max_upload_size_bytes", number(upload_limit_bytes(mb)));
    o.insert("max_upload_size_label", from_str(label.as_str()));
    o.insert("default_upload_size_mb", number(DEFAULT_UPLOAD_LIMIT_MB));
    o.insert("min_upload_size_mb", number(MIN_UPLOAD_LIMIT_MB));
    o.insert("max_allowed_upload_size_mb", number(MAX_UPLOAD_LIMIT_MB));
    Json::Object(o)
}

// ---------- memory of models ----------

pub open spec fn memory_fields(keep_resident: bool, no_ram_reserve: bool) -> json::Fields {
    let o = json::with(json::no_fields(), "keep_resident"@, answers::flag(keep_resident));
    json::with(o, "no_ram_reserve"@, answers::flag(no_ram_reserve))
}

/// The memory settings as they are stored.
pub fn model_memory_value(keep_resident: bool, no_ram_reserve: bool) -> (r: Json)
    ensures
        r@ == json::JsonView::Object(memory_fields(keep_resident, no_ram_reserve)),
{
    let mut o = JsonObject::new();
    o.insert("keep_resident", Json::Bool(keep_resident));
    o.insert("no_ram_reserve", Json::Bool(no_ram_reserve));
    Json::Object(o)
}

pub open spec fn memory_view(keep_resident: bool, no_ram_reserve: bool) -> json::JsonView {
    let off = answers::flag(false);
    let o = memory_fields(keep_resident, no_ram_reserve);
    let o = json::with(o, "default_keep_resident"@, off);
    let o = json::with(o, "default_no_ram_reserve"@, off);
    let o = json::with(o, "mlock_active"@, off);
    let o = json::with(o, "reload_required"@, off);
    json::JsonView::Object(json::with(o, "memlock_limit_bytes"@, json::JsonView::Null))
}

/// The memory settings as they are shown.
pub fn model_memory_json(keep_resident: bool, no_ram_reserve: bool) -> (r: Json)
    ensures
        r@ == memory_view(keep_resident, no_ram_reserve),
{
    let mut o = JsonObject::new();
    o.insert("keep_resident", Json::Bool(keep_resident));
    o.insert("no_ram_reserve", Json::Bool(no_ram_reserve));
    o.insert("default_keep_resident", Json::Bool(false));
    o.insert("default_no_ram_reserve", Json::Bool(false));
    o.insert("mlock_active", Json::Bool(false));
    o.insert("reload_required", Json::Bool(false));
    o.insert("memlock_limit_bytes", Json::Null);
    Json::Object(o)
}

// ---------- the way of downloading ----------

pub open spec fn transport_view(mode: Seq<char>) -> json::JsonView {
    let o = json::with(json::no_fields(), "mode"@, answers::word(mode));
    let o = json::with(o, "xet_available"@, answers::flag(false));
    let o = json::with(
        o,
        "xet_unavailable_reason"@,
        answers::word(
            "Xet пока не поддерживается в SlothForge: модели скачиваются напрямую по HTTP"@,
        ),
    );
    let o = json::with(o, "auto_resolves_to"@, answers::word("http"@));
    let o = json::with(
        o,
        "auto_reason"@,
        answers::word("В SlothForge доступна только прямая загрузка по HTTP"@),
    );
    json::JsonView::Object(o)
}

/// The way of downloading as it is shown.
pub fn download_transport_json(mode: &str) -> (r: Json)
    ensures
        r@ == transport_view(mode@),
{
    let mut o = JsonObject::new();
    o.insert("mode", from_str(mode));
    o.insert("xet_available", Json::Bool(false));
    o.insert(
        "xet_unavailable_reason",
        from_str("Xet пока не поддерживается в SlothForge: модели скачиваются напрямую по HTTP"),
    );
    o.insert("auto_resolves_to", from_str("http"));
    o.insert("auto_reason", from_str("В SlothForge доступна только прямая загрузка по HTTP"));
    Json::Object(o)
}

// ---------- token ----------

pub open spec fn token_view(token: Option<Seq<char>>) -> json::JsonView {
    let o = json::with(json::no_fields(), "has_token"@, answers::flag(token is Some));
    json::JsonView::Object(json::with(o, "token"@, answers::maybe_word(token)))
}

/// The token as it is shown.
pub fn hf_token_json(token: Option<&str>) -> (r: Json)
    ensures
        r@ == token_view(
            match token {
                Some(s) => Some(s@),
                None => None,
            },
        ),
{
    let mut o = JsonObject::new();
    o.insert("has_token", Json::Bool(token.is_some()));
    o.insert("token", maybe_text(token));
    Json::Object(o)
}

} // verus!
