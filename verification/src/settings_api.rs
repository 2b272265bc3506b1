//! Settings of the interface and of the models: what a request may set and what is stored.

use vstd::prelude::*;

use crate::chat_ops;
use crate::error;
use crate::error::{ApiError, ApiResult};
use crate::json;
use crate::json::{Json, JsonObject, Number};
use crate::settings_store;
use crate::settings_store::get_object;
use crate::text;

verus! {

/// The smallest, the largest and the usual limit for uploads, in megabytes.
pub const MIN_UPLOAD_LIMIT_MB: u64 = 50;

pub const MAX_UPLOAD_LIMIT_MB: u64 = 2048;

pub const DEFAULT_UPLOAD_LIMIT_MB: u64 = 500;

pub const BYTES_PER_MB: u64 = 1_048_576;

pub open spec fn unprocessable(detail: Seq<char>) -> error::ApiErrorView {
    error::ApiErrorView { status: 422, detail }
}

// ---------- fields of a request ----------

pub open spec fn flag_error(field: Seq<char>) -> error::ApiErrorView {
    unprocessable("Поле "@ + field + " должно быть true или false"@)
}

pub open spec fn spec_required(body: json::JsonView, field: Seq<char>) -> Result<
    bool,
    error::ApiErrorView,
> {
    match json::bool_of(json::member(body, field)) {
        Some(b) => Ok(b),
        None => Err(flag_error(field)),
    }
}

/// A flag that a request has to set.
pub fn require_bool(body: &Json, field: &str) -> (r: ApiResult<bool>)
    ensures
        match spec_required(body@, field@) {
            Ok(b) => r is Ok && r->Ok_0 == b,
            Err(e) => r is Err && r->Err_0@ == e,
        },
{
    if let Some(v) = body.get(field) {
        if let Some(b) = v.as_bool() {
            return Ok(b);
        }
    }
    Err(ApiError::unprocessable(text::join3("Поле ", field, " должно быть true или false")))
}

pub open spec fn spec_optional(body: json::JsonView, field: Seq<char>) -> Result<
    Option<bool>,
    error::ApiErrorView,
> {
    match json::member(body, field) {
        None => Ok(None),
        Some(json::JsonView::Null) => Ok(None),
        Some(json::JsonView::Bool(b)) => Ok(Some(b)),
        Some(_) => Err(flag_error(field)),
    }
}

/// A flag that a request may set: absent or `null` says nothing, another type is an error.
pub fn optional_bool(body: &Json, field: &str) -> (r: ApiResult<Option<bool>>)
    ensures
        match spec_optional(body@, field@) {
            Ok(b) => r is Ok && r->Ok_0 == b,
            Err(e) => r is Err && r->Err_0@ == e,
        },
{
    match body.get(field) {
        None => Ok(None),
        Some(Json::Null) => Ok(None),
        Some(Json::Bool(b)) => Ok(Some(*b)),
        Some(_) => Err(
            ApiError::unprocessable(
                text::join3("Поле ", field, " должно быть true или false"),
            ),
        ),
    }
}

pub open spec fn spec_optional_u64(body: json::JsonView, field: Seq<char>) -> Result<
    Option<u64>,
    error::ApiErrorView,
> {
    match json::member(body, field) {
        None => Ok(None),
        Some(json::JsonView::Null) => Ok(None),
        v => match json::u64_of(v) {
            Some(n) => Ok(Some(n)),
            None => Err(
                unprocessable(
                    "Поле "@ + field + " должно быть неотрицательным целым числом"@,
                ),
            ),
        },
    }
}

/// A whole number, not negative, that a request may set.
pub fn optional_u64(body: &Json, field: &str) -> (r: ApiResult<Option<u64>>)
    ensures
        match spec_optional_u64(body@, field@) {
            Ok(n) => r is Ok && r->Ok_0 == n,
            Err(e) => r is Err && r->Err_0@ == e,
        },
{
    match body.get(field) {
        None => Ok(None),
        Some(v) => {
            if v.is_null() {
                return Ok(None);
            }
            match v.as_u64() {
                Some(n) => Ok(Some(n)),
                None => Err(
                    ApiError::unprocessable(
                        text::join3(
                            "Поле ",
                            field,
                            " должно быть неотрицательным целым числом",
                        ),
                    ),
                ),
            }
        },
    }
}

pub open spec fn opt_view(v: Option<&Json>) -> Option<json::JsonView> {
    match v {
        Some(j) => Some(j@),
        None => None,
    }
}

/// A stored flag, or its usual value.
pub fn flag_or(stored: Option<&Json>, default: bool) -> (r: bool)
    ensures
        r == (match json::bool_of(opt_view(stored)) {
            Some(b) => b,
            None => default,
        }),
{
    match stored {
        Some(v) => match v.as_bool() {
            Some(b) => b,
            None => default,
        },
        None => default,
    }
}

pub open spec fn member_of(v: Option<json::JsonView>, field: Seq<char>) -> Option<json::JsonView> {
    match v {
        Some(j) => json::member(j, field),
        None => None,
    }
}

fn stored_field<'a>(stored: Option<&'a Json>, field: &str) -> (r: Option<&'a Json>)
    ensures
        opt_view(r) == member_of(opt_view(stored), field@),
{
    match stored {
        Some(v) => v.get(field),
        None => None,
    }
}

// ---------- personalization ----------

/// The flags that say what is stored: the interface gets them and does not send them back.
pub open spec fn saved_flag(i: int) -> Seq<char> {
    if i == 0 {
        "saved"@
    } else if i == 1 {
        "customizationSaved"@
    } else if i == 2 {
        "paletteSaved"@
    } else {
        "greetingSlothSaved"@
    }
}

fn saved_flag_name(i: usize) -> (r: &'static str)
    ensures
        r@ == saved_flag(i as int),
{
    match i {
        0 => "saved",
        1 => "customizationSaved",
        2 => "paletteSaved",
        _ => "greetingSlothSaved",
    }
}

pub open spec fn flagged(o: json::Fields, saved: bool, n: int) -> json::Fields
    decreases n,
{
    if n <= 0 {
        o
    } else {
        json::with(flagged(o, saved, n - 1), saved_flag(n - 1), json::JsonView::Bool(saved))
    }
}

pub open spec fn unflagged(o: json::Fields, n: int) -> json::Fields
    decreases n,
{
    if n <= 0 {
        o
    } else {
        json::without(unflagged(o, n - 1), saved_flag(n - 1))
    }
}

/// The value with the flags; only an object gets them.
pub open spec fn spec_with_flags(v: json::JsonView, saved: bool) -> json::JsonView {
    match v {
        json::JsonView::Object(o) => json::JsonView::Object(flagged(o, saved, 4)),
        _ => v,
    }
}

/// Adds the flags that say whether the value is stored.
pub fn with_saved_flags(value: Json, saved: bool) -> (r: Json)
    ensures
        r@ == spec_with_flags(value@, saved),
{
    match value {
        Json::Object(o) => {
            let ghost start = o@;
            let mut object = o;
            let mut i: usize = 0;
            while i < 4
                invariant
                    i <= 4,
                    object@ == flagged(start, saved, i as int),
                decreases 4 - i,
            {
                object.insert(saved_flag_name(i), Json::Bool(saved));
                i += 1;
            }
            Json::Object(object)
        },
        other => other,
    }
}

pub open spec fn is_object(v: Option<json::JsonView>) -> bool {
    v is Some && v->Some_0 is Object
}

pub open spec fn spec_personalization(body: json::JsonView) -> Result<
    json::Fields,
    error::ApiErrorView,
> {
    match body {
        json::JsonView::Object(o) => if is_object(json::field(o, "profile"@)) && is_object(
            json::field(o, "appearance"@),
        ) {
            Ok(unflagged(o, 4))
        } else {
            Err(unprocessable("В персонализации нужны объекты profile и appearance"@))
        },
        _ => Err(
            error::ApiErrorView {
                status: 400,
                detail: "Персонализация должна быть JSON-объектом"@,
            },
        ),
    }
}

fn has_object(o: &JsonObject, field: &str) -> (r: bool)
    ensures
        r == is_object(json::field(o@, field@)),
{
    match o.get(field) {
        Some(v) => v.is_object(),
        None => false,
    }
}

/// The personalization that a request asks to store.
pub fn put_personalization(body: Json) -> (r: ApiResult<JsonObject>)
    ensures
        match spec_personalization(body@) {
            Ok(o) => r is Ok && r->Ok_0@ == o,
            Err(e) => r is Err && r->Err_0@ == e,
        },
{
    let mut object = match body {
        Json::Object(o) => o,
        _ => return Err(
            ApiError::bad_request("Персонализация должна быть JSON-объектом".to_owned()),
        ),
    };
    if !(has_object(&object, "profile") && has_object(&object, "appearance")) {
        return Err(
            ApiError::unprocessable(
                "В персонализации нужны объекты profile и appearance".to_owned(),
            ),
        );
    }
    let ghost start = object@;
    let mut i: usize = 0;
    while i < 4
        invariant
            i <= 4,
            object@ == unflagged(start, i as int),
        decreases 4 - i,
    {
        object.remove(saved_flag_name(i));
        i += 1;
    }
    Ok(object)
}

// ---------- preferences that move from the browser ----------

/// The value that a migration stores: only where nothing is stored yet.
pub fn migrate_chat_preferences(stored: Option<&Json>, body: &Json) -> (r: ApiResult<Option<bool>>)
    ensures
        match stored {
            Some(_) => r is Ok && r->Ok_0 is None,
            None => match spec_optional(body@, "show_model_disclaimer"@) {
                Ok(b) => r is Ok && r->Ok_0 == b,
                Err(e) => r is Err && r->Err_0@ == e,
            },
        },
{
    if stored.is_some() {
        return Ok(None);
    }
    optional_bool(body, "show_model_disclaimer")
}

// ---------- access without a key ----------

pub open spec fn is_scope(s: Seq<char>) -> bool {
    s == "off"@ || s == "inference"@ || s == "full"@
}

fn known_scope(s: &str) -> (r: bool)
    ensures
        r == is_scope(s@),
{
    text::same(s, "off") || text::same(s, "inference") || text::same(s, "full")
}

pub open spec fn spec_keyless(stored: Option<json::JsonView>) -> (Seq<char>, bool) {
    (
        match json::text_of(member_of(stored, "scope"@)) {
            Some(s) => if is_scope(s) {
                s
            } else {
                "off"@
            },
            None => "off"@,
        },
        match json::bool_of(member_of(stored, "tools"@)) {
            Some(b) => b,
            None => false,
        },
    )
}

/// The stored access without a key: its scope and whether tools may be used.
pub fn get_keyless_api_access(stored: Option<&Json>) -> (r: (String, bool))
    ensures
        (r.0@, r.1) == spec_keyless(opt_view(stored)),
{
    let scope = match stored_field(stored, "scope") {
        Some(v) => match v.as_str() {
            Some(s) => if known_scope(s) {
                s.to_owned()
            } else {
                "off".to_owned()
            },
            None => "off".to_owned(),
        },
        None => "off".to_owned(),
    };
    let tools = flag_or(stored_field(stored, "tools"), false);
    (scope, tools)
}

pub open spec fn spec_put_keyless(body: json::JsonView) -> Result<
    (Seq<char>, bool),
    error::ApiErrorView,
> {
    match json::text_of(json::member(body, "scope"@)) {
        Some(s) => if is_scope(s) {
            match spec_optional(body, "tools"@) {
                Err(e) => Err(e),
                Ok(Some(b)) => Ok((s, b)),
                Ok(None) => Ok((s, false)),
            }
        } else {
            Err(unprocessable("scope должен быть off, inference или full"@))
        },
        None => Err(unprocessable("scope должен быть off, inference или full"@)),
    }
}

/// The access without a key that a request asks for.
pub fn put_keyless_api_access(body: &Json) -> (r: ApiResult<(String, bool)>)
    ensures
        match spec_put_keyless(body@) {
            Ok((scope, tools)) => r is Ok && r->Ok_0.0@ == scope && r->Ok_0.1 == tools,
            Err(e) => r is Err && r->Err_0@ == e,
        },
{
    let scope = match body_text(body, "scope") {
        Some(s) => s,
        None => return Err(
            ApiError::unprocessable("scope должен быть off, inference или full".to_owned()),
        ),
    };
    if !known_scope(scope) {
        return Err(
            ApiError::unprocessable("scope должен быть off, inference или full".to_owned()),
        );
    }
    match optional_bool(body, "tools") {
        Ok(Some(b)) => Ok((scope.to_owned(), b)),
        Ok(None) => Ok((scope.to_owned(), false)),
        Err(e) => Err(e),
    }
}

/// A text field of a request.
pub fn body_text<'a>(body: &'a Json, field: &str) -> (r: Option<&'a str>)
    ensures
        json::text_of(json::member(body@, field@)) == (match r {
            Some(s) => Some(s@),
            None => None,
        }),
{
    match body.get(field) {
        Some(v) => v.as_str(),
        None => None,
    }
}

// ---------- limit for uploads ----------

pub open spec fn limit_ok(mb: u64) -> bool {
    MIN_UPLOAD_LIMIT_MB <= mb <= MAX_UPLOAD_LIMIT_MB
}

pub open spec fn spec_limit(stored: Option<json::JsonView>) -> u64 {
    match json::u64_of(stored) {
        Some(mb) => if limit_ok(mb) {
            mb
        } else {
            DEFAULT_UPLOAD_LIMIT_MB
        },
        None => DEFAULT_UPLOAD_LIMIT_MB,
    }
}

/// The stored limit in megabytes, or the usual one.
pub fn get_upload_limit(stored: Option<&Json>) -> (r: u64)
    ensures
        r == spec_limit(opt_view(stored)),
        limit_ok(r),
{
    if let Some(v) = stored {
        if let Some(mb) = v.as_u64() {
            if MIN_UPLOAD_LIMIT_MB <= mb && mb <= MAX_UPLOAD_LIMIT_MB {
                return mb;
            }
        }
    }
    DEFAULT_UPLOAD_LIMIT_MB
}

/// The limit in megabytes that a request asks for.
pub fn put_upload_limit(body: &Json) -> (r: ApiResult<u64>)
    ensures
        match json::u64_of(json::member(body@, "max_upload_size_mb"@)) {
            Some(mb) => if limit_ok(mb) {
                r is Ok && r->Ok_0 == mb
            } else {
                r is Err && r->Err_0@ == unprocessable(
                    "Лимит загрузки должен быть от 50 до 2048 МБ"@,
                )
            },
            None => r is Err && r->Err_0@ == unprocessable(
                "Лимит загрузки должен быть от 50 до 2048 МБ"@,
            ),
        },
{
    if let Some(v) = body.get("max_upload_size_mb") {
        if let Some(mb) = v.as_u64() {
            if MIN_UPLOAD_LIMIT_MB <= mb && mb <= MAX_UPLOAD_LIMIT_MB {
                return Ok(mb);
            }
        }
    }
    Err(ApiError::unprocessable("Лимит загрузки должен быть от 50 до 2048 МБ".to_owned()))
}

/// A limit in bytes.
pub fn upload_limit_bytes(mb: u64) -> (r: u64)
    requires
        limit_ok(mb),
    ensures
        r == mb * BYTES_PER_MB,
{
    mb * BYTES_PER_MB
}

// ---------- presets for generation ----------

pub open spec fn spec_preset_key(kind: Seq<char>) -> Result<Seq<char>, error::ApiErrorView> {
    if kind == "image"@ || kind == "video"@ {
        Ok("settings.generation_presets."@ + kind)
    } else {
        Err(
            error::ApiErrorView {
                status: 404,
                detail: "Неизвестный вид пресетов генерации: "@ + kind,
            },
        )
    }
}

/// The key under which the presets of a kind are stored.
pub fn preset_key(kind: &str) -> (r: ApiResult<String>)
    ensures
        match spec_preset_key(kind@) {
            Ok(key) => r is Ok && r->Ok_0@ == key,
            Err(e) => r is Err && r->Err_0@ == e,
        },
{
    if text::same(kind, "image") || text::same(kind, "video") {
        Ok(text::join2("settings.generation_presets.", kind))
    } else {
        Err(ApiError::not_found(text::join2("Неизвестный вид пресетов генерации: ", kind)))
    }
}

/// The user's presets: a list, empty where something else is stored.
pub open spec fn presets_of(o: json::Fields) -> Seq<json::JsonView> {
    match json::field(o, "customPresets"@) {
        Some(json::JsonView::Array(items)) => items,
        _ => Seq::empty(),
    }
}

pub open spec fn with_presets(o: json::Fields, presets: Seq<json::JsonView>) -> json::Fields {
    json::with(o, "customPresets"@, json::JsonView::Array(presets))
}

/// Takes the user's presets.
fn custom_presets(settings: &JsonObject) -> (r: Vec<Json>)
    ensures
        json::items_view(r@) == presets_of(settings@),
{
    match settings.get("customPresets") {
        Some(v) => match v.duplicate() {
            Json::Array(items) => items,
            _ => Vec::new(),
        },
        None => Vec::new(),
    }
}

pub open spec fn spec_presets(stored: Option<json::JsonView>) -> json::Fields {
    match stored {
        Some(json::JsonView::Object(o)) => json::with(
            with_presets(o, presets_of(o)),
            "saved"@,
            json::JsonView::Bool(true),
        ),
        _ => json::with(
            with_presets(json::no_fields(), Seq::empty()),
            "saved"@,
            json::JsonView::Bool(false),
        ),
    }
}

/// The stored presets, and whether anything is stored.
pub fn get_generation_presets(stored: Option<Json>) -> (r: JsonObject)
    ensures
        r@ == spec_presets(settings_store::stored_view(stored)),
{
    match stored {
        Some(Json::Object(o)) => {
            let mut settings = o;
            let presets = custom_presets(&settings);
            settings.insert("customPresets", Json::Array(presets));
            settings.insert("saved", Json::Bool(true));
            settings
        },
        _ => {
            let mut settings = JsonObject::new();
            settings.insert("customPresets", Json::Array(Vec::new()));
            settings.insert("saved", Json::Bool(false));
            settings
        },
    }
}

/// The object with a field of a request, where the request has it.
pub open spec fn taken_over(o: json::Fields, body: json::JsonView, key: Seq<char>) -> json::Fields {
    match json::member(body, key) {
        Some(v) => json::with(o, key, v),
        None => o,
    }
}

fn take_over(settings: &mut JsonObject, body: &Json, key: &str)
    ensures
        final(settings)@ == taken_over(old(settings)@, body@, key@),
{
    if let Some(v) = body.get(key) {
        settings.insert(key, v.duplicate());
    }
}

pub open spec fn spec_put_presets(stored: Option<json::JsonView>, body: json::JsonView) ->
    json::Fields {
    let o = chat_ops::object_or_empty(stored);
    let a = taken_over(o, body, "currentParams"@);
    let b = taken_over(a, body, "activePreset"@);
    with_presets(b, presets_of(b))
}

/// Stores the current parameters and the chosen preset; the user's presets stay.
pub fn put_generation_presets(stored: Option<Json>, body: &Json) -> (r: JsonObject)
    ensures
        r@ == spec_put_presets(settings_store::stored_view(stored), body@),
{
    let mut settings = get_object(stored);
    take_over(&mut settings, body, "currentParams");
    take_over(&mut settings, body, "activePreset");
    let presets = custom_presets(&settings);
    settings.insert("customPresets", Json::Array(presets));
    settings
}

pub open spec fn named(v: json::JsonView, name: Seq<char>) -> bool {
    json::text_of(json::member(v, "name"@)) == Some(name)
}

/// The place of the preset with this name from `i` on.
pub open spec fn preset_from(s: Seq<json::JsonView>, name: Seq<char>, i: int) -> Option<int>
    decreases s.len() - i,
{
    if i < 0 || i >= s.len() {
        None
    } else if named(s[i], name) {
        Some(i)
    } else {
        preset_from(s, name, i + 1)
    }
}

/// The presets with one put in the place of the one with its name, or behind the others.
pub open spec fn preset_put(s: Seq<json::JsonView>, name: Seq<char>, preset: json::JsonView) -> Seq<
    json::JsonView,
> {
    match preset_from(s, name, 0) {
        Some(i) => s.update(i, preset),
        None => s.push(preset),
    }
}

pub open spec fn new_preset(name: Seq<char>, params: Option<json::JsonView>) -> json::JsonView {
    json::JsonView::Object(
        json::with(
            json::with(json::no_fields(), "name"@, json::JsonView::Text(name)),
            "params"@,
            match params {
                Some(v) => v,
                None => json::JsonView::Null,
            },
        ),
    )
}

/// A text field that is not blank, without the blanks around it.
pub open spec fn filled(v: Option<json::JsonView>) -> Option<Seq<char>> {
    match json::text_of(v) {
        Some(s) => if text::trimmed(s).len() > 0 {
            Some(text::trimmed(s))
        } else {
            None
        },
        None => None,
    }
}

pub fn filled_text(body: &Json, field: &str) -> (r: Option<String>)
    ensures
        filled(json::member(body@, field@)) == (match r {
            Some(s) => Some(s@),
            None => None,
        }),
{
    match body_text(body, field) {
        Some(s) => {
            let t = text::trim(s);
            if t.as_str().is_empty() {
                None
            } else {
                Some(t)
            }
        },
        None => None,
    }
}

pub open spec fn spec_put_custom(stored: Option<json::JsonView>, body: json::JsonView) -> Result<
    json::Fields,
    error::ApiErrorView,
> {
    match filled(json::member(body, "name"@)) {
        None => Err(unprocessable("У пресета должно быть имя"@)),
        Some(name) => {
            let o = chat_ops::object_or_empty(stored);
            Ok(
                with_presets(
                    o,
                    preset_put(
                        presets_of(o),
                        name,
                        new_preset(name, json::member(body, "params"@)),
                    ),
                ),
            )
        },
    }
}

fn is_named(v: &Json, name: &str) -> (r: bool)
    ensures
        r == named(v@, name@),
{
    match body_text(v, "name") {
        Some(s) => text::same(s, name),
        None => false,
    }
}

fn find_preset(presets: &Vec<Json>, name: &str) -> (r: Option<usize>)
    ensures
        preset_from(json::items_view(presets@), name@, 0) == (match r {
            Some(i) => Some(i as int),
            None => None,
        }),
        r matches Some(i) ==> i < presets@.len(),
{
    proof {
        json::lemma_items_view(presets@);
    }
    let ghost view = json::items_view(presets@);
    let mut i: usize = 0;
    while i < presets.len()
        invariant
            i <= presets@.len(),
            view == json::items_view(presets@),
            view.len() == presets@.len(),
            forall|k: int|
                0 <= k < presets@.len() ==> #[trigger] view[k] == json::value_view(presets@[k]),
            preset_from(view, name@, i as int) == preset_from(view, name@, 0),
        decreases presets@.len() - i,
    {
        assert(view[i as int] == presets@[i as int]@);
        if is_named(&presets[i], name) {
            return Some(i);
        }
        i += 1;
    }
    None
}

/// Adds a preset of the user, or puts it in the place of the one with its name.
pub fn put_custom_preset(stored: Option<Json>, body: &Json) -> (r: ApiResult<JsonObject>)
    ensures
        match spec_put_custom(settings_store::stored_view(stored), body@) {
            Ok(o) => r is Ok && r->Ok_0@ == o,
            Err(e) => r is Err && r->Err_0@ == e,
        },
{
    let name = match filled_text(body, "name") {
        Some(name) => name,
        None => return Err(ApiError::unprocessable("У пресета должно быть имя".to_owned())),
    };
    let mut fields = JsonObject::new();
    fields.insert("name", json::from_str(name.as_str()));
    let params = match body.get("params") {
        Some(v) => v.duplicate(),
        None => Json::Null,
    };
    fields.insert("params", params);
    let preset = Json::Object(fields);
    let mut settings = get_object(stored);
    let mut presets = custom_presets(&settings);
    let ghost before = json::items_view(presets@);
    let ghost new = preset@;
    proof {
        json::lemma_items_view(presets@);
    }
    match find_preset(&presets, name.as_str()) {
        Some(i) => {
            presets.set(i, preset);
            proof {
                json::lemma_items_view(presets@);
                assert(json::items_view(presets@) =~= before.update(i as int, new));
            }
        },
        None => {
            presets.push(preset);
            proof {
                json::lemma_items_view(presets@);
                assert(json::items_view(presets@) =~= before.push(new));
            }
        },
    }
    settings.insert("customPresets", Json::Array(presets));
    Ok(settings)
}

/// The presets among the first `n` that do not have this name.
pub open spec fn presets_without(s: Seq<json::JsonView>, name: Seq<char>, n: int) -> Seq<
    json::JsonView,
>
    decreases n,
{
    if n <= 0 {
        Seq::empty()
    } else {
        let before = presets_without(s, name, n - 1);
        if named(s[n - 1], name) {
            before
        } else {
            before.push(s[n - 1])
        }
    }
}

/// Which preset is to be deleted.
#[derive(Debug)]
pub struct PresetNameQuery {
    pub name: String,
}

/// Deletes the presets with this name. Returns the settings and whether there was one; only then
/// they are stored.
pub fn delete_custom_preset(stored: Option<Json>, query: &PresetNameQuery) -> (r: (
    JsonObject,
    bool,
))
    ensures
        ({
            let o = chat_ops::object_or_empty(settings_store::stored_view(stored));
            let presets = presets_of(o);
            let left = presets_without(presets, query.name@, presets.len() as int);
            &&& r.0@ == with_presets(o, left)
            &&& r.1 == (left.len() != presets.len())
        }),
{
    let mut settings = get_object(stored);
    let presets = custom_presets(&settings);
    proof {
        json::lemma_items_view(presets@);
    }
    let ghost view = json::items_view(presets@);
    let before = presets.len();
    let mut left: Vec<Json> = Vec::new();
    let mut i: usize = 0;
    while i < presets.len()
        invariant
            i <= presets@.len(),
            view.len() == presets@.len(),
            forall|k: int|
                0 <= k < presets@.len() ==> #[trigger] view[k] == json::value_view(presets@[k]),
            json::items_view(left@) == presets_without(view, query.name@, i as int),
        decreases presets@.len() - i,
    {
        assert(view[i as int] == presets@[i as int]@);
        if !is_named(&presets[i], query.name.as_str()) {
            let ghost was = left@;
            let copy = presets[i].duplicate();
            let ghost item = copy;
            left.push(copy);
            assert(left@.drop_last() =~= was);
            assert(left@.last() == item);
        }
        i += 1;
    }
    proof {
        json::lemma_items_view(left@);
    }
    let deleted = left.len() != before;
    settings.insert("customPresets", Json::Array(left));
    (settings, deleted)
}

// ---------- memory of models ----------

pub open spec fn spec_model_memory(stored: Option<json::JsonView>) -> (bool, bool) {
    (
        match json::bool_of(member_of(stored, "keep_resident"@)) {
            Some(b) => b,
            None => false,
        },
        match json::bool_of(member_of(stored, "no_ram_reserve"@)) {
            Some(b) => b,
            None => false,
        },
    )
}

/// Whether models stay in memory, and whether no memory is set aside for the system.
pub fn stored_model_memory(stored: Option<&Json>) -> (r: (bool, bool))
    ensures
        r == spec_model_memory(opt_view(stored)),
{
    (
        flag_or(stored_field(stored, "keep_resident"), false),
        flag_or(stored_field(stored, "no_ram_reserve"), false),
    )
}

pub open spec fn or_else(v: Option<bool>, default: bool) -> bool {
    match v {
        Some(b) => b,
        None => default,
    }
}

pub open spec fn spec_put_memory(stored: Option<json::JsonView>, body: json::JsonView) -> Result<
    (bool, bool),
    error::ApiErrorView,
> {
    let before = spec_model_memory(stored);
    match spec_optional(body, "keep_resident"@) {
        Err(e) => Err(e),
        Ok(keep) => match spec_optional(body, "no_ram_reserve"@) {
            Err(e) => Err(e),
            Ok(reserve) => Ok((or_else(keep, before.0), or_else(reserve, before.1))),
        },
    }
}

/// The memory settings after a request: what it does not name stays.
pub fn put_model_memory(stored: Option<&Json>, body: &Json) -> (r: ApiResult<(bool, bool)>)
    ensures
        match spec_put_memory(opt_view(stored), body@) {
            Ok(v) => r is Ok && r->Ok_0 == v,
            Err(e) => r is Err && r->Err_0@ == e,
        },
{
    let (mut keep_resident, mut no_ram_reserve) = stored_model_memory(stored);
    match optional_bool(body, "keep_resident") {
        Ok(Some(b)) => {
            keep_resident = b;
        },
        Ok(None) => {},
        Err(e) => return Err(e),
    }
    match optional_bool(body, "no_ram_reserve") {
        Ok(Some(b)) => {
            no_ram_reserve = b;
        },
        Ok(None) => {},
        Err(e) => return Err(e),
    }
    Ok((keep_resident, no_ram_reserve))
}

// ---------- the model that was loaded last ----------

pub open spec fn nothing_loaded() -> json::Fields {
    let null = json::JsonView::Null;
    let a = json::with(json::no_fields(), "id"@, null);
    let b = json::with(a, "kind"@, null);
    let c = json::with(b, "gguf_variant"@, null);
    json::with(c, "loaded_at"@, null)
}

/// The model that was loaded last, with the time of the server.
pub fn get_last_local_model(stored: Option<Json>, now: i64) -> (r: JsonObject)
    ensures
        r@ == json::with(
            match settings_store::stored_view(stored) {
                Some(json::JsonView::Object(o)) => o,
                _ => nothing_loaded(),
            },
            "server_now"@,
            json::whole(now),
        ),
{
    let mut record = match stored {
        Some(Json::Object(o)) => o,
        _ => {
            let mut empty = JsonObject::new();
            empty.insert("id", Json::Null);
            empty.insert("kind", Json::Null);
            empty.insert("gguf_variant", Json::Null);
            empty.insert("loaded_at", Json::Null);
            empty
        },
    };
    record.insert("server_now", json::from_i64(now));
    record
}

pub open spec fn loaded_record(
    id: Seq<char>,
    kind: Seq<char>,
    variant: Option<Seq<char>>,
    loaded_at: i64,
) -> json::Fields {
    let a = json::with(json::no_fields(), "id"@, json::JsonView::Text(id));
    let b = json::with(a, "kind"@, json::JsonView::Text(kind));
    let c = json::with(
        b,
        "gguf_variant"@,
        match variant {
            Some(v) => json::JsonView::Text(v),
            None => json::JsonView::Null,
        },
    );
    json::with(c, "loaded_at"@, json::whole(loaded_at))
}

pub open spec fn spec_put_last(body: json::JsonView, now: i64) -> Result<
    json::Fields,
    error::ApiErrorView,
> {
    match filled(json::member(body, "id"@)) {
        None => Err(unprocessable("Не указан id модели"@)),
        Some(id) => match json::text_of(json::member(body, "kind"@)) {
            Some(kind) => if kind == "gguf"@ || kind == "model"@ {
                Ok(
                    loaded_record(
                        id,
                        kind,
                        json::text_of(json::member(body, "gguf_variant"@)),
                        match json::i64_of(json::member(body, "loaded_at"@)) {
                            Some(t) => t,
                            None => now,
                        },
                    ),
                )
            } else {
                Err(unprocessable("kind должен быть gguf или model"@))
            },
            None => Err(unprocessable("kind должен быть gguf или model"@)),
        },
    }
}

/// The record of the model that was loaded last.
pub fn put_last_local_model(body: &Json, now: i64) -> (r: ApiResult<JsonObject>)
    ensures
        match spec_put_last(body@, now) {
            Ok(o) => r is Ok && r->Ok_0@ == o,
            Err(e) => r is Err && r->Err_0@ == e,
        },
{
    let id = match filled_text(body, "id") {
        Some(id) => id,
        None => return Err(ApiError::unprocessable("Не указан id модели".to_owned())),
    };
    let kind = match body_text(body, "kind") {
        Some(kind) => kind,
        None => return Err(ApiError::unprocessable("kind должен быть gguf или model".to_owned())),
    };
    if !(text::same(kind, "gguf") || text::same(kind, "model")) {
        return Err(ApiError::unprocessable("kind должен быть gguf или model".to_owned()));
    }
    let variant = match body_text(body, "gguf_variant") {
        Some(v) => json::from_str(v),
        None => Json::Null,
    };
    let loaded_at = match body.get("loaded_at") {
        Some(v) => match v.as_i64() {
            Some(t) => t,
            None => now,
        },
        None => now,
    };
    let mut record = JsonObject::new();
    record.insert("id", json::from_str(id.as_str()));
    record.insert("kind", json::from_str(kind));
    record.insert("gguf_variant", variant);
    record.insert("loaded_at", json::from_i64(loaded_at));
    Ok(record)
}

// ---------- switching models ----------

pub open spec fn zero() -> json::JsonView {
    json::JsonView::Number(Number::Unsigned(0))
}

/// The fields that are stored, with their usual values.
pub open spec fn switch_defaults() -> json::Fields {
    let off = json::JsonView::Bool(false);
    let a = json::with(json::no_fields(), "enabled"@, off);
    let b = json::with(a, "auto_unload_idle_seconds"@, zero());
    let c = json::with(b, "auto_unload_keep_kv"@, json::JsonView::Bool(true));
    let d = json::with(c, "auto_download_model"@, off);
    let e = json::with(d, "auto_unload_api_only"@, off);
    let f = json::with(e, "media_auto_unload_idle_seconds"@, zero());
    json::with(f, "media_auto_switch_model"@, off)
}

/// The fields that are stored, with their usual values.
pub fn auto_switch_defaults() -> (r: JsonObject)
    ensures
        r@ == switch_defaults(),
{
    let mut o = JsonObject::new();
    o.insert("enabled", Json::Bool(false));
    o.insert("auto_unload_idle_seconds", Json::Number(Number::Unsigned(0)));
    o.insert("auto_unload_keep_kv", Json::Bool(true));
    o.insert("auto_download_model", Json::Bool(false));
    o.insert("auto_unload_api_only", Json::Bool(false));
    o.insert("media_auto_unload_idle_seconds", Json::Number(Number::Unsigned(0)));
    o.insert("media_auto_switch_model", Json::Bool(false));
    o
}

/// The settings with those of the first `n` stored fields that they know.
pub open spec fn known_taken(o: json::Fields, stored: json::Fields, n: int) -> json::Fields
    decreases n,
{
    if n <= 0 {
        o
    } else {
        let before = known_taken(o, stored, n - 1);
        if json::field(before, stored[n - 1].0) is Some {
            json::with(before, stored[n - 1].0, stored[n - 1].1)
        } else {
            before
        }
    }
}

pub open spec fn spec_switch(stored: Option<json::JsonView>) -> json::Fields {
    let s = chat_ops::object_or_empty(stored);
    known_taken(switch_defaults(), s, s.len() as int)
}

/// The stored settings, completed by the usual values; fields that are not known are dropped.
pub fn auto_switch_settings(stored: Option<Json>) -> (r: JsonObject)
    ensures
        r@ == spec_switch(settings_store::stored_view(stored)),
{
    let mut settings = auto_switch_defaults();
    let from = get_object(stored);
    proof {
        json::lemma_fields_view(from.fields@);
    }
    let ghost view = from@;
    let mut i: usize = 0;
    while i < from.fields.len()
        invariant
            i <= from.fields@.len(),
            view == from@,
            view.len() == from.fields@.len(),
            forall|k: int|
                0 <= k < from.fields@.len() ==> #[trigger] view[k] == (
                    from.fields@[k].0@,
                    json::value_view(from.fields@[k].1),
                ),
            settings@ == known_taken(switch_defaults(), view, i as int),
        decreases from.fields@.len() - i,
    {
        assert(view[i as int].0 == from.fields@[i as int].0@);
        if settings.contains_key(from.fields[i].0.as_str()) {
            let value = from.fields[i].1.duplicate();
            settings.insert(from.fields[i].0.as_str(), value);
        }
        i += 1;
    }
    settings
}

pub open spec fn flag_set(
    r: Result<json::Fields, error::ApiErrorView>,
    body: json::JsonView,
    field: Seq<char>,
) -> Result<json::Fields, error::ApiErrorView> {
    match r {
        Err(e) => Err(e),
        Ok(o) => match spec_optional(body, field) {
            Err(e) => Err(e),
            Ok(None) => Ok(o),
            Ok(Some(b)) => Ok(json::with(o, field, json::JsonView::Bool(b))),
        },
    }
}

pub open spec fn seconds_set(
    r: Result<json::Fields, error::ApiErrorView>,
    body: json::JsonView,
    field: Seq<char>,
) -> Result<json::Fields, error::ApiErrorView> {
    match r {
        Err(e) => Err(e),
        Ok(o) => match spec_optional_u64(body, field) {
            Err(e) => Err(e),
            Ok(None) => Ok(o),
            Ok(Some(n)) => Ok(
                json::with(o, field, json::JsonView::Number(Number::Unsigned(n))),
            ),
        },
    }
}

pub open spec fn spec_put_switch(stored: Option<json::JsonView>, body: json::JsonView) -> Result<
    json::Fields,
    error::ApiErrorView,
> {
    let start = match spec_required(body, "enabled"@) {
        Err(e) => Err(e),
        Ok(b) => Ok(json::with(spec_switch(stored), "enabled"@, json::JsonView::Bool(b))),
    };
    let a = flag_set(start, body, "auto_unload_keep_kv"@);
    let b = flag_set(a, body, "auto_download_model"@);
    let c = flag_set(b, body, "auto_unload_api_only"@);
    let d = flag_set(c, body, "media_auto_switch_model"@);
    let e = seconds_set(d, body, "auto_unload_idle_seconds"@);
    seconds_set(e, body, "media_auto_unload_idle_seconds"@)
}

fn set_flag(settings: &mut JsonObject, body: &Json, field: &str) -> (r: ApiResult<()>)
    ensures
        match flag_set(Ok(old(settings)@), body@, field@) {
            Ok(o) => r is Ok && final(settings)@ == o,
            Err(e) => r is Err && r->Err_0@ == e,
        },
{
    match optional_bool(body, field) {
        Ok(Some(b)) => {
            settings.insert(field, Json::Bool(b));
            Ok(())
        },
        Ok(None) => Ok(()),
        Err(e) => Err(e),
    }
}

fn set_seconds(settings: &mut JsonObject, body: &Json, field: &str) -> (r: ApiResult<()>)
    ensures
        match seconds_set(Ok(old(settings)@), body@, field@) {
            Ok(o) => r is Ok && final(settings)@ == o,
            Err(e) => r is Err && r->Err_0@ == e,
        },
{
    match optional_u64(body, field) {
        Ok(Some(n)) => {
            settings.insert(field, Json::Number(Number::Unsigned(n)));
            Ok(())
        },
        Ok(None) => Ok(()),
        Err(e) => Err(e),
    }
}

/// The settings after a request, which has to say whether switching is on.
pub fn put_auto_switch(stored: Option<Json>, body: &Json) -> (r: ApiResult<JsonObject>)
    ensures
        match spec_put_switch(settings_store::stored_view(stored), body@) {
            Ok(o) => r is Ok && r->Ok_0@ == o,
            Err(e) => r is Err && r->Err_0@ == e,
        },
{
    let mut settings = auto_switch_settings(stored);
    let enabled = match require_bool(body, "enabled") {
        Ok(b) => b,
        Err(e) => return Err(e),
    };
    settings.insert("enabled", Json::Bool(enabled));
    if let Err(e) = set_flag(&mut settings, body, "auto_unload_keep_kv") {
        return Err(e);
    }
    if let Err(e) = set_flag(&mut settings, body, "auto_download_model") {
        return Err(e);
    }
    if let Err(e) = set_flag(&mut settings, body, "auto_unload_api_only") {
        return Err(e);
    }
    if let Err(e) = set_flag(&mut settings, body, "media_auto_switch_model") {
        return Err(e);
    }
    if let Err(e) = set_seconds(&mut settings, body, "auto_unload_idle_seconds") {
        return Err(e);
    }
    if let Err(e) = set_seconds(&mut settings, body, "media_auto_unload_idle_seconds") {
        return Err(e);
    }
    Ok(settings)
}

/// The settings as they are shown. Nothing is unloaded by idleness: there is no engine yet.
pub fn auto_switch_json(settings: JsonObject) -> (r: JsonObject)
    ensures
        r@ == json::with(
            json::with(
                json::with(settings@, "default_enabled"@, json::JsonView::Bool(false)),
                "idle_unload_active"@,
                json::JsonView::Bool(false),
            ),
            "media_idle_unload_active"@,
            json::JsonView::Bool(false),
        ),
{
    let mut o = settings;
    o.insert("default_enabled", Json::Bool(false));
    o.insert("idle_unload_active", Json::Bool(false));
    o.insert("media_idle_unload_active", Json::Bool(false));
    o
}

/// The overrides of a request: the field of that name, or else the whole body.
pub fn put_model_overrides(body: &Json) -> (r: ApiResult<Json>)
    ensures
        ({
            let overrides = match json::member(body@, "overrides"@) {
                Some(v) => v,
                None => body@,
            };
            if overrides is Object {
                r is Ok && r->Ok_0@ == overrides
            } else {
                r is Err && r->Err_0@ == unprocessable("overrides должен быть JSON-объектом"@)
            }
        }),
{
    let overrides = match body.get("overrides") {
        Some(v) => v,
        None => body,
    };
    if !overrides.is_object() {
        return Err(ApiError::unprocessable("overrides должен быть JSON-объектом".to_owned()));
    }
    Ok(overrides.duplicate())
}

// ---------- the way of downloading ----------

pub open spec fn spec_transport(stored: Option<json::JsonView>) -> Seq<char> {
    if json::text_of(stored) == Some("http"@) {
        "http"@
    } else {
        "auto"@
    }
}

/// The stored way of downloading, or the usual one.
pub fn get_download_transport(stored: Option<&Json>) -> (r: &'static str)
    ensures
        r@ == spec_transport(opt_view(stored)),
{
    if let Some(v) = stored {
        if let Some(mode) = v.as_str() {
            if text::same(mode, "http") {
                return "http";
            }
        }
    }
    "auto"
}

/// The way of downloading that a request asks for.
pub fn put_download_transport(body: &Json) -> (r: ApiResult<&'static str>)
    ensures
        match json::text_of(json::member(body@, "mode"@)) {
            Some(mode) => if mode == "auto"@ || mode == "http"@ {
                r is Ok && r->Ok_0@ == mode
            } else if mode == "xet"@ {
                r is Err && r->Err_0@ == unprocessable(
                    "Xet пока не поддерживается в SlothForge: выберите auto или http"@,
                )
            } else {
                r is Err && r->Err_0@ == unprocessable("mode должен быть auto или http"@)
            },
            None => r is Err && r->Err_0@ == unprocessable("mode должен быть auto или http"@),
        },
{
    if let Some(mode) = body_text(body, "mode") {
        if text::same(mode, "auto") {
            return Ok("auto");
        }
        if text::same(mode, "http") {
            return Ok("http");
        }
        if text::same(mode, "xet") {
            return Err(
                ApiError::unprocessable(
                    "Xet пока не поддерживается в SlothForge: выберите auto или http".to_owned(),
                ),
            );
        }
    }
    Err(ApiError::unprocessable("mode должен быть auto или http".to_owned()))
}

// ---------- token ----------

pub open spec fn spec_token(stored: Option<json::JsonView>) -> Option<Seq<char>> {
    match json::text_of(stored) {
        Some(s) => if s.len() > 0 {
            Some(s)
        } else {
            None
        },
        None => None,
    }
}

/// The stored token; an empty one is none.
pub fn stored_hf_token(stored: Option<&Json>) -> (r: Option<String>)
    ensures
        spec_token(opt_view(stored)) == (match r {
            Some(s) => Some(s@),
            None => None,
        }),
{
    if let Some(v) = stored {
        if let Some(s) = v.as_str() {
            if !s.is_empty() {
                return Some(s.to_owned());
            }
        }
    }
    None
}

/// The token that a request stores; a blank one deletes the stored token.
pub fn put_hf_token(body: &Json) -> (r: Option<String>)
    ensures
        filled(json::member(body@, "token"@)) == (match r {
            Some(s) => Some(s@),
            None => None,
        }),
{
    filled_text(body, "token")
}

/// The token after one moves over from the browser: a stored one stays.
pub fn migrate_hf_token(stored: Option<&Json>, body: &Json) -> (r: Option<String>)
    ensures
        (match r {
            Some(s) => Some(s@),
            None => None,
        }) == (if spec_token(opt_view(stored)) is Some {
            spec_token(opt_view(stored))
        } else {
            filled(json::member(body@, "token"@))
        }),
{
    let current = stored_hf_token(stored);
    if current.is_some() {
        return current;
    }
    put_hf_token(body)
}

} // verus!
