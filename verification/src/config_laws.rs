//! What the settings, the guard of the requests and the start of the server keep to.

use vstd::prelude::*;

use crate::error;
use crate::json;
use crate::json::Number;
use crate::paths;
use crate::scan_folders;
use crate::security;
use crate::security::RequestFacts;
use crate::server;
use crate::settings_api;
use crate::text;
use crate::text_laws;

verus! {

// ---------- settings ----------

/// A flag has to be true or false; one that may be left out is not set where it is missing or null.
pub proof fn law_flags(body: json::JsonView, field: Seq<char>)
    ensures
        json::member(body, field) == Some(json::JsonView::Bool(true)) ==> settings_api::spec_required(
            body,
            field,
        ) == Ok::<bool, error::ApiErrorView>(true),
        json::member(body, field) == Some(json::JsonView::Bool(false))
            ==> settings_api::spec_required(body, field) == Ok::<bool, error::ApiErrorView>(false),
        !(json::member(body, field) matches Some(json::JsonView::Bool(_))) ==> (
        settings_api::spec_required(body, field) matches Err(e) && e.status == 422),
        json::member(body, field) is None || json::member(body, field) == Some(json::JsonView::Null)
            ==> settings_api::spec_optional(body, field) == Ok::<Option<bool>, error::ApiErrorView>(
            None,
        ),
        json::member(body, field) matches Some(json::JsonView::Bool(b)) ==> settings_api::spec_optional(
            body,
            field,
        ) == Ok::<Option<bool>, error::ApiErrorView>(Some(b)),
        json::member(body, field) matches Some(json::JsonView::Text(_)) ==> (
        settings_api::spec_optional(body, field) matches Err(e) && e.status == 422),
{
}

/// The limit of uploads is 500 MB unless a number from 50 to 2048 is stored.
pub proof fn law_upload_limit(stored: Option<json::JsonView>)
    ensures
        50 <= settings_api::spec_limit(stored) <= 2048,
        stored matches Some(json::JsonView::Number(Number::Unsigned(mb))) ==> 50 <= mb <= 2048
            ==> settings_api::spec_limit(stored) == mb,
        stored matches Some(json::JsonView::Number(Number::Unsigned(mb))) ==> !(50 <= mb <= 2048)
            ==> settings_api::spec_limit(stored) == 500,
        stored is None ==> settings_api::spec_limit(stored) == 500,
{
}

/// Access without a key is off, for inference or full, and tools are off unless they are switched on.
pub proof fn law_access_without_a_key(stored: Option<json::JsonView>, body: json::JsonView)
    ensures
        stored is None ==> settings_api::spec_keyless(stored) == ("off"@, false),
        settings_api::spec_put_keyless(body) matches Ok((scope, tools)) ==> (scope == "off"@ || scope
            == "inference"@ || scope == "full"@) && json::member(body, "scope"@) == Some(
            json::JsonView::Text(scope),
        ),
        settings_api::spec_put_keyless(body) matches Ok((scope, tools)) ==> json::member(
            body,
            "tools"@,
        ) is None ==> !tools,
        settings_api::spec_put_keyless(body) matches Ok((scope, tools)) ==> json::member(
            body,
            "tools"@,
        ) matches Some(json::JsonView::Bool(b)) ==> tools == b,
        !(json::member(body, "scope"@) matches Some(json::JsonView::Text(_))) ==> (
        settings_api::spec_put_keyless(body) matches Err(e) && e.status == 422),
{
}

/// A transport is plain HTTP only where that is stored.
pub proof fn law_transport_and_token(stored: Option<json::JsonView>, s: Seq<char>)
    ensures
        stored == Some(json::JsonView::Text("http"@)) <==> settings_api::spec_transport(stored)
            == "http"@,
        settings_api::spec_transport(stored) == "http"@ || settings_api::spec_transport(stored)
            == "auto"@,
        stored == Some(json::JsonView::Text(s)) && s.len() > 0 ==> settings_api::spec_token(stored)
            == Some(s),
        stored is None ==> settings_api::spec_token(stored) is None,
        stored == Some(json::JsonView::Text(s)) && s.len() == 0 ==> settings_api::spec_token(
            stored,
        ) is None,
{
    reveal_strlit("http");
    reveal_strlit("auto");
    assert("http"@[0] != "auto"@[0]);
}

/// What keeps a model in memory is changed where the request says so, and stays where it does not.
pub proof fn law_memory_flags_stay_unless_named(
    stored: Option<json::JsonView>,
    body: json::JsonView,
)
    ensures
        settings_api::spec_put_memory(stored, body) matches Ok((keep, reserve)) ==> {
            &&& json::member(body, "keep_resident"@) matches Some(json::JsonView::Bool(b)) ==> keep
                == b
            &&& json::member(body, "keep_resident"@) is None ==> keep
                == settings_api::spec_model_memory(stored).0
            &&& json::member(body, "no_ram_reserve"@) matches Some(json::JsonView::Bool(b))
                ==> reserve == b
            &&& json::member(body, "no_ram_reserve"@) is None ==> reserve
                == settings_api::spec_model_memory(stored).1
        },
        settings_api::spec_model_memory(None) == (false, false),
        json::member(body, "keep_resident"@) is None && json::member(body, "no_ram_reserve"@) is None
            ==> settings_api::spec_put_memory(stored, body) is Ok,
{
}

proof fn lemma_switch_names()
    ensures
        "enabled"@.len() == 7,
        "auto_unload_idle_seconds"@.len() == 24,
        "auto_unload_keep_kv"@.len() == 19,
        "auto_download_model"@.len() == 19,
        "auto_unload_keep_kv"@ != "auto_download_model"@,
        "auto_unload_api_only"@.len() == 20,
        "media_auto_unload_idle_seconds"@.len() == 30,
        "media_auto_switch_model"@.len() == 23,
{
    reveal_strlit("enabled");
    reveal_strlit("auto_unload_idle_seconds");
    reveal_strlit("auto_unload_keep_kv");
    reveal_strlit("auto_download_model");
    reveal_strlit("auto_unload_api_only");
    reveal_strlit("media_auto_unload_idle_seconds");
    reveal_strlit("media_auto_switch_model");
    assert("auto_unload_keep_kv"@[5] == 'u' && "auto_download_model"@[5] == 'd');
}

/// Without anything stored, models are not switched by themselves, are never unloaded for idleness, and
/// keep their cache.
pub proof fn law_switch_settings_at_first()
    ensures
        ({
            let o = settings_api::spec_switch(None);
            let off = Some(json::JsonView::Bool(false));
            let never = Some(json::JsonView::Number(Number::Unsigned(0)));
            &&& json::field(o, "enabled"@) == off
            &&& json::field(o, "auto_unload_idle_seconds"@) == never
            &&& json::field(o, "auto_unload_keep_kv"@) == Some(json::JsonView::Bool(true))
            &&& json::field(o, "auto_download_model"@) == off
            &&& json::field(o, "auto_unload_api_only"@) == off
            &&& json::field(o, "media_auto_unload_idle_seconds"@) == never
            &&& json::field(o, "media_auto_switch_model"@) == off
        }),
{
    lemma_switch_names();
    assert(settings_api::spec_switch(None) == settings_api::switch_defaults());
    lemma_switch_default("enabled"@);
    lemma_switch_default("auto_unload_idle_seconds"@);
    lemma_switch_default("auto_unload_keep_kv"@);
    lemma_switch_default("auto_download_model"@);
    lemma_switch_default("auto_unload_api_only"@);
    lemma_switch_default("media_auto_unload_idle_seconds"@);
    lemma_switch_default("media_auto_switch_model"@);
}

proof fn lemma_switch_default(key: Seq<char>)
    ensures
        json::field(settings_api::switch_defaults(), key) == (if key == "media_auto_switch_model"@ {
            Some(json::JsonView::Bool(false))
        } else if key == "media_auto_unload_idle_seconds"@ {
            Some(json::JsonView::Number(Number::Unsigned(0)))
        } else if key == "auto_unload_api_only"@ {
            Some(json::JsonView::Bool(false))
        } else if key == "auto_download_model"@ {
            Some(json::JsonView::Bool(false))
        } else if key == "auto_unload_keep_kv"@ {
            Some(json::JsonView::Bool(true))
        } else if key == "auto_unload_idle_seconds"@ {
            Some(json::JsonView::Number(Number::Unsigned(0)))
        } else if key == "enabled"@ {
            Some(json::JsonView::Bool(false))
        } else {
            None
        }),
{
    let off = json::JsonView::Bool(false);
    let on = json::JsonView::Bool(true);
    let zero = json::JsonView::Number(Number::Unsigned(0));
    let a = json::with(json::no_fields(), "enabled"@, off);
    let b = json::with(a, "auto_unload_idle_seconds"@, zero);
    let c = json::with(b, "auto_unload_keep_kv"@, on);
    let d = json::with(c, "auto_download_model"@, off);
    let e = json::with(d, "auto_unload_api_only"@, off);
    let f = json::with(e, "media_auto_unload_idle_seconds"@, zero);
    json::law_set_field_is_read_back(json::no_fields(), "enabled"@, off, key);
    json::law_set_field_is_read_back(a, "auto_unload_idle_seconds"@, zero, key);
    json::law_set_field_is_read_back(b, "auto_unload_keep_kv"@, on, key);
    json::law_set_field_is_read_back(c, "auto_download_model"@, off, key);
    json::law_set_field_is_read_back(d, "auto_unload_api_only"@, off, key);
    json::law_set_field_is_read_back(e, "media_auto_unload_idle_seconds"@, zero, key);
    json::law_set_field_is_read_back(f, "media_auto_switch_model"@, off, key);
}

/// A personalization needs a profile and an appearance; it is stored with all its fields but the flags
/// that say whether something is stored.
pub proof fn law_personalization_is_stored_without_its_flags(o: json::Fields, key: Seq<char>)
    requires
        json::ordered(o),
    ensures
        match settings_api::spec_personalization(json::JsonView::Object(o)) {
            Ok(kept) => {
                &&& json::field(o, "profile"@) matches Some(json::JsonView::Object(_))
                &&& json::field(o, "appearance"@) matches Some(json::JsonView::Object(_))
                &&& key != "saved"@ && key != "customizationSaved"@ && key != "paletteSaved"@ && key
                    != "greetingSlothSaved"@ ==> json::field(kept, key) == json::field(o, key)
                &&& json::field(kept, "saved"@) is None
                &&& json::field(kept, "customizationSaved"@) is None
                &&& json::field(kept, "paletteSaved"@) is None
                &&& json::field(kept, "greetingSlothSaved"@) is None
            },
            Err(e) => e.status == 422 && !(json::field(o, "profile"@) matches Some(
                json::JsonView::Object(_),
            ) && json::field(o, "appearance"@) matches Some(json::JsonView::Object(_))),
        },
{
    lemma_unflagged(o, key);
    lemma_unflagged(o, "saved"@);
    lemma_unflagged(o, "customizationSaved"@);
    lemma_unflagged(o, "paletteSaved"@);
    lemma_unflagged(o, "greetingSlothSaved"@);
}

proof fn lemma_unflagged(o: json::Fields, key: Seq<char>)
    requires
        json::ordered(o),
    ensures
        json::field(settings_api::unflagged(o, 4), key) == (if key == "saved"@ || key
            == "customizationSaved"@ || key == "paletteSaved"@ || key == "greetingSlothSaved"@ {
            None
        } else {
            json::field(o, key)
        }),
{
    reveal_with_fuel(settings_api::unflagged, 5);
    let a = json::without(o, "saved"@);
    let b = json::without(a, "customizationSaved"@);
    let c = json::without(b, "paletteSaved"@);
    json::law_removing_keeps_order(o, "saved"@);
    json::law_removing_keeps_order(a, "customizationSaved"@);
    json::law_removing_keeps_order(b, "paletteSaved"@);
    json::law_removed_field_is_gone(o, "saved"@, key);
    json::law_removed_field_is_gone(a, "customizationSaved"@, key);
    json::law_removed_field_is_gone(b, "paletteSaved"@, key);
    json::law_removed_field_is_gone(c, "greetingSlothSaved"@, key);
}

/// A personalization is given out with all flags at one value and every other field as it is stored.
pub proof fn law_personalization_is_given_out_with_its_flags(
    o: json::Fields,
    saved: bool,
    key: Seq<char>,
)
    ensures
        match settings_api::spec_with_flags(json::JsonView::Object(o), saved) {
            json::JsonView::Object(out) => {
                &&& json::field(out, "saved"@) == Some(json::JsonView::Bool(saved))
                &&& json::field(out, "customizationSaved"@) == Some(json::JsonView::Bool(saved))
                &&& json::field(out, "paletteSaved"@) == Some(json::JsonView::Bool(saved))
                &&& json::field(out, "greetingSlothSaved"@) == Some(json::JsonView::Bool(saved))
                &&& key != "saved"@ && key != "customizationSaved"@ && key != "paletteSaved"@ && key
                    != "greetingSlothSaved"@ ==> json::field(out, key) == json::field(o, key)
            },
            _ => false,
        },
{
    lemma_flagged(o, saved, key);
    lemma_flagged(o, saved, "saved"@);
    lemma_flagged(o, saved, "customizationSaved"@);
    lemma_flagged(o, saved, "paletteSaved"@);
    lemma_flagged(o, saved, "greetingSlothSaved"@);
}

proof fn lemma_flagged(o: json::Fields, saved: bool, key: Seq<char>)
    ensures
        json::field(settings_api::flagged(o, saved, 4), key) == (if key == "saved"@ || key
            == "customizationSaved"@ || key == "paletteSaved"@ || key == "greetingSlothSaved"@ {
            Some(json::JsonView::Bool(saved))
        } else {
            json::field(o, key)
        }),
{
    reveal_with_fuel(settings_api::flagged, 5);
    let v = json::JsonView::Bool(saved);
    let a = json::with(o, "saved"@, v);
    let b = json::with(a, "customizationSaved"@, v);
    let c = json::with(b, "paletteSaved"@, v);
    json::law_set_field_is_read_back(o, "saved"@, v, key);
    json::law_set_field_is_read_back(a, "customizationSaved"@, v, key);
    json::law_set_field_is_read_back(b, "paletteSaved"@, v, key);
    json::law_set_field_is_read_back(c, "greetingSlothSaved"@, v, key);
}

/// Storing the current parameters or the active preset sets what the request names and keeps the rest; the
/// presets of the user stay.
pub proof fn law_presets_stay_unless_named(
    stored: json::Fields,
    body: json::JsonView,
    key: Seq<char>,
)
    ensures
        ({
            let o = settings_api::spec_put_presets(Some(json::JsonView::Object(stored)), body);
            &&& json::member(body, "currentParams"@) matches Some(v) ==> json::field(
                o,
                "currentParams"@,
            ) == Some(v)
            &&& json::member(body, "currentParams"@) is None ==> json::field(o, "currentParams"@)
                == json::field(stored, "currentParams"@)
            &&& json::member(body, "activePreset"@) matches Some(v) ==> json::field(
                o,
                "activePreset"@,
            ) == Some(v)
            &&& json::member(body, "activePreset"@) is None ==> json::field(o, "activePreset"@)
                == json::field(stored, "activePreset"@)
            &&& json::field(stored, "customPresets"@) matches Some(json::JsonView::Array(items))
                ==> json::field(o, "customPresets"@) == Some(json::JsonView::Array(items))
            &&& key != "currentParams"@ && key != "activePreset"@ && key != "customPresets"@
                ==> json::field(o, key) == json::field(stored, key)
        }),
{
    reveal_strlit("currentParams");
    reveal_strlit("activePreset");
    reveal_strlit("customPresets");
    assert("currentParams"@.len() == 13 && "customPresets"@.len() == 13);
    assert("currentParams"@[1] == 'u' && "customPresets"@[2] == 's' && "currentParams"@[2] == 'r');
    assert("activePreset"@.len() == 12);
    lemma_put_presets(stored, body, key);
    lemma_put_presets(stored, body, "currentParams"@);
    lemma_put_presets(stored, body, "activePreset"@);
    lemma_put_presets(stored, body, "customPresets"@);
}

proof fn lemma_put_presets(stored: json::Fields, body: json::JsonView, key: Seq<char>)
    requires
        "customPresets"@ != "currentParams"@,
        "customPresets"@ != "activePreset"@,
        "currentParams"@ != "activePreset"@,
    ensures
        json::field(
            settings_api::spec_put_presets(Some(json::JsonView::Object(stored)), body),
            key,
        ) == (if key == "customPresets"@ {
            Some(json::JsonView::Array(settings_api::presets_of(stored)))
        } else if key == "currentParams"@ && json::member(body, key) is Some {
            json::member(body, key)
        } else if key == "activePreset"@ && json::member(body, key) is Some {
            json::member(body, key)
        } else {
            json::field(stored, key)
        }),
{
    let a = settings_api::taken_over(stored, body, "currentParams"@);
    let b = settings_api::taken_over(a, body, "activePreset"@);
    if let Some(v) = json::member(body, "currentParams"@) {
        json::law_set_field_is_read_back(stored, "currentParams"@, v, key);
        json::law_set_field_is_read_back(stored, "currentParams"@, v, "customPresets"@);
    }
    if let Some(v) = json::member(body, "activePreset"@) {
        json::law_set_field_is_read_back(a, "activePreset"@, v, key);
        json::law_set_field_is_read_back(a, "activePreset"@, v, "customPresets"@);
    }
    assert(settings_api::presets_of(b) == settings_api::presets_of(stored));
    json::law_set_field_is_read_back(
        b,
        "customPresets"@,
        json::JsonView::Array(settings_api::presets_of(b)),
        key,
    );
}

/// The model that was loaded last is put down with its kind and its time, the present where none is given.
pub proof fn law_last_loaded_model(body: json::JsonView, now: i64)
    ensures
        match settings_api::spec_put_last(body, now) {
            Ok(o) => {
                &&& json::member(body, "id"@) matches Some(json::JsonView::Text(id)) && json::field(
                    o,
                    "id"@,
                ) == Some(json::JsonView::Text(text::trimmed(id)))
                &&& json::member(body, "kind"@) == json::field(o, "kind"@)
                &&& json::field(o, "kind"@) == Some(json::JsonView::Text("gguf"@)) || json::field(
                    o,
                    "kind"@,
                ) == Some(json::JsonView::Text("model"@))
                &&& json::i64_of(json::member(body, "loaded_at"@)) matches Some(t) ==> json::field(
                    o,
                    "loaded_at"@,
                ) == Some(json::whole(t))
                &&& json::i64_of(json::member(body, "loaded_at"@)) is None ==> json::field(
                    o,
                    "loaded_at"@,
                ) == Some(json::whole(now))
                &&& json::member(body, "gguf_variant"@) matches Some(json::JsonView::Text(v))
                    ==> json::field(o, "gguf_variant"@) == Some(json::JsonView::Text(v))
            },
            Err(e) => e.status == 422,
        },
{
    reveal_strlit("id");
    reveal_strlit("kind");
    reveal_strlit("gguf_variant");
    reveal_strlit("loaded_at");
    assert("id"@.len() == 2 && "kind"@.len() == 4 && "gguf_variant"@.len() == 12
        && "loaded_at"@.len() == 9);
    if let Ok(o) = settings_api::spec_put_last(body, now) {
        let id = json::JsonView::Text(text::trimmed(json::text_of(json::member(body, "id"@))->0));
        let kind = json::JsonView::Text(json::text_of(json::member(body, "kind"@))->0);
        let variant = match json::text_of(json::member(body, "gguf_variant"@)) {
            Some(v) => json::JsonView::Text(v),
            None => json::JsonView::Null,
        };
        let time = json::whole(
            match json::i64_of(json::member(body, "loaded_at"@)) {
                Some(t) => t,
                None => now,
            },
        );
        lemma_loaded(id, kind, variant, time, "id"@);
        lemma_loaded(id, kind, variant, time, "kind"@);
        lemma_loaded(id, kind, variant, time, "gguf_variant"@);
        lemma_loaded(id, kind, variant, time, "loaded_at"@);
    }
}

proof fn lemma_loaded(
    id: json::JsonView,
    kind: json::JsonView,
    variant: json::JsonView,
    time: json::JsonView,
    key: Seq<char>,
)
    ensures
        json::field(
            json::with(
                json::with(
                    json::with(json::with(json::no_fields(), "id"@, id), "kind"@, kind),
                    "gguf_variant"@,
                    variant,
                ),
                "loaded_at"@,
                time,
            ),
            key,
        ) == (if key == "loaded_at"@ {
            Some(time)
        } else if key == "gguf_variant"@ {
            Some(variant)
        } else if key == "kind"@ {
            Some(kind)
        } else if key == "id"@ {
            Some(id)
        } else {
            None
        }),
{
    let a = json::with(json::no_fields(), "id"@, id);
    let b = json::with(a, "kind"@, kind);
    let c = json::with(b, "gguf_variant"@, variant);
    json::law_set_field_is_read_back(json::no_fields(), "id"@, id, key);
    json::law_set_field_is_read_back(a, "kind"@, kind, key);
    json::law_set_field_is_read_back(b, "gguf_variant"@, variant, key);
    json::law_set_field_is_read_back(c, "loaded_at"@, time, key);
}

// ---------- requests ----------

proof fn lemma_no_last_index(s: Seq<char>, c: char, n: int)
    requires
        0 <= n <= s.len(),
        !s.contains(c),
    ensures
        text::last_index(s, c, n) is None,
    decreases n,
{
    if n > 0 {
        assert(s.contains(s[n - 1]));
        lemma_no_last_index(s, c, n - 1);
    }
}

proof fn lemma_last_index_at(s: Seq<char>, c: char, at: int, n: int)
    requires
        0 <= at < n <= s.len(),
        s[at] == c,
        forall|k: int| at < k < n ==> #[trigger] s[k] != c,
    ensures
        text::last_index(s, c, n) == Some(at),
    decreases n,
{
    if n - 1 > at {
        assert(s[n - 1] != c);
        lemma_last_index_at(s, c, at, n - 1);
    }
}

proof fn lemma_index_from_at(s: Seq<char>, c: char, from: int, at: int)
    requires
        0 <= from <= at < s.len(),
        s[at] == c,
        forall|k: int| from <= k < at ==> #[trigger] s[k] != c,
    ensures
        text::index_from(s, c, from) == Some(at),
    decreases at - from,
{
    if from < at {
        assert(s[from] != c);
        lemma_index_from_at(s, c, from + 1, at);
    }
}

/// The host of an authority is what stands before the port; an address in brackets is what stands
/// between them.
pub proof fn law_host_without_its_port(host: Seq<char>, port: Seq<char>, rest: Seq<char>)
    requires
        !host.contains(':'),
        !host.contains(']'),
        host.len() > 0,
        host[0] != '[',
        port.len() > 0,
        text::all_digits(port),
    ensures
        security::spec_strip_port(host) == host,
        security::spec_strip_port(host + seq![':'] + port) == host,
        security::spec_strip_port(seq!['['] + host + seq![']'] + rest) == host,
{
    lemma_no_last_index(host, ':', host.len() as int);
    let whole = host + seq![':'] + port;
    let at = host.len() as int;
    assert forall|k: int| at < k < whole.len() implies #[trigger] whole[k] != ':' by {
        assert(whole[k] == port[k - at - 1]);
        assert(text::is_digit(port[k - at - 1]));
    }
    lemma_last_index_at(whole, ':', at, whole.len() as int);
    assert(whole.skip(at + 1) =~= port);
    assert(whole.take(at) =~= host);
    assert(whole[0] == host[0]);
    let bracketed = seq!['['] + host + seq![']'] + rest;
    assert forall|k: int| 1 <= k < at + 1 implies #[trigger] bracketed[k] != ']' by {
        assert(bracketed[k] == host[k - 1]);
        assert(host.contains(host[k - 1]));
    }
    lemma_index_from_at(bracketed, ']', 1, at + 1);
    assert(bracketed.subrange(1, at + 1) =~= host);
}

/// The machine itself is `localhost`, letters of either case and a dot at the end or not, everything under
/// it, and the addresses of the machine.
pub proof fn law_machine_itself(host: Seq<char>, loopback_address: bool)
    ensures
        text::lower(text::without_trailing(host, '.')) == "localhost"@ ==> security::loopback(
            host,
            loopback_address,
        ),
        loopback_address ==> security::loopback(host, loopback_address),
        security::loopback(host, false) ==> text::has_suffix(
            text::lower(text::without_trailing(host, '.')),
            "localhost"@,
        ),
{
    let bare = text::lower(text::without_trailing(host, '.'));
    reveal_strlit("localhost");
    reveal_strlit(".localhost");
    assert("localhost"@.subrange(0, 9) =~= "localhost"@);
    if text::occurs_at(bare, ".localhost"@, bare.len() - 10) {
        let tail = bare.subrange(bare.len() - 10, bare.len() as int);
        assert(bare.subrange(bare.len() - 9, bare.len() as int) =~= tail.subrange(1, 10));
        assert(".localhost"@.subrange(1, 10) =~= "localhost"@);
    }
}

/// A request without a host is bad, one for another host is forbidden, and so is one that changes
/// something and comes from the page of another site; every other request passes.
pub proof fn law_guard_of_the_requests(f: RequestFacts, extra: Seq<Seq<char>>)
    ensures
        f.host is None ==> (security::spec_guard(f, extra) matches Some(e) && e.status == 400),
        f.host matches Some(host) ==> {
            let mine = security::allowed_host(
                security::spec_strip_port(host@),
                extra,
                f.host_is_loopback_address,
            );
            let foreign = f.has_origin && !(f.origin matches Some(origin) && security::allowed_origin(
                origin@,
                extra,
                f.origin_is_loopback_address,
            ));
            &&& !mine ==> (security::spec_guard(f, extra) matches Some(e) && e.status == 403)
            &&& mine && f.read_only ==> security::spec_guard(f, extra) is None
            &&& mine && !f.has_origin ==> security::spec_guard(f, extra) is None
            &&& mine && !f.read_only && foreign ==> (security::spec_guard(f, extra) matches Some(e)
                && e.status == 403)
            &&& mine && !foreign ==> security::spec_guard(f, extra) is None
        },
{
}

/// A host that was listed is allowed, letters of either case.
pub proof fn law_listed_host_is_allowed(
    host: Seq<char>,
    extra: Seq<Seq<char>>,
    i: int,
    loopback_address: bool,
)
    requires
        0 <= i < extra.len(),
        text::lower(extra[i]) == text::lower(host),
    ensures
        security::allowed_host(host, extra, loopback_address),
{
    assert(security::listed(extra, host));
}

// ---------- the server ----------

/// The port is 3000 unless one is given; what is no number up to 65535 is told.
pub proof fn law_port_of_the_server(raw: Seq<char>)
    ensures
        server::spec_port(None) == Ok::<int, Seq<char>>(3000),
        text::parsed_number(text::trimmed(raw), 65535) matches Some(n) ==> server::spec_port(Some(raw))
            == Ok::<int, Seq<char>>(n),
        text::parsed_number(text::trimmed(raw), 65535) is None ==> server::spec_port(Some(raw)) is Err,
{
}

/// The address of the server is host and port with a colon between; a host with colons stands in
/// brackets.
pub proof fn law_address_of_the_server(host: Seq<char>, port: u16)
    ensures
        !host.contains(':') ==> server::spec_authority(host, port) == host + ":"@ + text::decimal_of(
            port as int,
        ),
        host.contains(':') ==> server::spec_authority(host, port) == "["@ + host + "]:"@
            + text::decimal_of(port as int),
{
}

/// The files of the interface are looked for beside the program, in the project and in the current folder,
/// in this order; the first place that is there is taken.
pub proof fn law_first_place_is_taken(
    exe: Seq<char>,
    project: Seq<char>,
    current: Seq<char>,
    relative: Seq<char>,
    there: Seq<bool>,
)
    requires
        there.len() == 3,
    ensures
        ({
            let places = server::spec_places(Some(exe), project, Some(current), relative);
            &&& places == seq![
                paths::joined(exe, relative),
                paths::joined(project, relative),
                paths::joined(current, relative),
            ]
            &&& there[0] ==> server::there_from(places, there, 0) == Some(places[0])
            &&& !there[0] && there[1] ==> server::there_from(places, there, 0) == Some(places[1])
            &&& !there[0] && !there[1] && there[2] ==> server::there_from(places, there, 0) == Some(
                places[2],
            )
            &&& !there[0] && !there[1] && !there[2] ==> server::there_from(places, there, 0) is None
        }),
{
    reveal_with_fuel(server::there_from, 4);
    let places = server::spec_places(Some(exe), project, Some(current), relative);
    assert(places =~= seq![
        paths::joined(exe, relative),
        paths::joined(project, relative),
        paths::joined(current, relative),
    ]);
}

/// Removing a key keeps every other one.
pub proof fn law_other_keys_stay(keys: Seq<json::JsonView>, id: Seq<char>, n: int, k: int)
    requires
        0 <= k < n <= keys.len(),
        json::text_of(json::member(keys[k], "id"@)) != Some(id),
    ensures
        server::keys_without(keys, id, n).contains(keys[k]),
    decreases n,
{
    let before = server::keys_without(keys, id, n - 1);
    let after = server::keys_without(keys, id, n);
    if k < n - 1 {
        law_other_keys_stay(keys, id, n - 1, k);
        let i = choose|i: int| 0 <= i < before.len() && before[i] == keys[k];
        assert(after[i] == keys[k]);
    } else {
        assert(after[before.len() as int] == keys[k]);
    }
}

// ---------- folders to scan ----------

/// A folder that is added stands at the end of the list under its path; one that is scanned already is a
/// conflict.
pub proof fn law_added_folder(
    s: scan_folders::StoredView,
    models_dir: Seq<char>,
    canonical: Seq<char>,
    created_at: Seq<char>,
    i: int,
)
    ensures
        match scan_folders::spec_add(s, Some(models_dir), canonical, created_at) {
            Ok((entry, after)) => {
                &&& entry.path == canonical
                &&& entry.created_at == created_at
                &&& after.folders.len() == s.folders.len() + 1
                &&& after.folders.last() == entry
                &&& after.folders.drop_last() == s.folders
                &&& !paths::same_path(models_dir, canonical)
                &&& 0 <= i < s.folders.len() ==> !paths::same_path(s.folders[i].path, canonical)
            },
            Err(e) => e.status == 409 && (paths::same_path(models_dir, canonical) || exists|j: int|
                0 <= j < s.folders.len() && paths::same_path(
                    (#[trigger] s.folders[j]).path,
                    canonical,
                )),
        },
{
    if let Ok((entry, after)) = scan_folders::spec_add(s, Some(models_dir), canonical, created_at) {
        assert(after.folders.drop_last() =~= s.folders);
    }
}

/// Taking a folder off the list keeps every other one.
pub proof fn law_other_folders_stay(s: Seq<scan_folders::EntryView>, id: u64, n: int, k: int)
    requires
        0 <= k < n <= s.len(),
    ensures
        s[k].id != id ==> scan_folders::folders_without(s, id, n).contains(s[k]),
        forall|i: int|
            0 <= i < scan_folders::folders_without(s, id, n).len() ==> (
            #[trigger] scan_folders::folders_without(s, id, n)[i]).id != id,
    decreases n,
{
    let before = scan_folders::folders_without(s, id, n - 1);
    let after = scan_folders::folders_without(s, id, n);
    if n > 1 {
        let j = if k < n - 1 {
            k
        } else {
            0
        };
        law_other_folders_stay(s, id, n - 1, j);
    }
    if s[k].id != id {
        if k < n - 1 {
            let i = choose|i: int| 0 <= i < before.len() && before[i] == s[k];
            assert(after[i] == s[k]);
        } else {
            assert(after[before.len() as int] == s[k]);
        }
    }
}

/// A folder is asked for by its full path, without the blanks around it.
pub proof fn law_asked_folder(path: Seq<char>)
    ensures
        text::trimmed(path).len() > 0 ==> scan_folders::spec_requested(Some(path), true) == Ok::<
            Seq<char>,
            error::ApiErrorView,
        >(text::trimmed(path)),
        scan_folders::spec_requested(Some(path), false) matches Err(e) && e.status == 400,
        scan_folders::spec_requested(None, true) matches Err(e) && e.status == 400,
        text::trimmed(path).len() == 0 ==> (scan_folders::spec_requested(Some(path), true) matches Err(
            e,
        ) && e.status == 400),
{
}

/// Only a folder that can be read and is not the root of a disk is accepted, under its full name.
pub proof fn law_accepted_folder(path: Seq<char>, probe: scan_folders::ProbeView)
    ensures
        match scan_folders::spec_validate(path, probe) {
            Ok(name) => probe == (scan_folders::ProbeView::Found {
                canonical: name,
                is_folder: true,
                is_root: false,
                unreadable: None,
            }),
            Err(e) => !(probe matches scan_folders::ProbeView::Found {
                canonical,
                is_folder,
                is_root,
                unreadable,
            } && is_folder && !is_root && unreadable is None) && (e.status == 400 || e.status == 403),
        },
        probe is PermissionDenied ==> (scan_folders::spec_validate(path, probe) matches Err(e)
            && e.status == 403),
        probe is NotFound ==> (scan_folders::spec_validate(path, probe) matches Err(e) && e.status
            == 400),
{
}

proof fn lemma_first_slashes(scheme: Seq<char>, rest: Seq<char>)
    requires
        !scheme.contains(':'),
    ensures
        text::part_from(scheme + "://"@ + rest, "://"@, 0) == Some(scheme.len() as int),
{
    reveal_strlit("://");
    let s = scheme + "://"@ + rest;
    let n = scheme.len() as int;
    assert(s.subrange(n, n + 3) =~= "://"@);
    assert(text::occurs_at(s, "://"@, n));
    text_laws::lemma_part_from(s, "://"@, 0);
    assert forall|j: int| 0 <= j < n implies !#[trigger] text::occurs_at(s, "://"@, j) by {
        if text::occurs_at(s, "://"@, j) {
            assert(s.subrange(j, j + 3)[0] == "://"@[0]);
            assert(scheme[j] == ':');
            assert(scheme.contains(scheme[j]));
        }
    }
}

/// The host of an origin stands behind `http://` or `https://`, without its port; other schemes have none.
pub proof fn law_host_of_an_origin(scheme: Seq<char>, rest: Seq<char>)
    requires
        !scheme.contains(':'),
    ensures
        scheme == "http"@ || scheme == "https"@ ==> security::spec_origin_host(scheme + "://"@ + rest)
            == Some(security::spec_strip_port(rest)),
        scheme != "http"@ && scheme != "https"@ ==> security::spec_origin_host(scheme + "://"@ + rest)
            is None,
{
    lemma_first_slashes(scheme, rest);
    reveal_strlit("://");
    let s = scheme + "://"@ + rest;
    assert(s.take(scheme.len() as int) =~= scheme);
    assert(s.skip((scheme.len() + 3) as int) =~= rest);
}

} // verus!
