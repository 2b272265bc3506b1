//! What is stored is read back.

use vstd::prelude::*;

use crate::answers;
use crate::chat_ops;
use crate::json;
use crate::settings_answers;
use crate::settings_api;

verus! {

/// A limit for uploads that a request may set is read back.
pub proof fn law_upload_limit_is_read_back(mb: u64)
    requires
        settings_api::limit_ok(mb),
    ensures
        settings_api::spec_limit(Some(answers::count(mb as int))) == mb,
{
}

/// The access without a key is read back as it was set.
pub proof fn law_keyless_access_is_read_back(scope: Seq<char>, tools: bool)
    requires
        settings_api::is_scope(scope),
    ensures
        settings_api::spec_keyless(
            Some(json::JsonView::Object(settings_answers::keyless_fields(scope, tools))),
        ) == (scope, tools),
{
    let first = json::with(json::no_fields(), "scope"@, answers::word(scope));
    reveal_strlit("scope");
    reveal_strlit("tools");
    assert("scope"@[0] != "tools"@[0]);
    json::law_set_field_is_read_back(first, "tools"@, answers::flag(tools), "scope"@);
    json::law_set_field_is_read_back(first, "tools"@, answers::flag(tools), "tools"@);
    json::law_set_field_is_read_back(json::no_fields(), "scope"@, answers::word(scope), "scope"@);
}

/// The memory settings are read back as they were set.
pub proof fn law_model_memory_is_read_back(keep_resident: bool, no_ram_reserve: bool)
    ensures
        settings_api::spec_model_memory(
            Some(
                json::JsonView::Object(
                    settings_answers::memory_fields(keep_resident, no_ram_reserve),
                ),
            ),
        ) == (keep_resident, no_ram_reserve),
{
    let keep = answers::flag(keep_resident);
    let reserve = answers::flag(no_ram_reserve);
    let first = json::with(json::no_fields(), "keep_resident"@, keep);
    reveal_strlit("keep_resident");
    reveal_strlit("no_ram_reserve");
    assert("keep_resident"@.len() != "no_ram_reserve"@.len());
    json::law_set_field_is_read_back(first, "no_ram_reserve"@, reserve, "keep_resident"@);
    json::law_set_field_is_read_back(first, "no_ram_reserve"@, reserve, "no_ram_reserve"@);
    json::law_set_field_is_read_back(json::no_fields(), "keep_resident"@, keep, "keep_resident"@);
}

/// The way of downloading that a request may set is read back.
pub proof fn law_transport_is_read_back(mode: Seq<char>)
    requires
        mode == "auto"@ || mode == "http"@,
    ensures
        settings_api::spec_transport(Some(answers::word(mode))) == mode,
{
}

/// A token that a request sets is read back.
pub proof fn law_token_is_read_back(sent: Option<json::JsonView>)
    requires
        settings_api::filled(sent) is Some,
    ensures
        settings_api::spec_token(Some(answers::word(settings_api::filled(sent)->Some_0)))
            == settings_api::filled(sent),
{
}

// ---------- switching models ----------

/// Two objects have the same names.
pub open spec fn same_names(a: json::Fields, b: json::Fields) -> bool {
    forall|key: Seq<char>|
        (#[trigger] json::field(a, key) is Some) == (json::field(b, key) is Some)
}

/// Setting a known field leaves the names as they are.
proof fn lemma_known_field(o: json::Fields, names: json::Fields, key: Seq<char>, v: json::JsonView)
    requires
        json::ordered(o),
        same_names(o, names),
        json::field(names, key) is Some,
    ensures
        json::ordered(json::with(o, key, v)),
        same_names(json::with(o, key, v), names),
{
    json::law_setting_keeps_order(o, key, v);
    assert(json::field(o, key) is Some);
    assert forall|other: Seq<char>|
        (#[trigger] json::field(json::with(o, key, v), other) is Some) == (json::field(
            names,
            other,
        ) is Some) by {
        json::law_set_field_is_read_back(o, key, v, other);
        assert((json::field(o, other) is Some) == (json::field(names, other) is Some));
    }
}

/// The usual values stand in order, and every field that a request may set is among them.
proof fn lemma_defaults()
    ensures
        json::ordered(settings_api::switch_defaults()),
        json::field(settings_api::switch_defaults(), "enabled"@) is Some,
        json::field(settings_api::switch_defaults(), "auto_unload_idle_seconds"@) is Some,
        json::field(settings_api::switch_defaults(), "auto_unload_keep_kv"@) is Some,
        json::field(settings_api::switch_defaults(), "auto_download_model"@) is Some,
        json::field(settings_api::switch_defaults(), "auto_unload_api_only"@) is Some,
        json::field(settings_api::switch_defaults(), "media_auto_unload_idle_seconds"@) is Some,
        json::field(settings_api::switch_defaults(), "media_auto_switch_model"@) is Some,
{
    let off = json::JsonView::Bool(false);
    let on = json::JsonView::Bool(true);
    let zero = settings_api::zero();
    let start = json::no_fields();
    let a = json::with(start, "enabled"@, off);
    let b = json::with(a, "auto_unload_idle_seconds"@, zero);
    let c = json::with(b, "auto_unload_keep_kv"@, on);
    let d = json::with(c, "auto_download_model"@, off);
    let e = json::with(d, "auto_unload_api_only"@, off);
    let f = json::with(e, "media_auto_unload_idle_seconds"@, zero);
    json::law_setting_keeps_order(start, "enabled"@, off);
    json::law_setting_keeps_order(a, "auto_unload_idle_seconds"@, zero);
    json::law_setting_keeps_order(b, "auto_unload_keep_kv"@, on);
    json::law_setting_keeps_order(c, "auto_download_model"@, off);
    json::law_setting_keeps_order(d, "auto_unload_api_only"@, off);
    json::law_setting_keeps_order(e, "media_auto_unload_idle_seconds"@, zero);
    json::law_setting_keeps_order(f, "media_auto_switch_model"@, off);
    assert forall|key: Seq<char>|
        json::field(settings_api::switch_defaults(), key) is Some == (key == "enabled"@ || key
            == "auto_unload_idle_seconds"@ || key == "auto_unload_keep_kv"@ || key
            == "auto_download_model"@ || key == "auto_unload_api_only"@ || key
            == "media_auto_unload_idle_seconds"@ || key == "media_auto_switch_model"@) by {
        json::law_set_field_is_read_back(start, "enabled"@, off, key);
        json::law_set_field_is_read_back(a, "auto_unload_idle_seconds"@, zero, key);
        json::law_set_field_is_read_back(b, "auto_unload_keep_kv"@, on, key);
        json::law_set_field_is_read_back(c, "auto_download_model"@, off, key);
        json::law_set_field_is_read_back(d, "auto_unload_api_only"@, off, key);
        json::law_set_field_is_read_back(e, "media_auto_unload_idle_seconds"@, zero, key);
        json::law_set_field_is_read_back(f, "media_auto_switch_model"@, off, key);
    }
}

/// Taking over stored fields keeps the order and the names.
proof fn lemma_taken_names(o: json::Fields, stored: json::Fields, n: int)
    requires
        json::ordered(o),
        0 <= n <= stored.len(),
    ensures
        json::ordered(settings_api::known_taken(o, stored, n)),
        same_names(settings_api::known_taken(o, stored, n), o),
    decreases n,
{
    if n > 0 {
        lemma_taken_names(o, stored, n - 1);
        let before = settings_api::known_taken(o, stored, n - 1);
        let (key, value) = stored[n - 1];
        if json::field(before, key) is Some {
            assert(json::field(o, key) is Some);
            lemma_known_field(before, o, key, value);
        }
    }
}

/// What the first `n` stored fields leave under a name.
pub open spec fn last_of(stored: json::Fields, key: Seq<char>, n: int) -> Option<json::JsonView>
    decreases n,
{
    if n <= 0 {
        None
    } else if stored[n - 1].0 == key {
        Some(stored[n - 1].1)
    } else {
        last_of(stored, key, n - 1)
    }
}

proof fn lemma_taken_field(o: json::Fields, stored: json::Fields, n: int, key: Seq<char>)
    requires
        json::ordered(o),
        0 <= n <= stored.len(),
        json::field(o, key) is Some,
    ensures
        json::field(settings_api::known_taken(o, stored, n), key) == (match last_of(
            stored,
            key,
            n,
        ) {
            Some(v) => Some(v),
            None => json::field(o, key),
        }),
    decreases n,
{
    if n > 0 {
        lemma_taken_field(o, stored, n - 1, key);
        lemma_taken_names(o, stored, n - 1);
        let before = settings_api::known_taken(o, stored, n - 1);
        assert((json::field(before, key) is Some) == (json::field(o, key) is Some));
        json::law_set_field_is_read_back(before, stored[n - 1].0, stored[n - 1].1, key);
    }
}

/// In an object in order the last field of a name is its only one.
proof fn lemma_last_is_field(stored: json::Fields, key: Seq<char>, n: int)
    requires
        json::ordered(stored),
        0 <= n <= stored.len(),
    ensures
        last_of(stored, key, n) == json::field(stored.take(n), key),
    decreases n,
{
    if n > 0 {
        lemma_last_is_field(stored, key, n - 1);
        let short = stored.take(n - 1);
        let (name, value) = stored[n - 1];
        assert(stored.take(n) =~= short.push((name, value)));
        assert forall|i: int| 0 <= i < short.len() implies (#[trigger] short[i]).0 != name by {
            assert(crate::text::before(stored[i].0, stored[n - 1].0));
            crate::text::lemma_before_is_total(stored[i].0, stored[n - 1].0);
        }
        lemma_field_of_longer(short, name, value, key);
    } else {
        assert(stored.take(0) =~= json::no_fields());
    }
}

/// A field behind the others is read where none of them has its name.
proof fn lemma_field_of_longer(
    o: json::Fields,
    name: Seq<char>,
    value: json::JsonView,
    key: Seq<char>,
)
    requires
        forall|i: int| 0 <= i < o.len() ==> (#[trigger] o[i]).0 != name,
    ensures
        json::field(o.push((name, value)), key) == (if key == name {
            Some(value)
        } else {
            json::field(o, key)
        }),
    decreases o.len(),
{
    let longer = o.push((name, value));
    if o.len() == 0 {
        assert(longer.drop_first() =~= o);
    } else {
        let rest = o.drop_first();
        assert(longer.drop_first() =~= rest.push((name, value)));
        assert(o[0].0 != name);
        assert forall|i: int| 0 <= i < rest.len() implies (#[trigger] rest[i]).0 != name by {
            assert(rest[i] == o[i + 1]);
        }
        lemma_field_of_longer(rest, name, value, key);
    }
}

proof fn lemma_flag_set(
    r: Result<json::Fields, crate::error::ApiErrorView>,
    body: json::JsonView,
    field: Seq<char>,
)
    requires
        settings_api::flag_set(r, body, field) is Ok,
        json::ordered(r->Ok_0),
        same_names(r->Ok_0, settings_api::switch_defaults()),
        json::field(settings_api::switch_defaults(), field) is Some,
    ensures
        json::ordered(settings_api::flag_set(r, body, field)->Ok_0),
        same_names(settings_api::flag_set(r, body, field)->Ok_0, settings_api::switch_defaults()),
{
    if let Ok(Some(b)) = settings_api::spec_optional(body, field) {
        lemma_known_field(
            r->Ok_0,
            settings_api::switch_defaults(),
            field,
            json::JsonView::Bool(b),
        );
    }
}

proof fn lemma_seconds_set(
    r: Result<json::Fields, crate::error::ApiErrorView>,
    body: json::JsonView,
    field: Seq<char>,
)
    requires
        settings_api::seconds_set(r, body, field) is Ok,
        json::ordered(r->Ok_0),
        same_names(r->Ok_0, settings_api::switch_defaults()),
        json::field(settings_api::switch_defaults(), field) is Some,
    ensures
        json::ordered(settings_api::seconds_set(r, body, field)->Ok_0),
        same_names(
            settings_api::seconds_set(r, body, field)->Ok_0,
            settings_api::switch_defaults(),
        ),
{
    if let Ok(Some(n)) = settings_api::spec_optional_u64(body, field) {
        lemma_known_field(
            r->Ok_0,
            settings_api::switch_defaults(),
            field,
            json::JsonView::Number(json::Number::Unsigned(n)),
        );
    }
}

/// The settings after a request have the usual names, in order.
proof fn lemma_put_switch(stored: Option<json::JsonView>, body: json::JsonView)
    requires
        settings_api::spec_put_switch(stored, body) is Ok,
    ensures
        json::ordered(settings_api::spec_put_switch(stored, body)->Ok_0),
        same_names(
            settings_api::spec_put_switch(stored, body)->Ok_0,
            settings_api::switch_defaults(),
        ),
{
    lemma_defaults();
    let s = chat_ops::object_or_empty(stored);
    let defaults = settings_api::switch_defaults();
    lemma_taken_names(defaults, s, s.len() as int);
    let enabled = settings_api::spec_required(body, "enabled"@)->Ok_0;
    let first = json::with(
        settings_api::spec_switch(stored),
        "enabled"@,
        json::JsonView::Bool(enabled),
    );
    lemma_known_field(
        settings_api::spec_switch(stored),
        defaults,
        "enabled"@,
        json::JsonView::Bool(enabled),
    );
    let start = Ok(first);
    lemma_flag_set(start, body, "auto_unload_keep_kv"@);
    let a = settings_api::flag_set(start, body, "auto_unload_keep_kv"@);
    lemma_flag_set(a, body, "auto_download_model"@);
    let b = settings_api::flag_set(a, body, "auto_download_model"@);
    lemma_flag_set(b, body, "auto_unload_api_only"@);
    let c = settings_api::flag_set(b, body, "auto_unload_api_only"@);
    lemma_flag_set(c, body, "media_auto_switch_model"@);
    let d = settings_api::flag_set(c, body, "media_auto_switch_model"@);
    lemma_seconds_set(d, body, "auto_unload_idle_seconds"@);
    let e = settings_api::seconds_set(d, body, "auto_unload_idle_seconds"@);
    lemma_seconds_set(e, body, "media_auto_unload_idle_seconds"@);
}

/// The settings for switching models are read back as a request left them.
pub proof fn law_switch_settings_are_read_back(
    stored: Option<json::JsonView>,
    body: json::JsonView,
)
    requires
        settings_api::spec_put_switch(stored, body) is Ok,
    ensures
        ({
            let settings = settings_api::spec_put_switch(stored, body)->Ok_0;
            settings_api::spec_switch(Some(json::JsonView::Object(settings))) == settings
        }),
{
    let settings = settings_api::spec_put_switch(stored, body)->Ok_0;
    let defaults = settings_api::switch_defaults();
    let n = settings.len() as int;
    lemma_defaults();
    lemma_put_switch(stored, body);
    let read = settings_api::known_taken(defaults, settings, n);
    lemma_taken_names(defaults, settings, n);
    assert forall|key: Seq<char>| #[trigger] json::field(read, key) == json::field(settings, key) by {
        assert((json::field(read, key) is Some) == (json::field(defaults, key) is Some));
        assert((json::field(settings, key) is Some) == (json::field(defaults, key) is Some));
        if json::field(defaults, key) is Some {
            lemma_taken_field(defaults, settings, n, key);
            lemma_last_is_field(settings, key, n);
            assert(settings.take(n) =~= settings);
        }
    }
    json::law_fields_decide_the_object(read, settings);
}

// ---------- presets ----------

/// The preset with a name, if there is one.
pub open spec fn preset_named(s: Seq<json::JsonView>, name: Seq<char>) -> Option<json::JsonView> {
    match settings_api::preset_from(s, name, 0) {
        Some(i) => Some(s[i]),
        None => None,
    }
}

/// The first of the presets from `i` on with a name is the one whose place is found.
proof fn lemma_preset_place(s: Seq<json::JsonView>, name: Seq<char>, i: int)
    requires
        0 <= i <= s.len(),
    ensures
        match settings_api::preset_from(s, name, i) {
            Some(k) => i <= k < s.len() && settings_api::named(s[k], name) && forall|j: int|
                i <= j < k ==> !settings_api::named(#[trigger] s[j], name),
            None => forall|j: int| i <= j < s.len() ==> !settings_api::named(#[trigger] s[j], name),
        },
    decreases s.len() - i,
{
    if i < s.len() && !settings_api::named(s[i], name) {
        lemma_preset_place(s, name, i + 1);
    }
}

proof fn lemma_new_preset_is_named(name: Seq<char>, params: Option<json::JsonView>, other: Seq<char>)
    ensures
        settings_api::named(settings_api::new_preset(name, params), other) == (other == name),
{
    let value = match params {
        Some(v) => v,
        None => json::JsonView::Null,
    };
    let first = json::with(json::no_fields(), "name"@, json::JsonView::Text(name));
    reveal_strlit("name");
    reveal_strlit("params");
    assert("name"@.len() != "params"@.len());
    json::law_set_field_is_read_back(first, "params"@, value, "name"@);
    json::law_set_field_is_read_back(
        json::no_fields(),
        "name"@,
        json::JsonView::Text(name),
        "name"@,
    );
}

proof fn lemma_preset_after_put(
    s: Seq<json::JsonView>,
    name: Seq<char>,
    params: Option<json::JsonView>,
    other: Seq<char>,
)
    ensures
        preset_named(
            settings_api::preset_put(s, name, settings_api::new_preset(name, params)),
            other,
        ) == (if other == name {
            Some(settings_api::new_preset(name, params))
        } else {
            preset_named(s, other)
        }),
{
    let preset = settings_api::new_preset(name, params);
    let after = settings_api::preset_put(s, name, preset);
    lemma_new_preset_is_named(name, params, other);
    lemma_preset_place(s, name, 0);
    lemma_preset_place(s, other, 0);
    lemma_preset_place(after, other, 0);
    let put = match settings_api::preset_from(s, name, 0) {
        Some(i) => i,
        None => s.len() as int,
    };
    assert(after[put] == preset);
    assert(forall|j: int| 0 <= j < s.len() && j != put ==> after[j] == #[trigger] s[j]);
    match settings_api::preset_from(after, other, 0) {
        Some(k) => {
            if other == name {
                if k < put {
                    assert(settings_api::named(s[k], name));
                } else if k > put {
                    assert(settings_api::named(after[put], other));
                }
            } else {
                assert(k != put);
                assert(settings_api::named(s[k], other));
                let first = settings_api::preset_from(s, other, 0)->Some_0;
                if first < k {
                    assert(settings_api::named(s[first], other));
                    if first != put {
                        assert(after[first] == s[first]);
                    }
                }
                if k < first {
                    assert(settings_api::named(s[k], other));
                }
            }
        },
        None => {
            assert(!settings_api::named(after[put], other));
            if let Some(first) = settings_api::preset_from(s, other, 0) {
                if first != put {
                    assert(after[first] == s[first]);
                } else {
                    assert(settings_api::named(s[put], name));
                }
            }
        },
    }
}

/// A preset of the user is read back as it was put, and no other preset changes.
pub proof fn law_preset_is_read_back(
    stored: Option<json::JsonView>,
    body: json::JsonView,
    other: Seq<char>,
)
    requires
        settings_api::spec_put_custom(stored, body) is Ok,
    ensures
        ({
            let name = settings_api::filled(json::member(body, "name"@))->Some_0;
            let settings = settings_api::spec_put_custom(stored, body)->Ok_0;
            let shown = settings_api::spec_presets(Some(json::JsonView::Object(settings)));
            preset_named(settings_api::presets_of(shown), other) == (if other == name {
                Some(settings_api::new_preset(name, json::member(body, "params"@)))
            } else {
                preset_named(
                    settings_api::presets_of(chat_ops::object_or_empty(stored)),
                    other,
                )
            })
        }),
{
    let name = settings_api::filled(json::member(body, "name"@))->Some_0;
    let params = json::member(body, "params"@);
    let o = chat_ops::object_or_empty(stored);
    let presets = settings_api::presets_of(o);
    let after = settings_api::preset_put(presets, name, settings_api::new_preset(name, params));
    lemma_shown_presets(o, after);
    lemma_preset_after_put(presets, name, params, other);
}

/// The presets that were put are those that are shown.
proof fn lemma_shown_presets(o: json::Fields, presets: Seq<json::JsonView>)
    ensures
        settings_api::presets_of(settings_api::with_presets(o, presets)) == presets,
        settings_api::presets_of(
            settings_api::spec_presets(
                Some(json::JsonView::Object(settings_api::with_presets(o, presets))),
            ),
        ) == presets,
{
    let list = json::JsonView::Array(presets);
    let kept = settings_api::with_presets(o, presets);
    json::law_set_field_is_read_back(o, "customPresets"@, list, "customPresets"@);
    json::law_set_field_is_read_back(kept, "customPresets"@, list, "customPresets"@);
    reveal_strlit("customPresets");
    reveal_strlit("saved");
    assert("customPresets"@.len() != "saved"@.len());
    json::law_set_field_is_read_back(
        settings_api::with_presets(kept, presets),
        "saved"@,
        json::JsonView::Bool(true),
        "customPresets"@,
    );
}

proof fn lemma_presets_without(s: Seq<json::JsonView>, name: Seq<char>, n: int, other: Seq<char>)
    requires
        0 <= n <= s.len(),
    ensures
        preset_named(settings_api::presets_without(s, name, n), other) == (if other == name {
            None
        } else {
            preset_named(s.take(n), other)
        }),
    decreases n,
{
    let left = settings_api::presets_without(s, name, n);
    if n > 0 {
        lemma_presets_without(s, name, n - 1, other);
        let before = settings_api::presets_without(s, name, n - 1);
        assert(s.take(n) =~= s.take(n - 1).push(s[n - 1]));
        lemma_preset_of_longer(s.take(n - 1), s[n - 1], other);
        if !settings_api::named(s[n - 1], name) {
            lemma_preset_of_longer(before, s[n - 1], other);
        }
    } else {
        assert(s.take(0) =~= left);
    }
}

proof fn lemma_preset_of_longer(s: Seq<json::JsonView>, last: json::JsonView, name: Seq<char>)
    ensures
        preset_named(s.push(last), name) == (match preset_named(s, name) {
            Some(v) => Some(v),
            None => if settings_api::named(last, name) {
                Some(last)
            } else {
                None
            },
        }),
{
    let longer = s.push(last);
    lemma_preset_place(s, name, 0);
    lemma_preset_place(longer, name, 0);
    assert(longer[s.len() as int] == last);
    assert(forall|j: int| 0 <= j < s.len() ==> longer[j] == #[trigger] s[j]);
    match settings_api::preset_from(s, name, 0) {
        Some(k) => {
            assert(longer[k] == s[k]);
            let found = settings_api::preset_from(longer, name, 0)->Some_0;
            if found < k {
                assert(longer[found] == s[found]);
            }
        },
        None => {
            if let Some(found) = settings_api::preset_from(longer, name, 0) {
                if found < s.len() {
                    assert(longer[found] == s[found]);
                }
            } else {
                assert(!settings_api::named(longer[s.len() as int], name));
            }
        },
    }
}

/// A deleted preset is gone, and no other preset changes.
pub proof fn law_deleted_preset_is_gone(
    stored: Option<json::JsonView>,
    name: Seq<char>,
    other: Seq<char>,
)
    ensures
        ({
            let o = chat_ops::object_or_empty(stored);
            let presets = settings_api::presets_of(o);
            let left = settings_api::presets_without(presets, name, presets.len() as int);
            let shown = settings_api::spec_presets(
                Some(json::JsonView::Object(settings_api::with_presets(o, left))),
            );
            preset_named(settings_api::presets_of(shown), other) == (if other == name {
                None
            } else {
                preset_named(presets, other)
            })
        }),
{
    let o = chat_ops::object_or_empty(stored);
    let presets = settings_api::presets_of(o);
    let left = settings_api::presets_without(presets, name, presets.len() as int);
    lemma_shown_presets(o, left);
    lemma_presets_without(presets, name, presets.len() as int, other);
    assert(presets.take(presets.len() as int) =~= presets);
}

} // verus!
