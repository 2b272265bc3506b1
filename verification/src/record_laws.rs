//! What storing and updating do to the fields of a record: what is named is set, what is not named stays.

use vstd::prelude::*;

use crate::chat_forks;
use crate::chat_ops;
use crate::chat_store;
use crate::json;
use crate::text;

verus! {

/// Whether an update names a field.
pub open spec fn names(patch: json::Fields, key: Seq<char>) -> bool {
    exists|i: int| 0 <= i < patch.len() && (#[trigger] patch[i]).0 == key
}

/// Whether an update names a field and gives it this value; where it names the field more than once,
/// the last value counts.
pub open spec fn gives(patch: json::Fields, key: Seq<char>, value: json::JsonView) -> bool {
    exists|i: int|
        0 <= i < patch.len() && (#[trigger] patch[i]).0 == key && patch[i].1 == value && forall|j: int|
            i < j < patch.len() ==> (#[trigger] patch[j]).0 != key
}

proof fn lemma_prefix(patch: json::Fields, key: Seq<char>, value: json::JsonView)
    requires
        patch.len() > 0,
    ensures
        !names(patch, key) ==> patch.last().0 != key && !names(patch.drop_last(), key),
        patch.last().0 == key && gives(patch, key, value) ==> patch.last().1 == value,
        patch.last().0 != key && gives(patch, key, value) ==> gives(patch.drop_last(), key, value),
        patch.last().0 != key && !names(patch.drop_last(), key) ==> !names(patch, key),
{
    let short = patch.drop_last();
    if names(short, key) {
        let i = choose|i: int| 0 <= i < short.len() && (#[trigger] short[i]).0 == key;
        assert(patch[i].0 == key);
    }
    assert(patch[patch.len() - 1] == patch.last());
    if gives(patch, key, value) {
        let i = choose|i: int|
            0 <= i < patch.len() && (#[trigger] patch[i]).0 == key && patch[i].1 == value && forall|
                j: int,
            |
                i < j < patch.len() ==> (#[trigger] patch[j]).0 != key;
        if i < patch.len() - 1 {
            assert(short[i].0 == key && short[i].1 == value);
            assert forall|j: int| i < j < short.len() implies (#[trigger] short[j]).0 != key by {
                assert(patch[j].0 != key);
            }
            assert(patch[patch.len() - 1].0 != key);
        }
    }
    if names(patch, key) && patch.last().0 != key {
        let i = choose|i: int| 0 <= i < patch.len() && (#[trigger] patch[i]).0 == key;
        assert(short[i].0 == key);
    }
}

proof fn lemma_same_prefix(o: json::Fields, patch: json::Fields, n: int)
    requires
        0 <= n < patch.len(),
    ensures
        chat_ops::all_set(o, patch, n) == chat_ops::all_set(o, patch.drop_last(), n),
        chat_ops::merged(o, patch, n) == chat_ops::merged(o, patch.drop_last(), n),
        chat_ops::set_but_id(o, patch, n) == chat_ops::set_but_id(o, patch.drop_last(), n),
    decreases n,
{
    if n > 0 {
        lemma_same_prefix(o, patch, n - 1);
    }
}

proof fn lemma_all_set(o: json::Fields, patch: json::Fields, key: Seq<char>, value: json::JsonView)
    ensures
        !names(patch, key) ==> json::field(
            chat_ops::all_set(o, patch, patch.len() as int),
            key,
        ) == json::field(o, key),
        gives(patch, key, value) ==> json::field(
            chat_ops::all_set(o, patch, patch.len() as int),
            key,
        ) == Some(value),
    decreases patch.len(),
{
    if patch.len() > 0 {
        let short = patch.drop_last();
        lemma_prefix(patch, key, value);
        lemma_all_set(o, short, key, value);
        lemma_same_prefix(o, patch, patch.len() - 1);
        json::law_set_field_is_read_back(
            chat_ops::all_set(o, short, short.len() as int),
            patch.last().0,
            patch.last().1,
            key,
        );
    }
}

proof fn lemma_merged(o: json::Fields, patch: json::Fields, key: Seq<char>, value: json::JsonView)
    ensures
        !names(patch, key) || chat_ops::is_control(key) ==> json::field(
            chat_ops::merged(o, patch, patch.len() as int),
            key,
        ) == json::field(o, key),
        gives(patch, key, value) && !chat_ops::is_control(key) ==> json::field(
            chat_ops::merged(o, patch, patch.len() as int),
            key,
        ) == Some(value),
    decreases patch.len(),
{
    if patch.len() > 0 {
        let short = patch.drop_last();
        lemma_prefix(patch, key, value);
        lemma_merged(o, short, key, value);
        lemma_same_prefix(o, patch, patch.len() - 1);
        json::law_set_field_is_read_back(
            chat_ops::merged(o, short, short.len() as int),
            patch.last().0,
            patch.last().1,
            key,
        );
    }
}

proof fn lemma_set_but_id(o: json::Fields, patch: json::Fields, key: Seq<char>, value: json::JsonView)
    ensures
        !names(patch, key) || key == "id"@ ==> json::field(
            chat_ops::set_but_id(o, patch, patch.len() as int),
            key,
        ) == json::field(o, key),
        gives(patch, key, value) && key != "id"@ ==> json::field(
            chat_ops::set_but_id(o, patch, patch.len() as int),
            key,
        ) == Some(value),
    decreases patch.len(),
{
    if patch.len() > 0 {
        let short = patch.drop_last();
        lemma_prefix(patch, key, value);
        lemma_set_but_id(o, short, key, value);
        lemma_same_prefix(o, patch, patch.len() - 1);
        json::law_set_field_is_read_back(
            chat_ops::set_but_id(o, short, short.len() as int),
            patch.last().0,
            patch.last().1,
            key,
        );
    }
}

proof fn lemma_names_of_fields()
    ensures
        "updatedAt"@ != "settings"@,
        "updatedAt"@ != "createdAt"@,
        "updatedAt"@ != "title"@,
        "updatedAt"@ != "archived"@,
        "updatedAt"@ != "name"@,
        "updatedAt"@ != "id"@,
        "createdAt"@ != "title"@,
        "createdAt"@ != "archived"@,
        "createdAt"@ != "name"@,
        "createdAt"@ != "threadId"@,
        "createdAt"@ != "id"@,
        "title"@ != "archived"@,
        "name"@ != "archived"@,
        !chat_ops::is_control("settings"@),
        !chat_ops::is_control("updatedAt"@),
{
    reveal_strlit("updatedAt");
    reveal_strlit("createdAt");
    reveal_strlit("settings");
    reveal_strlit("title");
    reveal_strlit("archived");
    reveal_strlit("name");
    reveal_strlit("threadId");
    reveal_strlit("id");
    reveal_strlit("expectedTitle");
    reveal_strlit("expectedOpeningMessageId");
    reveal_strlit("settingsPatch");
    reveal_strlit("settingsSeq");
    reveal_strlit("settingsWriter");
    assert("updatedAt"@.len() == 9 && "createdAt"@.len() == 9);
    assert("updatedAt"@[0] == 'u' && "createdAt"@[0] == 'c');
    assert("settings"@.len() == 8 && "archived"@.len() == 8 && "threadId"@.len() == 8);
    assert("title"@.len() == 5 && "name"@.len() == 4 && "id"@.len() == 2);
    assert("expectedTitle"@.len() == 13 && "expectedOpeningMessageId"@.len() == 24);
    assert("settingsPatch"@.len() == 13 && "settingsSeq"@.len() == 11 && "settingsWriter"@.len()
        == 14);
}

// ---------- threads ----------

/// The update of a thread that adds settings: every stored setting that the update does not name has
/// its old value, and every one that it names has the value of the update.
pub proof fn law_settings_are_added_to_the_stored_ones(
    s: chat_store::ChatView,
    id: Seq<char>,
    patch: json::Fields,
    now: i64,
    stored: json::Fields,
    settings: json::Fields,
    more: json::Fields,
    key: Seq<char>,
    value: json::JsonView,
)
    requires
        chat_ops::patched_thread(s, id, json::JsonView::Object(patch), now) is Ok,
        chat_store::thread_record(s, id) == Some(stored),
        json::field(stored, "settings"@) == Some(json::JsonView::Object(settings)),
        json::field(patch, "settingsPatch"@) == Some(json::JsonView::Object(more)),
        !names(patch, "settings"@),
    ensures
        ({
            let record = chat_ops::patched_thread(s, id, json::JsonView::Object(patch), now)->Ok_0.1;
            match json::field(record, "settings"@) {
                Some(json::JsonView::Object(after)) => {
                    &&& !names(more, key) ==> json::field(after, key) == json::field(settings, key)
                    &&& gives(more, key, value) ==> json::field(after, key) == Some(value)
                },
                _ => false,
            }
        }),
{
    lemma_names_of_fields();
    let fields = chat_ops::merged(stored, patch, patch.len() as int);
    lemma_merged(stored, patch, "settings"@, value);
    let merged = json::JsonView::Object(chat_ops::all_set(settings, more, more.len() as int));
    json::law_set_field_is_read_back(fields, "settings"@, merged, "settings"@);
    json::law_set_field_is_read_back(
        json::with(fields, "settings"@, merged),
        "updatedAt"@,
        json::whole(now),
        "settings"@,
    );
    lemma_all_set(settings, more, key, value);
}

/// Settings that an update adds to a thread without settings, or to those that the same update gives as
/// a whole, are all there.
pub proof fn law_settings_are_added_to_the_given_ones(
    s: chat_store::ChatView,
    id: Seq<char>,
    patch: json::Fields,
    now: i64,
    stored: json::Fields,
    given: json::Fields,
    more: json::Fields,
    key: Seq<char>,
    value: json::JsonView,
)
    requires
        chat_ops::patched_thread(s, id, json::JsonView::Object(patch), now) is Ok,
        chat_store::thread_record(s, id) == Some(stored),
        json::field(patch, "settingsPatch"@) == Some(json::JsonView::Object(more)),
        gives(patch, "settings"@, json::JsonView::Object(given)) || (!names(patch, "settings"@)
            && json::field(stored, "settings"@) is None && given == json::no_fields()),
    ensures
        ({
            let record = chat_ops::patched_thread(s, id, json::JsonView::Object(patch), now)->Ok_0.1;
            match json::field(record, "settings"@) {
                Some(json::JsonView::Object(after)) => {
                    &&& !names(more, key) ==> json::field(after, key) == json::field(given, key)
                    &&& gives(more, key, value) ==> json::field(after, key) == Some(value)
                },
                _ => false,
            }
        }),
{
    lemma_names_of_fields();
    let fields = chat_ops::merged(stored, patch, patch.len() as int);
    lemma_merged(stored, patch, "settings"@, json::JsonView::Object(given));
    let merged = json::JsonView::Object(chat_ops::all_set(given, more, more.len() as int));
    json::law_set_field_is_read_back(fields, "settings"@, merged, "settings"@);
    json::law_set_field_is_read_back(
        json::with(fields, "settings"@, merged),
        "updatedAt"@,
        json::whole(now),
        "settings"@,
    );
    lemma_all_set(given, more, key, value);
}

/// Whether a field of an update only steers it: such a field is not stored.
pub open spec fn steers(key: Seq<char>) -> bool {
    key == "id"@ || key == "expectedTitle"@ || key == "expectedOpeningMessageId"@ || key
        == "settingsPatch"@ || key == "settingsSeq"@ || key == "settingsWriter"@
}

/// The update of a thread sets every field that it names and keeps every other one; what only steers it
/// is not stored, and the time of the change is that of the update or else the present.
pub proof fn law_update_sets_what_it_names(
    s: chat_store::ChatView,
    id: Seq<char>,
    patch: json::Fields,
    now: i64,
    stored: json::Fields,
    key: Seq<char>,
    value: json::JsonView,
)
    requires
        chat_ops::patched_thread(s, id, json::JsonView::Object(patch), now) is Ok,
        chat_store::thread_record(s, id) == Some(stored),
    ensures
        ({
            let record = chat_ops::patched_thread(s, id, json::JsonView::Object(patch), now)->Ok_0.1;
            let adds = json::field(patch, "settingsPatch"@) matches Some(json::JsonView::Object(_));
            &&& key != "updatedAt"@ && !(adds && key == "settings"@) && (!names(patch, key) || steers(
                key,
            )) ==> json::field(record, key) == json::field(stored, key)
            &&& key != "updatedAt"@ && !(adds && key == "settings"@) && gives(patch, key, value)
                && !steers(key) ==> json::field(record, key) == Some(value)
            &&& gives(patch, "updatedAt"@, value) && json::i64_of(
                json::field(patch, "updatedAt"@),
            ) is Some ==> json::field(record, "updatedAt"@) == Some(value)
            &&& json::i64_of(json::field(patch, "updatedAt"@)) is None ==> json::field(
                record,
                "updatedAt"@,
            ) == Some(json::whole(now))
        }),
{
    lemma_names_of_fields();
    let fields = chat_ops::merged(stored, patch, patch.len() as int);
    let settled = chat_ops::settings_merged(fields, json::field(patch, "settingsPatch"@));
    lemma_merged(stored, patch, key, value);
    lemma_merged(stored, patch, "updatedAt"@, value);
    if let Some(json::JsonView::Object(more)) = json::field(patch, "settingsPatch"@) {
        let own = chat_ops::object_or_empty(json::field(fields, "settings"@));
        let merged = json::JsonView::Object(chat_ops::all_set(own, more, more.len() as int));
        json::law_set_field_is_read_back(fields, "settings"@, merged, key);
        json::law_set_field_is_read_back(fields, "settings"@, merged, "updatedAt"@);
    }
    json::law_set_field_is_read_back(settled, "updatedAt"@, json::whole(now), key);
    json::law_set_field_is_read_back(settled, "updatedAt"@, json::whole(now), "updatedAt"@);
}

/// An update that expects another title or another opening message is refused as a conflict; one of a
/// thread that is not there is answered so.
pub proof fn law_unexpected_updates_are_refused(
    s: chat_store::ChatView,
    id: Seq<char>,
    patch: json::Fields,
    now: i64,
)
    requires
        !s.deleted.contains(id),
    ensures
        ({
            let after = chat_ops::patched_thread(s, id, json::JsonView::Object(patch), now);
            let title = json::text_of(json::field(patch, "expectedTitle"@));
            &&& chat_store::thread_record(s, id) is None ==> after == Err::<
                (Seq<char>, json::Fields),
                chat_store::ChatErrorView,
            >(chat_store::ChatErrorView::NotFound("тред "@ + id))
            &&& chat_store::thread_record(s, id) matches Some(stored) ==> title matches Some(t)
                ==> json::text_of(json::field(stored, "title"@)) != Some(t) ==> after == Err::<
                (Seq<char>, json::Fields),
                chat_store::ChatErrorView,
            >(
                chat_store::ChatErrorView::Conflict(
                    "Название треда уже изменилось в другой вкладке"@,
                ),
            )
            &&& chat_store::thread_record(s, id) is Some && title is None && json::text_of(
                json::field(patch, "expectedOpeningMessageId"@),
            ) is Some && chat_ops::opening_id(s, id) != json::text_of(
                json::field(patch, "expectedOpeningMessageId"@),
            ) ==> after == Err::<(Seq<char>, json::Fields), chat_store::ChatErrorView>(
                chat_store::ChatErrorView::Conflict("Первое сообщение треда уже изменилось"@),
            )
        }),
{
}

proof fn lemma_default(o: json::Fields, key: Seq<char>, value: json::JsonView, other: Seq<char>)
    ensures
        json::field(json::with_default(o, key, value), other) == (if other == key && json::field(
            o,
            key,
        ) is None {
            Some(value)
        } else {
            json::field(o, other)
        }),
{
    json::law_set_field_is_read_back(o, key, value, other);
}

/// Storing a whole thread keeps its fields and fills in what is missing: an empty title, not archived,
/// the time of the last change, and the time of creation of the thread that it replaces.
pub proof fn law_stored_thread_is_completed(
    s: chat_store::ChatView,
    o: json::Fields,
    now: i64,
    key: Seq<char>,
)
    requires
        chat_store::saved_thread(s, json::JsonView::Object(o), now) is Ok,
    ensures
        ({
            let (id, record) = chat_store::saved_thread(s, json::JsonView::Object(o), now)->Ok_0;
            &&& json::text_of(json::field(o, "id"@)) matches Some(t) && id == text::trimmed(t)
            &&& json::field(o, key) is Some && key != "createdAt"@ ==> json::field(record, key)
                == json::field(o, key)
            &&& json::i64_of(json::field(o, "createdAt"@)) is Some ==> json::field(
                record,
                "createdAt"@,
            ) == json::field(o, "createdAt"@)
            &&& json::i64_of(json::field(o, "createdAt"@)) is None ==> json::field(
                record,
                "createdAt"@,
            ) == Some(
                json::whole(
                    match chat_store::thread_record(s, id) {
                        Some(before) => match json::i64_of(json::field(before, "createdAt"@)) {
                            Some(t) => t,
                            None => now,
                        },
                        None => now,
                    },
                ),
            )
            &&& json::field(o, "title"@) is None ==> json::field(record, "title"@) == Some(
                json::JsonView::Text(Seq::empty()),
            )
            &&& json::field(o, "archived"@) is None ==> json::field(record, "archived"@) == Some(
                json::JsonView::Bool(false),
            )
            &&& json::field(o, "updatedAt"@) is None ==> json::field(record, "updatedAt"@) == Some(
                json::whole(now),
            )
            &&& json::field(o, key) is None && key != "createdAt"@ && key != "title"@ && key
                != "archived"@ && key != "updatedAt"@ ==> json::field(record, key) is None
        }),
{
    lemma_names_of_fields();
    reveal_strlit("");
    assert(""@ =~= Seq::empty());
    let (id, record) = chat_store::saved_thread(s, json::JsonView::Object(o), now)->Ok_0;
    let created = chat_store::created_time(chat_store::thread_record(s, id));
    let time = json::whole(
        match created {
            Some(t) => t,
            None => now,
        },
    );
    let dated = if json::i64_of(json::field(o, "createdAt"@)) is Some {
        o
    } else {
        json::with(o, "createdAt"@, time)
    };
    let titled = json::with_default(dated, "title"@, json::JsonView::Text(""@));
    let filed = json::with_default(titled, "archived"@, json::JsonView::Bool(false));
    lemma_completed(o, time, dated, titled, filed, now, key);
    lemma_completed(o, time, dated, titled, filed, now, "createdAt"@);
    lemma_completed(o, time, dated, titled, filed, now, "title"@);
    lemma_completed(o, time, dated, titled, filed, now, "archived"@);
    lemma_completed(o, time, dated, titled, filed, now, "updatedAt"@);
}

proof fn lemma_completed(
    o: json::Fields,
    time: json::JsonView,
    dated: json::Fields,
    titled: json::Fields,
    filed: json::Fields,
    now: i64,
    key: Seq<char>,
)
    requires
        dated == if json::i64_of(json::field(o, "createdAt"@)) is Some {
            o
        } else {
            json::with(o, "createdAt"@, time)
        },
        titled == json::with_default(dated, "title"@, json::JsonView::Text(""@)),
        filed == json::with_default(titled, "archived"@, json::JsonView::Bool(false)),
    ensures
        json::field(json::with_default(filed, "updatedAt"@, json::whole(now)), key) == (if key
            == "createdAt"@ && json::i64_of(json::field(o, key)) is None {
            Some(time)
        } else if json::field(o, key) is Some {
            json::field(o, key)
        } else if key == "title"@ {
            Some(json::JsonView::Text(""@))
        } else if key == "archived"@ {
            Some(json::JsonView::Bool(false))
        } else if key == "updatedAt"@ {
            Some(json::whole(now))
        } else {
            None
        }),
{
    lemma_names_of_fields();
    json::law_set_field_is_read_back(o, "createdAt"@, time, key);
    json::law_set_field_is_read_back(o, "createdAt"@, time, "title"@);
    json::law_set_field_is_read_back(o, "createdAt"@, time, "archived"@);
    json::law_set_field_is_read_back(o, "createdAt"@, time, "updatedAt"@);
    lemma_default(dated, "title"@, json::JsonView::Text(""@), key);
    lemma_default(dated, "title"@, json::JsonView::Text(""@), "archived"@);
    lemma_default(dated, "title"@, json::JsonView::Text(""@), "updatedAt"@);
    lemma_default(titled, "archived"@, json::JsonView::Bool(false), key);
    lemma_default(titled, "archived"@, json::JsonView::Bool(false), "updatedAt"@);
    lemma_default(filed, "updatedAt"@, json::whole(now), key);
}

/// What lists ask of a thread is what its record says: when it was created, whether it is archived, and
/// its project, its pair and its kind of model.
pub proof fn law_row_says_what_the_record_says(id: Seq<char>, o: json::Fields, now: i64)
    ensures
        ({
            let row = chat_store::thread_row(id, o, now);
            &&& row.id == id
            &&& row.record == o
            &&& json::i64_of(json::field(o, "createdAt"@)) matches Some(t) ==> row.created_at == t
            &&& json::i64_of(json::field(o, "createdAt"@)) is None ==> row.created_at == now
            &&& row.archived <==> json::field(o, "archived"@) == Some(json::JsonView::Bool(true))
            &&& json::field(o, "projectId"@) matches Some(json::JsonView::Text(t))
                ==> row.project_id == Some(t)
            &&& !(json::field(o, "projectId"@) matches Some(json::JsonView::Text(_)))
                ==> row.project_id is None
            &&& json::field(o, "pairId"@) matches Some(json::JsonView::Text(t)) ==> row.pair_id
                == Some(t)
            &&& json::field(o, "modelType"@) matches Some(json::JsonView::Text(t))
                ==> row.model_type == Some(t)
        }),
{
}

// ---------- messages ----------

/// A stored message belongs to the thread that the request names, whatever its record says; it has a
/// time of creation, and every other field is kept.
pub proof fn law_stored_message_is_placed(
    s: chat_store::ChatView,
    thread_id: Seq<char>,
    o: json::Fields,
    now: i64,
    key: Seq<char>,
)
    requires
        chat_ops::saved_message(s, thread_id, json::JsonView::Object(o), now) is Ok,
    ensures
        ({
            let (id, record) = chat_ops::saved_message(
                s,
                thread_id,
                json::JsonView::Object(o),
                now,
            )->Ok_0;
            &&& json::text_of(json::field(o, "id"@)) matches Some(t) && id == text::trimmed(t)
            &&& json::field(record, "threadId"@) == Some(json::JsonView::Text(thread_id))
            &&& json::i64_of(json::field(o, "createdAt"@)) is None ==> json::field(
                record,
                "createdAt"@,
            ) == Some(json::whole(now))
            &&& json::i64_of(json::field(o, "createdAt"@)) is Some ==> json::field(
                record,
                "createdAt"@,
            ) == json::field(o, "createdAt"@)
            &&& key != "threadId"@ && key != "createdAt"@ ==> json::field(record, key)
                == json::field(o, key)
        }),
{
    lemma_names_of_fields();
    let place = json::JsonView::Text(thread_id);
    let placed = json::with(o, "threadId"@, place);
    json::law_set_field_is_read_back(o, "threadId"@, place, "createdAt"@);
    json::law_set_field_is_read_back(o, "threadId"@, place, "threadId"@);
    json::law_set_field_is_read_back(o, "threadId"@, place, key);
    json::law_set_field_is_read_back(placed, "createdAt"@, json::whole(now), "createdAt"@);
    json::law_set_field_is_read_back(placed, "createdAt"@, json::whole(now), "threadId"@);
    json::law_set_field_is_read_back(placed, "createdAt"@, json::whole(now), key);
}

/// The update of a message sets every field that it names and keeps every other one; neither its id nor
/// its thread changes.
pub proof fn law_message_update_sets_what_it_names(
    s: chat_store::ChatView,
    thread_id: Seq<char>,
    id: Seq<char>,
    patch: json::Fields,
    now: i64,
    stored: json::Fields,
    key: Seq<char>,
    value: json::JsonView,
)
    requires
        chat_store::message_record(s, thread_id, id) == Some(stored),
        chat_ops::patched_message(s, thread_id, id, json::JsonView::Object(patch), now) is Ok,
    ensures
        ({
            let record = chat_ops::patched_message(
                s,
                thread_id,
                id,
                json::JsonView::Object(patch),
                now,
            )->Ok_0.1;
            &&& json::field(record, "id"@) == json::field(stored, "id"@)
            &&& json::field(record, "threadId"@) == Some(json::JsonView::Text(thread_id))
            &&& key != "threadId"@ && key != "createdAt"@ && !names(patch, key) ==> json::field(
                record,
                key,
            ) == json::field(stored, key)
            &&& key != "threadId"@ && key != "createdAt"@ && key != "id"@ && gives(patch, key, value)
                ==> json::field(record, key) == Some(value)
        }),
{
    lemma_names_of_fields();
    reveal_strlit("threadId");
    reveal_strlit("id");
    assert("threadId"@.len() != "id"@.len());
    let changed = chat_ops::set_but_id(stored, patch, patch.len() as int);
    lemma_set_but_id(stored, patch, key, value);
    lemma_set_but_id(stored, patch, "id"@, value);
    law_stored_message_is_placed(s, thread_id, changed, now, key);
    law_stored_message_is_placed(s, thread_id, changed, now, "id"@);
}

/// A message that is put under an id is stored under it, whatever its record says.
pub proof fn law_put_message_has_its_id(
    s: chat_store::ChatView,
    thread_id: Seq<char>,
    o: json::Fields,
    id: Seq<char>,
    now: i64,
)
    ensures
        chat_ops::saved_message(
            s,
            thread_id,
            chat_ops::with_id(json::JsonView::Object(o), id),
            now,
        ) matches Ok((stored, record)) ==> stored == text::trimmed(id),
{
    json::law_set_field_is_read_back(o, "id"@, json::JsonView::Text(id), "id"@);
}

// ---------- forks ----------

/// A fork has the fields of its source but for its own id and times, the thread and the message that it
/// was forked from, and the containers, which it has none of.
pub proof fn law_fork_has_the_fields_of_its_source(
    source: json::Fields,
    source_id: Seq<char>,
    message_id: Seq<char>,
    new_id: Seq<char>,
    created_at: i64,
    key: Seq<char>,
)
    ensures
        ({
            let record = chat_forks::fork_record(source, source_id, message_id, new_id, created_at);
            &&& json::field(record, "id"@) == Some(json::JsonView::Text(new_id))
            &&& json::field(record, "createdAt"@) == Some(json::whole(created_at))
            &&& json::field(record, "updatedAt"@) == Some(json::whole(created_at))
            &&& json::field(record, "forkedFromThreadId"@) == Some(json::JsonView::Text(source_id))
            &&& json::field(record, "forkedFromMessageId"@) == Some(
                json::JsonView::Text(message_id),
            )
            &&& json::field(record, "openaiCodeExecContainerId"@) == Some(json::JsonView::Null)
            &&& json::field(record, "anthropicCodeExecContainerId"@) == Some(json::JsonView::Null)
            &&& key != "id"@ && key != "createdAt"@ && key != "updatedAt"@ && key
                != "forkedFromThreadId"@ && key != "forkedFromMessageId"@ && key
                != "openaiCodeExecContainerId"@ && key != "anthropicCodeExecContainerId"@
                ==> json::field(record, key) == json::field(source, key)
        }),
{
    lemma_fork_names();
    lemma_fork_field(source, source_id, message_id, new_id, created_at, "id"@);
    lemma_fork_field(source, source_id, message_id, new_id, created_at, "createdAt"@);
    lemma_fork_field(source, source_id, message_id, new_id, created_at, "updatedAt"@);
    lemma_fork_field(source, source_id, message_id, new_id, created_at, "forkedFromThreadId"@);
    lemma_fork_field(source, source_id, message_id, new_id, created_at, "forkedFromMessageId"@);
    lemma_fork_field(
        source,
        source_id,
        message_id,
        new_id,
        created_at,
        "openaiCodeExecContainerId"@,
    );
    lemma_fork_field(
        source,
        source_id,
        message_id,
        new_id,
        created_at,
        "anthropicCodeExecContainerId"@,
    );
    lemma_fork_field(source, source_id, message_id, new_id, created_at, key);
}

proof fn lemma_fork_names()
    ensures
        "id"@.len() == 2,
        "createdAt"@.len() == 9,
        "updatedAt"@.len() == 9,
        "createdAt"@ != "updatedAt"@,
        "forkedFromThreadId"@.len() == 18,
        "forkedFromMessageId"@.len() == 19,
        "openaiCodeExecContainerId"@.len() == 25,
        "anthropicCodeExecContainerId"@.len() == 28,
{
    reveal_strlit("id");
    reveal_strlit("createdAt");
    reveal_strlit("updatedAt");
    reveal_strlit("forkedFromThreadId");
    reveal_strlit("forkedFromMessageId");
    reveal_strlit("openaiCodeExecContainerId");
    reveal_strlit("anthropicCodeExecContainerId");
    assert("createdAt"@[0] != "updatedAt"@[0]);
}

proof fn lemma_fork_field(
    source: json::Fields,
    source_id: Seq<char>,
    message_id: Seq<char>,
    new_id: Seq<char>,
    created_at: i64,
    key: Seq<char>,
)
    ensures
        json::field(
            chat_forks::fork_record(source, source_id, message_id, new_id, created_at),
            key,
        ) == (if key == "anthropicCodeExecContainerId"@ {
            Some(json::JsonView::Null)
        } else if key == "openaiCodeExecContainerId"@ {
            Some(json::JsonView::Null)
        } else if key == "forkedFromMessageId"@ {
            Some(json::JsonView::Text(message_id))
        } else if key == "forkedFromThreadId"@ {
            Some(json::JsonView::Text(source_id))
        } else if key == "updatedAt"@ {
            Some(json::whole(created_at))
        } else if key == "createdAt"@ {
            Some(json::whole(created_at))
        } else if key == "id"@ {
            Some(json::JsonView::Text(new_id))
        } else {
            json::field(source, key)
        }),
{
    let a = json::with(source, "id"@, json::JsonView::Text(new_id));
    let b = json::with(a, "createdAt"@, json::whole(created_at));
    let c = json::with(b, "updatedAt"@, json::whole(created_at));
    let d = json::with(c, "forkedFromThreadId"@, json::JsonView::Text(source_id));
    let e = json::with(d, "forkedFromMessageId"@, json::JsonView::Text(message_id));
    let f = json::with(e, "openaiCodeExecContainerId"@, json::JsonView::Null);
    json::law_set_field_is_read_back(source, "id"@, json::JsonView::Text(new_id), key);
    json::law_set_field_is_read_back(a, "createdAt"@, json::whole(created_at), key);
    json::law_set_field_is_read_back(b, "updatedAt"@, json::whole(created_at), key);
    json::law_set_field_is_read_back(
        c,
        "forkedFromThreadId"@,
        json::JsonView::Text(source_id),
        key,
    );
    json::law_set_field_is_read_back(
        d,
        "forkedFromMessageId"@,
        json::JsonView::Text(message_id),
        key,
    );
    json::law_set_field_is_read_back(e, "openaiCodeExecContainerId"@, json::JsonView::Null, key);
    json::law_set_field_is_read_back(f, "anthropicCodeExecContainerId"@, json::JsonView::Null, key);
}

// ---------- projects ----------

/// Storing a whole project keeps its fields and fills in what is missing: an empty name, not archived,
/// and the times.
pub proof fn law_stored_project_is_completed(o: json::Fields, now: i64, key: Seq<char>)
    requires
        chat_forks::saved_project(json::JsonView::Object(o), now) is Ok,
    ensures
        ({
            let (id, record) = chat_forks::saved_project(json::JsonView::Object(o), now)->Ok_0;
            &&& json::text_of(json::field(o, "id"@)) matches Some(t) && id == text::trimmed(t)
            &&& json::field(o, key) is Some ==> json::field(record, key) == json::field(o, key)
            &&& json::field(o, "name"@) is None ==> json::field(record, "name"@) == Some(
                json::JsonView::Text(Seq::empty()),
            )
            &&& json::field(o, "archived"@) is None ==> json::field(record, "archived"@) == Some(
                json::JsonView::Bool(false),
            )
            &&& json::field(o, "createdAt"@) is None ==> json::field(record, "createdAt"@) == Some(
                json::whole(now),
            )
            &&& json::field(o, "updatedAt"@) is None ==> json::field(record, "updatedAt"@) == Some(
                json::whole(now),
            )
        }),
{
    lemma_names_of_fields();
    reveal_strlit("");
    assert(""@ =~= Seq::empty());
    lemma_completed_project(o, now, key);
    lemma_completed_project(o, now, "name"@);
    lemma_completed_project(o, now, "archived"@);
    lemma_completed_project(o, now, "createdAt"@);
    lemma_completed_project(o, now, "updatedAt"@);
}

proof fn lemma_completed_project(o: json::Fields, now: i64, key: Seq<char>)
    ensures
        json::field(chat_forks::completed_project(o, now), key) == (if json::field(o, key) is Some {
            json::field(o, key)
        } else if key == "name"@ {
            Some(json::JsonView::Text(""@))
        } else if key == "archived"@ {
            Some(json::JsonView::Bool(false))
        } else if key == "createdAt"@ || key == "updatedAt"@ {
            Some(json::whole(now))
        } else {
            None
        }),
{
    lemma_names_of_fields();
    let named = json::with_default(o, "name"@, json::JsonView::Text(""@));
    let filed = json::with_default(named, "archived"@, json::JsonView::Bool(false));
    let created = json::with_default(filed, "createdAt"@, json::whole(now));
    lemma_default(o, "name"@, json::JsonView::Text(""@), key);
    lemma_default(named, "archived"@, json::JsonView::Bool(false), key);
    lemma_default(filed, "createdAt"@, json::whole(now), key);
    lemma_default(created, "updatedAt"@, json::whole(now), key);
}

/// The update of a project sets every field that it names and keeps every other one; the id does not
/// change, and the time of the change is the present.
pub proof fn law_project_update_sets_what_it_names(
    s: chat_store::ChatView,
    id: Seq<char>,
    patch: json::Fields,
    now: i64,
    stored: json::Fields,
    key: Seq<char>,
    value: json::JsonView,
)
    requires
        chat_store::project_record(s, id) == Some(stored),
        chat_forks::patched_project(s, id, json::JsonView::Object(patch), now) is Ok,
    ensures
        ({
            let record = chat_forks::patched_project(
                s,
                id,
                json::JsonView::Object(patch),
                now,
            )->Ok_0.1;
            &&& json::field(record, "id"@) == json::field(stored, "id"@)
            &&& json::field(record, "updatedAt"@) == Some(json::whole(now))
            &&& key != "updatedAt"@ && !names(patch, key) ==> json::field(record, key)
                == json::field(stored, key)
            &&& key != "updatedAt"@ && key != "id"@ && gives(patch, key, value) ==> json::field(
                record,
                key,
            ) == Some(value)
        }),
{
    lemma_names_of_fields();
    let changed = chat_ops::set_but_id(stored, patch, patch.len() as int);
    lemma_set_but_id(stored, patch, key, value);
    lemma_set_but_id(stored, patch, "id"@, value);
    json::law_set_field_is_read_back(changed, "updatedAt"@, json::whole(now), key);
    json::law_set_field_is_read_back(changed, "updatedAt"@, json::whole(now), "id"@);
    json::law_set_field_is_read_back(changed, "updatedAt"@, json::whole(now), "updatedAt"@);
}

// ---------- answers ----------

/// What went wrong decides the status: gone for a deleted thread, not found, a conflict, a bad request
/// or a failure of the storage.
pub proof fn law_error_decides_the_status(e: chat_store::ChatErrorView)
    ensures
        e is Deleted <==> chat_store::api_error(e).status == 410,
        e is NotFound <==> chat_store::api_error(e).status == 404,
        e is Conflict <==> chat_store::api_error(e).status == 409,
        e is Invalid <==> chat_store::api_error(e).status == 400,
        e is Store <==> chat_store::api_error(e).status == 500,
        e matches chat_store::ChatErrorView::Conflict(why) ==> chat_store::api_error(e).detail == why,
        e matches chat_store::ChatErrorView::Invalid(why) ==> chat_store::api_error(e).detail == why,
        e matches chat_store::ChatErrorView::NotFound(what) ==> text::has_suffix(
            chat_store::api_error(e).detail,
            what,
        ),
{
    if let chat_store::ChatErrorView::NotFound(what) = e {
        let all = "Не найдено: "@ + what;
        assert(all.subrange(all.len() - what.len(), all.len() as int) =~= what);
    }
}

} // verus!
