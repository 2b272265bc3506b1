//! Changes of the chat: partial updates, deletions and batches of messages.

use vstd::prelude::*;

use crate::chat_lists;
use crate::chat_lists::{list_messages, list_rows};
use crate::chat_store;
use crate::chat_store::{
    as_object, find_message, find_thread, holds, required_id, str_field, time_field, tombstone,
    write_message, write_thread, ChatError, ChatResult, ChatTables, MessageRow,
};
use crate::json;
use crate::json::{Json, JsonObject};
use crate::text;

verus! {

// ---------- partial update of a thread ----------

/// Fields of an update that steer the writing and are not stored.
pub open spec fn is_control(key: Seq<char>) -> bool {
    key == "id"@ || key == "expectedTitle"@ || key == "expectedOpeningMessageId"@ || key
        == "settingsPatch"@ || key == "settingsSeq"@ || key == "settingsWriter"@
}

fn control_field(key: &str) -> (r: bool)
    ensures
        r == is_control(key@),
{
    text::same(key, "id") || text::same(key, "expectedTitle") || text::same(
        key,
        "expectedOpeningMessageId",
    ) || text::same(key, "settingsPatch") || text::same(key, "settingsSeq") || text::same(
        key,
        "settingsWriter",
    )
}

/// The record with the first `n` fields of an update, but for those that steer it.
pub open spec fn merged(o: json::Fields, patch: json::Fields, n: int) -> json::Fields
    decreases n,
{
    if n <= 0 {
        o
    } else {
        let before = merged(o, patch, n - 1);
        if is_control(patch[n - 1].0) {
            before
        } else {
            json::with(before, patch[n - 1].0, patch[n - 1].1)
        }
    }
}

/// The object with the first `n` fields of another.
pub open spec fn all_set(o: json::Fields, patch: json::Fields, n: int) -> json::Fields
    decreases n,
{
    if n <= 0 {
        o
    } else {
        json::with(all_set(o, patch, n - 1), patch[n - 1].0, patch[n - 1].1)
    }
}

/// The object that a field holds; an empty one if it holds none.
pub open spec fn object_or_empty(v: Option<json::JsonView>) -> json::Fields {
    match v {
        Some(json::JsonView::Object(o)) => o,
        _ => json::no_fields(),
    }
}

/// The record with the settings of an update added to its own.
pub open spec fn settings_merged(o: json::Fields, patch: Option<json::JsonView>) -> json::Fields {
    match patch {
        Some(json::JsonView::Object(p)) => json::with(
            o,
            "settings"@,
            json::JsonView::Object(
                all_set(object_or_empty(json::field(o, "settings"@)), p, p.len() as int),
            ),
        ),
        _ => o,
    }
}

/// The first message of a user from `i` on.
pub open spec fn first_user(messages: Seq<json::JsonView>, i: int) -> Option<json::JsonView>
    decreases messages.len() - i,
{
    if i < 0 || i >= messages.len() {
        None
    } else if json::text_of(json::member(messages[i], "role"@)) == Some("user"@) {
        Some(messages[i])
    } else {
        first_user(messages, i + 1)
    }
}

/// The id of the message with which the user opened a thread.
pub open spec fn opening_id(s: chat_store::ChatView, thread_id: Seq<char>) -> Option<Seq<char>> {
    match first_user(chat_lists::thread_messages(s.messages, thread_id), 0) {
        Some(m) => json::text_of(json::member(m, "id"@)),
        None => None,
    }
}

/// The record of a thread after an update.
pub open spec fn updated_record(o: json::Fields, p: json::Fields, now: i64) -> json::Fields {
    let fields = merged(o, p, p.len() as int);
    let settled = settings_merged(fields, json::field(p, "settingsPatch"@));
    if json::i64_of(json::field(p, "updatedAt"@)) is Some {
        settled
    } else {
        json::with(settled, "updatedAt"@, json::whole(now))
    }
}

/// What a partial update of a thread gives: its id and its record.
pub open spec fn patched_thread(
    s: chat_store::ChatView,
    id: Seq<char>,
    patch: json::JsonView,
    now: i64,
) -> Result<(Seq<char>, json::Fields), chat_store::ChatErrorView> {
    match chat_store::object_of(patch, "изменения треда"@) {
        Err(e) => Err(e),
        Ok(p) => if s.deleted.contains(id) {
            Err(chat_store::ChatErrorView::Deleted(id))
        } else {
            match chat_store::thread_record(s, id) {
                None => Err(chat_store::ChatErrorView::NotFound("тред "@ + id)),
                Some(o) => {
                    let title = json::text_of(json::field(p, "expectedTitle"@));
                    let opening = json::text_of(json::field(p, "expectedOpeningMessageId"@));
                    if title is Some && json::text_of(json::field(o, "title"@)) != title {
                        Err(
                            chat_store::ChatErrorView::Conflict(
                                "Название треда уже изменилось в другой вкладке"@,
                            ),
                        )
                    } else if opening is Some && opening_id(s, id) != opening {
                        Err(
                            chat_store::ChatErrorView::Conflict(
                                "Первое сообщение треда уже изменилось"@,
                            ),
                        )
                    } else {
                        let record = updated_record(o, p, now);
                        match chat_store::id_of(record, "тред"@) {
                            Err(e) => Err(e),
                            Ok(stored) => Ok((stored, record)),
                        }
                    }
                },
            }
        },
    }
}

fn opening_user_message_id(tables: &ChatTables, thread_id: &str) -> (r: Option<String>)
    ensures
        chat_store::opt_text(r) == opening_id(tables@, thread_id@),
{
    let messages = list_messages(tables, thread_id);
    let ghost view = chat_store::records_view(messages@);
    let mut i: usize = 0;
    while i < messages.len()
        invariant
            i <= messages@.len(),
            view == chat_store::records_view(messages@),
            view == chat_lists::thread_messages(tables@.messages, thread_id@),
            first_user(view, i as int) == first_user(view, 0),
        decreases messages@.len() - i,
    {
        let m = &messages[i];
        assert(view[i as int] == m@);
        let from_user = match m.get("role") {
            Some(v) => match v.as_str() {
                Some(s) => text::same(s, "user"),
                None => false,
            },
            None => false,
        };
        if from_user {
            return match m.get("id") {
                Some(v) => match v.as_str() {
                    Some(s) => Some(s.to_owned()),
                    None => None,
                },
                None => None,
            };
        }
        i += 1;
    }
    None
}

fn merge_fields(record: &mut JsonObject, patch: &JsonObject)
    ensures
        final(record)@ == merged(old(record)@, patch@, patch@.len() as int),
{
    proof {
        json::lemma_fields_view(patch.fields@);
    }
    let ghost start = record@;
    let mut i: usize = 0;
    while i < patch.fields.len()
        invariant
            i <= patch.fields@.len(),
            patch@.len() == patch.fields@.len(),
            forall|k: int|
                0 <= k < patch.fields@.len() ==> #[trigger] patch@[k] == (
                    patch.fields@[k].0@,
                    json::value_view(patch.fields@[k].1),
                ),
            record@ == merged(start, patch@, i as int),
        decreases patch.fields@.len() - i,
    {
        assert(patch@[i as int].0 == patch.fields@[i as int].0@);
        if !control_field(patch.fields[i].0.as_str()) {
            let value = patch.fields[i].1.duplicate();
            record.insert(patch.fields[i].0.as_str(), value);
        }
        i += 1;
    }
}

pub(crate) fn set_all(record: &mut JsonObject, patch: &JsonObject)
    ensures
        final(record)@ == all_set(old(record)@, patch@, patch@.len() as int),
{
    proof {
        json::lemma_fields_view(patch.fields@);
    }
    let ghost start = record@;
    let mut i: usize = 0;
    while i < patch.fields.len()
        invariant
            i <= patch.fields@.len(),
            patch@.len() == patch.fields@.len(),
            forall|k: int|
                0 <= k < patch.fields@.len() ==> #[trigger] patch@[k] == (
                    patch.fields@[k].0@,
                    json::value_view(patch.fields@[k].1),
                ),
            record@ == all_set(start, patch@, i as int),
        decreases patch.fields@.len() - i,
    {
        assert(patch@[i as int].0 == patch.fields@[i as int].0@);
        let value = patch.fields[i].1.duplicate();
        record.insert(patch.fields[i].0.as_str(), value);
        i += 1;
    }
}

fn merge_settings(record: &mut JsonObject, patch: &JsonObject)
    ensures
        final(record)@ == settings_merged(
            old(record)@,
            json::field(patch@, "settingsPatch"@),
        ),
{
    if let Some(Json::Object(settings_patch)) = patch.get("settingsPatch") {
        let mut settings = match record.get("settings") {
            Some(Json::Object(o)) => o.duplicate(),
            _ => JsonObject::new(),
        };
        set_all(&mut settings, settings_patch);
        record.insert("settings", Json::Object(settings));
    }
}

/// Updates a thread in part. `settings` replaces its settings, `settingsPatch` adds to them;
/// `expectedTitle` and `expectedOpeningMessageId` are conditions.
pub fn patch_thread(tables: &mut ChatTables, id: &str, patch: Json, now: i64) -> (r: ChatResult<
    Json,
>)
    ensures
        match patched_thread(old(tables)@, id@, patch@, now) {
            Ok((stored, o)) => r is Ok && r->Ok_0@ == json::JsonView::Object(o) && final(tables)@
                == chat_store::with_thread(
                old(tables)@,
                chat_store::thread_row(stored, o, now),
            ),
            Err(e) => r is Err && r->Err_0@ == e && final(tables)@ == old(tables)@,
        },
{
    let patch = match as_object(patch, "изменения треда") {
        Ok(p) => p,
        Err(e) => return Err(e),
    };
    if holds(&tables.deleted, id) {
        return Err(ChatError::Deleted(id.to_owned()));
    }
    let mut record = match find_thread(&tables.threads, id) {
        Some(i) => {
            assert(tables@.threads[i as int] == tables.threads@[i as int]@);
            tables.threads[i].record.duplicate()
        },
        None => return Err(ChatError::NotFound(text::join2("тред ", id))),
    };
    if let Some(expected) = str_field(&patch, "expectedTitle") {
        let current = match str_field(&record, "title") {
            Some(t) => text::same(t, expected),
            None => false,
        };
        if !current {
            return Err(
                ChatError::Conflict("Название треда уже изменилось в другой вкладке".to_owned()),
            );
        }
    }
    if let Some(expected) = str_field(&patch, "expectedOpeningMessageId") {
        let current = match opening_user_message_id(tables, id) {
            Some(m) => text::same(m.as_str(), expected),
            None => false,
        };
        if !current {
            return Err(ChatError::Conflict("Первое сообщение треда уже изменилось".to_owned()));
        }
    }
    merge_fields(&mut record, &patch);
    merge_settings(&mut record, &patch);
    if time_field(&patch, "updatedAt").is_none() {
        record.insert("updatedAt", json::from_i64(now));
    }
    let stored = match required_id(&record, "тред") {
        Ok(stored) => stored,
        Err(e) => return Err(e),
    };
    let saved = Json::Object(record.duplicate());
    write_thread(tables, stored, record, now);
    Ok(saved)
}

// ---------- deletion ----------

/// The messages among the first `n` that stay.
pub open spec fn remaining(
    s: Seq<chat_store::MessageView>,
    n: int,
    gone: spec_fn(chat_store::MessageView) -> bool,
) -> Seq<chat_store::MessageView>
    decreases n,
{
    if n <= 0 {
        Seq::empty()
    } else {
        let before = remaining(s, n - 1, gone);
        if gone(s[n - 1]) {
            before
        } else {
            before.push(s[n - 1])
        }
    }
}

pub open spec fn messages_without(
    s: Seq<chat_store::MessageView>,
    gone: spec_fn(chat_store::MessageView) -> bool,
) -> Seq<chat_store::MessageView> {
    remaining(s, s.len() as int, gone)
}

/// The messages of a thread.
pub open spec fn in_thread(thread_id: Seq<char>) -> spec_fn(chat_store::MessageView) -> bool {
    |m: chat_store::MessageView| m.thread_id == thread_id
}

/// One message.
pub open spec fn is_message(thread_id: Seq<char>, id: Seq<char>) -> spec_fn(
    chat_store::MessageView,
) -> bool {
    |m: chat_store::MessageView| m.thread_id == thread_id && m.id == id
}

/// The messages of a thread that are not listed.
pub open spec fn unlisted(thread_id: Seq<char>, kept: Seq<Seq<char>>) -> spec_fn(
    chat_store::MessageView,
) -> bool {
    |m: chat_store::MessageView| m.thread_id == thread_id && !kept.contains(m.id)
}

/// Which messages go.
enum Which<'a> {
    Thread(&'a str),
    One(&'a str, &'a str),
    Unlisted(&'a str, &'a Vec<String>),
}

impl<'a> Which<'a> {
    spec fn test(self) -> spec_fn(chat_store::MessageView) -> bool {
        match self {
            Which::Thread(thread_id) => in_thread(thread_id@),
            Which::One(thread_id, id) => is_message(thread_id@, id@),
            Which::Unlisted(thread_id, kept) => unlisted(thread_id@, text::views(kept@)),
        }
    }

    fn has(&self, row: &MessageRow) -> (r: bool)
        ensures
            r == (self.test())(row@),
    {
        match self {
            Which::Thread(thread_id) => text::same(row.thread_id.as_str(), thread_id),
            Which::One(thread_id, id) => text::same(row.thread_id.as_str(), thread_id)
                && text::same(row.id.as_str(), id),
            Which::Unlisted(thread_id, kept) => text::same(row.thread_id.as_str(), thread_id)
                && !holds(kept, row.id.as_str()),
        }
    }
}

fn remove_messages(messages: &mut Vec<MessageRow>, which: &Which<'_>)
    ensures
        chat_store::messages_view(final(messages)@) == messages_without(
            chat_store::messages_view(old(messages)@),
            which.test(),
        ),
{
    let ghost before = chat_store::messages_view(messages@);
    let ghost gone = which.test();
    let ghost mut done: int = 0;
    let mut i: usize = 0;
    proof {
        assert(remaining(before, 0, gone) + before.skip(0) =~= before);
    }
    while i < messages.len()
        invariant
            0 <= done <= before.len(),
            gone == which.test(),
            i == remaining(before, done, gone).len(),
            chat_store::messages_view(messages@) == remaining(before, done, gone) + before.skip(
                done,
            ),
        decreases messages@.len() - i,
    {
        let ghost now = chat_store::messages_view(messages@);
        proof {
            assert(now.len() == messages@.len());
            assert(done < before.len());
            assert(now[i as int] == before.skip(done)[0]);
            assert(now[i as int] == messages@[i as int]@);
        }
        if which.has(&messages[i]) {
            messages.remove(i);
            proof {
                assert(chat_store::messages_view(messages@) =~= now.remove(i as int));
                assert(now.remove(i as int) =~= remaining(before, done + 1, gone) + before.skip(
                    done + 1,
                ));
            }
        } else {
            i += 1;
            proof {
                assert(now =~= remaining(before, done + 1, gone) + before.skip(done + 1));
            }
        }
        proof {
            done = done + 1;
        }
    }
    proof {
        assert(done == before.len());
        assert(before.skip(done) =~= Seq::empty());
        assert(remaining(before, done, gone) + before.skip(done) =~= remaining(
            before,
            done,
            gone,
        ));
    }
}

/// The chat without a thread and its messages; the id is remembered.
pub open spec fn without_thread(s: chat_store::ChatView, id: Seq<char>) -> chat_store::ChatView {
    chat_store::ChatView {
        threads: match chat_store::thread_from(s.threads, id, 0) {
            Some(i) => s.threads.remove(i),
            None => s.threads,
        },
        messages: match chat_store::thread_from(s.threads, id, 0) {
            Some(_) => messages_without(s.messages, in_thread(id)),
            None => s.messages,
        },
        deleted: chat_store::tombstoned(s.deleted, id),
        ..s
    }
}

/// The chat after the first `n` of these threads are deleted.
pub open spec fn without_threads(
    s: chat_store::ChatView,
    ids: Seq<Seq<char>>,
    n: int,
) -> chat_store::ChatView
    decreases n,
{
    if n <= 0 {
        s
    } else {
        without_thread(without_threads(s, ids, n - 1), ids[n - 1])
    }
}

/// Those of the first `n` that were there.
pub open spec fn deleted_ids(
    s: chat_store::ChatView,
    ids: Seq<Seq<char>>,
    n: int,
) -> Seq<Seq<char>>
    decreases n,
{
    if n <= 0 {
        Seq::empty()
    } else {
        let before = deleted_ids(s, ids, n - 1);
        if chat_store::thread_from(without_threads(s, ids, n - 1).threads, ids[n - 1], 0) is Some {
            before.push(ids[n - 1])
        } else {
            before
        }
    }
}

/// Deletes threads with their messages and remembers their ids. Returns those that were there.
pub fn delete_threads(tables: &mut ChatTables, ids: &Vec<String>) -> (r: Vec<String>)
    ensures
        final(tables)@ == without_threads(
            old(tables)@,
            text::views(ids@),
            ids@.len() as int,
        ),
        text::views(r@) == deleted_ids(old(tables)@, text::views(ids@), ids@.len() as int),
{
    let ghost start = tables@;
    let ghost list = text::views(ids@);
    let mut out: Vec<String> = Vec::new();
    let mut i: usize = 0;
    assert(text::views(out@) =~= Seq::empty());
    while i < ids.len()
        invariant
            i <= ids@.len(),
            list == text::views(ids@),
            tables@ == without_threads(start, list, i as int),
            text::views(out@) == deleted_ids(start, list, i as int),
        decreases ids@.len() - i,
    {
        let ghost before = tables@;
        let ghost was = text::views(out@);
        assert(list[i as int] == ids@[i as int]@);
        if let Some(k) = find_thread(&tables.threads, ids[i].as_str()) {
            tables.threads.remove(k);
            assert(tables@.threads =~= before.threads.remove(k as int));
            remove_messages(&mut tables.messages, &Which::Thread(ids[i].as_str()));
            out.push(ids[i].clone());
            assert(text::views(out@) =~= was.push(list[i as int]));
        }
        tombstone(&mut tables.deleted, &ids[i]);
        assert(tables@ =~= without_thread(before, list[i as int]));
        i += 1;
    }
    out
}

pub open spec fn thread_ids(s: Seq<chat_store::ThreadView>) -> Seq<Seq<char>> {
    Seq::new(s.len(), |i: int| s[i].id)
}

/// The remembered ids with the first `n` of these.
pub open spec fn all_tombstoned(
    deleted: Seq<Seq<char>>,
    ids: Seq<Seq<char>>,
    n: int,
) -> Seq<Seq<char>>
    decreases n,
{
    if n <= 0 {
        deleted
    } else {
        chat_store::tombstoned(all_tombstoned(deleted, ids, n - 1), ids[n - 1])
    }
}

/// The chat without threads and messages; their ids and these are remembered.
pub open spec fn cleared(s: chat_store::ChatView, extra: Seq<Seq<char>>) -> chat_store::ChatView {
    let ids = thread_ids(s.threads);
    chat_store::ChatView {
        threads: Seq::empty(),
        messages: Seq::empty(),
        deleted: all_tombstoned(
            all_tombstoned(s.deleted, ids, ids.len() as int),
            extra,
            extra.len() as int,
        ),
        ..s
    }
}

fn tombstone_all(deleted: &mut Vec<String>, ids: &Vec<String>)
    ensures
        text::views(final(deleted)@) == all_tombstoned(
            text::views(old(deleted)@),
            text::views(ids@),
            ids@.len() as int,
        ),
{
    let ghost start = text::views(deleted@);
    let ghost list = text::views(ids@);
    let mut i: usize = 0;
    while i < ids.len()
        invariant
            i <= ids@.len(),
            list == text::views(ids@),
            text::views(deleted@) == all_tombstoned(start, list, i as int),
        decreases ids@.len() - i,
    {
        assert(list[i as int] == ids@[i as int]@);
        tombstone(deleted, &ids[i]);
        i += 1;
    }
}

/// Deletes all threads. `extra_tombstones` are threads that were deleted before they were stored.
pub fn clear_all_threads(tables: &mut ChatTables, extra_tombstones: &Vec<String>) -> (r: Vec<
    String,
>)
    requires
        chat_store::consistent(old(tables)@),
    ensures
        final(tables)@ == cleared(old(tables)@, text::views(extra_tombstones@)),
        text::views(r@) == thread_ids(old(tables)@.threads),
{
    let ghost start = tables@;
    let mut ids: Vec<String> = Vec::new();
    let mut i: usize = 0;
    while i < tables.threads.len()
        invariant
            i <= tables.threads@.len(),
            tables@ == start,
            ids@.len() == i,
            forall|k: int| 0 <= k < i ==> (#[trigger] ids@[k])@ == start.threads[k].id,
        decreases tables.threads@.len() - i,
    {
        assert(start.threads[i as int] == tables.threads@[i as int]@);
        ids.push(tables.threads[i].id.clone());
        i += 1;
    }
    assert(text::views(ids@) =~= thread_ids(start.threads));
    tables.threads = Vec::new();
    tables.messages = Vec::new();
    tombstone_all(&mut tables.deleted, &ids);
    tombstone_all(&mut tables.deleted, extra_tombstones);
    assert(tables@ =~= cleared(start, text::views(extra_tombstones@)));
    ids
}

// ---------- messages ----------

/// Whether messages of a thread can be written; else why not.
pub open spec fn writable(s: chat_store::ChatView, id: Seq<char>) -> Option<
    chat_store::ChatErrorView,
> {
    if s.deleted.contains(id) {
        Some(chat_store::ChatErrorView::Deleted(id))
    } else if chat_store::thread_record(s, id) is None {
        Some(chat_store::ChatErrorView::NotFound("тред "@ + id))
    } else {
        None
    }
}

/// A message with its thread, which the address of the request names, and a time.
pub open spec fn placed_message(thread_id: Seq<char>, o: json::Fields, now: i64) -> json::Fields {
    let placed = json::with(o, "threadId"@, json::JsonView::Text(thread_id));
    if json::i64_of(json::field(placed, "createdAt"@)) is Some {
        placed
    } else {
        json::with(placed, "createdAt"@, json::whole(now))
    }
}

/// What storing a message gives: its id and its record.
pub open spec fn normalized(thread_id: Seq<char>, record: json::JsonView, now: i64) -> Result<
    (Seq<char>, json::Fields),
    chat_store::ChatErrorView,
> {
    match chat_store::object_of(record, "сообщение"@) {
        Err(e) => Err(e),
        Ok(o) => match chat_store::id_of(o, "сообщение"@) {
            Err(e) => Err(e),
            Ok(id) => Ok((id, placed_message(thread_id, o, now))),
        },
    }
}

fn ensure_thread_writable(tables: &ChatTables, id: &str) -> (r: ChatResult<()>)
    ensures
        match writable(tables@, id@) {
            None => r is Ok,
            Some(e) => r is Err && r->Err_0@ == e,
        },
{
    if holds(&tables.deleted, id) {
        return Err(ChatError::Deleted(id.to_owned()));
    }
    if find_thread(&tables.threads, id).is_none() {
        return Err(ChatError::NotFound(text::join2("тред ", id)));
    }
    Ok(())
}

fn normalize_message(thread_id: &str, record: Json, now: i64) -> (r: ChatResult<
    (String, JsonObject),
>)
    ensures
        match normalized(thread_id@, record@, now) {
            Ok((id, o)) => r is Ok && r->Ok_0.0@ == id && r->Ok_0.1@ == o,
            Err(e) => r is Err && r->Err_0@ == e,
        },
{
    let mut record = match as_object(record, "сообщение") {
        Ok(o) => o,
        Err(e) => return Err(e),
    };
    let id = match required_id(&record, "сообщение") {
        Ok(id) => id,
        Err(e) => return Err(e),
    };
    record.insert("threadId", json::from_str(thread_id));
    if time_field(&record, "createdAt").is_none() {
        record.insert("createdAt", json::from_i64(now));
    }
    Ok((id, record))
}

/// The message with this id.
pub fn get_message(tables: &ChatTables, thread_id: &str, id: &str) -> (r: Option<Json>)
    ensures
        match chat_store::message_record(tables@, thread_id@, id@) {
            Some(o) => r is Some && r->Some_0@ == json::JsonView::Object(o),
            None => r is None,
        },
{
    match find_message(&tables.messages, thread_id, id) {
        Some(i) => {
            assert(tables@.messages[i as int] == tables.messages@[i as int]@);
            Some(Json::Object(tables.messages[i].record.duplicate()))
        },
        None => None,
    }
}

/// What storing one message gives.
pub open spec fn saved_message(
    s: chat_store::ChatView,
    thread_id: Seq<char>,
    record: json::JsonView,
    now: i64,
) -> Result<(Seq<char>, json::Fields), chat_store::ChatErrorView> {
    match writable(s, thread_id) {
        Some(e) => Err(e),
        None => normalized(thread_id, record, now),
    }
}

/// The chat with a message stored.
pub open spec fn message_stored(
    s: chat_store::ChatView,
    thread_id: Seq<char>,
    id: Seq<char>,
    o: json::Fields,
    now: i64,
) -> chat_store::ChatView {
    chat_store::ChatView {
        messages: chat_store::with_message(
            s.messages,
            chat_store::message_row(thread_id, id, o, now),
        ),
        ..s
    }
}

/// Stores one message and returns the stored record.
pub fn save_message(tables: &mut ChatTables, thread_id: &str, record: Json, now: i64) -> (r:
    ChatResult<Json>)
    ensures
        match saved_message(old(tables)@, thread_id@, record@, now) {
            Ok((id, o)) => r is Ok && r->Ok_0@ == json::JsonView::Object(o) && final(tables)@
                == message_stored(old(tables)@, thread_id@, id, o, now),
            Err(e) => r is Err && r->Err_0@ == e && final(tables)@ == old(tables)@,
        },
{
    if let Err(e) = ensure_thread_writable(tables, thread_id) {
        return Err(e);
    }
    let (id, record) = match normalize_message(thread_id, record, now) {
        Ok(pair) => pair,
        Err(e) => return Err(e),
    };
    let saved = Json::Object(record.duplicate());
    write_message(&mut tables.messages, thread_id, id, record, now);
    Ok(saved)
}

/// A record under the id that the address of the request names.
pub open spec fn with_id(record: json::JsonView, id: Seq<char>) -> json::JsonView {
    match record {
        json::JsonView::Object(o) => json::JsonView::Object(
            json::with(o, "id"@, json::JsonView::Text(id)),
        ),
        _ => record,
    }
}

/// Stores a whole message under the id of the request: the body cannot overwrite another one.
pub fn put_message(
    tables: &mut ChatTables,
    thread_id: &str,
    message_id: &str,
    record: Json,
    now: i64,
) -> (r: ChatResult<Json>)
    ensures
        match saved_message(old(tables)@, thread_id@, with_id(record@, message_id@), now) {
            Ok((id, o)) => r is Ok && r->Ok_0@ == json::JsonView::Object(o) && final(tables)@
                == message_stored(old(tables)@, thread_id@, id, o, now),
            Err(e) => r is Err && r->Err_0@ == e && final(tables)@ == old(tables)@,
        },
{
    let record = match record {
        Json::Object(mut o) => {
            o.insert("id", json::from_str(message_id));
            Json::Object(o)
        },
        other => other,
    };
    save_message(tables, thread_id, record, now)
}

/// The record with the first `n` fields of an update, but for the id.
pub open spec fn set_but_id(o: json::Fields, patch: json::Fields, n: int) -> json::Fields
    decreases n,
{
    if n <= 0 {
        o
    } else {
        let before = set_but_id(o, patch, n - 1);
        if patch[n - 1].0 == "id"@ {
            before
        } else {
            json::with(before, patch[n - 1].0, patch[n - 1].1)
        }
    }
}

pub(crate) fn set_fields_but_id(record: &mut JsonObject, patch: &JsonObject)
    ensures
        final(record)@ == set_but_id(old(record)@, patch@, patch@.len() as int),
{
    proof {
        json::lemma_fields_view(patch.fields@);
    }
    let ghost start = record@;
    let mut i: usize = 0;
    while i < patch.fields.len()
        invariant
            i <= patch.fields@.len(),
            patch@.len() == patch.fields@.len(),
            forall|k: int|
                0 <= k < patch.fields@.len() ==> #[trigger] patch@[k] == (
                    patch.fields@[k].0@,
                    json::value_view(patch.fields@[k].1),
                ),
            record@ == set_but_id(start, patch@, i as int),
        decreases patch.fields@.len() - i,
    {
        assert(patch@[i as int].0 == patch.fields@[i as int].0@);
        if !text::same(patch.fields[i].0.as_str(), "id") {
            let value = patch.fields[i].1.duplicate();
            record.insert(patch.fields[i].0.as_str(), value);
        }
        i += 1;
    }
}

/// A stored message with the fields of an update.
pub open spec fn updated_message(o: json::Fields, patch: json::JsonView) -> json::JsonView {
    match patch {
        json::JsonView::Object(p) => json::JsonView::Object(set_but_id(o, p, p.len() as int)),
        _ => json::JsonView::Object(o),
    }
}

/// What adding fields to a stored message gives.
pub open spec fn patched_message(
    s: chat_store::ChatView,
    thread_id: Seq<char>,
    id: Seq<char>,
    patch: json::JsonView,
    now: i64,
) -> Result<(Seq<char>, json::Fields), chat_store::ChatErrorView> {
    match chat_store::message_record(s, thread_id, id) {
        None => Err(chat_store::ChatErrorView::NotFound("сообщение "@ + id)),
        Some(o) => saved_message(s, thread_id, updated_message(o, patch), now),
    }
}

/// Adds fields to a stored message.
pub fn patch_message(
    tables: &mut ChatTables,
    thread_id: &str,
    message_id: &str,
    patch: &Json,
    now: i64,
) -> (r: ChatResult<Json>)
    ensures
        match patched_message(old(tables)@, thread_id@, message_id@, patch@, now) {
            Ok((id, o)) => r is Ok && r->Ok_0@ == json::JsonView::Object(o) && final(tables)@
                == message_stored(old(tables)@, thread_id@, id, o, now),
            Err(e) => r is Err && r->Err_0@ == e && final(tables)@ == old(tables)@,
        },
{
    let mut record = match find_message(&tables.messages, thread_id, message_id) {
        Some(i) => {
            assert(tables@.messages[i as int] == tables.messages@[i as int]@);
            tables.messages[i].record.duplicate()
        },
        None => return Err(ChatError::NotFound(text::join2("сообщение ", message_id))),
    };
    if let Json::Object(fields) = patch {
        set_fields_but_id(&mut record, fields);
    }
    save_message(tables, thread_id, Json::Object(record), now)
}

/// Deletes a message. Says whether it was there.
pub fn delete_message(tables: &mut ChatTables, thread_id: &str, id: &str) -> (r: bool)
    ensures
        r == (chat_store::message_record(old(tables)@, thread_id@, id@) is Some),
        final(tables)@ == (chat_store::ChatView {
            messages: messages_without(old(tables)@.messages, is_message(thread_id@, id@)),
            ..old(tables)@
        }),
{
    let found = find_message(&tables.messages, thread_id, id).is_some();
    remove_messages(&mut tables.messages, &Which::One(thread_id, id));
    found
}

// ---------- batches of messages ----------

/// Messages to be stored, with their ids.
pub type Batch = Seq<(Seq<char>, json::Fields)>;

/// The first `n` messages of a batch; or the first error.
pub open spec fn batch_of(
    thread_id: Seq<char>,
    records: Seq<json::JsonView>,
    now: i64,
    n: int,
) -> Result<Batch, chat_store::ChatErrorView>
    decreases n,
{
    if n <= 0 {
        Ok(Seq::empty())
    } else {
        match batch_of(thread_id, records, now, n - 1) {
            Err(e) => Err(e),
            Ok(before) => match normalized(thread_id, records[n - 1], now) {
                Err(e) => Err(e),
                Ok(m) => Ok(before.push(m)),
            },
        }
    }
}

/// The messages after the first `n` of a batch are stored.
pub open spec fn batch_stored(
    s: Seq<chat_store::MessageView>,
    thread_id: Seq<char>,
    batch: Batch,
    now: i64,
    n: int,
) -> Seq<chat_store::MessageView>
    decreases n,
{
    if n <= 0 {
        s
    } else {
        chat_store::with_message(
            batch_stored(s, thread_id, batch, now, n - 1),
            chat_store::message_row(thread_id, batch[n - 1].0, batch[n - 1].1, now),
        )
    }
}

/// The messages after the first `n` of these are deleted.
pub open spec fn ids_removed(
    s: Seq<chat_store::MessageView>,
    thread_id: Seq<char>,
    ids: Seq<Seq<char>>,
    n: int,
) -> Seq<chat_store::MessageView>
    decreases n,
{
    if n <= 0 {
        s
    } else {
        messages_without(
            ids_removed(s, thread_id, ids, n - 1),
            is_message(thread_id, ids[n - 1]),
        )
    }
}

pub open spec fn batch_ids(batch: Batch) -> Seq<Seq<char>> {
    Seq::new(batch.len(), |i: int| batch[i].0)
}

/// The messages after a batch: stored, explicitly deleted, and what the batch does not hold.
pub open spec fn synced(
    s: Seq<chat_store::MessageView>,
    thread_id: Seq<char>,
    batch: Batch,
    prune_missing: bool,
    deleted: Seq<Seq<char>>,
    now: i64,
) -> Seq<chat_store::MessageView> {
    let stored = batch_stored(s, thread_id, batch, now, batch.len() as int);
    let left = ids_removed(stored, thread_id, deleted, deleted.len() as int);
    if prune_missing {
        messages_without(left, unlisted(thread_id, batch_ids(batch)))
    } else {
        left
    }
}

spec fn pairs_view(s: Seq<(String, JsonObject)>) -> Batch {
    Seq::new(s.len(), |i: int| (s[i].0@, s[i].1@))
}

fn normalize_all(thread_id: &str, messages: &Vec<Json>, now: i64) -> (r: ChatResult<
    Vec<(String, JsonObject)>,
>)
    ensures
        match batch_of(
            thread_id@,
            chat_store::records_view(messages@),
            now,
            messages@.len() as int,
        ) {
            Ok(batch) => r is Ok && pairs_view(r->Ok_0@) == batch,
            Err(e) => r is Err && r->Err_0@ == e,
        },
{
    let ghost view = chat_store::records_view(messages@);
    let mut out: Vec<(String, JsonObject)> = Vec::new();
    let mut i: usize = 0;
    assert(pairs_view(out@) =~= Seq::empty());
    while i < messages.len()
        invariant
            i <= messages@.len(),
            view == chat_store::records_view(messages@),
            batch_of(thread_id@, view, now, i as int) == Ok::<Batch, chat_store::ChatErrorView>(
                pairs_view(out@),
            ),
        decreases messages@.len() - i,
    {
        assert(view[i as int] == messages@[i as int]@);
        let ghost before = pairs_view(out@);
        match normalize_message(thread_id, messages[i].duplicate(), now) {
            Ok(pair) => {
                let ghost m = (pair.0@, pair.1@);
                out.push(pair);
                assert(pairs_view(out@) =~= before.push(m));
            },
            Err(e) => {
                proof {
                    lemma_batch_error(thread_id@, view, now, i + 1, messages@.len() as int);
                }
                return Err(e);
            },
        }
        i += 1;
    }
    Ok(out)
}

proof fn lemma_batch_error(
    thread_id: Seq<char>,
    records: Seq<json::JsonView>,
    now: i64,
    k: int,
    n: int,
)
    requires
        0 <= k <= n,
        batch_of(thread_id, records, now, k) is Err,
    ensures
        batch_of(thread_id, records, now, n) == batch_of(thread_id, records, now, k),
    decreases n,
{
    if k < n {
        lemma_batch_error(thread_id, records, now, k, n - 1);
    }
}

/// Stores a batch of messages. `prune_missing` deletes those messages of the thread that the
/// batch does not hold. Returns the messages that the thread then has.
pub fn sync_messages(
    tables: &mut ChatTables,
    thread_id: &str,
    messages: &Vec<Json>,
    prune_missing: bool,
    deleted_ids: &Vec<String>,
    now: i64,
) -> (r: ChatResult<Vec<Json>>)
    ensures
        match writable(old(tables)@, thread_id@) {
            Some(e) => r is Err && r->Err_0@ == e && final(tables)@ == old(tables)@,
            None => match batch_of(
                thread_id@,
                chat_store::records_view(messages@),
                now,
                messages@.len() as int,
            ) {
                Err(e) => r is Err && r->Err_0@ == e && final(tables)@ == old(tables)@,
                Ok(batch) => {
                    let after = synced(
                        old(tables)@.messages,
                        thread_id@,
                        batch,
                        prune_missing,
                        text::views(deleted_ids@),
                        now,
                    );
                    &&& r is Ok
                    &&& final(tables)@ == (chat_store::ChatView {
                        messages: after,
                        ..old(tables)@
                    })
                    &&& chat_store::records_view(r->Ok_0@) == chat_lists::thread_messages(
                        after,
                        thread_id@,
                    )
                    &&& chat_lists::messages_of(
                        after,
                        thread_id@,
                        chat_store::records_view(r->Ok_0@),
                    )
                },
            },
        },
{
    if let Err(e) = ensure_thread_writable(tables, thread_id) {
        return Err(e);
    }
    let batch = match normalize_all(thread_id, messages, now) {
        Ok(batch) => batch,
        Err(e) => return Err(e),
    };
    let ghost start = tables@.messages;
    let ghost view = pairs_view(batch@);
    let ghost listed = text::views(deleted_ids@);
    let mut kept: Vec<String> = Vec::new();
    let mut i: usize = 0;
    while i < batch.len()
        invariant
            i <= batch@.len(),
            view == pairs_view(batch@),
            tables@ == (chat_store::ChatView {
                messages: batch_stored(start, thread_id@, view, now, i as int),
                ..old(tables)@
            }),
            kept@.len() == i,
            forall|k: int| 0 <= k < i ==> (#[trigger] kept@[k])@ == view[k].0,
        decreases batch@.len() - i,
    {
        let (id, record) = &batch[i];
        assert(view[i as int] == (id@, record@));
        kept.push(id.clone());
        write_message(&mut tables.messages, thread_id, id.clone(), record.duplicate(), now);
        i += 1;
    }
    let ghost stored = tables@.messages;
    let mut j: usize = 0;
    while j < deleted_ids.len()
        invariant
            j <= deleted_ids@.len(),
            listed == text::views(deleted_ids@),
            tables@ == (chat_store::ChatView {
                messages: ids_removed(stored, thread_id@, listed, j as int),
                ..old(tables)@
            }),
        decreases deleted_ids@.len() - j,
    {
        assert(listed[j as int] == deleted_ids@[j as int]@);
        remove_messages(&mut tables.messages, &Which::One(thread_id, deleted_ids[j].as_str()));
        j += 1;
    }
    if prune_missing {
        assert(text::views(kept@) =~= batch_ids(view));
        remove_messages(&mut tables.messages, &Which::Unlisted(thread_id, &kept));
    }
    Ok(list_rows(&tables.messages, thread_id))
}

} // verus!
