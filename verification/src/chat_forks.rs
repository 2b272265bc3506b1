//! Forks of threads, projects, and the export of the whole chat.

use vstd::prelude::*;

use crate::answers;
use crate::answers::number;
use crate::chat_lists;
use crate::chat_lists::{list_projects, list_rows, list_threads};
use crate::chat_ops;
use crate::chat_ops::set_fields_but_id;
use crate::chat_store;
use crate::chat_store::{
    as_object, find_project, find_thread, holds, required_id, str_field, write_message,
    write_project, write_thread, ChatError, ChatResult, ChatTables, ThreadFilter, ThreadRow,
};
use crate::json;
use crate::json::{Json, JsonObject};
use crate::text;

verus! {

// ---------- forks ----------

/// The place of the message with this id from `i` on.
pub open spec fn message_at(messages: Seq<json::JsonView>, id: Seq<char>, i: int) -> Option<int>
    decreases messages.len() - i,
{
    if i < 0 || i >= messages.len() {
        None
    } else if json::text_of(json::member(messages[i], "id"@)) == Some(id) {
        Some(i)
    } else {
        message_at(messages, id, i + 1)
    }
}

/// The record of a fork. It has a container of its own, so the ids of the source's are dropped.
pub open spec fn fork_record(
    source: json::Fields,
    source_id: Seq<char>,
    message_id: Seq<char>,
    new_id: Seq<char>,
    created_at: i64,
) -> json::Fields {
    let a = json::with(source, "id"@, json::JsonView::Text(new_id));
    let b = json::with(a, "createdAt"@, json::whole(created_at));
    let c = json::with(b, "updatedAt"@, json::whole(created_at));
    let d = json::with(c, "forkedFromThreadId"@, json::JsonView::Text(source_id));
    let e = json::with(d, "forkedFromMessageId"@, json::JsonView::Text(message_id));
    let f = json::with(e, "openaiCodeExecContainerId"@, json::JsonView::Null);
    json::with(f, "anthropicCodeExecContainerId"@, json::JsonView::Null)
}

/// The first `n` messages as messages of the fork; or the first error.
pub open spec fn fork_batch(messages: Seq<json::JsonView>, new_id: Seq<char>, n: int) -> Result<
    chat_ops::Batch,
    chat_store::ChatErrorView,
>
    decreases n,
{
    if n <= 0 {
        Ok(Seq::empty())
    } else {
        match fork_batch(messages, new_id, n - 1) {
            Err(e) => Err(e),
            Ok(before) => match chat_store::object_of(messages[n - 1], "сообщение"@) {
                Err(e) => Err(e),
                Ok(o) => {
                    let moved = json::with(o, "threadId"@, json::JsonView::Text(new_id));
                    match chat_store::id_of(moved, "сообщение"@) {
                        Err(e) => Err(e),
                        Ok(id) => Ok(before.push((id, moved))),
                    }
                },
            },
        }
    }
}

/// A fork: its record and its messages.
#[verifier::ext_equal]
pub struct ForkView {
    pub record: json::Fields,
    pub batch: chat_ops::Batch,
}

/// What forking a thread at a message gives.
pub open spec fn forked(
    s: chat_store::ChatView,
    source_id: Seq<char>,
    message_id: Seq<char>,
    new_id: Seq<char>,
    created_at: i64,
) -> Result<ForkView, chat_store::ChatErrorView> {
    match chat_store::thread_record(s, source_id) {
        None => Err(chat_store::ChatErrorView::NotFound("тред "@ + source_id)),
        Some(source) => if text::trimmed(new_id).len() == 0 {
            Err(chat_store::ChatErrorView::Invalid("Не указан newThreadId"@))
        } else if s.deleted.contains(new_id) {
            Err(chat_store::ChatErrorView::Deleted(new_id))
        } else if chat_store::thread_record(s, new_id) is Some {
            Err(
                chat_store::ChatErrorView::Conflict("Тред "@ + new_id + " уже существует"@),
            )
        } else {
            let messages = chat_lists::thread_messages(s.messages, source_id);
            match message_at(messages, message_id, 0) {
                None => Err(chat_store::ChatErrorView::NotFound("сообщение "@ + message_id)),
                Some(cut) => if text::trimmed(new_id) != new_id {
                    // the thread is stored under the trimmed id, so its messages have no thread
                    match fork_batch(messages, new_id, 1) {
                        Err(e) => Err(e),
                        Ok(_) => Err(chat_store::ChatErrorView::Store(FOREIGN_KEY_FAILED@)),
                    }
                } else {
                    match fork_batch(messages, new_id, cut + 1) {
                        Err(e) => Err(e),
                        Ok(batch) => Ok(
                            ForkView {
                                record: fork_record(
                                    source,
                                    source_id,
                                    message_id,
                                    new_id,
                                    created_at,
                                ),
                                batch,
                            },
                        ),
                    }
                },
            }
        },
    }
}

/// The words of the storage for a message without a thread.
pub const FOREIGN_KEY_FAILED: &'static str = "ошибка базы данных: FOREIGN KEY constraint failed";

/// The words of the storage for a fork whose message is named by a number.
pub const FORK_POINT_IS_NO_TEXT: &'static str = "ошибка базы данных: Invalid column type Integer at index: 0, name: message_id";

pub open spec fn batch_records(batch: chat_ops::Batch) -> Seq<json::JsonView> {
    Seq::new(batch.len(), |i: int| json::JsonView::Object(batch[i].1))
}

/// The chat with a fork in it.
pub open spec fn with_fork(
    s: chat_store::ChatView,
    new_id: Seq<char>,
    fork: ForkView,
    now: i64,
) -> chat_store::ChatView {
    let t = chat_store::with_thread(s, chat_store::thread_row(new_id, fork.record, now));
    chat_store::ChatView {
        messages: chat_ops::batch_stored(
            s.messages,
            new_id,
            fork.batch,
            now,
            fork.batch.len() as int,
        ),
        ..t
    }
}

fn find_in_records(messages: &Vec<Json>, id: &str) -> (r: Option<usize>)
    ensures
        message_at(chat_store::records_view(messages@), id@, 0) == (match r {
            Some(i) => Some(i as int),
            None => None,
        }),
        r matches Some(i) ==> i < messages@.len(),
{
    let ghost view = chat_store::records_view(messages@);
    let mut i: usize = 0;
    while i < messages.len()
        invariant
            i <= messages@.len(),
            view == chat_store::records_view(messages@),
            message_at(view, id@, i as int) == message_at(view, id@, 0),
        decreases messages@.len() - i,
    {
        assert(view[i as int] == messages@[i as int]@);
        let found = match messages[i].get("id") {
            Some(v) => match v.as_str() {
                Some(s) => text::same(s, id),
                None => false,
            },
            None => false,
        };
        if found {
            return Some(i);
        }
        i += 1;
    }
    None
}

spec fn pairs_view(s: Seq<(String, JsonObject)>) -> chat_ops::Batch {
    Seq::new(s.len(), |i: int| (s[i].0@, s[i].1@))
}

proof fn lemma_fork_error(messages: Seq<json::JsonView>, new_id: Seq<char>, k: int, n: int)
    requires
        0 <= k <= n,
        fork_batch(messages, new_id, k) is Err,
    ensures
        fork_batch(messages, new_id, n) == fork_batch(messages, new_id, k),
    decreases n,
{
    if k < n {
        lemma_fork_error(messages, new_id, k, n - 1);
    }
}

/// The first `count` messages as messages of the fork.
fn move_messages(messages: &Vec<Json>, new_id: &str, count: usize) -> (r: ChatResult<
    Vec<(String, JsonObject)>,
>)
    requires
        count <= messages@.len(),
    ensures
        match fork_batch(chat_store::records_view(messages@), new_id@, count as int) {
            Ok(batch) => r is Ok && pairs_view(r->Ok_0@) == batch,
            Err(e) => r is Err && r->Err_0@ == e,
        },
{
    let ghost view = chat_store::records_view(messages@);
    let mut out: Vec<(String, JsonObject)> = Vec::new();
    let mut i: usize = 0;
    assert(pairs_view(out@) =~= Seq::empty());
    while i < count
        invariant
            i <= count <= messages@.len(),
            view == chat_store::records_view(messages@),
            fork_batch(view, new_id@, i as int) == Ok::<
                chat_ops::Batch,
                chat_store::ChatErrorView,
            >(pairs_view(out@)),
        decreases count - i,
    {
        assert(view[i as int] == messages@[i as int]@);
        let ghost before = pairs_view(out@);
        let mut record = match as_object(messages[i].duplicate(), "сообщение") {
            Ok(o) => o,
            Err(e) => {
                proof {
                    lemma_fork_error(view, new_id@, i + 1, count as int);
                }
                return Err(e);
            },
        };
        record.insert("threadId", json::from_str(new_id));
        let id = match required_id(&record, "сообщение") {
            Ok(id) => id,
            Err(e) => {
                proof {
                    lemma_fork_error(view, new_id@, i + 1, count as int);
                }
                return Err(e);
            },
        };
        let ghost m = (id@, record@);
        out.push((id, record));
        assert(pairs_view(out@) =~= before.push(m));
        i += 1;
    }
    Ok(out)
}

/// Forks a thread at a message: a new thread with copies of the messages up to that one.
pub fn fork_thread(
    tables: &mut ChatTables,
    source_id: &str,
    message_id: &str,
    new_thread_id: &str,
    created_at: i64,
    now: i64,
) -> (r: ChatResult<(Json, Vec<Json>)>)
    ensures
        match forked(old(tables)@, source_id@, message_id@, new_thread_id@, created_at) {
            Ok(fork) => {
                &&& r is Ok
                &&& r->Ok_0.0@ == json::JsonView::Object(fork.record)
                &&& chat_store::records_view(r->Ok_0.1@) == batch_records(fork.batch)
                &&& final(tables)@ == with_fork(old(tables)@, new_thread_id@, fork, now)
            },
            Err(e) => r is Err && r->Err_0@ == e && final(tables)@ == old(tables)@,
        },
{
    let mut thread = match find_thread(&tables.threads, source_id) {
        Some(i) => {
            assert(tables@.threads[i as int] == tables.threads@[i as int]@);
            tables.threads[i].record.duplicate()
        },
        None => return Err(ChatError::NotFound(text::join2("тред ", source_id))),
    };
    let stored_id = text::trim(new_thread_id);
    if stored_id.as_str().is_empty() {
        return Err(ChatError::Invalid("Не указан newThreadId".to_owned()));
    }
    if holds(&tables.deleted, new_thread_id) {
        return Err(ChatError::Deleted(new_thread_id.to_owned()));
    }
    if find_thread(&tables.threads, new_thread_id).is_some() {
        return Err(
            ChatError::Conflict(text::join3("Тред ", new_thread_id, " уже существует")),
        );
    }
    let messages = list_rows(&tables.messages, source_id);
    let cut = match find_in_records(&messages, message_id) {
        Some(cut) => cut,
        None => return Err(ChatError::NotFound(text::join2("сообщение ", message_id))),
    };
    if !text::same(stored_id.as_str(), new_thread_id) {
        return match move_messages(&messages, new_thread_id, 1) {
            Ok(_) => Err(ChatError::Store(FOREIGN_KEY_FAILED.to_owned())),
            Err(e) => Err(e),
        };
    }
    let batch = match move_messages(&messages, new_thread_id, cut + 1) {
        Ok(batch) => batch,
        Err(e) => return Err(e),
    };
    thread.insert("id", json::from_str(new_thread_id));
    thread.insert("createdAt", json::from_i64(created_at));
    thread.insert("updatedAt", json::from_i64(created_at));
    thread.insert("forkedFromThreadId", json::from_str(source_id));
    thread.insert("forkedFromMessageId", json::from_str(message_id));
    thread.insert("openaiCodeExecContainerId", Json::Null);
    thread.insert("anthropicCodeExecContainerId", Json::Null);
    let ghost start = tables@;
    let ghost view = pairs_view(batch@);
    let saved = Json::Object(thread.duplicate());
    write_thread(tables, stored_id, thread, now);
    let ghost stored = tables@;
    let mut copied: Vec<Json> = Vec::new();
    let mut i: usize = 0;
    while i < batch.len()
        invariant
            i <= batch@.len(),
            view == pairs_view(batch@),
            tables@ == (chat_store::ChatView {
                messages: chat_ops::batch_stored(
                    start.messages,
                    new_thread_id@,
                    view,
                    now,
                    i as int,
                ),
                ..stored
            }),
            copied@.len() == i,
            forall|k: int|
                0 <= k < i ==> (#[trigger] copied@[k])@ == json::JsonView::Object(view[k].1),
        decreases batch@.len() - i,
    {
        let (id, record) = &batch[i];
        assert(view[i as int] == (id@, record@));
        write_message(&mut tables.messages, new_thread_id, id.clone(), record.duplicate(), now);
        copied.push(Json::Object(record.duplicate()));
        i += 1;
    }
    assert(chat_store::records_view(copied@) =~= batch_records(view));
    Ok((saved, copied))
}

/// The message at which a thread was forked from this one: the value of its field.
pub open spec fn fork_point(row: chat_store::ThreadView, thread_id: Seq<char>) -> Option<
    json::JsonView,
> {
    if json::text_of(json::field(row.record, "forkedFromThreadId"@)) == Some(thread_id) {
        match json::field(row.record, "forkedFromMessageId"@) {
            Some(json::JsonView::Null) => None,
            v => v,
        }
    } else {
        None
    }
}

/// Every fork of a thread names its message by a text.
pub open spec fn forks_named(s: Seq<chat_store::ThreadView>, thread_id: Seq<char>) -> bool {
    forall|i: int|
        0 <= i < s.len() ==> (fork_point(#[trigger] s[i], thread_id) is Some ==> fork_point(
            s[i],
            thread_id,
        )->Some_0 is Text)
}

/// How many of the first `n` threads were forked at a message.
pub open spec fn fork_count(
    s: Seq<chat_store::ThreadView>,
    thread_id: Seq<char>,
    message_id: Seq<char>,
    n: int,
) -> int
    decreases n,
{
    if n <= 0 {
        0
    } else {
        fork_count(s, thread_id, message_id, n - 1) + if fork_point(s[n - 1], thread_id) == Some(
            json::JsonView::Text(message_id),
        ) {
            1int
        } else {
            0int
        }
    }
}

pub open spec fn counts_view(s: Seq<(String, u64)>) -> Seq<(Seq<char>, u64)> {
    Seq::new(s.len(), |i: int| (s[i].0@, s[i].1))
}

pub open spec fn is_counted(counts: Seq<(Seq<char>, u64)>, message_id: Seq<char>) -> bool {
    exists|k: int| 0 <= k < counts.len() && (#[trigger] counts[k]).0 == message_id
}

/// The messages at which the first `n` threads were forked, in order, with the numbers of forks.
pub open spec fn counts_ok(
    counts: Seq<(Seq<char>, u64)>,
    s: Seq<chat_store::ThreadView>,
    thread_id: Seq<char>,
    n: int,
) -> bool {
    &&& forall|i: int, j: int|
        0 <= i < j < counts.len() ==> text::before((#[trigger] counts[i]).0, (
        #[trigger] counts[j]).0)
    &&& forall|i: int|
        0 <= i < counts.len() ==> (#[trigger] counts[i]).1 > 0 && counts[i].1 == fork_count(
            s,
            thread_id,
            counts[i].0,
            n,
        )
    &&& forall|m: Seq<char>| fork_count(s, thread_id, m, n) > 0 ==> #[trigger] is_counted(counts, m)
}

proof fn lemma_fork_count_bounds(
    s: Seq<chat_store::ThreadView>,
    thread_id: Seq<char>,
    message_id: Seq<char>,
    n: int,
)
    requires
        n >= 0,
    ensures
        0 <= fork_count(s, thread_id, message_id, n) <= n,
    decreases n,
{
    if n > 0 {
        lemma_fork_count_bounds(s, thread_id, message_id, n - 1);
    }
}

fn named_fork<'a>(record: &'a JsonObject, thread_id: &str) -> (r: Option<&'a Json>)
    ensures
        match r {
            Some(v) => json::text_of(json::field(record@, "forkedFromThreadId"@)) == Some(
                thread_id@,
            ) && json::field(record@, "forkedFromMessageId"@) == Some(v@) && !(v@ is Null),
            None => json::text_of(json::field(record@, "forkedFromThreadId"@)) != Some(thread_id@)
                || json::field(record@, "forkedFromMessageId"@) is None || json::field(
                record@,
                "forkedFromMessageId"@,
            )->Some_0 is Null,
        },
{
    match str_field(record, "forkedFromThreadId") {
        Some(s) => if text::same(s, thread_id) {
            match record.get("forkedFromMessageId") {
                Some(v) => if v.is_null() {
                    None
                } else {
                    Some(v)
                },
                None => None,
            }
        } else {
            None
        },
        None => None,
    }
}

/// Whether every fork of a thread names its message by a text.
fn forks_are_named(tables: &ChatTables, thread_id: &str) -> (r: bool)
    ensures
        r == forks_named(tables@.threads, thread_id@),
{
    let ghost s = tables@.threads;
    let mut i: usize = 0;
    while i < tables.threads.len()
        invariant
            i <= tables.threads@.len(),
            s == tables@.threads,
            forall|k: int|
                0 <= k < i ==> (fork_point(#[trigger] s[k], thread_id@) is Some ==> fork_point(
                    s[k],
                    thread_id@,
                )->Some_0 is Text),
        decreases tables.threads@.len() - i,
    {
        assert(s[i as int] == tables.threads@[i as int]@);
        if let Some(v) = named_fork(&tables.threads[i].record, thread_id) {
            if v.as_str().is_none() {
                assert(fork_point(s[i as int], thread_id@) == Some(v@));
                return false;
            }
        }
        i += 1;
    }
    true
}

/// Counts one more fork at a message.
fn count_fork(counts: &mut Vec<(String, u64)>, message_id: &str)
    requires
        forall|i: int, j: int|
            0 <= i < j < old(counts)@.len() ==> text::before(
                (#[trigger] counts_view(old(counts)@)[i]).0,
                (#[trigger] counts_view(old(counts)@)[j]).0,
            ),
        forall|i: int| 0 <= i < old(counts)@.len() ==> (#[trigger] old(counts)@[i]).1 < u64::MAX,
    ensures
        forall|i: int, j: int|
            0 <= i < j < final(counts)@.len() ==> text::before(
                (#[trigger] counts_view(final(counts)@)[i]).0,
                (#[trigger] counts_view(final(counts)@)[j]).0,
            ),
        is_counted(counts_view(final(counts)@), message_id@),
        forall|m: Seq<char>| #[trigger]
            is_counted(counts_view(final(counts)@), m) <==> is_counted(
                counts_view(old(counts)@),
                m,
            ) || m == message_id@,
        forall|i: int|
            0 <= i < final(counts)@.len() ==> ({
                let c = #[trigger] counts_view(final(counts)@)[i];
                ||| c.0 != message_id@ && counts_view(old(counts)@).contains(c)
                ||| c.0 == message_id@ && c.1 == 1 && !is_counted(
                    counts_view(old(counts)@),
                    message_id@,
                )
                ||| c.0 == message_id@ && c.1 > 0 && counts_view(old(counts)@).contains(
                    (c.0, (c.1 - 1) as u64),
                )
            }),
{
    let ghost before = counts_view(counts@);
    let mut at: usize = 0;
    while at < counts.len() && text::comes_before(counts[at].0.as_str(), message_id)
        invariant
            at <= counts@.len(),
            counts@ == old(counts)@,
            before == counts_view(counts@),
            forall|k: int| 0 <= k < at ==> text::before((#[trigger] before[k]).0, message_id@),
        decreases counts@.len() - at,
    {
        assert(before[at as int].0 == counts@[at as int].0@);
        at += 1;
    }
    if at < counts.len() && text::same(counts[at].0.as_str(), message_id) {
        let name = counts[at].0.clone();
        let n = counts[at].1;
        assert(old(counts)@[at as int].1 < u64::MAX);
        counts.set(at, (name, n + 1));
        proof {
            let after = counts_view(counts@);
            assert(after =~= before.update(at as int, (message_id@, (n + 1) as u64)));
            assert(before[at as int] == (message_id@, n));
            assert forall|i: int, j: int| 0 <= i < j < after.len() implies text::before(
                (#[trigger] after[i]).0,
                (#[trigger] after[j]).0,
            ) by {
                assert(after[i].0 == before[i].0);
                assert(after[j].0 == before[j].0);
            }
            assert forall|i: int| 0 <= i < after.len() implies ({
                let c = #[trigger] after[i];
                ||| c.0 != message_id@ && before.contains(c)
                ||| c.0 == message_id@ && c.1 == 1 && !is_counted(before, message_id@)
                ||| c.0 == message_id@ && c.1 > 0 && before.contains((c.0, (c.1 - 1) as u64))
            }) by {
                if i == at {
                    assert(before[at as int] == (message_id@, n));
                } else {
                    assert(after[i] == before[i]);
                    if i < at {
                        text::lemma_before_is_total(before[i].0, message_id@);
                    } else {
                        assert(text::before(before[at as int].0, before[i].0));
                        text::lemma_before_is_total(before[i].0, message_id@);
                    }
                }
            }
            assert(after[at as int].0 == message_id@);
            assert forall|m: Seq<char>| #[trigger]
                is_counted(after, m) <==> is_counted(before, m) || m == message_id@ by {
                if is_counted(before, m) {
                    let k = choose|k: int| 0 <= k < before.len() && (#[trigger] before[k]).0 == m;
                    assert(after[k].0 == m);
                }
                if is_counted(after, m) {
                    let k = choose|k: int| 0 <= k < after.len() && (#[trigger] after[k]).0 == m;
                    assert(before[k].0 == m);
                }
            }
        }
    } else {
        counts.insert(at, (message_id.to_owned(), 1));
        proof {
            let after = counts_view(counts@);
            assert(after =~= before.insert(at as int, (message_id@, 1u64)));
            if at < before.len() {
                text::lemma_before_is_total(before[at as int].0, message_id@);
            }
            assert forall|k: int| 0 <= k < before.len() implies (#[trigger] before[k]).0
                != message_id@ by {
                if k < at {
                    text::lemma_before_is_total(before[k].0, message_id@);
                } else if k > at {
                    assert(text::before(before[at as int].0, before[k].0));
                    text::lemma_before_is_total(message_id@, before[k].0);
                    text::lemma_before_is_transitive(
                        message_id@,
                        before[at as int].0,
                        before[k].0,
                    );
                }
            }
            assert(!is_counted(before, message_id@));
            assert(after[at as int].0 == message_id@);
            assert forall|i: int, j: int| 0 <= i < j < after.len() implies text::before(
                (#[trigger] after[i]).0,
                (#[trigger] after[j]).0,
            ) by {
                if i != at && j != at {
                    let x = if i < at {
                        i
                    } else {
                        i - 1
                    };
                    let y = if j < at {
                        j
                    } else {
                        j - 1
                    };
                    assert(text::before(before[x].0, before[y].0));
                } else if i == at {
                    assert(after[j] == before[j - 1]);
                    if j - 1 > at {
                        assert(text::before(before[at as int].0, before[j - 1].0));
                        text::lemma_before_is_transitive(
                            message_id@,
                            before[at as int].0,
                            before[j - 1].0,
                        );
                    }
                } else {
                    assert(after[i] == before[i]);
                }
            }
            assert forall|i: int| 0 <= i < after.len() implies ({
                let c = #[trigger] after[i];
                ||| c.0 != message_id@ && before.contains(c)
                ||| c.0 == message_id@ && c.1 == 1 && !is_counted(before, message_id@)
                ||| c.0 == message_id@ && c.1 > 0 && before.contains((c.0, (c.1 - 1) as u64))
            }) by {
                if i < at {
                    assert(after[i] == before[i]);
                } else if i > at {
                    assert(after[i] == before[i - 1]);
                }
            }
            assert forall|m: Seq<char>| #[trigger]
                is_counted(after, m) <==> is_counted(before, m) || m == message_id@ by {
                if is_counted(before, m) {
                    let k = choose|k: int| 0 <= k < before.len() && (#[trigger] before[k]).0 == m;
                    if k < at {
                        assert(after[k].0 == m);
                    } else {
                        assert(after[k + 1].0 == m);
                    }
                }
                if is_counted(after, m) && m != message_id@ {
                    let k = choose|k: int| 0 <= k < after.len() && (#[trigger] after[k]).0 == m;
                    if k < at {
                        assert(before[k].0 == m);
                    } else {
                        assert(before[k - 1].0 == m);
                    }
                }
            }
        }
    }
}

proof fn lemma_counts_step(
    before: Seq<(Seq<char>, u64)>,
    after: Seq<(Seq<char>, u64)>,
    s: Seq<chat_store::ThreadView>,
    thread_id: Seq<char>,
    message_id: Seq<char>,
    n: int,
)
    requires
        0 <= n < s.len(),
        n < u64::MAX,
        counts_ok(before, s, thread_id, n),
        fork_point(s[n], thread_id) == Some(json::JsonView::Text(message_id)),
        forall|i: int, j: int|
            0 <= i < j < after.len() ==> text::before((#[trigger] after[i]).0, (
            #[trigger] after[j]).0),
        forall|m: Seq<char>| #[trigger]
            is_counted(after, m) <==> is_counted(before, m) || m == message_id,
        forall|i: int|
            0 <= i < after.len() ==> ({
                let c = #[trigger] after[i];
                ||| c.0 != message_id && before.contains(c)
                ||| c.0 == message_id && c.1 == 1 && !is_counted(before, message_id)
                ||| c.0 == message_id && c.1 > 0 && before.contains((c.0, (c.1 - 1) as u64))
            }),
    ensures
        counts_ok(after, s, thread_id, n + 1),
{
    assert forall|i: int| 0 <= i < after.len() implies (#[trigger] after[i]).1 > 0 && after[i].1
        == fork_count(s, thread_id, after[i].0, n + 1) by {
        let c = after[i];
        if c.0 != message_id {
            let k = choose|k: int| 0 <= k < before.len() && before[k] == c;
            assert(before[k].1 == fork_count(s, thread_id, before[k].0, n));
        } else if !is_counted(before, message_id) {
            lemma_fork_count_bounds(s, thread_id, message_id, n);
            if before.contains((c.0, (c.1 - 1) as u64)) {
                let k = choose|k: int|
                    0 <= k < before.len() && before[k] == (c.0, (c.1 - 1) as u64);
                assert(before[k].0 == message_id);
            }
        } else {
            let k = choose|k: int| 0 <= k < before.len() && before[k] == (c.0, (c.1 - 1) as u64);
            assert(before[k].1 == fork_count(s, thread_id, before[k].0, n));
        }
    }
    assert forall|m: Seq<char>| fork_count(s, thread_id, m, n + 1) > 0 implies #[trigger]
        is_counted(after, m) by {
        if m != message_id {
            assert(fork_count(s, thread_id, m, n) > 0);
            assert(is_counted(before, m));
        }
    }
}

/// How many forks were made at each message of a thread; an error if one of them names its message
/// by something else than a text.
pub fn fork_counts(tables: &ChatTables, thread_id: &str) -> (r: ChatResult<Vec<(String, u64)>>)
    ensures
        match r {
            Ok(v) => forks_named(tables@.threads, thread_id@) && counts_ok(
                counts_view(v@),
                tables@.threads,
                thread_id@,
                tables@.threads.len() as int,
            ),
            Err(e) => !forks_named(tables@.threads, thread_id@) && e@
                == chat_store::ChatErrorView::Store(FORK_POINT_IS_NO_TEXT@),
        },
{
    if !forks_are_named(tables, thread_id) {
        return Err(ChatError::Store(FORK_POINT_IS_NO_TEXT.to_owned()));
    }
    let ghost s = tables@.threads;
    let mut counts: Vec<(String, u64)> = Vec::new();
    let mut i: usize = 0;
    while i < tables.threads.len()
        invariant
            i <= tables.threads@.len(),
            s == tables@.threads,
            forks_named(s, thread_id@),
            counts_ok(counts_view(counts@), s, thread_id@, i as int),
        decreases tables.threads@.len() - i,
    {
        assert(s[i as int] == tables.threads@[i as int]@);
        let ghost before = counts_view(counts@);
        let point = named_fork(&tables.threads[i].record, thread_id);
        let mut counted = false;
        if let Some(v) = point {
            if let Some(message_id) = v.as_str() {
                proof {
                    assert(fork_point(s[i as int], thread_id@) == Some(v@));
                    assert forall|k: int| 0 <= k < counts@.len() implies (#[trigger] counts@[k]).1
                        < u64::MAX by {
                        assert(before[k] == (counts@[k].0@, counts@[k].1));
                        lemma_fork_count_bounds(s, thread_id@, before[k].0, i as int);
                    }
                }
                count_fork(&mut counts, message_id);
                proof {
                    lemma_counts_step(
                        before,
                        counts_view(counts@),
                        s,
                        thread_id@,
                        message_id@,
                        i as int,
                    );
                }
                counted = true;
            }
        }
        if !counted {
            proof {
                assert(fork_point(s[i as int], thread_id@) is None) by {
                    if fork_point(s[i as int], thread_id@) is Some {
                        assert(fork_point(s[i as int], thread_id@)->Some_0 is Text);
                    }
                }
                assert forall|m: Seq<char>| fork_count(s, thread_id@, m, i + 1) > 0 implies
                #[trigger] is_counted(before, m) by {
                    assert(fork_count(s, thread_id@, m, i as int) > 0);
                }
                assert(counts_ok(before, s, thread_id@, i + 1));
            }
        }
        i += 1;
    }
    Ok(counts)
}

// ---------- projects ----------

/// The project with this id.
pub fn get_project(tables: &ChatTables, id: &str) -> (r: Option<Json>)
    ensures
        match chat_store::project_record(tables@, id@) {
            Some(o) => r is Some && r->Some_0@ == json::JsonView::Object(o),
            None => r is None,
        },
{
    match find_project(&tables.projects, id) {
        Some(i) => {
            assert(tables@.projects[i as int] == tables.projects@[i as int]@);
            Some(Json::Object(tables.projects[i].record.duplicate()))
        },
        None => None,
    }
}

/// A project record with the fields that every project has.
pub open spec fn completed_project(o: json::Fields, now: i64) -> json::Fields {
    let named = json::with_default(o, "name"@, json::JsonView::Text(""@));
    let filed = json::with_default(named, "archived"@, json::JsonView::Bool(false));
    let created = json::with_default(filed, "createdAt"@, json::whole(now));
    json::with_default(created, "updatedAt"@, json::whole(now))
}

/// What storing a whole project gives: its id and its record.
pub open spec fn saved_project(record: json::JsonView, now: i64) -> Result<
    (Seq<char>, json::Fields),
    chat_store::ChatErrorView,
> {
    match chat_store::object_of(record, "проект"@) {
        Err(e) => Err(e),
        Ok(o) => match chat_store::id_of(o, "проект"@) {
            Err(e) => Err(e),
            Ok(id) => Ok((id, completed_project(o, now))),
        },
    }
}

/// Stores a whole project.
pub fn save_project(tables: &mut ChatTables, record: Json, now: i64) -> (r: ChatResult<Json>)
    ensures
        match saved_project(record@, now) {
            Ok((id, o)) => r is Ok && r->Ok_0@ == json::JsonView::Object(o) && final(tables)@
                == chat_store::with_project(
                old(tables)@,
                chat_store::project_row(id, o, now),
            ),
            Err(e) => r is Err && r->Err_0@ == e && final(tables)@ == old(tables)@,
        },
{
    let mut record = match as_object(record, "проект") {
        Ok(o) => o,
        Err(e) => return Err(e),
    };
    let id = match required_id(&record, "проект") {
        Ok(id) => id,
        Err(e) => return Err(e),
    };
    record.insert_if_absent("name", json::from_str(""));
    record.insert_if_absent("archived", Json::Bool(false));
    record.insert_if_absent("createdAt", json::from_i64(now));
    record.insert_if_absent("updatedAt", json::from_i64(now));
    let saved = Json::Object(record.duplicate());
    write_project(tables, id, record, now);
    Ok(saved)
}

/// What a partial update of a project gives: its id and its record.
pub open spec fn patched_project(
    s: chat_store::ChatView,
    id: Seq<char>,
    patch: json::JsonView,
    now: i64,
) -> Result<(Seq<char>, json::Fields), chat_store::ChatErrorView> {
    match chat_store::object_of(patch, "изменения проекта"@) {
        Err(e) => Err(e),
        Ok(p) => match chat_store::project_record(s, id) {
            None => Err(chat_store::ChatErrorView::NotFound("проект "@ + id)),
            Some(o) => {
                let record = json::with(
                    chat_ops::set_but_id(o, p, p.len() as int),
                    "updatedAt"@,
                    json::whole(now),
                );
                match chat_store::id_of(record, "проект"@) {
                    Err(e) => Err(e),
                    Ok(stored) => Ok((stored, record)),
                }
            },
        },
    }
}

/// Updates a project in part.
pub fn patch_project(tables: &mut ChatTables, id: &str, patch: Json, now: i64) -> (r: ChatResult<
    Json,
>)
    ensures
        match patched_project(old(tables)@, id@, patch@, now) {
            Ok((stored, o)) => r is Ok && r->Ok_0@ == json::JsonView::Object(o) && final(tables)@
                == chat_store::with_project(
                old(tables)@,
                chat_store::project_row(stored, o, now),
            ),
            Err(e) => r is Err && r->Err_0@ == e && final(tables)@ == old(tables)@,
        },
{
    let patch = match as_object(patch, "изменения проекта") {
        Ok(p) => p,
        Err(e) => return Err(e),
    };
    let mut record = match find_project(&tables.projects, id) {
        Some(i) => {
            assert(tables@.projects[i as int] == tables.projects@[i as int]@);
            tables.projects[i].record.duplicate()
        },
        None => return Err(ChatError::NotFound(text::join2("проект ", id))),
    };
    set_fields_but_id(&mut record, &patch);
    record.insert("updatedAt", json::from_i64(now));
    let stored = match required_id(&record, "проект") {
        Ok(stored) => stored,
        Err(e) => return Err(e),
    };
    let saved = Json::Object(record.duplicate());
    write_project(tables, stored, record, now);
    Ok(saved)
}

/// A thread that no longer belongs to a project.
pub open spec fn detached(row: chat_store::ThreadView, project_id: Seq<char>) ->
    chat_store::ThreadView {
    if row.project_id == Some(project_id) {
        chat_store::ThreadView {
            record: json::with(row.record, "projectId"@, json::JsonView::Null),
            project_id: None,
            ..row
        }
    } else {
        row
    }
}

/// The chat without a project; its threads stay.
pub open spec fn without_project(s: chat_store::ChatView, i: int) -> chat_store::ChatView {
    chat_store::ChatView {
        threads: Seq::new(s.threads.len(), |k: int| detached(s.threads[k], s.projects[i].id)),
        projects: s.projects.remove(i),
        ..s
    }
}

fn detach_threads(tables: &mut ChatTables, id: &str)
    ensures
        final(tables)@ == (chat_store::ChatView {
            threads: Seq::new(
                old(tables)@.threads.len(),
                |k: int| detached(old(tables)@.threads[k], id@),
            ),
            ..old(tables)@
        }),
{
    let ghost start = tables@;
    let mut i: usize = 0;
    while i < tables.threads.len()
        invariant
            i <= tables.threads@.len(),
            tables@.threads.len() == start.threads.len(),
            tables@.messages == start.messages,
            tables@.projects == start.projects,
            tables@.deleted == start.deleted,
            forall|k: int|
                0 <= k < i ==> #[trigger] tables@.threads[k] == detached(start.threads[k], id@),
            forall|k: int|
                i <= k < start.threads.len() ==> #[trigger] tables@.threads[k] == start.threads[k],
        decreases tables.threads@.len() - i,
    {
        assert(tables@.threads[i as int] == tables.threads@[i as int]@);
        let ghost before = tables@.threads;
        let member = match &tables.threads[i].project_id {
            Some(p) => text::same(p.as_str(), id),
            None => false,
        };
        if member {
            let mut record = tables.threads[i].record.duplicate();
            record.insert("projectId", Json::Null);
            let row = ThreadRow {
                id: tables.threads[i].id.clone(),
                record,
                created_at: tables.threads[i].created_at,
                archived: tables.threads[i].archived,
                project_id: None,
                pair_id: copy_text(&tables.threads[i].pair_id),
                model_type: copy_text(&tables.threads[i].model_type),
            };
            let ghost view = row@;
            assert(view =~= detached(start.threads[i as int], id@));
            tables.threads.set(i, row);
            assert(tables@.threads =~= before.update(i as int, view));
        }
        i += 1;
    }
    assert(tables@.threads =~= Seq::new(
        start.threads.len(),
        |k: int| detached(start.threads[k], id@),
    ));
}

fn copy_text(s: &Option<String>) -> (r: Option<String>)
    ensures
        chat_store::opt_text(r) == chat_store::opt_text(*s),
{
    match s {
        Some(t) => Some(t.clone()),
        None => None,
    }
}

/// Deletes a project; its threads stay and no longer belong to it. Returns the deleted record.
pub fn delete_project(tables: &mut ChatTables, id: &str) -> (r: ChatResult<Json>)
    ensures
        match chat_store::project_from(old(tables)@.projects, id@, 0) {
            Some(i) => r is Ok && r->Ok_0@ == json::JsonView::Object(
                old(tables)@.projects[i].record,
            ) && final(tables)@ == without_project(old(tables)@, i),
            None => r is Err && r->Err_0@ == chat_store::ChatErrorView::NotFound("проект "@ + id@)
                && final(tables)@ == old(tables)@,
        },
{
    let ghost start = tables@;
    let i = match find_project(&tables.projects, id) {
        Some(i) => i,
        None => return Err(ChatError::NotFound(text::join2("проект ", id))),
    };
    proof {
        assert(start.projects[i as int] == tables.projects@[i as int]@);
        lemma_project_found(start.projects, id@, 0);
    }
    let record = tables.projects[i].record.duplicate();
    tables.projects.remove(i);
    assert(tables@.projects =~= start.projects.remove(i as int));
    detach_threads(tables, id);
    assert(tables@ =~= without_project(start, i as int));
    Ok(Json::Object(record))
}

proof fn lemma_project_found(s: Seq<chat_store::ProjectView>, id: Seq<char>, i: int)
    requires
        i >= 0,
    ensures
        chat_store::project_from(s, id, i) matches Some(k) ==> i <= k < s.len() && s[k].id == id,
    decreases s.len() - i,
{
    if i < s.len() && s[i].id != id {
        lemma_project_found(s, id, i + 1);
    }
}

// ---------- export ----------

/// All of the chat, for a file.
#[derive(Debug)]
pub struct ChatExport {
    pub thread_count: usize,
    pub projects: Vec<Json>,
    pub threads: Vec<Json>,
    pub messages: Vec<Json>,
}

/// The messages of the first `n` of these threads.
pub open spec fn exported_messages(
    threads: Seq<json::JsonView>,
    messages: Seq<chat_store::MessageView>,
    n: int,
) -> Seq<json::JsonView>
    decreases n,
{
    if n <= 0 {
        Seq::empty()
    } else {
        let before = exported_messages(threads, messages, n - 1);
        match json::text_of(json::member(threads[n - 1], "id"@)) {
            Some(id) => before + chat_lists::thread_messages(messages, id),
            None => before,
        }
    }
}

/// A list that shows every thread.
pub open spec fn everything() -> chat_store::FilterView {
    chat_store::FilterView {
        model_type: None,
        pair_id: None,
        project_id: None,
        include_archived: true,
    }
}

/// All of the chat: threads new ones first, their messages thread by thread, and all projects.
pub fn export_all(tables: &ChatTables) -> (r: ChatExport)
    ensures
        r.thread_count == r.threads@.len(),
        exists|places: Seq<int>| #[trigger]
            chat_lists::thread_places(tables@.threads, everything(), places)
                && chat_store::records_view(r.threads@) == chat_lists::thread_records(
                tables@.threads,
                places,
            ),
        exists|places: Seq<int>| #[trigger]
            chat_lists::project_places(tables@.projects, true, places) && chat_store::records_view(
                r.projects@,
            ) == chat_lists::project_records(tables@.projects, places),
        chat_store::records_view(r.messages@) == exported_messages(
            chat_store::records_view(r.threads@),
            tables@.messages,
            r.threads@.len() as int,
        ),
{
    let filter = ThreadFilter {
        model_type: None,
        pair_id: None,
        project_id: None,
        include_archived: true,
    };
    assert(filter@ =~= everything());
    let threads = list_threads(tables, &filter);
    let ghost view = chat_store::records_view(threads@);
    let mut messages: Vec<Json> = Vec::new();
    let mut i: usize = 0;
    assert(chat_store::records_view(messages@) =~= Seq::empty());
    while i < threads.len()
        invariant
            i <= threads@.len(),
            view == chat_store::records_view(threads@),
            chat_store::records_view(messages@) == exported_messages(
                view,
                tables@.messages,
                i as int,
            ),
        decreases threads@.len() - i,
    {
        assert(view[i as int] == threads@[i as int]@);
        let ghost before = chat_store::records_view(messages@);
        if let Some(v) = threads[i].get("id") {
            if let Some(id) = v.as_str() {
                let mut more = list_rows(&tables.messages, id);
                let ghost added = chat_store::records_view(more@);
                messages.append(&mut more);
                assert(chat_store::records_view(messages@) =~= before + added);
            }
        }
        i += 1;
    }
    let projects = list_projects(tables, true);
    ChatExport { thread_count: threads.len(), projects, threads, messages }
}

pub open spec fn export_view(e: ChatExport, exported_at: Seq<char>) -> json::JsonView {
    let o = json::with(json::no_fields(), "exportedAt"@, answers::word(exported_at));
    let o = json::with(o, "version"@, answers::count(1));
    let o = json::with(o, "threadCount"@, answers::count(e.thread_count as int));
    let o = json::with(o, "projects"@, json::JsonView::Array(json::items_view(e.projects@)));
    let o = json::with(o, "threads"@, json::JsonView::Array(json::items_view(e.threads@)));
    json::JsonView::Object(
        json::with(o, "messages"@, json::JsonView::Array(json::items_view(e.messages@))),
    )
}

/// The file with all of the chat.
pub fn export_json(export: ChatExport, exported_at: &str) -> (r: Json)
    ensures
        r@ == export_view(export, exported_at@),
{
    let mut o = JsonObject::new();
    o.insert("exportedAt", json::from_str(exported_at));
    o.insert("version", number(1));
    o.insert("threadCount", number(export.thread_count as u64));
    o.insert("projects", Json::Array(export.projects));
    o.insert("threads", Json::Array(export.threads));
    o.insert("messages", Json::Array(export.messages));
    Json::Object(o)
}

} // verus!
