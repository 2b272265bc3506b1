//! What a change of the chat leaves alone: other threads, other messages, other projects; and what lists
//! show.

use vstd::prelude::*;

use crate::chat_forks;
use crate::chat_laws;
use crate::chat_lists;
use crate::chat_ops;
use crate::chat_store;
use crate::json;
use crate::order;
use crate::text;

verus! {

/// The record of a message among these.
pub open spec fn record_in(
    s: Seq<chat_store::MessageView>,
    thread_id: Seq<char>,
    id: Seq<char>,
) -> Option<json::Fields> {
    match chat_store::message_from(s, thread_id, id, 0) {
        Some(i) => Some(s[i].record),
        None => None,
    }
}

proof fn lemma_pushed(
    s: Seq<chat_store::MessageView>,
    row: chat_store::MessageView,
    thread_id: Seq<char>,
    id: Seq<char>,
    i: int,
)
    requires
        0 <= i <= s.len(),
    ensures
        chat_store::message_from(s.push(row), thread_id, id, i) == (match chat_store::message_from(
            s,
            thread_id,
            id,
            i,
        ) {
            Some(k) => Some(k),
            None => if row.thread_id == thread_id && row.id == id {
                Some(s.len() as int)
            } else {
                None
            },
        }),
    decreases s.len() - i,
{
    if i < s.len() {
        lemma_pushed(s, row, thread_id, id, i + 1);
    } else {
        reveal_with_fuel(chat_store::message_from, 2);
    }
}

proof fn lemma_updated(
    s: Seq<chat_store::MessageView>,
    k: int,
    row: chat_store::MessageView,
    thread_id: Seq<char>,
    id: Seq<char>,
    i: int,
)
    requires
        0 <= i <= s.len(),
        0 <= k < s.len(),
        s[k].thread_id == row.thread_id,
        s[k].id == row.id,
    ensures
        chat_store::message_from(s.update(k, row), thread_id, id, i) == chat_store::message_from(
            s,
            thread_id,
            id,
            i,
        ),
    decreases s.len() - i,
{
    if i < s.len() {
        lemma_updated(s, k, row, thread_id, id, i + 1);
    }
}

proof fn lemma_with_message(
    s: Seq<chat_store::MessageView>,
    row: chat_store::MessageView,
    thread_id: Seq<char>,
    id: Seq<char>,
)
    ensures
        record_in(chat_store::with_message(s, row), thread_id, id) == (if row.thread_id == thread_id
            && row.id == id {
            Some(row.record)
        } else {
            record_in(s, thread_id, id)
        }),
{
    chat_laws::lemma_message_from(s, row.thread_id, row.id, 0);
    chat_laws::lemma_message_from(s, thread_id, id, 0);
    match chat_store::message_from(s, row.thread_id, row.id, 0) {
        Some(k) => {
            lemma_updated(s, k, row, thread_id, id, 0);
        },
        None => {
            lemma_pushed(s, row, thread_id, id, 0);
        },
    }
}

proof fn lemma_record_at(s: Seq<chat_store::MessageView>, k: int)
    requires
        chat_laws::messages_distinct(s),
        0 <= k < s.len(),
    ensures
        record_in(s, s[k].thread_id, s[k].id) == Some(s[k].record),
{
    chat_laws::lemma_message_from(s, s[k].thread_id, s[k].id, 0);
    let f = chat_store::message_from(s, s[k].thread_id, s[k].id, 0)->0;
    if f < k {
        assert(s[f].thread_id != s[k].thread_id || s[f].id != s[k].id);
    } else if k < f {
        assert(s[k].thread_id != s[f].thread_id || s[k].id != s[f].id);
    }
}

proof fn lemma_without(
    s: Seq<chat_store::MessageView>,
    gone: spec_fn(chat_store::MessageView) -> bool,
    thread_id: Seq<char>,
    id: Seq<char>,
)
    requires
        chat_laws::messages_distinct(s),
    ensures
        chat_laws::messages_distinct(chat_ops::messages_without(s, gone)),
        (forall|row: chat_store::MessageView|
            row.thread_id == thread_id && row.id == id ==> !#[trigger] gone(row)) ==> record_in(
            chat_ops::messages_without(s, gone),
            thread_id,
            id,
        ) == record_in(s, thread_id, id),
        (forall|row: chat_store::MessageView|
            row.thread_id == thread_id && row.id == id ==> #[trigger] gone(row)) ==> record_in(
            chat_ops::messages_without(s, gone),
            thread_id,
            id,
        ) is None,
{
    let r = chat_ops::messages_without(s, gone);
    chat_laws::lemma_fewer_messages(s, gone);
    chat_laws::lemma_message_from(s, thread_id, id, 0);
    chat_laws::lemma_message_from(r, thread_id, id, 0);
    if let Some(f) = chat_store::message_from(r, thread_id, id, 0) {
        assert(!gone(r[f]));
        assert(s.contains(r[f]));
        let k = choose|k: int| 0 <= k < s.len() && s[k] == r[f];
        lemma_record_at(s, k);
        lemma_record_at(r, f);
    } else if let Some(k) = chat_store::message_from(s, thread_id, id, 0) {
        if !gone(s[k]) {
            assert(r.contains(s[k]));
            let f = choose|f: int| 0 <= f < r.len() && r[f] == s[k];
            assert(r[f].thread_id != thread_id || r[f].id != id);
        }
    }
}

proof fn lemma_consistent_messages(s: chat_store::ChatView)
    requires
        chat_store::consistent(s),
    ensures
        chat_laws::messages_distinct(s.messages),
{
    assert forall|i: int, j: int| 0 <= i < j < s.messages.len() implies (
    #[trigger] s.messages[i]).thread_id != (#[trigger] s.messages[j]).thread_id || s.messages[i].id
        != s.messages[j].id by {}
}

/// A deleted message is gone, and every other one is as it was.
pub proof fn law_deleted_message_is_gone(
    s: chat_store::ChatView,
    thread_id: Seq<char>,
    id: Seq<char>,
    other_thread: Seq<char>,
    other: Seq<char>,
)
    requires
        chat_store::consistent(s),
    ensures
        ({
            let after = chat_ops::messages_without(s.messages, chat_ops::is_message(thread_id, id));
            &&& record_in(after, thread_id, id) is None
            &&& other_thread != thread_id || other != id ==> record_in(after, other_thread, other)
                == record_in(s.messages, other_thread, other)
        }),
{
    lemma_consistent_messages(s);
    lemma_without(s.messages, chat_ops::is_message(thread_id, id), thread_id, id);
    lemma_without(s.messages, chat_ops::is_message(thread_id, id), other_thread, other);
}

proof fn lemma_thread_at(s: Seq<chat_store::ThreadView>, k: int)
    requires
        0 <= k < s.len(),
        forall|i: int, j: int|
            0 <= i < j < s.len() ==> (#[trigger] s[i]).id != (#[trigger] s[j]).id,
    ensures
        chat_store::thread_from(s, s[k].id, 0) == Some(k),
{
    chat_laws::lemma_thread_from(s, s[k].id, 0);
    let f = chat_store::thread_from(s, s[k].id, 0)->0;
    if f < k {
        assert(s[f].id != s[k].id);
    } else if k < f {
        assert(s[k].id != s[f].id);
    }
}

/// Deleting a thread leaves every other thread, its messages and all projects as they were.
pub proof fn law_deleting_a_thread_leaves_the_others(
    s: chat_store::ChatView,
    id: Seq<char>,
    other: Seq<char>,
    message: Seq<char>,
)
    requires
        chat_store::consistent(s),
        other != id,
    ensures
        chat_store::thread_record(chat_ops::without_thread(s, id), other)
            == chat_store::thread_record(s, other),
        chat_store::message_record(chat_ops::without_thread(s, id), other, message)
            == chat_store::message_record(s, other, message),
        chat_ops::without_thread(s, id).projects == s.projects,
{
    let after = chat_ops::without_thread(s, id);
    lemma_consistent_messages(s);
    lemma_without(s.messages, chat_ops::in_thread(id), other, message);
    chat_laws::lemma_thread_from(s.threads, id, 0);
    chat_laws::lemma_thread_from(s.threads, other, 0);
    chat_laws::lemma_thread_from(after.threads, other, 0);
    if let Some(k) = chat_store::thread_from(s.threads, id, 0) {
        assert forall|i: int, j: int| 0 <= i < j < after.threads.len() implies (
        #[trigger] after.threads[i]).id != (#[trigger] after.threads[j]).id by {
            let a = if i < k { i } else { i + 1 };
            let b = if j < k { j } else { j + 1 };
            assert(after.threads[i] == s.threads[a] && after.threads[j] == s.threads[b]);
        }
        if let Some(m) = chat_store::thread_from(s.threads, other, 0) {
            let at = if m < k { m } else { m - 1 };
            assert(after.threads[at] == s.threads[m]);
            lemma_thread_at(after.threads, at);
        } else if let Some(m) = chat_store::thread_from(after.threads, other, 0) {
            let at = if m < k { m } else { m + 1 };
            assert(after.threads[m] == s.threads[at]);
        }
    }
}

/// Clearing the chat leaves no thread and no message, and all projects.
pub proof fn law_cleared_chat_keeps_the_projects(s: chat_store::ChatView, extra: Seq<Seq<char>>)
    ensures
        chat_ops::cleared(s, extra).threads.len() == 0,
        chat_ops::cleared(s, extra).messages.len() == 0,
        chat_ops::cleared(s, extra).projects == s.projects,
{
}

proof fn lemma_without_many(
    s: chat_store::ChatView,
    ids: Seq<Seq<char>>,
    n: int,
    id: Seq<char>,
)
    requires
        chat_laws::sound(s),
        0 <= n <= ids.len(),
    ensures
        chat_laws::sound(chat_ops::without_threads(s, ids, n)),
        (forall|k: int| 0 <= k < n ==> #[trigger] ids[k] != id) ==> chat_store::thread_record(
            chat_ops::without_threads(s, ids, n),
            id,
        ) == chat_store::thread_record(s, id),
    decreases n,
{
    if n > 0 {
        lemma_without_many(s, ids, n - 1, id);
        let before = chat_ops::without_threads(s, ids, n - 1);
        chat_laws::law_deleting_a_thread_keeps_order(before, ids[n - 1]);
        if ids[n - 1] != id {
            law_deleting_a_thread_leaves_the_others(before, ids[n - 1], id, id);
        }
    }
}

/// Deleting threads tells which of them were there.
pub proof fn law_deletion_tells_what_was_there(
    s: chat_store::ChatView,
    ids: Seq<Seq<char>>,
    n: int,
    id: Seq<char>,
)
    requires
        chat_laws::sound(s),
        0 <= n <= ids.len(),
    ensures
        chat_ops::deleted_ids(s, ids, n).contains(id) <==> chat_store::thread_record(s, id) is Some
            && exists|k: int| 0 <= k < n && #[trigger] ids[k] == id,
    decreases n,
{
    if n > 0 {
        law_deletion_tells_what_was_there(s, ids, n - 1, id);
        lemma_without_many(s, ids, n - 1, id);
        let before = chat_ops::deleted_ids(s, ids, n - 1);
        let after = chat_ops::deleted_ids(s, ids, n);
        if before.contains(id) {
            let k = choose|k: int| 0 <= k < before.len() && before[k] == id;
            assert(after[k] == id);
        }
        if ids[n - 1] == id {
            if after.len() > before.len() {
                assert(after[before.len() as int] == id);
                if !before.contains(id) {
                    if exists|k: int| 0 <= k < n - 1 && #[trigger] ids[k] == id {
                        let k = choose|k: int| 0 <= k < n - 1 && #[trigger] ids[k] == id;
                        chat_laws::law_deleted_threads_are_gone(s, ids, n - 1, k);
                    }
                }
            } else if chat_store::thread_record(s, id) is Some {
                if forall|k: int| 0 <= k < n - 1 ==> #[trigger] ids[k] != id {
                    assert(chat_store::thread_record(
                        chat_ops::without_threads(s, ids, n - 1),
                        id,
                    ) is Some);
                }
            }
            assert(exists|k: int| 0 <= k < n && #[trigger] ids[k] == id);
        } else if after.contains(id) {
            let k = choose|k: int| 0 <= k < after.len() && after[k] == id;
            assert(k < before.len());
            assert(before[k] == id);
        }
        if exists|k: int| 0 <= k < n - 1 && #[trigger] ids[k] == id {
            let k = choose|k: int| 0 <= k < n - 1 && #[trigger] ids[k] == id;
            assert(0 <= k < n && ids[k] == id);
        }
    }
}

/// Storing a thread, a message or a project changes no other one.
pub proof fn law_storing_leaves_the_others(
    s: chat_store::ChatView,
    thread: chat_store::ThreadView,
    thread_id: Seq<char>,
    id: Seq<char>,
    o: json::Fields,
    now: i64,
    other_thread: Seq<char>,
    other: Seq<char>,
)
    ensures
        other_thread != thread.id ==> chat_store::thread_record(
            chat_store::with_thread(s, thread),
            other_thread,
        ) == chat_store::thread_record(s, other_thread),
        chat_store::with_thread(s, thread).messages == s.messages,
        chat_store::with_thread(s, thread).projects == s.projects,
        other_thread != thread_id || other != id ==> chat_store::message_record(
            chat_ops::message_stored(s, thread_id, id, o, now),
            other_thread,
            other,
        ) == chat_store::message_record(s, other_thread, other),
        chat_ops::message_stored(s, thread_id, id, o, now).threads == s.threads,
        chat_ops::message_stored(s, thread_id, id, o, now).projects == s.projects,
{
    lemma_with_message(
        s.messages,
        chat_store::message_row(thread_id, id, o, now),
        other_thread,
        other,
    );
    chat_laws::lemma_thread_from(s.threads, thread.id, 0);
    if other_thread != thread.id {
        match chat_store::thread_from(s.threads, thread.id, 0) {
            Some(k) => {
                lemma_updated_thread(s.threads, k, thread, other_thread, 0);
            },
            None => {
                lemma_pushed_thread(s.threads, thread, other_thread, 0);
            },
        }
        chat_laws::lemma_thread_from(s.threads, other_thread, 0);
    }
}

proof fn lemma_pushed_thread(
    s: Seq<chat_store::ThreadView>,
    row: chat_store::ThreadView,
    other: Seq<char>,
    i: int,
)
    requires
        0 <= i <= s.len(),
        other != row.id,
    ensures
        chat_store::thread_from(s.push(row), other, i) == chat_store::thread_from(s, other, i),
    decreases s.len() - i,
{
    if i < s.len() {
        lemma_pushed_thread(s, row, other, i + 1);
    } else {
        reveal_with_fuel(chat_store::thread_from, 2);
    }
}

proof fn lemma_updated_thread(
    s: Seq<chat_store::ThreadView>,
    k: int,
    row: chat_store::ThreadView,
    other: Seq<char>,
    i: int,
)
    requires
        0 <= i <= s.len(),
        0 <= k < s.len(),
        s[k].id == row.id,
    ensures
        chat_store::thread_from(s.update(k, row), other, i) == chat_store::thread_from(s, other, i),
    decreases s.len() - i,
{
    if i < s.len() {
        lemma_updated_thread(s, k, row, other, i + 1);
    }
}

// ---------- batches ----------

/// Whether a batch holds a message with this record; where it holds an id more than once, the last
/// record counts.
pub open spec fn batch_gives(batch: chat_ops::Batch, id: Seq<char>, o: json::Fields) -> bool {
    exists|i: int|
        0 <= i < batch.len() && (#[trigger] batch[i]).0 == id && batch[i].1 == o && forall|j: int|
            i < j < batch.len() ==> (#[trigger] batch[j]).0 != id
}

proof fn lemma_batch(
    s: Seq<chat_store::MessageView>,
    thread_id: Seq<char>,
    batch: chat_ops::Batch,
    now: i64,
    n: int,
    at: int,
    other_thread: Seq<char>,
    id: Seq<char>,
)
    requires
        0 <= n <= batch.len(),
        at == -1 || (0 <= at < n && batch[at].0 == id && other_thread == thread_id),
        forall|j: int| at < j < n ==> (#[trigger] batch[j]).0 != id || other_thread != thread_id,
    ensures
        record_in(chat_ops::batch_stored(s, thread_id, batch, now, n), other_thread, id) == (if at
            >= 0 {
            Some(batch[at].1)
        } else {
            record_in(s, other_thread, id)
        }),
    decreases n,
{
    if n > 0 {
        let before = chat_ops::batch_stored(s, thread_id, batch, now, n - 1);
        let row = chat_store::message_row(thread_id, batch[n - 1].0, batch[n - 1].1, now);
        lemma_with_message(before, row, other_thread, id);
        if at < n - 1 {
            lemma_batch(s, thread_id, batch, now, n - 1, at, other_thread, id);
        }
    }
}

proof fn lemma_removed(
    s: Seq<chat_store::MessageView>,
    thread_id: Seq<char>,
    ids: Seq<Seq<char>>,
    n: int,
    other_thread: Seq<char>,
    id: Seq<char>,
)
    requires
        chat_laws::messages_distinct(s),
        0 <= n <= ids.len(),
        other_thread != thread_id || !ids.contains(id),
    ensures
        chat_laws::messages_distinct(chat_ops::ids_removed(s, thread_id, ids, n)),
        record_in(chat_ops::ids_removed(s, thread_id, ids, n), other_thread, id) == record_in(
            s,
            other_thread,
            id,
        ),
    decreases n,
{
    if n > 0 {
        lemma_removed(s, thread_id, ids, n - 1, other_thread, id);
        assert(ids.contains(ids[n - 1]));
        lemma_without(
            chat_ops::ids_removed(s, thread_id, ids, n - 1),
            chat_ops::is_message(thread_id, ids[n - 1]),
            other_thread,
            id,
        );
    }
}

/// A batch stores every message that it holds and does not delete in the same breath; a message that it
/// neither holds nor deletes stays unless the batch prunes; other threads are left alone.
pub proof fn law_batch_is_stored(
    s: chat_store::ChatView,
    thread_id: Seq<char>,
    batch: chat_ops::Batch,
    prune_missing: bool,
    deleted: Seq<Seq<char>>,
    now: i64,
    id: Seq<char>,
    o: json::Fields,
    other_thread: Seq<char>,
)
    requires
        chat_laws::sound(s),
        chat_ops::writable(s, thread_id) is None,
    ensures
        ({
            let after = chat_ops::synced(
                s.messages,
                thread_id,
                batch,
                prune_missing,
                deleted,
                now,
            );
            &&& batch_gives(batch, id, o) && !deleted.contains(id) ==> record_in(after, thread_id, id)
                == Some(o)
            &&& !prune_missing && !deleted.contains(id) && (forall|i: int|
                0 <= i < batch.len() ==> (#[trigger] batch[i]).0 != id) ==> record_in(
                after,
                thread_id,
                id,
            ) == record_in(s.messages, thread_id, id)
            &&& other_thread != thread_id ==> record_in(after, other_thread, id) == record_in(
                s.messages,
                other_thread,
                id,
            )
        }),
{
    let n = batch.len() as int;
    lemma_consistent_messages(s);
    let stored = chat_ops::batch_stored(s.messages, thread_id, batch, now, n);
    chat_laws::lemma_batch_stored(s.messages, thread_id, batch, now, n, s.threads);
    let left = chat_ops::ids_removed(stored, thread_id, deleted, deleted.len() as int);
    chat_laws::lemma_ids_removed(stored, thread_id, deleted, deleted.len() as int, s.threads);
    let gone = chat_ops::unlisted(thread_id, chat_ops::batch_ids(batch));
    if batch_gives(batch, id, o) && !deleted.contains(id) {
        let i = choose|i: int|
            0 <= i < batch.len() && (#[trigger] batch[i]).0 == id && batch[i].1 == o && forall|j: int|
                i < j < batch.len() ==> (#[trigger] batch[j]).0 != id;
        lemma_batch(s.messages, thread_id, batch, now, n, i, thread_id, id);
        lemma_removed(stored, thread_id, deleted, deleted.len() as int, thread_id, id);
        assert(chat_ops::batch_ids(batch)[i] == id);
        assert(chat_ops::batch_ids(batch).contains(id));
        lemma_without(left, gone, thread_id, id);
    }
    if !prune_missing && !deleted.contains(id) && (forall|i: int|
        0 <= i < batch.len() ==> (#[trigger] batch[i]).0 != id) {
        lemma_batch(s.messages, thread_id, batch, now, n, -1, thread_id, id);
        lemma_removed(stored, thread_id, deleted, deleted.len() as int, thread_id, id);
    }
    if other_thread != thread_id {
        lemma_batch(s.messages, thread_id, batch, now, n, -1, other_thread, id);
        lemma_removed(stored, thread_id, deleted, deleted.len() as int, other_thread, id);
        lemma_without(left, gone, other_thread, id);
    }
}

// ---------- lists ----------

/// A list of threads shows those that are asked for and no others: of the asked kind, pair and project,
/// and archived ones only on demand. New threads come first, threads of one time by their ids.
pub proof fn law_threads_are_listed_new_first(
    s: Seq<chat_store::ThreadView>,
    f: chat_store::FilterView,
    places: Seq<int>,
    i: int,
    j: int,
    k: int,
)
    requires
        chat_lists::thread_places(s, f, places),
    ensures
        0 <= i < places.len() ==> {
            let row = s[places[i]];
            &&& 0 <= places[i] < s.len()
            &&& row.archived ==> f.include_archived
            &&& f.model_type matches Some(t) ==> row.model_type == Some(t)
            &&& f.pair_id matches Some(t) ==> row.pair_id == Some(t)
            &&& f.project_id matches Some(t) ==> row.project_id == Some(t)
        },
        0 <= k < s.len() && (f.include_archived || !s[k].archived) && (f.model_type is None
            || s[k].model_type == f.model_type) && (f.pair_id is None || s[k].pair_id == f.pair_id)
            && (f.project_id is None || s[k].project_id == f.project_id) ==> places.contains(k),
        0 <= i < j < places.len() ==> s[places[i]].created_at > s[places[j]].created_at || (
        s[places[i]].created_at == s[places[j]].created_at && (text::before(
            s[places[i]].id,
            s[places[j]].id,
        ) || s[places[i]].id == s[places[j]].id)),
{
    let shown = chat_lists::thread_shown(s, f);
    let key = chat_lists::thread_key(s);
    if 0 <= i < places.len() {
        assert(shown(places[i]));
    }
    if 0 <= k < s.len() {
        assert(shown(k) == chat_lists::shows(f, s[k]));
    }
    if 0 <= i < j < places.len() {
        assert(order::key_before(key(places[i]), key(places[j])));
    }
}

/// The messages of a thread are listed in the order of creation, those of one time in the order of
/// storing; all of them, and none of another thread.
pub proof fn law_messages_are_listed_old_first(
    s: Seq<chat_store::MessageView>,
    thread_id: Seq<char>,
    places: Seq<int>,
    i: int,
    j: int,
    k: int,
)
    requires
        chat_lists::message_places(s, thread_id, places),
    ensures
        0 <= i < places.len() ==> 0 <= places[i] < s.len() && s[places[i]].thread_id == thread_id,
        0 <= k < s.len() && s[k].thread_id == thread_id ==> places.contains(k),
        0 <= i < j < places.len() ==> s[places[i]].created_at < s[places[j]].created_at || (
        s[places[i]].created_at == s[places[j]].created_at && places[i] < places[j]),
        0 <= i < places.len() ==> chat_lists::message_records(s, places)[i]
            == json::JsonView::Object(s[places[i]].record),
{
    let mine = chat_lists::of_thread(s, thread_id);
    let key = chat_lists::message_key(s);
    if 0 <= i < places.len() {
        assert(mine(places[i]));
    }
    if 0 <= k < s.len() {
        assert(mine(k) == (s[k].thread_id == thread_id));
    }
    if 0 <= i < j < places.len() {
        assert(order::key_before(key(places[i]), key(places[j])));
        reveal_strlit("");
        assert(!text::before(""@, ""@));
    }
}

/// Projects are listed new ones first, archived ones only on demand.
pub proof fn law_projects_are_listed_new_first(
    s: Seq<chat_store::ProjectView>,
    include_archived: bool,
    places: Seq<int>,
    i: int,
    j: int,
    k: int,
)
    requires
        chat_lists::project_places(s, include_archived, places),
    ensures
        0 <= i < places.len() ==> 0 <= places[i] < s.len() && (s[places[i]].archived
            ==> include_archived),
        0 <= k < s.len() && (include_archived || !s[k].archived) ==> places.contains(k),
        0 <= i < j < places.len() ==> s[places[i]].created_at >= s[places[j]].created_at,
{
    let shown = chat_lists::project_shown(s, include_archived);
    let key = chat_lists::project_key(s);
    if 0 <= i < places.len() {
        assert(shown(places[i]));
    }
    if 0 <= k < s.len() {
        assert(shown(k) == (include_archived || !s[k].archived));
    }
    if 0 <= i < j < places.len() {
        assert(order::key_before(key(places[i]), key(places[j])));
    }
}

/// An export shows every thread, archived ones too.
pub proof fn law_export_shows_everything(s: Seq<chat_store::ThreadView>, places: Seq<int>, k: int)
    requires
        chat_lists::thread_places(s, chat_forks::everything(), places),
        0 <= k < s.len(),
    ensures
        places.contains(k),
{
    let shown = chat_lists::thread_shown(s, chat_forks::everything());
    assert(shown(k));
}

/// The message that opens a thread is its first one of the user: every one before is of somebody else.
pub proof fn law_opening_message_is_the_first_of_the_user(messages: Seq<json::JsonView>, i: int)
    requires
        i >= 0,
    ensures
        match chat_ops::first_user(messages, i) {
            Some(m) => exists|k: int|
                i <= k < messages.len() && #[trigger] messages[k] == m && json::text_of(
                    json::member(m, "role"@),
                ) == Some("user"@) && forall|j: int|
                    i <= j < k ==> json::text_of(
                        json::member(#[trigger] messages[j], "role"@),
                    ) != Some("user"@),
            None => forall|k: int|
                i <= k < messages.len() ==> json::text_of(
                    json::member(#[trigger] messages[k], "role"@),
                ) != Some("user"@),
        },
    decreases messages.len() - i,
{
    if i < messages.len() {
        if json::text_of(json::member(messages[i], "role"@)) == Some("user"@) {
            assert(messages[i] == chat_ops::first_user(messages, i)->0);
        } else {
            law_opening_message_is_the_first_of_the_user(messages, i + 1);
            if let Some(m) = chat_ops::first_user(messages, i) {
                let k = choose|k: int|
                    i + 1 <= k < messages.len() && #[trigger] messages[k] == m && json::text_of(
                        json::member(m, "role"@),
                    ) == Some("user"@) && forall|j: int|
                        i + 1 <= j < k ==> json::text_of(
                            json::member(#[trigger] messages[j], "role"@),
                        ) != Some("user"@);
                assert(messages[k] == m);
            }
        }
    }
}

/// A thread counts as a fork at a message exactly where its record names this thread and this message.
pub proof fn law_forks_are_counted(
    s: Seq<chat_store::ThreadView>,
    row: chat_store::ThreadView,
    thread_id: Seq<char>,
    message_id: Seq<char>,
)
    ensures
        chat_forks::fork_count(Seq::empty(), thread_id, message_id, 0) == 0,
        chat_forks::fork_count(s.push(row), thread_id, message_id, (s.len() + 1) as int)
            == chat_forks::fork_count(s, thread_id, message_id, s.len() as int) + if json::field(
            row.record,
            "forkedFromThreadId"@,
        ) == Some(json::JsonView::Text(thread_id)) && json::field(row.record, "forkedFromMessageId"@)
            == Some(json::JsonView::Text(message_id)) {
            1int
        } else {
            0int
        },
{
    lemma_counted_before(s, row, thread_id, message_id, s.len() as int);
}

proof fn lemma_counted_before(
    s: Seq<chat_store::ThreadView>,
    row: chat_store::ThreadView,
    thread_id: Seq<char>,
    message_id: Seq<char>,
    n: int,
)
    requires
        0 <= n <= s.len(),
    ensures
        chat_forks::fork_count(s.push(row), thread_id, message_id, n) == chat_forks::fork_count(
            s,
            thread_id,
            message_id,
            n,
        ),
    decreases n,
{
    if n > 0 {
        lemma_counted_before(s, row, thread_id, message_id, n - 1);
    }
}

/// A deleted project leaves its threads with all fields but the project, and other threads untouched.
pub proof fn law_detached_thread_keeps_its_fields(
    row: chat_store::ThreadView,
    project_id: Seq<char>,
    key: Seq<char>,
)
    ensures
        ({
            let after = chat_forks::detached(row, project_id);
            &&& row.project_id != Some(project_id) ==> after == row
            &&& row.project_id == Some(project_id) ==> {
                &&& after.project_id is None
                &&& json::field(after.record, "projectId"@) == Some(json::JsonView::Null)
                &&& key != "projectId"@ ==> json::field(after.record, key) == json::field(
                    row.record,
                    key,
                )
                &&& after.id == row.id
                &&& after.created_at == row.created_at
                &&& after.archived == row.archived
                &&& after.pair_id == row.pair_id
                &&& after.model_type == row.model_type
            }
        }),
{
    json::law_set_field_is_read_back(row.record, "projectId"@, json::JsonView::Null, key);
    json::law_set_field_is_read_back(
        row.record,
        "projectId"@,
        json::JsonView::Null,
        "projectId"@,
    );
}

/// The opening message of a thread is the first of its messages that the user wrote.
pub proof fn law_opening_message_of_a_thread(s: chat_store::ChatView, thread_id: Seq<char>, k: int)
    requires
        ({
            let messages = chat_lists::thread_messages(s.messages, thread_id);
            &&& 0 <= k < messages.len()
            &&& json::text_of(json::member(messages[k], "role"@)) == Some("user"@)
            &&& forall|j: int|
                0 <= j < k ==> json::text_of(json::member(#[trigger] messages[j], "role"@)) != Some(
                    "user"@,
                )
        }),
    ensures
        chat_ops::opening_id(s, thread_id) == json::text_of(
            json::member(chat_lists::thread_messages(s.messages, thread_id)[k], "id"@),
        ),
{
    let messages = chat_lists::thread_messages(s.messages, thread_id);
    law_opening_message_is_the_first_of_the_user(messages, 0);
    let m = chat_ops::first_user(messages, 0)->0;
    let i = choose|i: int|
        0 <= i < messages.len() && #[trigger] messages[i] == m && json::text_of(
            json::member(m, "role"@),
        ) == Some("user"@) && forall|j: int|
            0 <= j < i ==> json::text_of(json::member(#[trigger] messages[j], "role"@)) != Some(
                "user"@,
            );
    assert(messages[i] == m);
    assert(i == k);
}

} // verus!
