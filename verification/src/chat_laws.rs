//! What holds of the chat whatever is done with it.

use vstd::prelude::*;

use crate::chat_forks;
use crate::chat_lists;
use crate::chat_ops;
use crate::chat_store;
use crate::json;
use crate::order;

verus! {

/// A chat in order: ids occur once, every message belongs to a thread, every record carries the
/// id under which it is stored, and no thread is both stored and deleted.
pub open spec fn sound(s: chat_store::ChatView) -> bool {
    &&& chat_store::consistent(s)
    &&& forall|i: int|
        0 <= i < s.threads.len() ==> chat_store::id_of((#[trigger] s.threads[i]).record, "тред"@)
            == Ok::<Seq<char>, chat_store::ChatErrorView>(s.threads[i].id) && !s.deleted.contains(
            s.threads[i].id,
        )
}

pub proof fn lemma_thread_from(s: Seq<chat_store::ThreadView>, id: Seq<char>, i: int)
    requires
        0 <= i,
    ensures
        match chat_store::thread_from(s, id, i) {
            Some(k) => i <= k < s.len() && s[k].id == id,
            None => forall|k: int| i <= k < s.len() ==> (#[trigger] s[k]).id != id,
        },
    decreases s.len() - i,
{
    if i < s.len() && s[i].id != id {
        lemma_thread_from(s, id, i + 1);
    }
}

pub proof fn lemma_message_from(
    s: Seq<chat_store::MessageView>,
    thread_id: Seq<char>,
    id: Seq<char>,
    i: int,
)
    requires
        0 <= i,
    ensures
        match chat_store::message_from(s, thread_id, id, i) {
            Some(k) => i <= k < s.len() && s[k].thread_id == thread_id && s[k].id == id,
            None => forall|k: int|
                i <= k < s.len() ==> (#[trigger] s[k]).thread_id != thread_id || s[k].id != id,
        },
    decreases s.len() - i,
{
    if i < s.len() && !(s[i].thread_id == thread_id && s[i].id == id) {
        lemma_message_from(s, thread_id, id, i + 1);
    }
}

pub proof fn lemma_project_from(s: Seq<chat_store::ProjectView>, id: Seq<char>, i: int)
    requires
        0 <= i,
    ensures
        match chat_store::project_from(s, id, i) {
            Some(k) => i <= k < s.len() && s[k].id == id,
            None => forall|k: int| i <= k < s.len() ==> (#[trigger] s[k]).id != id,
        },
    decreases s.len() - i,
{
    if i < s.len() && s[i].id != id {
        lemma_project_from(s, id, i + 1);
    }
}

/// A thread that was deleted is not brought back: storing it, changing it and writing messages
/// into it are all answered with the deletion.
pub proof fn law_deleted_thread_is_refused(
    s: chat_store::ChatView,
    id: Seq<char>,
    record: json::Fields,
    patch: json::Fields,
    message: json::JsonView,
    now: i64,
)
    requires
        s.deleted.contains(id),
        chat_store::id_of(record, "тред"@) == Ok::<Seq<char>, chat_store::ChatErrorView>(id),
    ensures
        chat_store::saved_thread(s, json::JsonView::Object(record), now) == Err::<
            (Seq<char>, json::Fields),
            chat_store::ChatErrorView,
        >(chat_store::ChatErrorView::Deleted(id)),
        chat_ops::patched_thread(s, id, json::JsonView::Object(patch), now) == Err::<
            (Seq<char>, json::Fields),
            chat_store::ChatErrorView,
        >(chat_store::ChatErrorView::Deleted(id)),
        chat_ops::saved_message(s, id, message, now) == Err::<
            (Seq<char>, json::Fields),
            chat_store::ChatErrorView,
        >(chat_store::ChatErrorView::Deleted(id)),
        chat_ops::writable(s, id) == Some(chat_store::ChatErrorView::Deleted(id)),
{
}

proof fn lemma_tombstoned(deleted: Seq<Seq<char>>, id: Seq<char>, other: Seq<char>)
    ensures
        chat_store::tombstoned(deleted, id).contains(other) <==> deleted.contains(other) || other
            == id,
{
    let after = chat_store::tombstoned(deleted, id);
    if !deleted.contains(id) {
        assert(after[deleted.len() as int] == id);
        if deleted.contains(other) {
            let k = choose|k: int| 0 <= k < deleted.len() && deleted[k] == other;
            assert(after[k] == other);
        }
        if after.contains(other) && other != id {
            let k = choose|k: int| 0 <= k < after.len() && after[k] == other;
            assert(deleted[k] == other);
        }
    }
}

proof fn lemma_all_tombstoned(
    deleted: Seq<Seq<char>>,
    ids: Seq<Seq<char>>,
    n: int,
    other: Seq<char>,
)
    requires
        n <= ids.len(),
    ensures
        chat_ops::all_tombstoned(deleted, ids, n).contains(other) <==> deleted.contains(other)
            || exists|k: int| 0 <= k < n && #[trigger] ids[k] == other,
    decreases n,
{
    if n > 0 {
        lemma_all_tombstoned(deleted, ids, n - 1, other);
        lemma_tombstoned(
            chat_ops::all_tombstoned(deleted, ids, n - 1),
            ids[n - 1],
            other,
        );
    }
}

/// What is deleted stays deleted: no operation forgets a deleted thread.
pub proof fn law_deletion_is_never_forgotten(
    s: chat_store::ChatView,
    id: Seq<char>,
    ids: Seq<Seq<char>>,
    n: int,
)
    requires
        s.deleted.contains(id),
        0 <= n <= ids.len(),
    ensures
        chat_ops::without_threads(s, ids, n).deleted.contains(id),
        chat_ops::cleared(s, ids).deleted.contains(id),
        forall|row: chat_store::ThreadView| #[trigger]
            chat_store::with_thread(s, row).deleted == s.deleted,
        forall|row: chat_store::ProjectView| #[trigger]
            chat_store::with_project(s, row).deleted == s.deleted,
        forall|i: int| #[trigger] chat_forks::without_project(s, i).deleted == s.deleted,
        forall|new_id: Seq<char>, fork: chat_forks::ForkView, now: i64| #[trigger]
            chat_forks::with_fork(s, new_id, fork, now).deleted == s.deleted,
    decreases n,
{
    if n > 0 {
        law_deletion_is_never_forgotten(s, id, ids, n - 1);
        lemma_tombstoned(
            chat_ops::without_threads(s, ids, n - 1).deleted,
            ids[n - 1],
            id,
        );
    }
    let own = chat_ops::thread_ids(s.threads);
    lemma_all_tombstoned(s.deleted, own, own.len() as int, id);
    lemma_all_tombstoned(
        chat_ops::all_tombstoned(s.deleted, own, own.len() as int),
        ids,
        ids.len() as int,
        id,
    );
}

proof fn lemma_remaining(
    s: Seq<chat_store::MessageView>,
    n: int,
    gone: spec_fn(chat_store::MessageView) -> bool,
)
    requires
        0 <= n <= s.len(),
    ensures
        forall|k: int|
            0 <= k < chat_ops::remaining(s, n, gone).len() ==> !gone(
                #[trigger] chat_ops::remaining(s, n, gone)[k],
            ) && s.take(n).contains(chat_ops::remaining(s, n, gone)[k]),
        forall|i: int|
            0 <= i < n && !gone(#[trigger] s[i]) ==> chat_ops::remaining(s, n, gone).contains(s[i]),
        forall|a: int, b: int|
            0 <= a < b < chat_ops::remaining(s, n, gone).len() ==> exists|i: int, j: int|
                0 <= i < j < n && s[i] == #[trigger] chat_ops::remaining(s, n, gone)[a] && s[j]
                    == #[trigger] chat_ops::remaining(s, n, gone)[b],
    decreases n,
{
    let r = chat_ops::remaining(s, n, gone);
    if n > 0 {
        lemma_remaining(s, n - 1, gone);
        let before = chat_ops::remaining(s, n - 1, gone);
        assert forall|k: int| 0 <= k < r.len() implies !gone(#[trigger] r[k]) && s.take(
            n,
        ).contains(r[k]) by {
            if k < before.len() {
                assert(r[k] == before[k]);
                let head = s.take(n - 1);
                let i = choose|i: int| 0 <= i < head.len() && head[i] == before[k];
                assert(s.take(n)[i] == r[k]);
            } else {
                assert(s.take(n)[n - 1] == r[k]);
            }
        }
        assert forall|i: int| 0 <= i < n && !gone(#[trigger] s[i]) implies r.contains(s[i]) by {
            if i < n - 1 {
                let k = choose|k: int| 0 <= k < before.len() && before[k] == s[i];
                assert(r[k] == s[i]);
            } else {
                assert(r[before.len() as int] == s[i]);
            }
        }
        assert forall|a: int, b: int| 0 <= a < b < r.len() implies exists|i: int, j: int|
            0 <= i < j < n && s[i] == #[trigger] r[a] && s[j] == #[trigger] r[b] by {
            if b < before.len() {
                assert(r[a] == before[a] && r[b] == before[b]);
                let (i, j) = choose|i: int, j: int|
                    0 <= i < j < n - 1 && s[i] == before[a] && s[j] == before[b];
                assert(s[i] == r[a] && s[j] == r[b]);
            } else {
                assert(r[a] == before[a]);
                assert(s.take(n - 1).contains(before[a]));
                let head = s.take(n - 1);
                let i = choose|i: int| 0 <= i < head.len() && head[i] == before[a];
                assert(s[i] == r[a] && s[n - 1] == r[b]);
            }
        }
    }
}

/// Messages that stay were there before, in the same order, so that ids still occur once.
pub(crate) proof fn lemma_fewer_messages(
    s: Seq<chat_store::MessageView>,
    gone: spec_fn(chat_store::MessageView) -> bool,
)
    requires
        forall|i: int, j: int|
            0 <= i < j < s.len() ==> (#[trigger] s[i]).thread_id != (#[trigger] s[j]).thread_id
                || s[i].id != s[j].id,
    ensures
        forall|i: int, j: int|
            0 <= i < j < chat_ops::messages_without(s, gone).len() ==> (
            #[trigger] chat_ops::messages_without(s, gone)[i]).thread_id != (
            #[trigger] chat_ops::messages_without(s, gone)[j]).thread_id
                || chat_ops::messages_without(s, gone)[i].id != chat_ops::messages_without(
                s,
                gone,
            )[j].id,
        forall|k: int|
            0 <= k < chat_ops::messages_without(s, gone).len() ==> !gone(
                #[trigger] chat_ops::messages_without(s, gone)[k],
            ) && s.contains(chat_ops::messages_without(s, gone)[k]),
        forall|i: int|
            0 <= i < s.len() && !gone(#[trigger] s[i]) ==> chat_ops::messages_without(
                s,
                gone,
            ).contains(s[i]),
{
    let n = s.len() as int;
    lemma_remaining(s, n, gone);
    assert(s.take(n) =~= s);
    let r = chat_ops::messages_without(s, gone);
    assert forall|a: int, b: int| 0 <= a < b < r.len() implies (#[trigger] r[a]).thread_id != (
    #[trigger] r[b]).thread_id || r[a].id != r[b].id by {
        let (i, j) = choose|i: int, j: int| 0 <= i < j < n && s[i] == r[a] && s[j] == r[b];
        assert(s[i].thread_id != s[j].thread_id || s[i].id != s[j].id);
    }
}

/// Storing a thread keeps the chat in order.
pub proof fn law_storing_a_thread_keeps_order(s: chat_store::ChatView, row: chat_store::ThreadView)
    requires
        sound(s),
        chat_store::id_of(row.record, "тред"@) == Ok::<Seq<char>, chat_store::ChatErrorView>(
            row.id,
        ),
        !s.deleted.contains(row.id),
    ensures
        sound(chat_store::with_thread(s, row)),
{
    let after = chat_store::with_thread(s, row);
    lemma_thread_from(s.threads, row.id, 0);
    assert forall|i: int, j: int| 0 <= i < j < after.threads.len() implies (
    #[trigger] after.threads[i]).id != (#[trigger] after.threads[j]).id by {
        if j < s.threads.len() {
            assert(s.threads[i].id != s.threads[j].id);
        }
    }
    assert forall|i: int| 0 <= i < after.messages.len() implies chat_store::thread_from(
        after.threads,
        (#[trigger] after.messages[i]).thread_id,
        0,
    ) is Some by {
        let id = after.messages[i].thread_id;
        assert(chat_store::thread_from(s.threads, s.messages[i].thread_id, 0) is Some);
        lemma_thread_from(s.threads, id, 0);
        lemma_thread_from(after.threads, id, 0);
        let k = chat_store::thread_from(s.threads, id, 0)->Some_0;
        assert(after.threads[k].id == id);
    }
}

/// Deleting a thread keeps the chat in order; the thread and its messages are gone, and its id is
/// remembered.
pub proof fn law_deleting_a_thread_keeps_order(s: chat_store::ChatView, id: Seq<char>)
    requires
        sound(s),
    ensures
        sound(chat_ops::without_thread(s, id)),
        chat_ops::without_thread(s, id).deleted.contains(id),
        chat_store::thread_from(chat_ops::without_thread(s, id).threads, id, 0) is None,
        forall|k: int|
            0 <= k < chat_ops::without_thread(s, id).messages.len() ==> (
            #[trigger] chat_ops::without_thread(s, id).messages[k]).thread_id != id,
{
    let after = chat_ops::without_thread(s, id);
    lemma_thread_from(s.threads, id, 0);
    lemma_thread_from(after.threads, id, 0);
    lemma_fewer_messages(s.messages, chat_ops::in_thread(id));
    assert forall|i: int, j: int| 0 <= i < j < after.threads.len() implies (
    #[trigger] after.threads[i]).id != (#[trigger] after.threads[j]).id by {
        match chat_store::thread_from(s.threads, id, 0) {
            Some(k) => {
                let x = if i < k {
                    i
                } else {
                    i + 1
                };
                let y = if j < k {
                    j
                } else {
                    j + 1
                };
                assert(s.threads[x].id != s.threads[y].id);
            },
            None => {},
        }
    }
    assert forall|i: int| 0 <= i < after.threads.len() implies chat_store::id_of(
        (#[trigger] after.threads[i]).record,
        "тред"@,
    ) == Ok::<Seq<char>, chat_store::ChatErrorView>(after.threads[i].id)
        && !after.deleted.contains(after.threads[i].id) && after.threads[i].id != id by {
        match chat_store::thread_from(s.threads, id, 0) {
            Some(k) => {
                let x = if i < k {
                    i
                } else {
                    i + 1
                };
                assert(after.threads[i] == s.threads[x]);
                if x < k {
                    assert(s.threads[x].id != s.threads[k].id);
                } else {
                    assert(s.threads[k].id != s.threads[x].id);
                }
                lemma_tombstoned(s.deleted, id, s.threads[x].id);
            },
            None => {
                assert(after.threads[i] == s.threads[i]);
                lemma_tombstoned(s.deleted, id, s.threads[i].id);
            },
        }
    }
    lemma_tombstoned(s.deleted, id, id);
    assert forall|k: int| 0 <= k < after.messages.len() implies (#[trigger] after.messages[k]).thread_id
        != id && chat_store::thread_from(after.threads, after.messages[k].thread_id, 0) is Some by {
        let m = after.messages[k];
        assert(s.messages.contains(m));
        let w = choose|w: int| 0 <= w < s.messages.len() && s.messages[w] == m;
        assert(chat_store::thread_from(s.threads, s.messages[w].thread_id, 0) is Some);
        lemma_thread_from(s.threads, m.thread_id, 0);
        lemma_thread_from(after.threads, m.thread_id, 0);
        let t = chat_store::thread_from(s.threads, m.thread_id, 0)->Some_0;
        match chat_store::thread_from(s.threads, id, 0) {
            Some(k2) => {
                assert(!(chat_ops::in_thread(id))(m));
                let x = if t < k2 {
                    t
                } else {
                    t - 1
                };
                assert(t != k2);
                assert(after.threads[x] == s.threads[t]);
            },
            None => {
                assert(after.threads[t] == s.threads[t]);
                assert(s.threads[t].id != id);
            },
        }
    }
}

/// After threads are deleted each of them is remembered and no longer there, with no message left.
pub proof fn law_deleted_threads_are_gone(
    s: chat_store::ChatView,
    ids: Seq<Seq<char>>,
    n: int,
    k: int,
)
    requires
        sound(s),
        0 <= k < n <= ids.len(),
    ensures
        sound(chat_ops::without_threads(s, ids, n)),
        chat_ops::without_threads(s, ids, n).deleted.contains(ids[k]),
        chat_store::thread_from(chat_ops::without_threads(s, ids, n).threads, ids[k], 0) is None,
        forall|m: int|
            0 <= m < chat_ops::without_threads(s, ids, n).messages.len() ==> (
            #[trigger] chat_ops::without_threads(s, ids, n).messages[m]).thread_id != ids[k],
    decreases n,
{
    let before = chat_ops::without_threads(s, ids, n - 1);
    let after = chat_ops::without_threads(s, ids, n);
    lemma_deleting_keeps_sound(s, ids, n - 1);
    law_deleting_a_thread_keeps_order(before, ids[n - 1]);
    if k < n - 1 {
        law_deleted_threads_are_gone(s, ids, n - 1, k);
        lemma_tombstoned(before.deleted, ids[n - 1], ids[k]);
        lemma_thread_from(after.threads, ids[k], 0);
        if chat_store::thread_from(after.threads, ids[k], 0) is Some {
            let t = chat_store::thread_from(after.threads, ids[k], 0)->Some_0;
            assert(!after.deleted.contains(after.threads[t].id));
        }
        assert forall|m: int| 0 <= m < after.messages.len() implies (
        #[trigger] after.messages[m]).thread_id != ids[k] by {
            assert(chat_store::thread_from(
                after.threads,
                after.messages[m].thread_id,
                0,
            ) is Some);
        }
    }
}

proof fn lemma_deleting_keeps_sound(s: chat_store::ChatView, ids: Seq<Seq<char>>, n: int)
    requires
        sound(s),
        0 <= n <= ids.len(),
    ensures
        sound(chat_ops::without_threads(s, ids, n)),
    decreases n,
{
    if n > 0 {
        lemma_deleting_keeps_sound(s, ids, n - 1);
        law_deleting_a_thread_keeps_order(
            chat_ops::without_threads(s, ids, n - 1),
            ids[n - 1],
        );
    }
}

/// Clearing the chat leaves no thread and no message, and remembers every thread.
pub proof fn law_cleared_chat_remembers_all(
    s: chat_store::ChatView,
    extra: Seq<Seq<char>>,
    id: Seq<char>,
)
    requires
        sound(s),
    ensures
        sound(chat_ops::cleared(s, extra)),
        chat_ops::cleared(s, extra).deleted.contains(id) <==> s.deleted.contains(id)
            || chat_store::thread_from(s.threads, id, 0) is Some || extra.contains(id),
{
    let ids = chat_ops::thread_ids(s.threads);
    lemma_all_tombstoned(s.deleted, ids, ids.len() as int, id);
    lemma_all_tombstoned(
        chat_ops::all_tombstoned(s.deleted, ids, ids.len() as int),
        extra,
        extra.len() as int,
        id,
    );
    lemma_thread_from(s.threads, id, 0);
    if chat_store::thread_from(s.threads, id, 0) is Some {
        let t = chat_store::thread_from(s.threads, id, 0)->Some_0;
        assert(ids[t] == id);
    }
    if exists|k: int| 0 <= k < ids.len() && ids[k] == id {
        let k = choose|k: int| 0 <= k < ids.len() && ids[k] == id;
        assert(s.threads[k].id == id);
    }
    if extra.contains(id) {
        let k = choose|k: int| 0 <= k < extra.len() && extra[k] == id;
        assert(extra[k] == id);
    }
}

/// A thread that was stored is read back.
pub proof fn law_stored_thread_is_read_back(s: chat_store::ChatView, row: chat_store::ThreadView)
    ensures
        chat_store::thread_record(chat_store::with_thread(s, row), row.id) == Some(row.record),
{
    let after = chat_store::with_thread(s, row);
    lemma_thread_from(s.threads, row.id, 0);
    match chat_store::thread_from(s.threads, row.id, 0) {
        Some(k) => {
            lemma_first_thread(s.threads, after.threads, row.id, 0, k);
        },
        None => {
            lemma_thread_from(after.threads, row.id, 0);
            assert(after.threads[s.threads.len() as int].id == row.id);
            let t = chat_store::thread_from(after.threads, row.id, 0)->Some_0;
            if t < s.threads.len() {
                assert(s.threads[t].id != row.id);
            }
        },
    }
}

proof fn lemma_first_thread(
    a: Seq<chat_store::ThreadView>,
    b: Seq<chat_store::ThreadView>,
    id: Seq<char>,
    i: int,
    k: int,
)
    requires
        0 <= i <= k < a.len(),
        a.len() == b.len(),
        forall|m: int| 0 <= m < a.len() ==> (#[trigger] a[m]).id == b[m].id,
        chat_store::thread_from(a, id, i) == Some(k),
    ensures
        chat_store::thread_from(b, id, i) == Some(k),
    decreases k - i,
{
    assert(a[i].id == b[i].id);
    if a[i].id != id {
        lemma_thread_from(a, id, i + 1);
        lemma_first_thread(a, b, id, i + 1, k);
    }
}

/// None of the fields that are filled in is the id.
proof fn lemma_names_differ()
    ensures
        "createdAt"@ != "id"@,
        "title"@ != "id"@,
        "archived"@ != "id"@,
        "updatedAt"@ != "id"@,
        "settings"@ != "id"@,
        "threadId"@ != "id"@,
        "projectId"@ != "id"@,
        "forkedFromThreadId"@ != "id"@,
        "forkedFromMessageId"@ != "id"@,
        "openaiCodeExecContainerId"@ != "id"@,
        "anthropicCodeExecContainerId"@ != "id"@,
{
    reveal_strlit("id");
    reveal_strlit("createdAt");
    reveal_strlit("title");
    reveal_strlit("archived");
    reveal_strlit("updatedAt");
    reveal_strlit("settings");
    reveal_strlit("threadId");
    reveal_strlit("projectId");
    reveal_strlit("forkedFromThreadId");
    reveal_strlit("forkedFromMessageId");
    reveal_strlit("openaiCodeExecContainerId");
    reveal_strlit("anthropicCodeExecContainerId");
    assert("id"@.len() == 2);
    assert("createdAt"@.len() == 9);
    assert("title"@.len() == 5);
    assert("archived"@.len() == 8);
    assert("updatedAt"@.len() == 9);
    assert("settings"@.len() == 8);
    assert("threadId"@.len() == 8);
    assert("projectId"@.len() == 9);
    assert("forkedFromThreadId"@.len() == 18);
    assert("forkedFromMessageId"@.len() == 19);
    assert("openaiCodeExecContainerId"@.len() == 25);
    assert("anthropicCodeExecContainerId"@.len() == 28);
}

proof fn lemma_merged_keeps_id(o: json::Fields, patch: json::Fields, n: int)
    requires
        n <= patch.len(),
    ensures
        json::field(chat_ops::merged(o, patch, n), "id"@) == json::field(o, "id"@),
    decreases n,
{
    if n > 0 {
        lemma_merged_keeps_id(o, patch, n - 1);
        json::law_set_field_is_read_back(
            chat_ops::merged(o, patch, n - 1),
            patch[n - 1].0,
            patch[n - 1].1,
            "id"@,
        );
    }
}

/// An update never changes the id of a thread.
pub proof fn law_update_keeps_the_id(o: json::Fields, patch: json::Fields, now: i64)
    ensures
        json::field(chat_ops::updated_record(o, patch, now), "id"@) == json::field(o, "id"@),
{
    lemma_names_differ();
    let fields = chat_ops::merged(o, patch, patch.len() as int);
    lemma_merged_keeps_id(o, patch, patch.len() as int);
    let settled = chat_ops::settings_merged(fields, json::field(patch, "settingsPatch"@));
    match json::field(patch, "settingsPatch"@) {
        Some(json::JsonView::Object(p)) => {
            let value = json::JsonView::Object(
                chat_ops::all_set(
                    chat_ops::object_or_empty(json::field(fields, "settings"@)),
                    p,
                    p.len() as int,
                ),
            );
            json::law_set_field_is_read_back(fields, "settings"@, value, "id"@);
        },
        _ => {},
    }
    json::law_set_field_is_read_back(settled, "updatedAt"@, json::whole(now), "id"@);
}

/// Storing a whole thread and updating one keep the chat in order.
pub proof fn law_saving_and_updating_keep_order(
    s: chat_store::ChatView,
    record: json::JsonView,
    id: Seq<char>,
    patch: json::JsonView,
    now: i64,
)
    requires
        sound(s),
    ensures
        match chat_store::saved_thread(s, record, now) {
            Ok((stored, o)) => sound(
                chat_store::with_thread(s, chat_store::thread_row(stored, o, now)),
            ),
            Err(_) => true,
        },
        match chat_ops::patched_thread(s, id, patch, now) {
            Ok((stored, o)) => stored == id && sound(
                chat_store::with_thread(s, chat_store::thread_row(stored, o, now)),
            ),
            Err(_) => true,
        },
{
    match chat_store::saved_thread(s, record, now) {
        Ok((stored, o)) => {
            let start = record->Object_0;
            lemma_completed_keeps_id(
                start,
                chat_store::created_time(chat_store::thread_record(s, stored)),
                now,
            );
            law_storing_a_thread_keeps_order(s, chat_store::thread_row(stored, o, now));
        },
        Err(_) => {},
    }
    match chat_ops::patched_thread(s, id, patch, now) {
        Ok((stored, o)) => {
            let p = patch->Object_0;
            lemma_thread_from(s.threads, id, 0);
            let k = chat_store::thread_from(s.threads, id, 0)->Some_0;
            assert(chat_store::id_of(s.threads[k].record, "тред"@) == Ok::<
                Seq<char>,
                chat_store::ChatErrorView,
            >(s.threads[k].id));
            law_update_keeps_the_id(s.threads[k].record, p, now);
            law_storing_a_thread_keeps_order(s, chat_store::thread_row(stored, o, now));
        },
        Err(_) => {},
    }
}

proof fn lemma_default_keeps_id(o: json::Fields, key: Seq<char>, value: json::JsonView)
    requires
        key != "id"@,
    ensures
        json::field(json::with_default(o, key, value), "id"@) == json::field(o, "id"@),
{
    json::law_set_field_is_read_back(o, key, value, "id"@);
}

proof fn lemma_completed_keeps_id(o: json::Fields, created: Option<i64>, now: i64)
    ensures
        json::field(chat_store::completed_thread(o, created, now), "id"@) == json::field(o, "id"@),
{
    lemma_names_differ();
    let t = json::whole(
        match created {
            Some(t) => t,
            None => now,
        },
    );
    json::law_set_field_is_read_back(o, "createdAt"@, t, "id"@);
    let dated = if json::i64_of(json::field(o, "createdAt"@)) is Some {
        o
    } else {
        json::with(o, "createdAt"@, t)
    };
    lemma_default_keeps_id(dated, "title"@, json::JsonView::Text(""@));
    let titled = json::with_default(dated, "title"@, json::JsonView::Text(""@));
    lemma_default_keeps_id(titled, "archived"@, json::JsonView::Bool(false));
    let filed = json::with_default(titled, "archived"@, json::JsonView::Bool(false));
    lemma_default_keeps_id(filed, "updatedAt"@, json::whole(now));
}

/// The ids of messages within their threads occur once.
pub open spec fn messages_distinct(s: Seq<chat_store::MessageView>) -> bool {
    forall|i: int, j: int|
        0 <= i < j < s.len() ==> (#[trigger] s[i]).thread_id != (#[trigger] s[j]).thread_id
            || s[i].id != s[j].id
}

/// Every message belongs to one of these threads.
pub open spec fn messages_placed(
    s: Seq<chat_store::MessageView>,
    threads: Seq<chat_store::ThreadView>,
) -> bool {
    forall|i: int|
        0 <= i < s.len() ==> chat_store::thread_from(
            threads,
            (#[trigger] s[i]).thread_id,
            0,
        ) is Some
}

proof fn lemma_with_message(
    s: Seq<chat_store::MessageView>,
    row: chat_store::MessageView,
    threads: Seq<chat_store::ThreadView>,
)
    requires
        messages_distinct(s),
        messages_placed(s, threads),
        chat_store::thread_from(threads, row.thread_id, 0) is Some,
    ensures
        messages_distinct(chat_store::with_message(s, row)),
        messages_placed(chat_store::with_message(s, row), threads),
{
    let after = chat_store::with_message(s, row);
    lemma_message_from(s, row.thread_id, row.id, 0);
    assert forall|i: int, j: int| 0 <= i < j < after.len() implies (#[trigger] after[i]).thread_id
        != (#[trigger] after[j]).thread_id || after[i].id != after[j].id by {
        if j < s.len() {
            assert(s[i].thread_id != s[j].thread_id || s[i].id != s[j].id);
        } else {
            assert(s[i].thread_id != row.thread_id || s[i].id != row.id);
        }
    }
    assert forall|i: int| 0 <= i < after.len() implies chat_store::thread_from(
        threads,
        (#[trigger] after[i]).thread_id,
        0,
    ) is Some by {
        if i < s.len() {
            assert(chat_store::thread_from(threads, s[i].thread_id, 0) is Some);
        }
    }
}

pub(crate) proof fn lemma_batch_stored(
    s: Seq<chat_store::MessageView>,
    thread_id: Seq<char>,
    batch: chat_ops::Batch,
    now: i64,
    n: int,
    threads: Seq<chat_store::ThreadView>,
)
    requires
        messages_distinct(s),
        messages_placed(s, threads),
        n <= batch.len(),
        chat_store::thread_from(threads, thread_id, 0) is Some,
    ensures
        messages_distinct(chat_ops::batch_stored(s, thread_id, batch, now, n)),
        messages_placed(chat_ops::batch_stored(s, thread_id, batch, now, n), threads),
    decreases n,
{
    if n > 0 {
        lemma_batch_stored(s, thread_id, batch, now, n - 1, threads);
        lemma_with_message(
            chat_ops::batch_stored(s, thread_id, batch, now, n - 1),
            chat_store::message_row(thread_id, batch[n - 1].0, batch[n - 1].1, now),
            threads,
        );
    }
}

proof fn lemma_without_keeps(
    s: Seq<chat_store::MessageView>,
    gone: spec_fn(chat_store::MessageView) -> bool,
    threads: Seq<chat_store::ThreadView>,
)
    requires
        messages_distinct(s),
        messages_placed(s, threads),
    ensures
        messages_distinct(chat_ops::messages_without(s, gone)),
        messages_placed(chat_ops::messages_without(s, gone), threads),
{
    lemma_fewer_messages(s, gone);
    let r = chat_ops::messages_without(s, gone);
    assert forall|i: int| 0 <= i < r.len() implies chat_store::thread_from(
        threads,
        (#[trigger] r[i]).thread_id,
        0,
    ) is Some by {
        assert(s.contains(r[i]));
        let k = choose|k: int| 0 <= k < s.len() && s[k] == r[i];
        assert(chat_store::thread_from(threads, s[k].thread_id, 0) is Some);
    }
}

pub(crate) proof fn lemma_ids_removed(
    s: Seq<chat_store::MessageView>,
    thread_id: Seq<char>,
    ids: Seq<Seq<char>>,
    n: int,
    threads: Seq<chat_store::ThreadView>,
)
    requires
        messages_distinct(s),
        messages_placed(s, threads),
        0 <= n <= ids.len(),
    ensures
        messages_distinct(chat_ops::ids_removed(s, thread_id, ids, n)),
        messages_placed(chat_ops::ids_removed(s, thread_id, ids, n), threads),
        forall|k: int, m: int|
            0 <= k < n && 0 <= m < chat_ops::ids_removed(s, thread_id, ids, n).len() ==> (
            #[trigger] chat_ops::ids_removed(s, thread_id, ids, n)[m]).thread_id != thread_id
                || chat_ops::ids_removed(s, thread_id, ids, n)[m].id != #[trigger] ids[k],
    decreases n,
{
    if n > 0 {
        lemma_ids_removed(s, thread_id, ids, n - 1, threads);
        let before = chat_ops::ids_removed(s, thread_id, ids, n - 1);
        let gone = chat_ops::is_message(thread_id, ids[n - 1]);
        lemma_without_keeps(before, gone, threads);
        lemma_fewer_messages(before, gone);
        let after = chat_ops::ids_removed(s, thread_id, ids, n);
        assert forall|k: int, m: int| 0 <= k < n && 0 <= m < after.len() implies (
        #[trigger] after[m]).thread_id != thread_id || after[m].id != #[trigger] ids[k] by {
            assert(!gone(after[m]));
            if k < n - 1 {
                assert(before.contains(after[m]));
                let w = choose|w: int| 0 <= w < before.len() && before[w] == after[m];
                assert(before[w].thread_id != thread_id || before[w].id != ids[k]);
            }
        }
    }
}

/// Storing a message keeps the chat in order, and the message is read back.
pub proof fn law_stored_message_is_read_back(
    s: chat_store::ChatView,
    thread_id: Seq<char>,
    id: Seq<char>,
    o: json::Fields,
    now: i64,
)
    requires
        sound(s),
        chat_ops::writable(s, thread_id) is None,
    ensures
        sound(chat_ops::message_stored(s, thread_id, id, o, now)),
        chat_store::message_record(
            chat_ops::message_stored(s, thread_id, id, o, now),
            thread_id,
            id,
        ) == Some(o),
{
    let row = chat_store::message_row(thread_id, id, o, now);
    lemma_with_message(s.messages, row, s.threads);
    let after = chat_store::with_message(s.messages, row);
    lemma_message_from(s.messages, thread_id, id, 0);
    lemma_message_from(after, thread_id, id, 0);
    let at = match chat_store::message_from(s.messages, thread_id, id, 0) {
        Some(k) => k,
        None => s.messages.len() as int,
    };
    assert(after[at] == row);
    let found = chat_store::message_from(after, thread_id, id, 0)->Some_0;
    assert(messages_distinct(after));
    if found < at {
        assert(after[found].thread_id != after[at].thread_id || after[found].id != after[at].id);
    }
    if at < found {
        assert(after[at].thread_id != after[found].thread_id || after[at].id != after[found].id);
    }
}

/// A batch keeps the chat in order. When it prunes, the thread is left with messages of the batch
/// only; deleted messages are gone in any case.
pub proof fn law_synced_thread_holds_the_batch(
    s: chat_store::ChatView,
    thread_id: Seq<char>,
    batch: chat_ops::Batch,
    prune_missing: bool,
    deleted: Seq<Seq<char>>,
    now: i64,
)
    requires
        sound(s),
        chat_ops::writable(s, thread_id) is None,
    ensures
        sound(
            chat_store::ChatView {
                messages: chat_ops::synced(
                    s.messages,
                    thread_id,
                    batch,
                    prune_missing,
                    deleted,
                    now,
                ),
                ..s
            },
        ),
        forall|m: int|
            0 <= m < chat_ops::synced(
                s.messages,
                thread_id,
                batch,
                prune_missing,
                deleted,
                now,
            ).len() ==> ({
                let row = #[trigger] chat_ops::synced(
                    s.messages,
                    thread_id,
                    batch,
                    prune_missing,
                    deleted,
                    now,
                )[m];
                row.thread_id == thread_id ==> !deleted.contains(row.id) && (prune_missing
                    ==> chat_ops::batch_ids(batch).contains(row.id))
            }),
{
    let stored = chat_ops::batch_stored(
        s.messages,
        thread_id,
        batch,
        now,
        batch.len() as int,
    );
    lemma_batch_stored(s.messages, thread_id, batch, now, batch.len() as int, s.threads);
    let left = chat_ops::ids_removed(stored, thread_id, deleted, deleted.len() as int);
    lemma_ids_removed(stored, thread_id, deleted, deleted.len() as int, s.threads);
    let gone = chat_ops::unlisted(thread_id, chat_ops::batch_ids(batch));
    lemma_without_keeps(left, gone, s.threads);
    lemma_fewer_messages(left, gone);
    let after = chat_ops::synced(s.messages, thread_id, batch, prune_missing, deleted, now);
    assert forall|m: int| 0 <= m < after.len() implies ({
        let row = #[trigger] after[m];
        row.thread_id == thread_id ==> !deleted.contains(row.id) && (prune_missing
            ==> chat_ops::batch_ids(batch).contains(row.id))
    }) by {
        let row = after[m];
        if prune_missing {
            assert(!gone(row));
            assert(left.contains(row));
        } else {
            assert(left[m] == row);
        }
        let w = choose|w: int| 0 <= w < left.len() && left[w] == row;
        if row.thread_id == thread_id && deleted.contains(row.id) {
            let k = choose|k: int| 0 <= k < deleted.len() && deleted[k] == row.id;
            assert(left[w].thread_id != thread_id || left[w].id != deleted[k]);
        }
    }
}

// ---------- forks ----------

/// Whether a stored message is this one, but for the thread it belongs to.
pub open spec fn is_copy(o: json::Fields, message: json::JsonView, new_id: Seq<char>) -> bool {
    message is Object && o == json::with(
        message->Object_0,
        "threadId"@,
        json::JsonView::Text(new_id),
    )
}

proof fn lemma_fork_batch(
    messages: Seq<json::JsonView>,
    new_id: Seq<char>,
    n: int,
    batch: chat_ops::Batch,
)
    requires
        0 <= n <= messages.len(),
        chat_forks::fork_batch(messages, new_id, n) == Ok::<
            chat_ops::Batch,
            chat_store::ChatErrorView,
        >(batch),
    ensures
        batch.len() == n,
        forall|i: int| 0 <= i < n ==> is_copy((#[trigger] batch[i]).1, messages[i], new_id),
    decreases n,
{
    if n > 0 {
        let before = chat_forks::fork_batch(messages, new_id, n - 1)->Ok_0;
        lemma_fork_batch(messages, new_id, n - 1, before);
        assert forall|i: int| 0 <= i < n implies is_copy(
            (#[trigger] batch[i]).1,
            messages[i],
            new_id,
        ) by {
            if i < n - 1 {
                assert(batch[i] == before[i]);
            }
        }
    }
}

proof fn lemma_message_at(messages: Seq<json::JsonView>, id: Seq<char>, i: int)
    requires
        i >= 0,
    ensures
        chat_forks::message_at(messages, id, i) matches Some(k) ==> i <= k < messages.len()
            && json::text_of(json::member(messages[k], "id"@)) == Some(id),
    decreases messages.len() - i,
{
    if i < messages.len() && json::text_of(json::member(messages[i], "id"@)) != Some(id) {
        lemma_message_at(messages, id, i + 1);
    }
}

/// A fork holds the messages of its source up to the branch point, that one included; each is the
/// source's but for the thread it belongs to.
pub proof fn law_fork_copies_up_to_the_branch_point(
    s: chat_store::ChatView,
    source_id: Seq<char>,
    message_id: Seq<char>,
    new_id: Seq<char>,
    created_at: i64,
    i: int,
)
    requires
        chat_forks::forked(s, source_id, message_id, new_id, created_at) is Ok,
        0 <= i < chat_forks::forked(s, source_id, message_id, new_id, created_at)->Ok_0.batch.len(),
    ensures
        ({
            let fork = chat_forks::forked(s, source_id, message_id, new_id, created_at)->Ok_0;
            let messages = chat_lists::thread_messages(s.messages, source_id);
            &&& 0 < fork.batch.len() <= messages.len()
            &&& json::text_of(json::member(messages[fork.batch.len() - 1], "id"@)) == Some(
                message_id,
            )
            &&& is_copy(fork.batch[i].1, messages[i], new_id)
        }),
{
    let messages = chat_lists::thread_messages(s.messages, source_id);
    lemma_message_at(messages, message_id, 0);
    let cut = chat_forks::message_at(messages, message_id, 0)->Some_0;
    let batch = chat_forks::fork_batch(messages, new_id, cut + 1)->Ok_0;
    lemma_fork_batch(messages, new_id, cut + 1, batch);
    assert(is_copy(batch[i].1, messages[i], new_id));
}

/// The rows of other threads are the first ones and no row of this thread was touched.
spec fn grown(
    a: Seq<chat_store::MessageView>,
    b: Seq<chat_store::MessageView>,
    thread_id: Seq<char>,
) -> bool {
    &&& a.len() <= b.len()
    &&& forall|i: int| 0 <= i < a.len() ==> #[trigger] b[i] == a[i]
    &&& forall|i: int| a.len() <= i < b.len() ==> (#[trigger] b[i]).thread_id == thread_id
}

proof fn lemma_batch_only_adds(
    s: Seq<chat_store::MessageView>,
    thread_id: Seq<char>,
    batch: chat_ops::Batch,
    now: i64,
    n: int,
)
    requires
        n <= batch.len(),
        forall|i: int| 0 <= i < s.len() ==> (#[trigger] s[i]).thread_id != thread_id,
    ensures
        grown(s, chat_ops::batch_stored(s, thread_id, batch, now, n), thread_id),
    decreases n,
{
    if n > 0 {
        lemma_batch_only_adds(s, thread_id, batch, now, n - 1);
        let before = chat_ops::batch_stored(s, thread_id, batch, now, n - 1);
        lemma_message_from(before, thread_id, batch[n - 1].0, 0);
        let after = chat_ops::batch_stored(s, thread_id, batch, now, n);
        match chat_store::message_from(before, thread_id, batch[n - 1].0, 0) {
            Some(k) => {
                if k < s.len() {
                    assert(before[k] == s[k]);
                }
                assert forall|i: int| 0 <= i < s.len() implies #[trigger] after[i] == s[i] by {
                    assert(before[i] == s[i]);
                }
                assert forall|i: int| s.len() <= i < after.len() implies (
                #[trigger] after[i]).thread_id == thread_id by {
                    assert(before[i].thread_id == thread_id);
                }
            },
            None => {
                assert forall|i: int| 0 <= i < s.len() implies #[trigger] after[i] == s[i] by {
                    assert(before[i] == s[i]);
                }
                assert forall|i: int| s.len() <= i < after.len() implies (
                #[trigger] after[i]).thread_id == thread_id by {
                    if i < before.len() {
                        assert(before[i].thread_id == thread_id);
                    }
                }
            },
        }
    }
}

proof fn lemma_other_lists_stay(
    a: Seq<chat_store::MessageView>,
    b: Seq<chat_store::MessageView>,
    grew: Seq<char>,
    thread_id: Seq<char>,
    out: Seq<json::JsonView>,
)
    requires
        grown(a, b, grew),
        grew != thread_id,
        chat_lists::messages_of(a, thread_id, out),
    ensures
        chat_lists::messages_of(b, thread_id, out),
{
    let places = choose|places: Seq<int>| #[trigger]
        chat_lists::message_places(a, thread_id, places) && out == chat_lists::message_records(
            a,
            places,
        );
    let keep_a = chat_lists::of_thread(a, thread_id);
    let keep_b = chat_lists::of_thread(b, thread_id);
    let key_a = chat_lists::message_key(a);
    let key_b = chat_lists::message_key(b);
    assert forall|i: int| 0 <= i < places.len() implies 0 <= #[trigger] places[i] < b.len()
        && keep_b(places[i]) by {
        assert(keep_a(places[i]));
        assert(b[places[i]] == a[places[i]]);
    }
    assert forall|j: int| 0 <= j < b.len() && keep_b(j) implies #[trigger] places.contains(j) by {
        if j < a.len() {
            assert(b[j] == a[j]);
            assert(keep_a(j));
        } else {
            assert(b[j].thread_id == grew);
        }
    }
    assert forall|i: int, j: int| 0 <= i < j < places.len() implies order::key_before(
        key_b(#[trigger] places[i]),
        key_b(#[trigger] places[j]),
    ) by {
        assert(order::key_before(key_a(places[i]), key_a(places[j])));
        assert(b[places[i]] == a[places[i]]);
        assert(b[places[j]] == a[places[j]]);
    }
    assert(chat_lists::message_places(b, thread_id, places));
    assert(out =~= chat_lists::message_records(b, places)) by {
        assert forall|i: int| 0 <= i < places.len() implies b[places[i]] == #[trigger] a[places[i]] by {
            assert(0 <= places[i] < a.len());
        }
    }
}

/// A fork leaves its source as it was: the same record and the same messages.
pub proof fn law_fork_leaves_its_source_unchanged(
    s: chat_store::ChatView,
    source_id: Seq<char>,
    message_id: Seq<char>,
    new_id: Seq<char>,
    created_at: i64,
    now: i64,
    out: Seq<json::JsonView>,
)
    requires
        sound(s),
        chat_forks::forked(s, source_id, message_id, new_id, created_at) is Ok,
        chat_lists::messages_of(s.messages, source_id, out),
    ensures
        ({
            let fork = chat_forks::forked(s, source_id, message_id, new_id, created_at)->Ok_0;
            let after = chat_forks::with_fork(s, new_id, fork, now);
            &&& sound(after)
            &&& chat_store::thread_record(after, source_id) == chat_store::thread_record(
                s,
                source_id,
            )
            &&& chat_lists::thread_messages(after.messages, source_id) == out
            &&& chat_store::thread_record(after, new_id) == Some(fork.record)
        }),
{
    let fork = chat_forks::forked(s, source_id, message_id, new_id, created_at)->Ok_0;
    let after = chat_forks::with_fork(s, new_id, fork, now);
    let row = chat_store::thread_row(new_id, fork.record, now);
    lemma_fork_record_id(
        chat_store::thread_record(s, source_id)->Some_0,
        source_id,
        message_id,
        new_id,
        created_at,
    );
    let with_row = chat_store::with_thread(s, row);
    law_storing_a_thread_keeps_order(s, row);
    law_stored_thread_is_read_back(s, row);
    lemma_thread_from(s.threads, new_id, 0);
    lemma_thread_from(s.threads, source_id, 0);
    lemma_thread_from(with_row.threads, new_id, 0);
    assert forall|i: int| 0 <= i < s.messages.len() implies (#[trigger] s.messages[i]).thread_id
        != new_id by {
        assert(chat_store::thread_from(s.threads, s.messages[i].thread_id, 0) is Some);
    }
    lemma_batch_only_adds(s.messages, new_id, fork.batch, now, fork.batch.len() as int);
    lemma_other_lists_stay(s.messages, after.messages, new_id, source_id, out);
    chat_lists::law_message_list_is_unique(after.messages, source_id, out);
    assert(messages_placed(s.messages, with_row.threads)) by {
        assert forall|i: int| 0 <= i < s.messages.len() implies chat_store::thread_from(
            with_row.threads,
            (#[trigger] s.messages[i]).thread_id,
            0,
        ) is Some by {
            assert(chat_store::thread_from(
                with_row.threads,
                with_row.messages[i].thread_id,
                0,
            ) is Some);
        }
    }
    assert(with_row.threads[s.threads.len() as int].id == new_id);
    lemma_batch_stored(
        s.messages,
        new_id,
        fork.batch,
        now,
        fork.batch.len() as int,
        with_row.threads,
    );
    let k = chat_store::thread_from(s.threads, source_id, 0)->Some_0;
    lemma_thread_from(with_row.threads, source_id, 0);
    assert(with_row.threads[k] == s.threads[k]);
    let found = chat_store::thread_from(with_row.threads, source_id, 0)->Some_0;
    if found < k {
        assert(s.threads[found].id != s.threads[k].id);
    }
    if k < found && found < s.threads.len() {
        assert(s.threads[k].id != s.threads[found].id);
    }
}

proof fn lemma_fork_record_id(
    source: json::Fields,
    source_id: Seq<char>,
    message_id: Seq<char>,
    new_id: Seq<char>,
    created_at: i64,
)
    ensures
        json::field(
            chat_forks::fork_record(source, source_id, message_id, new_id, created_at),
            "id"@,
        ) == Some(json::JsonView::Text(new_id)),
{
    lemma_names_differ();
    let t = json::whole(created_at);
    let null = json::JsonView::Null;
    let a = json::with(source, "id"@, json::JsonView::Text(new_id));
    json::law_set_field_is_read_back(source, "id"@, json::JsonView::Text(new_id), "id"@);
    let b = json::with(a, "createdAt"@, t);
    json::law_set_field_is_read_back(a, "createdAt"@, t, "id"@);
    let c = json::with(b, "updatedAt"@, t);
    json::law_set_field_is_read_back(b, "updatedAt"@, t, "id"@);
    let d = json::with(c, "forkedFromThreadId"@, json::JsonView::Text(source_id));
    json::law_set_field_is_read_back(
        c,
        "forkedFromThreadId"@,
        json::JsonView::Text(source_id),
        "id"@,
    );
    let e = json::with(d, "forkedFromMessageId"@, json::JsonView::Text(message_id));
    json::law_set_field_is_read_back(
        d,
        "forkedFromMessageId"@,
        json::JsonView::Text(message_id),
        "id"@,
    );
    let f = json::with(e, "openaiCodeExecContainerId"@, null);
    json::law_set_field_is_read_back(e, "openaiCodeExecContainerId"@, null, "id"@);
    json::law_set_field_is_read_back(f, "anthropicCodeExecContainerId"@, null, "id"@);
}

// ---------- projects ----------

/// A project that was stored is read back.
pub proof fn law_stored_project_is_read_back(s: chat_store::ChatView, row: chat_store::ProjectView)
    ensures
        ({
            let after = chat_store::with_project(s, row).projects;
            match chat_store::project_from(after, row.id, 0) {
                Some(i) => 0 <= i < after.len() && after[i] == row,
                None => false,
            }
        }),
{
    let after = chat_store::with_project(s, row).projects;
    lemma_project_from(s.projects, row.id, 0);
    lemma_project_from(after, row.id, 0);
    let put = match chat_store::project_from(s.projects, row.id, 0) {
        Some(k) => k,
        None => s.projects.len() as int,
    };
    assert(after[put] == row);
    lemma_first_project(s.projects, row.id, 0);
    lemma_first_project(after, row.id, 0);
    let found = chat_store::project_from(after, row.id, 0)->Some_0;
    if found < put {
        assert(s.projects[found].id == row.id);
    }
}

/// No project before the one that is found has its id.
proof fn lemma_first_project(s: Seq<chat_store::ProjectView>, id: Seq<char>, i: int)
    requires
        0 <= i,
    ensures
        chat_store::project_from(s, id, i) matches Some(k) ==> forall|j: int|
            i <= j < k ==> (#[trigger] s[j]).id != id,
    decreases s.len() - i,
{
    if i < s.len() && s[i].id != id {
        lemma_first_project(s, id, i + 1);
    }
}

/// A deleted project is gone and no thread belongs to it; every thread stays, with its messages.
pub proof fn law_deleted_project_leaves_its_threads(s: chat_store::ChatView, i: int)
    requires
        chat_store::consistent(s),
        0 <= i < s.projects.len(),
    ensures
        ({
            let after = chat_forks::without_project(s, i);
            let id = s.projects[i].id;
            &&& chat_store::consistent(after)
            &&& chat_store::project_from(after.projects, id, 0) is None
            &&& after.messages == s.messages
            &&& after.threads.len() == s.threads.len()
            &&& forall|k: int|
                0 <= k < s.threads.len() ==> (#[trigger] after.threads[k]).id == s.threads[k].id
                    && after.threads[k].project_id != Some(id)
        }),
{
    let after = chat_forks::without_project(s, i);
    let id = s.projects[i].id;
    assert forall|k: int| 0 <= k < s.threads.len() implies (#[trigger] after.threads[k]).id
        == s.threads[k].id && after.threads[k].project_id != Some(id) by {
        assert(after.threads[k] == chat_forks::detached(s.threads[k], id));
    }
    assert forall|k: int| 0 <= k < after.projects.len() implies (#[trigger] after.projects[k]).id
        != id by {
        if k < i {
            assert(after.projects[k] == s.projects[k]);
        } else {
            assert(after.projects[k] == s.projects[k + 1]);
        }
    }
    lemma_project_from(after.projects, id, 0);
    assert forall|j: int, k: int| 0 <= j < k < after.projects.len() implies (
    #[trigger] after.projects[j]).id != (#[trigger] after.projects[k]).id by {
        let a = if j < i {
            j
        } else {
            j + 1
        };
        let b = if k < i {
            k
        } else {
            k + 1
        };
        assert(s.projects[a].id != s.projects[b].id);
    }
    assert forall|j: int, k: int| 0 <= j < k < after.threads.len() implies (
    #[trigger] after.threads[j]).id != (#[trigger] after.threads[k]).id by {
        assert(s.threads[j].id != s.threads[k].id);
    }
    assert forall|m: int| 0 <= m < after.messages.len() implies chat_store::thread_from(
        after.threads,
        (#[trigger] after.messages[m]).thread_id,
        0,
    ) is Some by {
        let t = s.messages[m].thread_id;
        lemma_thread_from(s.threads, t, 0);
        let k = chat_store::thread_from(s.threads, t, 0)->Some_0;
        lemma_thread_from(after.threads, t, 0);
        assert(after.threads[k].id == t);
    }
}

} // verus!
