//! Lists of the chat: threads, messages and projects in the order in which they are shown.

use vstd::prelude::*;

use crate::chat_store;
use crate::chat_store::{get_thread, ChatError, ChatResult, ChatTables, MessageRow, ThreadFilter};
use crate::json;
use crate::json::Json;
use crate::order;
use crate::order::{sorted_places, SortKey};
use crate::text;

verus! {

// ---------- threads ----------

/// Whether a field has the value that is asked for; without one anything goes.
pub open spec fn asked(wanted: Option<Seq<char>>, has: Option<Seq<char>>) -> bool {
    wanted is Some ==> has == wanted
}

/// Whether a list shows a thread.
pub open spec fn shows(f: chat_store::FilterView, row: chat_store::ThreadView) -> bool {
    &&& f.include_archived || !row.archived
    &&& asked(f.model_type, row.model_type)
    &&& asked(f.pair_id, row.pair_id)
    &&& asked(f.project_id, row.project_id)
}

pub open spec fn thread_shown(
    s: Seq<chat_store::ThreadView>,
    f: chat_store::FilterView,
) -> spec_fn(int) -> bool {
    |i: int| shows(f, s[i])
}

/// New threads first; threads of the same time by their ids.
pub open spec fn thread_key(s: Seq<chat_store::ThreadView>) -> spec_fn(int) -> order::KeyView {
    |i: int| order::KeyView { rank: -(s[i].created_at as int), name: s[i].id, at: i }
}

/// The places of the threads that a list shows, in its order.
pub open spec fn thread_places(
    s: Seq<chat_store::ThreadView>,
    f: chat_store::FilterView,
    places: Seq<int>,
) -> bool {
    order::lists(places, s.len() as int, thread_shown(s, f), thread_key(s))
}

/// The records of the threads at these places.
pub open spec fn thread_records(s: Seq<chat_store::ThreadView>, places: Seq<int>) -> Seq<
    json::JsonView,
> {
    Seq::new(places.len(), |i: int| json::JsonView::Object(s[places[i]].record))
}

fn field_asked(wanted: &Option<String>, has: &Option<String>) -> (r: bool)
    ensures
        r == asked(chat_store::opt_text(*wanted), chat_store::opt_text(*has)),
{
    match wanted {
        None => true,
        Some(w) => match has {
            None => false,
            Some(h) => *w == *h,
        },
    }
}

/// The places of the threads that a list shows, new ones first.
fn places_of_threads(tables: &ChatTables, filter: &ThreadFilter) -> (r: Vec<usize>)
    ensures
        thread_places(tables@.threads, filter@, r@.map_values(|p: usize| p as int)),
        forall|k: int| 0 <= k < r@.len() ==> #[trigger] r@[k] < tables.threads@.len(),
{
    let ghost s = tables@.threads;
    let ghost keep = thread_shown(s, filter@);
    let ghost key = thread_key(s);
    let mut keys: Vec<SortKey> = Vec::new();
    let mut i: usize = 0;
    assert(order::keys_view(keys@) =~= Seq::empty());
    while i < tables.threads.len()
        invariant
            i <= tables.threads@.len(),
            s == tables@.threads,
            keep == thread_shown(s, filter@),
            key == thread_key(s),
            order::keys_of(order::keys_view(keys@), i as int, keep, key),
        decreases tables.threads@.len() - i,
    {
        let row = &tables.threads[i];
        assert(s[i as int] == row@);
        let ghost before = order::keys_view(keys@);
        proof {
            order::lemma_keys_grow(before, i as int, keep, key);
        }
        if (filter.include_archived || !row.archived) && field_asked(
            &filter.model_type,
            &row.model_type,
        ) && field_asked(&filter.pair_id, &row.pair_id) && field_asked(
            &filter.project_id,
            &row.project_id,
        ) {
            let item = SortKey { rank: -(row.created_at as i128), name: row.id.clone(), at: i };
            assert(item@ =~= key(i as int));
            keys.push(item);
            assert(order::keys_view(keys@) =~= before.push(key(i as int)));
        }
        i += 1;
    }
    let r = sorted_places(keys, Ghost(i as int), Ghost(keep), Ghost(key));
    assert forall|k: int| 0 <= k < r@.len() implies #[trigger] r@[k] < tables.threads@.len() by {
        assert(r@.map_values(|p: usize| p as int)[k] == r@[k]);
    }
    r
}

/// The threads that a filter lets through, new ones first.
pub fn list_threads(tables: &ChatTables, filter: &ThreadFilter) -> (r: Vec<Json>)
    ensures
        exists|places: Seq<int>| #[trigger]
            thread_places(tables@.threads, filter@, places) && chat_store::records_view(r@)
                == thread_records(tables@.threads, places),
{
    let places = places_of_threads(tables, filter);
    let ghost at = places@.map_values(|p: usize| p as int);
    let mut out: Vec<Json> = Vec::new();
    let mut i: usize = 0;
    while i < places.len()
        invariant
            i <= places@.len(),
            at == places@.map_values(|p: usize| p as int),
            forall|k: int| 0 <= k < places@.len() ==> #[trigger] places@[k] < tables.threads@.len(),
            out@.len() == i,
            forall|k: int|
                0 <= k < i ==> (#[trigger] out@[k])@ == json::JsonView::Object(
                    tables@.threads[at[k]].record,
                ),
        decreases places@.len() - i,
    {
        let row = &tables.threads[places[i]];
        assert(tables@.threads[at[i as int]] == row@);
        out.push(Json::Object(row.record.duplicate()));
        i += 1;
    }
    assert(chat_store::records_view(out@) =~= thread_records(tables@.threads, at));
    out
}

/// How many threads there are, archived ones among them.
pub fn count_threads(tables: &ChatTables) -> (r: u64)
    ensures
        r == tables@.threads.len(),
{
    tables.threads.len() as u64
}

// ---------- messages ----------

pub open spec fn of_thread(s: Seq<chat_store::MessageView>, thread_id: Seq<char>) -> spec_fn(
    int,
) -> bool {
    |i: int| s[i].thread_id == thread_id
}

/// By the time of creation; messages of the same time in the order of storing.
pub open spec fn message_key(s: Seq<chat_store::MessageView>) -> spec_fn(int) -> order::KeyView {
    |i: int| order::KeyView { rank: s[i].created_at as int, name: ""@, at: i }
}

/// The places of a thread's messages, in the order of creation.
pub open spec fn message_places(
    s: Seq<chat_store::MessageView>,
    thread_id: Seq<char>,
    places: Seq<int>,
) -> bool {
    order::lists(places, s.len() as int, of_thread(s, thread_id), message_key(s))
}

pub open spec fn message_records(s: Seq<chat_store::MessageView>, places: Seq<int>) -> Seq<
    json::JsonView,
> {
    Seq::new(places.len(), |i: int| json::JsonView::Object(s[places[i]].record))
}

/// Whether these are the messages of a thread, in the order of creation.
pub open spec fn messages_of(
    s: Seq<chat_store::MessageView>,
    thread_id: Seq<char>,
    out: Seq<json::JsonView>,
) -> bool {
    exists|places: Seq<int>| #[trigger]
        message_places(s, thread_id, places) && out == message_records(s, places)
}

/// The messages of a thread, in the order of creation.
pub open spec fn thread_messages(s: Seq<chat_store::MessageView>, thread_id: Seq<char>) -> Seq<
    json::JsonView,
> {
    choose|out: Seq<json::JsonView>| messages_of(s, thread_id, out)
}

/// A thread has one list of messages.
pub proof fn law_message_list_is_unique(
    s: Seq<chat_store::MessageView>,
    thread_id: Seq<char>,
    out: Seq<json::JsonView>,
)
    requires
        messages_of(s, thread_id, out),
    ensures
        thread_messages(s, thread_id) == out,
        messages_of(s, thread_id, thread_messages(s, thread_id)),
{
    let other = thread_messages(s, thread_id);
    assert(messages_of(s, thread_id, other));
    let a = choose|places: Seq<int>| #[trigger]
        message_places(s, thread_id, places) && out == message_records(s, places);
    let b = choose|places: Seq<int>| #[trigger]
        message_places(s, thread_id, places) && other == message_records(s, places);
    order::law_list_is_unique(a, b, s.len() as int, of_thread(s, thread_id), message_key(s));
}

/// The messages of a thread, in the order of creation.
pub fn list_messages(tables: &ChatTables, thread_id: &str) -> (r: Vec<Json>)
    ensures
        chat_store::records_view(r@) == thread_messages(tables@.messages, thread_id@),
        messages_of(tables@.messages, thread_id@, chat_store::records_view(r@)),
{
    list_rows(&tables.messages, thread_id)
}

/// The messages of a thread that a request names.
pub fn messages_of_thread(tables: &ChatTables, thread_id: &str) -> (r: ChatResult<Vec<Json>>)
    ensures
        match chat_store::thread_record(tables@, thread_id@) {
            Some(_) => r is Ok && chat_store::records_view(r->Ok_0@) == thread_messages(
                tables@.messages,
                thread_id@,
            ),
            None => r is Err && r->Err_0@ == chat_store::ChatErrorView::NotFound(
                "тред "@ + thread_id@,
            ),
        },
{
    if get_thread(tables, thread_id).is_none() {
        return Err(ChatError::NotFound(text::join2("тред ", thread_id)));
    }
    Ok(list_messages(tables, thread_id))
}

/// The messages of a thread among these, in the order of creation.
pub(crate) fn list_rows(messages: &Vec<MessageRow>, thread_id: &str) -> (r: Vec<Json>)
    ensures
        chat_store::records_view(r@) == thread_messages(
            chat_store::messages_view(messages@),
            thread_id@,
        ),
        messages_of(
            chat_store::messages_view(messages@),
            thread_id@,
            chat_store::records_view(r@),
        ),
{
    let ghost s = chat_store::messages_view(messages@);
    let ghost keep = of_thread(s, thread_id@);
    let ghost key = message_key(s);
    let mut keys: Vec<SortKey> = Vec::new();
    let mut i: usize = 0;
    assert(order::keys_view(keys@) =~= Seq::empty());
    while i < messages.len()
        invariant
            i <= messages@.len(),
            s == chat_store::messages_view(messages@),
            keep == of_thread(s, thread_id@),
            key == message_key(s),
            order::keys_of(order::keys_view(keys@), i as int, keep, key),
        decreases messages@.len() - i,
    {
        let row = &messages[i];
        assert(s[i as int] == row@);
        let ghost before = order::keys_view(keys@);
        proof {
            order::lemma_keys_grow(before, i as int, keep, key);
        }
        if text::same(row.thread_id.as_str(), thread_id) {
            let item = SortKey { rank: row.created_at as i128, name: "".to_owned(), at: i };
            assert(item@ =~= key(i as int));
            keys.push(item);
            assert(order::keys_view(keys@) =~= before.push(key(i as int)));
        }
        i += 1;
    }
    let places = sorted_places(keys, Ghost(i as int), Ghost(keep), Ghost(key));
    let ghost at = places@.map_values(|p: usize| p as int);
    let mut out: Vec<Json> = Vec::new();
    let mut j: usize = 0;
    while j < places.len()
        invariant
            j <= places@.len(),
            at == places@.map_values(|p: usize| p as int),
            s == chat_store::messages_view(messages@),
            message_places(s, thread_id@, at),
            out@.len() == j,
            forall|k: int|
                0 <= k < j ==> (#[trigger] out@[k])@ == json::JsonView::Object(s[at[k]].record),
        decreases places@.len() - j,
    {
        assert(at[j as int] == places@[j as int]);
        let row = &messages[places[j]];
        assert(s[at[j as int]] == row@);
        out.push(Json::Object(row.record.duplicate()));
        j += 1;
    }
    assert(chat_store::records_view(out@) =~= message_records(s, at));
    proof {
        law_message_list_is_unique(s, thread_id@, chat_store::records_view(out@));
    }
    out
}

// ---------- projects ----------

pub open spec fn project_shown(
    s: Seq<chat_store::ProjectView>,
    include_archived: bool,
) -> spec_fn(int) -> bool {
    |i: int| include_archived || !s[i].archived
}

pub open spec fn project_key(s: Seq<chat_store::ProjectView>) -> spec_fn(int) -> order::KeyView {
    |i: int| order::KeyView { rank: -(s[i].created_at as int), name: s[i].id, at: i }
}

/// The places of the projects that a list shows, in its order.
pub open spec fn project_places(
    s: Seq<chat_store::ProjectView>,
    include_archived: bool,
    places: Seq<int>,
) -> bool {
    order::lists(places, s.len() as int, project_shown(s, include_archived), project_key(s))
}

pub open spec fn project_records(s: Seq<chat_store::ProjectView>, places: Seq<int>) -> Seq<
    json::JsonView,
> {
    Seq::new(places.len(), |i: int| json::JsonView::Object(s[places[i]].record))
}

/// The projects, new ones first.
pub fn list_projects(tables: &ChatTables, include_archived: bool) -> (r: Vec<Json>)
    ensures
        exists|places: Seq<int>| #[trigger]
            project_places(tables@.projects, include_archived, places)
                && chat_store::records_view(r@) == project_records(tables@.projects, places),
{
    let ghost s = tables@.projects;
    let ghost keep = project_shown(s, include_archived);
    let ghost key = project_key(s);
    let mut keys: Vec<SortKey> = Vec::new();
    let mut i: usize = 0;
    assert(order::keys_view(keys@) =~= Seq::empty());
    while i < tables.projects.len()
        invariant
            i <= tables.projects@.len(),
            s == tables@.projects,
            keep == project_shown(s, include_archived),
            key == project_key(s),
            order::keys_of(order::keys_view(keys@), i as int, keep, key),
        decreases tables.projects@.len() - i,
    {
        let row = &tables.projects[i];
        assert(s[i as int] == row@);
        let ghost before = order::keys_view(keys@);
        proof {
            order::lemma_keys_grow(before, i as int, keep, key);
        }
        if include_archived || !row.archived {
            let item = SortKey { rank: -(row.created_at as i128), name: row.id.clone(), at: i };
            assert(item@ =~= key(i as int));
            keys.push(item);
            assert(order::keys_view(keys@) =~= before.push(key(i as int)));
        }
        i += 1;
    }
    let places = sorted_places(keys, Ghost(i as int), Ghost(keep), Ghost(key));
    let ghost at = places@.map_values(|p: usize| p as int);
    let mut out: Vec<Json> = Vec::new();
    let mut j: usize = 0;
    while j < places.len()
        invariant
            j <= places@.len(),
            at == places@.map_values(|p: usize| p as int),
            s == tables@.projects,
            project_places(s, include_archived, at),
            out@.len() == j,
            forall|k: int|
                0 <= k < j ==> (#[trigger] out@[k])@ == json::JsonView::Object(s[at[k]].record),
        decreases places@.len() - j,
    {
        assert(at[j as int] == places@[j as int]);
        let row = &tables.projects[places[j]];
        assert(s[at[j as int]] == row@);
        out.push(Json::Object(row.record.duplicate()));
        j += 1;
    }
    assert(chat_store::records_view(out@) =~= project_records(s, at));
    out
}

} // verus!
