//! What the statistics of a profile read: the facts of all threads, messages and runs.

use vstd::prelude::*;

use crate::chat_store;
use crate::chat_store::{str_field, time_field, ChatTables};
use crate::json;
use crate::json::JsonObject;
use crate::profile_stats;
use crate::profile_stats::{MessageFacts, RunFacts, ThreadFacts};
use crate::training_session;
use crate::training_session::TrainingRunSummary;

verus! {

/// What a thread's record tells; none without an id.
pub open spec fn thread_fact(o: json::Fields) -> Option<profile_stats::ThreadView> {
    match json::text_of(json::field(o, "id"@)) {
        Some(id) => Some(
            profile_stats::ThreadView {
                id,
                title: json::text_of(json::field(o, "title"@)),
                model_id: json::text_of(json::field(o, "modelId"@)),
            },
        ),
        None => None,
    }
}

/// The facts of the first `n` threads.
pub open spec fn thread_facts(s: Seq<chat_store::ThreadView>, n: int) -> Seq<
    profile_stats::ThreadView,
>
    decreases n,
{
    if n <= 0 {
        Seq::empty()
    } else {
        let before = thread_facts(s, n - 1);
        match thread_fact(s[n - 1].record) {
            Some(f) => before.push(f),
            None => before,
        }
    }
}

/// What a message's record tells; none without a time.
pub open spec fn message_fact(m: chat_store::MessageView) -> Option<profile_stats::Fact> {
    match json::i64_of(json::field(m.record, "createdAt"@)) {
        Some(raw) => Some(
            profile_stats::Fact {
                thread: m.thread_id,
                role: match json::text_of(json::field(m.record, "role"@)) {
                    Some(s) => s,
                    None => ""@,
                },
                ms: profile_stats::spec_created_at_ms(raw),
            },
        ),
        None => None,
    }
}

/// The facts of the first `n` messages.
pub open spec fn message_facts(s: Seq<chat_store::MessageView>, n: int) -> Seq<profile_stats::Fact>
    decreases n,
{
    if n <= 0 {
        Seq::empty()
    } else {
        let before = message_facts(s, n - 1);
        match message_fact(s[n - 1]) {
            Some(f) => before.push(f),
            None => before,
        }
    }
}

fn text_field(record: &JsonObject, key: &str) -> (r: Option<String>)
    ensures
        chat_store::opt_text(r) == json::text_of(json::field(record@, key@)),
{
    match str_field(record, key) {
        Some(s) => Some(s.to_owned()),
        None => None,
    }
}

/// The facts of all threads, archived ones too.
pub fn all_threads(tables: &ChatTables) -> (r: Vec<ThreadFacts>)
    ensures
        profile_stats::threads_view(r@) == thread_facts(
            tables@.threads,
            tables@.threads.len() as int,
        ),
{
    let ghost view = tables@.threads;
    let mut out: Vec<ThreadFacts> = Vec::new();
    let mut i: usize = 0;
    assert(profile_stats::threads_view(out@) =~= Seq::empty());
    while i < tables.threads.len()
        invariant
            i <= tables.threads@.len(),
            view == tables@.threads,
            view.len() == tables.threads@.len(),
            profile_stats::threads_view(out@) == thread_facts(view, i as int),
        decreases tables.threads@.len() - i,
    {
        assert(view[i as int] == tables.threads@[i as int]@);
        let record = &tables.threads[i].record;
        if let Some(id) = text_field(record, "id") {
            let ghost before = profile_stats::threads_view(out@);
            let fact = ThreadFacts {
                id,
                title: text_field(record, "title"),
                model_id: text_field(record, "modelId"),
            };
            let ghost item = fact@;
            out.push(fact);
            assert(profile_stats::threads_view(out@) =~= before.push(item));
        }
        i += 1;
    }
    out
}

/// The facts of all messages that have a time.
pub fn all_messages(tables: &ChatTables) -> (r: Vec<MessageFacts>)
    ensures
        profile_stats::facts_view(r@) == message_facts(
            tables@.messages,
            tables@.messages.len() as int,
        ),
{
    let ghost view = tables@.messages;
    let mut out: Vec<MessageFacts> = Vec::new();
    let mut i: usize = 0;
    assert(profile_stats::facts_view(out@) =~= Seq::empty());
    while i < tables.messages.len()
        invariant
            i <= tables.messages@.len(),
            view == tables@.messages,
            view.len() == tables.messages@.len(),
            profile_stats::facts_view(out@) == message_facts(view, i as int),
        decreases tables.messages@.len() - i,
    {
        assert(view[i as int] == tables.messages@[i as int]@);
        let row = &tables.messages[i];
        if let Some(created_at) = time_field(&row.record, "createdAt") {
            let ghost before = profile_stats::facts_view(out@);
            let role = match text_field(&row.record, "role") {
                Some(s) => s,
                None => "".to_owned(),
            };
            let fact = MessageFacts { thread_id: row.thread_id.clone(), role, created_at };
            let ghost item = fact@;
            out.push(fact);
            assert(profile_stats::facts_view(out@) =~= before.push(item));
        }
        i += 1;
    }
    out
}

/// What a run tells.
pub open spec fn run_fact(r: training_session::RunView) -> profile_stats::RunView {
    profile_stats::RunView {
        status: r.status,
        model: r.model_name,
        dataset: r.dataset_name,
        started_at: r.started_at,
        final_step: r.final_step,
        final_loss: r.final_loss,
        seconds: r.duration_seconds,
    }
}

/// The facts of runs.
pub fn run_facts(runs: &Vec<TrainingRunSummary>) -> (r: Vec<RunFacts>)
    ensures
        r@.len() == runs@.len(),
        forall|i: int| 0 <= i < runs@.len() ==> (#[trigger] r@[i])@ == run_fact(runs@[i]@),
{
    let mut out: Vec<RunFacts> = Vec::new();
    let mut i: usize = 0;
    while i < runs.len()
        invariant
            i <= runs@.len(),
            out@.len() == i,
            forall|k: int| 0 <= k < i ==> (#[trigger] out@[k])@ == run_fact(runs@[k]@),
        decreases runs@.len() - i,
    {
        let run = &runs[i];
        out.push(
            RunFacts {
                status: run.status.clone(),
                model_name: run.model_name.clone(),
                dataset_name: run.dataset_name.clone(),
                started_at: run.started_at.clone(),
                final_step: run.final_step,
                final_loss: run.final_loss,
                duration_seconds: run.duration_seconds,
            },
        );
        i += 1;
    }
    out
}

} // verus!
