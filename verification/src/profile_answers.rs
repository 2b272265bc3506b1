//! The statistics of a profile as the interface gets them. Tokens are not counted yet.

use vstd::prelude::*;

use crate::answers;
use crate::answers::{maybe_double, maybe_text, number, push_row};
use crate::json;
use crate::json::{from_i64, from_str, Json, JsonObject};
use crate::profile_stats::{
    DailyStat, LongestChat, ModelStat, ProfileStats, TrainingStats, STATS_WINDOW_DAYS,
};
use crate::training_session;
use crate::training_session::TrainingRunSummary;

verus! {

// ---------- runs of training ----------

/// A run in the list of the latest ones. `loss` holds the bits of its last loss.
pub open spec fn run_row(run: training_session::RunView, loss: Option<u64>) -> json::JsonView {
    let name = match run.display_name {
        Some(name) => name,
        None => run.model_name,
    };
    let steps = match run.final_step {
        Some(n) => n as int,
        None => 0,
    };
    let seconds = match run.duration_seconds {
        Some(n) => n as int,
        None => 0,
    };
    let o = json::with(json::no_fields(), "id"@, answers::word(run.id));
    let o = json::with(o, "name"@, answers::word(name));
    let o = json::with(o, "modelLabel"@, answers::word(run.model_name));
    let o = json::with(o, "datasetLabel"@, answers::word(run.dataset_name));
    let o = json::with(o, "status"@, answers::word(run.status));
    let o = json::with(o, "finalLoss"@, answers::maybe_real(loss));
    let o = json::with(o, "steps"@, answers::count(steps));
    let o = json::with(o, "seconds"@, answers::count(seconds));
    json::JsonView::Object(json::with(o, "startedAt"@, answers::word(run.started_at)))
}

fn row_of_run(run: &TrainingRunSummary, loss: Option<u64>) -> (r: Json)
    ensures
        r@ == run_row(run@, loss),
{
    let name = match &run.display_name {
        Some(name) => name.as_str(),
        None => run.model_name.as_str(),
    };
    let steps: u64 = match run.final_step {
        Some(n) => n as u64,
        None => 0,
    };
    let seconds: u64 = match run.duration_seconds {
        Some(n) => n,
        None => 0,
    };
    let mut o = JsonObject::new();
    o.insert("id", from_str(run.id.as_str()));
    o.insert("name", from_str(name));
    o.insert("modelLabel", from_str(run.model_name.as_str()));
    o.insert("datasetLabel", from_str(run.dataset_name.as_str()));
    o.insert("status", from_str(run.status.as_str()));
    o.insert("finalLoss", maybe_double(loss));
    o.insert("steps", number(steps));
    o.insert("seconds", number(seconds));
    o.insert("startedAt", from_str(run.started_at.as_str()));
    Json::Object(o)
}

pub open spec fn run_rows(
    recent: Seq<usize>,
    runs: Seq<training_session::RunView>,
    losses: Seq<Option<u64>>,
    n: int,
) -> Seq<json::JsonView> {
    Seq::new(n as nat, |k: int| run_row(runs[recent[k] as int], losses[recent[k] as int]))
}

pub open spec fn training_view(
    stats: TrainingStats,
    runs: Seq<training_session::RunView>,
    losses: Seq<Option<u64>>,
    best_loss: Option<u64>,
) -> json::JsonView {
    let recent = run_rows(stats.recent@, runs, losses, stats.recent@.len() as int);
    let o = json::with(json::no_fields(), "runs"@, answers::count(stats.runs as int));
    let o = json::with(o, "completed"@, answers::count(stats.completed as int));
    let o = json::with(o, "steps"@, answers::count(stats.steps as int));
    let o = json::with(o, "tokens"@, answers::count(0));
    let o = json::with(o, "seconds"@, answers::count(stats.seconds as int));
    let o = json::with(o, "models"@, answers::count(stats.models as int));
    let o = json::with(o, "datasets"@, answers::count(stats.datasets as int));
    let o = json::with(o, "bestLoss"@, answers::maybe_real(best_loss));
    json::JsonView::Object(json::with(o, "recent"@, json::JsonView::Array(recent)))
}

/// The statistics of training. `losses` hold the bits of the last loss of each run, `best_loss`
/// those of the best one.
pub fn training_answer(
    stats: &TrainingStats,
    runs: &Vec<TrainingRunSummary>,
    losses: &Vec<Option<u64>>,
    best_loss: Option<u64>,
) -> (r: Json)
    requires
        losses@.len() == runs@.len(),
        forall|k: int| 0 <= k < stats.recent@.len() ==> (#[trigger] stats.recent@[k]) < runs@.len(),
    ensures
        r@ == training_view(*stats, training_session::runs_view(runs@), losses@, best_loss),
{
    let ghost view = training_session::runs_view(runs@);
    let mut rows: Vec<Json> = Vec::new();
    let mut i: usize = 0;
    while i < stats.recent.len()
        invariant
            i <= stats.recent@.len(),
            losses@.len() == runs@.len(),
            forall|k: int|
                0 <= k < stats.recent@.len() ==> (#[trigger] stats.recent@[k]) < runs@.len(),
            view == training_session::runs_view(runs@),
            json::items_view(rows@) == run_rows(stats.recent@, view, losses@, i as int),
        decreases stats.recent@.len() - i,
    {
        let at = stats.recent[i];
        assert(view[at as int] == runs@[at as int]@);
        push_row(&mut rows, row_of_run(&runs[at], losses[at]));
        assert(run_rows(stats.recent@, view, losses@, i + 1) =~= run_rows(
            stats.recent@,
            view,
            losses@,
            i as int,
        ).push(run_row(view[at as int], losses@[at as int])));
        i += 1;
    }
    let mut o = JsonObject::new();
    o.insert("runs", number(stats.runs));
    o.insert("completed", number(stats.completed));
    o.insert("steps", number(stats.steps));
    o.insert("tokens", number(0));
    o.insert("seconds", number(stats.seconds));
    o.insert("models", number(stats.models));
    o.insert("datasets", number(stats.datasets));
    o.insert("bestLoss", maybe_double(best_loss));
    o.insert("recent", Json::Array(rows));
    Json::Object(o)
}

// ---------- the profile ----------

pub open spec fn totals_view(s: ProfileStats) -> json::JsonView {
    let zero = answers::count(0);
    let o = json::with(json::no_fields(), "threads"@, answers::count(s.threads as int));
    let o = json::with(o, "messages"@, answers::count(s.messages as int));
    let o = json::with(o, "userMessages"@, answers::count(s.user_messages as int));
    let o = json::with(o, "assistantMessages"@, answers::count(s.assistant_messages as int));
    let o = json::with(o, "promptTokens"@, zero);
    let o = json::with(o, "completionTokens"@, zero);
    let o = json::with(o, "totalTokens"@, zero);
    let o = json::with(o, "chatPromptTokens"@, zero);
    let o = json::with(o, "chatCompletionTokens"@, zero);
    let o = json::with(o, "chatTokens"@, zero);
    let o = json::with(o, "apiPromptTokens"@, zero);
    let o = json::with(o, "apiCompletionTokens"@, zero);
    let o = json::with(o, "apiTokens"@, zero);
    let o = json::with(o, "cachedTokens"@, zero);
    let o = json::with(o, "toolCalls"@, zero);
    let o = json::with(o, "attachments"@, zero);
    let o = json::with(o, "activeDays"@, answers::count(s.active_days as int));
    json::JsonView::Object(json::with(o, "chatSeconds"@, zero))
}

fn totals(stats: &ProfileStats) -> (r: Json)
    ensures
        r@ == totals_view(*stats),
{
    let mut o = JsonObject::new();
    o.insert("threads", number(stats.threads));
    o.insert("messages", number(stats.messages));
    o.insert("userMessages", number(stats.user_messages));
    o.insert("assistantMessages", number(stats.assistant_messages));
    o.insert("promptTokens", number(0));
    o.insert("completionTokens", number(0));
    o.insert("totalTokens", number(0));
    o.insert("chatPromptTokens", number(0));
    o.insert("chatCompletionTokens", number(0));
    o.insert("chatTokens", number(0));
    o.insert("apiPromptTokens", number(0));
    o.insert("apiCompletionTokens", number(0));
    o.insert("apiTokens", number(0));
    o.insert("cachedTokens", number(0));
    o.insert("toolCalls", number(0));
    o.insert("attachments", number(0));
    o.insert("activeDays", number(stats.active_days));
    o.insert("chatSeconds", number(0));
    Json::Object(o)
}

/// A text that may be missing.
pub open spec fn opt_view(s: Option<String>) -> Option<Seq<char>> {
    match s {
        Some(t) => Some(t@),
        None => None,
    }
}

fn opt_str(s: &Option<String>) -> (r: Option<&str>)
    ensures
        opt_view(*s) == (match r {
            Some(t) => Some(t@),
            None => None,
        }),
{
    match s {
        Some(t) => Some(t.as_str()),
        None => None,
    }
}

pub open spec fn streak_view(s: ProfileStats) -> json::JsonView {
    let o = json::with(json::no_fields(), "current"@, answers::count(s.current_streak as int));
    let o = json::with(o, "longest"@, answers::count(s.longest_streak as int));
    json::JsonView::Object(
        json::with(o, "lastActiveDay"@, answers::maybe_word(opt_view(s.last_active_day))),
    )
}

fn streak(stats: &ProfileStats) -> (r: Json)
    ensures
        r@ == streak_view(*stats),
{
    let mut o = JsonObject::new();
    o.insert("current", number(stats.current_streak));
    o.insert("longest", number(stats.longest_streak));
    o.insert("lastActiveDay", maybe_text(opt_str(&stats.last_active_day)));
    Json::Object(o)
}

pub open spec fn chat_view(chat: Option<LongestChat>) -> json::JsonView {
    match chat {
        Some(c) => {
            let o = json::with(json::no_fields(), "threadId"@, answers::word(c.thread_id@));
            let o = json::with(o, "title"@, answers::maybe_word(opt_view(c.title)));
            let o = json::with(o, "seconds"@, json::whole(c.seconds));
            json::JsonView::Object(json::with(o, "messages"@, answers::count(c.messages as int)))
        },
        None => json::JsonView::Null,
    }
}

fn longest_chat(chat: &Option<LongestChat>) -> (r: Json)
    ensures
        r@ == chat_view(*chat),
{
    match chat {
        Some(c) => {
            let mut o = JsonObject::new();
            o.insert("threadId", from_str(c.thread_id.as_str()));
            o.insert("title", maybe_text(opt_str(&c.title)));
            o.insert("seconds", from_i64(c.seconds));
            o.insert("messages", number(c.messages));
            Json::Object(o)
        },
        None => Json::Null,
    }
}

pub open spec fn day_row(d: DailyStat) -> json::JsonView {
    let o = json::with(json::no_fields(), "date"@, answers::word(d.date@));
    let o = json::with(o, "tokens"@, answers::count(0));
    let o = json::with(o, "messages"@, answers::count(d.messages as int));
    json::JsonView::Object(json::with(o, "chats"@, answers::count(d.chats as int)))
}

pub open spec fn day_rows(s: Seq<DailyStat>, n: int) -> Seq<json::JsonView> {
    Seq::new(n as nat, |k: int| day_row(s[k]))
}

fn daily(days: &Vec<DailyStat>) -> (r: Json)
    ensures
        r@ == json::JsonView::Array(day_rows(days@, days@.len() as int)),
{
    let mut rows: Vec<Json> = Vec::new();
    let mut i: usize = 0;
    while i < days.len()
        invariant
            i <= days@.len(),
            json::items_view(rows@) == day_rows(days@, i as int),
        decreases days@.len() - i,
    {
        let day = &days[i];
        let mut o = JsonObject::new();
        o.insert("date", from_str(day.date.as_str()));
        o.insert("tokens", number(0));
        o.insert("messages", number(day.messages));
        o.insert("chats", number(day.chats));
        push_row(&mut rows, Json::Object(o));
        assert(day_rows(days@, i + 1) =~= day_rows(days@, i as int).push(day_row(days@[i as int])));
        i += 1;
    }
    Json::Array(rows)
}

pub open spec fn model_row(m: ModelStat) -> json::JsonView {
    let o = json::with(json::no_fields(), "id"@, answers::word(m.id@));
    let o = json::with(o, "label"@, answers::word(m.id@));
    let o = json::with(o, "messages"@, answers::count(m.messages as int));
    json::JsonView::Object(json::with(o, "tokens"@, answers::count(0)))
}

pub open spec fn model_rows(s: Seq<ModelStat>, n: int) -> Seq<json::JsonView> {
    Seq::new(n as nat, |k: int| model_row(s[k]))
}

fn models(items: &Vec<ModelStat>) -> (r: Json)
    ensures
        r@ == json::JsonView::Array(model_rows(items@, items@.len() as int)),
{
    let mut rows: Vec<Json> = Vec::new();
    let mut i: usize = 0;
    while i < items.len()
        invariant
            i <= items@.len(),
            json::items_view(rows@) == model_rows(items@, i as int),
        decreases items@.len() - i,
    {
        let model = &items[i];
        let mut o = JsonObject::new();
        o.insert("id", from_str(model.id.as_str()));
        o.insert("label", from_str(model.id.as_str()));
        o.insert("messages", number(model.messages));
        o.insert("tokens", number(0));
        push_row(&mut rows, Json::Object(o));
        assert(model_rows(items@, i + 1) =~= model_rows(items@, i as int).push(
            model_row(items@[i as int]),
        ));
        i += 1;
    }
    Json::Array(rows)
}

/// Nothing is known of the speed of answers yet.
pub open spec fn speed_view() -> json::JsonView {
    let null = json::JsonView::Null;
    let o = json::with(json::no_fields(), "averageTokensPerSecond"@, null);
    let o = json::with(o, "bestTokensPerSecond"@, null);
    let o = json::with(o, "bestTokensPerSecondModel"@, null);
    let o = json::with(o, "averageResponseMs"@, null);
    let o = json::with(o, "averageFirstTokenMs"@, null);
    json::JsonView::Object(json::with(o, "samples"@, answers::count(0)))
}

fn speed() -> (r: Json)
    ensures
        r@ == speed_view(),
{
    let mut o = JsonObject::new();
    o.insert("averageTokensPerSecond", Json::Null);
    o.insert("bestTokensPerSecond", Json::Null);
    o.insert("bestTokensPerSecondModel", Json::Null);
    o.insert("averageResponseMs", Json::Null);
    o.insert("averageFirstTokenMs", Json::Null);
    o.insert("samples", number(0));
    Json::Object(o)
}

pub open spec fn profile_view(s: ProfileStats, training: json::JsonView) -> json::JsonView {
    let days = day_rows(s.daily@, s.daily@.len() as int);
    let rows = model_rows(s.models@, s.models@.len() as int);
    let o = json::with(json::no_fields(), "generatedAt"@, json::whole(s.generated_at));
    let o = json::with(o, "days"@, json::whole(STATS_WINDOW_DAYS));
    let o = json::with(o, "totals"@, totals_view(s));
    let o = json::with(o, "streak"@, streak_view(s));
    let o = json::with(o, "peakDay"@, json::JsonView::Null);
    let o = json::with(o, "longestChat"@, chat_view(s.longest_chat));
    let o = json::with(o, "daily"@, json::JsonView::Array(days));
    let o = json::with(o, "models"@, json::JsonView::Array(rows));
    let o = json::with(o, "speed"@, speed_view());
    json::JsonView::Object(json::with(o, "training"@, training))
}

/// The statistics of a profile, with those of training.
pub fn profile_answer(stats: &ProfileStats, training: Json) -> (r: Json)
    ensures
        r@ == profile_view(*stats, training@),
{
    let mut o = JsonObject::new();
    o.insert("generatedAt", from_i64(stats.generated_at));
    o.insert("days", from_i64(STATS_WINDOW_DAYS));
    o.insert("totals", totals(stats));
    o.insert("streak", streak(stats));
    o.insert("peakDay", Json::Null);
    o.insert("longestChat", longest_chat(&stats.longest_chat));
    o.insert("daily", daily(&stats.daily));
    o.insert("models", models(&stats.models));
    o.insert("speed", speed());
    o.insert("training", training);
    Json::Object(o)
}

} // verus!
