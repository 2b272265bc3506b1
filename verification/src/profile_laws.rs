//! What the statistics of a profile count: which messages are in the window, the rows of active days, and
//! the sums of the training runs.

use vstd::prelude::*;

use crate::calendar;
use crate::chat_store;
use crate::json;
use crate::profile_facts;
use crate::profile_stats;
use crate::text;

verus! {

/// Times in seconds are read as such, those in milliseconds as they are: a number below a hundred
/// thousand million is one of seconds.
pub proof fn law_times_in_seconds(raw: i64)
    requires
        raw >= 0,
    ensures
        raw < 100_000_000_000 ==> profile_stats::spec_created_at_ms(raw) == raw * 1000,
        raw >= 100_000_000_000 ==> profile_stats::spec_created_at_ms(raw) == raw,
{
}

/// A message counts from its thread, its role and its time; one without a time does not.
pub proof fn law_message_that_counts(m: chat_store::MessageView)
    ensures
        match profile_facts::message_fact(m) {
            Some(f) => {
                &&& json::i64_of(json::field(m.record, "createdAt"@)) matches Some(raw) && f.ms
                    == profile_stats::spec_created_at_ms(raw)
                &&& f.thread == m.thread_id
                &&& json::field(m.record, "role"@) matches Some(json::JsonView::Text(role)) ==> f.role
                    == role
                &&& !(json::field(m.record, "role"@) matches Some(json::JsonView::Text(_)))
                    ==> f.role.len() == 0
            },
            None => json::i64_of(json::field(m.record, "createdAt"@)) is None,
        },
{
    reveal_strlit("");
}

/// A thread is known by its id; its title and its model are those of its record.
pub proof fn law_thread_that_counts(o: json::Fields)
    ensures
        match profile_facts::thread_fact(o) {
            Some(t) => {
                &&& json::field(o, "id"@) == Some(json::JsonView::Text(t.id))
                &&& json::field(o, "title"@) matches Some(json::JsonView::Text(title)) ==> t.title
                    == Some(title)
                &&& json::field(o, "modelId"@) matches Some(json::JsonView::Text(model))
                    ==> t.model_id == Some(model)
            },
            None => !(json::field(o, "id"@) matches Some(json::JsonView::Text(_))),
        },
{
}

proof fn lemma_window(
    facts: Seq<profile_stats::Fact>,
    tz: int,
    start: int,
    n: int,
)
    requires
        0 <= n <= facts.len(),
    ensures
        forall|f: profile_stats::Fact| #[trigger]
            profile_stats::in_window(facts, tz, start, n).contains(f) <==> facts.take(n).contains(f)
                && profile_stats::fact_day(f, tz) >= start,
    decreases n,
{
    let window = profile_stats::in_window(facts, tz, start, n);
    if n > 0 {
        lemma_window(facts, tz, start, n - 1);
        let before = profile_stats::in_window(facts, tz, start, n - 1);
        let last = facts[n - 1];
        assert(facts.take(n) =~= facts.take(n - 1).push(last));
        assert forall|f: profile_stats::Fact| #[trigger]
            window.contains(f) <==> facts.take(n).contains(f) && profile_stats::fact_day(f, tz)
                >= start by {
            vstd::seq_lib::lemma_seq_contains_after_push(facts.take(n - 1), last, f);
            vstd::seq_lib::lemma_seq_contains_after_push(before, last, f);
        }
    } else {
        assert(facts.take(0) =~= Seq::empty());
    }
}

/// The statistics count the messages of the last thirty days, today included, and no others.
pub proof fn law_window_of_thirty_days(
    s: profile_stats::ProfileStats,
    threads: Seq<profile_stats::ThreadView>,
    facts: Seq<profile_stats::Fact>,
    tz: int,
    now_ms: int,
    f: profile_stats::Fact,
)
    requires
        profile_stats::stats_ok(s, threads, facts, tz, now_ms),
    ensures
        ({
            let today = calendar::spec_local_day(now_ms, tz);
            let window = profile_stats::in_window(facts, tz, today - 29, facts.len() as int);
            &&& s.messages == window.len()
            &&& window.contains(f) <==> facts.contains(f) && calendar::spec_local_day(
                f.ms as int,
                tz,
            ) >= today - 29
        }),
{
    let today = calendar::spec_local_day(now_ms, tz);
    lemma_window(facts, tz, today - 29, facts.len() as int);
    assert(facts.take(facts.len() as int) =~= facts);
}

/// Messages of the user and of the assistant are counted by their role, each once.
pub proof fn law_messages_are_counted_by_role(
    facts: Seq<profile_stats::Fact>,
    f: profile_stats::Fact,
    role: Seq<char>,
)
    ensures
        profile_stats::count_if(Seq::empty(), profile_stats::of_role(role), 0) == 0,
        profile_stats::count_if(
            facts.push(f),
            profile_stats::of_role(role),
            (facts.len() + 1) as int,
        ) == profile_stats::count_if(facts, profile_stats::of_role(role), facts.len() as int) + if f.role
            == role {
            1int
        } else {
            0int
        },
{
    lemma_counted_before(facts, f, profile_stats::of_role(role), facts.len() as int);
}

proof fn lemma_counted_before(
    facts: Seq<profile_stats::Fact>,
    f: profile_stats::Fact,
    p: spec_fn(profile_stats::Fact) -> bool,
    n: int,
)
    requires
        0 <= n <= facts.len(),
    ensures
        profile_stats::count_if(facts.push(f), p, n) == profile_stats::count_if(facts, p, n),
    decreases n,
{
    if n > 0 {
        lemma_counted_before(facts, f, p, n - 1);
    }
}

/// The user's and the assistant's messages are those of the roles `user` and `assistant`.
pub proof fn law_roles(
    s: profile_stats::ProfileStats,
    threads: Seq<profile_stats::ThreadView>,
    facts: Seq<profile_stats::Fact>,
    tz: int,
    now_ms: int,
)
    requires
        profile_stats::stats_ok(s, threads, facts, tz, now_ms),
    ensures
        ({
            let today = calendar::spec_local_day(now_ms, tz);
            let window = profile_stats::in_window(facts, tz, today - 29, facts.len() as int);
            let n = window.len() as int;
            &&& s.user_messages == profile_stats::count_if(window, profile_stats::of_role("user"@), n)
            &&& s.assistant_messages == profile_stats::count_if(
                window,
                profile_stats::of_role("assistant"@),
                n,
            )
            &&& s.user_messages + s.assistant_messages <= s.messages
            &&& s.active_days == s.daily@.len()
        }),
{
    let today = calendar::spec_local_day(now_ms, tz);
    let window = profile_stats::in_window(facts, tz, today - 29, facts.len() as int);
    reveal_strlit("user");
    reveal_strlit("assistant");
    assert("user"@.len() != "assistant"@.len());
    lemma_two_roles(window, "user"@, "assistant"@, window.len() as int);
}

proof fn lemma_two_roles(facts: Seq<profile_stats::Fact>, a: Seq<char>, b: Seq<char>, n: int)
    requires
        a != b,
        0 <= n <= facts.len(),
    ensures
        profile_stats::count_if(facts, profile_stats::of_role(a), n) + profile_stats::count_if(
            facts,
            profile_stats::of_role(b),
            n,
        ) <= n,
    decreases n,
{
    if n > 0 {
        lemma_two_roles(facts, a, b, n - 1);
    }
}

// ---------- rows of days ----------

proof fn lemma_longest_is_some_run(days: Seq<i64>, n: int)
    requires
        1 <= n <= days.len(),
    ensures
        exists|k: int|
            0 <= k < n && #[trigger] profile_stats::run_at(days, k) == profile_stats::longest_run(
                days,
                n,
            ),
    decreases n,
{
    if n == 1 {
        assert(profile_stats::longest_run(days, 0) == 0);
        assert(profile_stats::run_at(days, 0) == profile_stats::longest_run(days, 1));
    } else {
        lemma_longest_is_some_run(days, n - 1);
        let k = choose|k: int|
            0 <= k < n - 1 && #[trigger] profile_stats::run_at(days, k)
                == profile_stats::longest_run(days, n - 1);
        assert(profile_stats::run_at(days, k) == profile_stats::longest_run(days, n - 1));
        if profile_stats::run_at(days, n - 1) > profile_stats::longest_run(days, n - 1) {
            assert(profile_stats::run_at(days, n - 1) == profile_stats::longest_run(days, n));
        }
    }
}

/// The longest row of active days is one: it has no gap, the days before it were not active, and no row
/// without a gap is longer.
pub proof fn law_longest_streak_is_the_longest(days: Seq<i64>, last: int, len: int)
    requires
        profile_stats::rising(days),
        days.len() > 0,
    ensures
        exists|k: int|
            0 <= k < days.len() && profile_stats::gapless(
                days,
                #[trigger] days[k] as int,
                profile_stats::longest_run(days, days.len() as int),
            ),
        profile_stats::gapless(days, last, len) ==> len <= profile_stats::longest_run(
            days,
            days.len() as int,
        ),
{
    let n = days.len() as int;
    lemma_longest_is_some_run(days, n);
    let k = choose|k: int|
        0 <= k < n && #[trigger] profile_stats::run_at(days, k) == profile_stats::longest_run(
            days,
            n,
        );
    profile_stats::lemma_run_is_gapless(days, k);
    assert(profile_stats::gapless(days, days[k] as int, profile_stats::longest_run(days, n)));
    if profile_stats::gapless(days, last, len) {
        assert(profile_stats::active(days, last));
        let j = choose|j: int| 0 <= j < days.len() && #[trigger] days[j] == last;
        profile_stats::lemma_run_is_gapless(days, j);
        let r = profile_stats::run_at(days, j);
        if r < len {
            assert(profile_stats::active(days, last - r));
        }
        profile_stats::lemma_longest_is_at_least(days, j, n);
    }
}

// ---------- chats ----------

/// The time that a chat lasted is from its first message to its last.
pub proof fn law_first_and_last_message(
    facts: Seq<profile_stats::Fact>,
    thread: Seq<char>,
    n: int,
    k: int,
)
    requires
        0 <= k < n <= facts.len(),
        facts[k].thread == thread,
    ensures
        profile_stats::first_ms(facts, thread, n) matches Some(a) && a <= facts[k].ms,
        profile_stats::last_ms(facts, thread, n) matches Some(b) && facts[k].ms <= b,
        exists|i: int|
            0 <= i < n && (#[trigger] facts[i]).thread == thread && profile_stats::first_ms(
                facts,
                thread,
                n,
            ) == Some(facts[i].ms as int),
        exists|i: int|
            0 <= i < n && (#[trigger] facts[i]).thread == thread && profile_stats::last_ms(
                facts,
                thread,
                n,
            ) == Some(facts[i].ms as int),
    decreases n,
{
    if k < n - 1 {
        law_first_and_last_message(facts, thread, n - 1, k);
        let i = choose|i: int|
            0 <= i < n - 1 && (#[trigger] facts[i]).thread == thread && profile_stats::first_ms(
                facts,
                thread,
                n - 1,
            ) == Some(facts[i].ms as int);
        let j = choose|j: int|
            0 <= j < n - 1 && (#[trigger] facts[j]).thread == thread && profile_stats::last_ms(
                facts,
                thread,
                n - 1,
            ) == Some(facts[j].ms as int);
        assert(facts[i].thread == thread && facts[j].thread == thread);
        assert(facts[n - 1] == facts[n - 1]);
    } else if exists|m: int| 0 <= m < n - 1 && (#[trigger] facts[m]).thread == thread {
        let m = choose|m: int| 0 <= m < n - 1 && (#[trigger] facts[m]).thread == thread;
        law_first_and_last_message(facts, thread, n - 1, m);
        let i = choose|i: int|
            0 <= i < n - 1 && (#[trigger] facts[i]).thread == thread && profile_stats::first_ms(
                facts,
                thread,
                n - 1,
            ) == Some(facts[i].ms as int);
        let j = choose|j: int|
            0 <= j < n - 1 && (#[trigger] facts[j]).thread == thread && profile_stats::last_ms(
                facts,
                thread,
                n - 1,
            ) == Some(facts[j].ms as int);
        assert(facts[i].thread == thread && facts[j].thread == thread);
        assert(facts[n - 1].thread == thread);
    } else {
        lemma_no_message(facts, thread, n - 1);
        assert(facts[n - 1].thread == thread);
    }
}

proof fn lemma_no_message(facts: Seq<profile_stats::Fact>, thread: Seq<char>, n: int)
    requires
        0 <= n <= facts.len(),
        forall|m: int| 0 <= m < n ==> (#[trigger] facts[m]).thread != thread,
    ensures
        profile_stats::first_ms(facts, thread, n) is None,
        profile_stats::last_ms(facts, thread, n) is None,
    decreases n,
{
    if n > 0 {
        lemma_no_message(facts, thread, n - 1);
    }
}

// ---------- training ----------

proof fn lemma_runs_before(
    runs: Seq<profile_stats::RunView>,
    r: profile_stats::RunView,
    n: int,
)
    requires
        0 <= n <= runs.len(),
    ensures
        profile_stats::completed_runs(runs.push(r), n) == profile_stats::completed_runs(runs, n),
        profile_stats::step_sum(runs.push(r), n) == profile_stats::step_sum(runs, n),
        profile_stats::second_sum(runs.push(r), n) == profile_stats::second_sum(runs, n),
        profile_stats::model_names(runs.push(r), n) == profile_stats::model_names(runs, n),
        profile_stats::dataset_names(runs.push(r), n) == profile_stats::dataset_names(runs, n),
    decreases n,
{
    if n > 0 {
        lemma_runs_before(runs, r, n - 1);
    }
}

/// One run more adds its steps and its seconds, where they are known, and counts as completed only under
/// that status; its model and its dataset count once.
pub proof fn law_runs_add_up(runs: Seq<profile_stats::RunView>, r: profile_stats::RunView)
    ensures
        ({
            let n = runs.len() as int;
            let more = runs.push(r);
            &&& profile_stats::completed_runs(more, n + 1) == profile_stats::completed_runs(runs, n)
                + if r.status == "completed"@ {
                1int
            } else {
                0int
            }
            &&& r.final_step matches Some(steps) ==> profile_stats::step_sum(more, n + 1)
                == profile_stats::step_sum(runs, n) + steps
            &&& r.final_step is None ==> profile_stats::step_sum(more, n + 1)
                == profile_stats::step_sum(runs, n)
            &&& r.seconds matches Some(seconds) ==> profile_stats::second_sum(more, n + 1)
                == profile_stats::second_sum(runs, n) + seconds
            &&& r.seconds is None ==> profile_stats::second_sum(more, n + 1)
                == profile_stats::second_sum(runs, n)
            &&& profile_stats::model_names(more, n + 1) == profile_stats::model_names(runs, n).insert(
                r.model,
            )
            &&& profile_stats::dataset_names(more, n + 1) == profile_stats::dataset_names(
                runs,
                n,
            ).insert(r.dataset)
        }),
{
    lemma_runs_before(runs, r, runs.len() as int);
}

/// The best loss is the smallest number among those of the runs: bits are compared as numbers, so that a
/// negative one is below zero and a number below its double.
pub proof fn law_losses_are_compared_as_numbers(a: u32, b: u32)
    ensures
        a < b < 0x8000_0000 ==> profile_stats::float_rank(a) < profile_stats::float_rank(b),
        0 < a < 0x8000_0000 ==> profile_stats::float_rank((a + 0x8000_0000) as u32) < 0,
        a < 0x8000_0000 ==> profile_stats::float_rank((a + 0x8000_0000) as u32)
            == -profile_stats::float_rank(a),
        profile_stats::float_rank(0) == 0,
{
}

/// At most five runs are listed, the latest first.
pub proof fn law_five_latest_runs(
    recent: Seq<usize>,
    runs: Seq<profile_stats::RunView>,
    i: int,
    j: int,
)
    requires
        profile_stats::recent_ok(recent, runs, runs.len() as int),
        0 <= i < j < recent.len(),
    ensures
        recent.len() <= 5,
        runs.len() >= 5 ==> recent.len() == 5,
        runs.len() < 5 ==> recent.len() == runs.len(),
        text::before(
            runs[recent[j] as int].started_at,
            runs[recent[i] as int].started_at,
        ) || runs[recent[i] as int].started_at == runs[recent[j] as int].started_at,
{
    assert(profile_stats::run_before(runs, recent[i] as int, recent[j] as int));
}

proof fn lemma_threads_if(
    facts: Seq<profile_stats::Fact>,
    p: spec_fn(profile_stats::Fact) -> bool,
    n: int,
    thread: Seq<char>,
)
    requires
        0 <= n <= facts.len(),
    ensures
        profile_stats::threads_if(facts, p, n).contains(thread) <==> exists|k: int|
            0 <= k < n && (#[trigger] facts[k]).thread == thread && p(facts[k]),
    decreases n,
{
    if n > 0 {
        lemma_threads_if(facts, p, n - 1, thread);
        let before = profile_stats::threads_if(facts, p, n - 1);
        if before.contains(thread) {
            let k = choose|k: int|
                0 <= k < n - 1 && (#[trigger] facts[k]).thread == thread && p(facts[k]);
            assert(facts[k].thread == thread && p(facts[k]));
        }
        if p(facts[n - 1]) && facts[n - 1].thread == thread {
            assert(facts[n - 1].thread == thread);
        }
    }
}

/// A thread counts where one of its messages does: of the whole window, or of a day.
pub proof fn law_threads_with_messages_count(
    facts: Seq<profile_stats::Fact>,
    thread: Seq<char>,
    tz: int,
    day: int,
)
    ensures
        profile_stats::threads_if(facts, profile_stats::any_fact(), facts.len() as int).contains(thread)
            <==> exists|k: int| 0 <= k < facts.len() && (#[trigger] facts[k]).thread == thread,
        profile_stats::threads_if(facts, profile_stats::of_day(tz, day), facts.len() as int).contains(
            thread,
        ) <==> exists|k: int|
            0 <= k < facts.len() && (#[trigger] facts[k]).thread == thread && profile_stats::fact_day(
                facts[k],
                tz,
            ) == day,
{
    lemma_threads_if(facts, profile_stats::any_fact(), facts.len() as int, thread);
    lemma_threads_if(facts, profile_stats::of_day(tz, day), facts.len() as int, thread);
    let any = profile_stats::any_fact();
    let of_day = profile_stats::of_day(tz, day);
    assert forall|k: int| 0 <= k < facts.len() implies any(#[trigger] facts[k]) by {}
    assert forall|k: int| 0 <= k < facts.len() implies (of_day(#[trigger] facts[k])
        <==> profile_stats::fact_day(facts[k], tz) == day) by {}
}

/// No chat has more messages than the longest; of those with as many none lasted longer.
pub proof fn law_longest_chat_has_the_most_messages(
    chat: profile_stats::LongestChat,
    facts: Seq<profile_stats::Fact>,
    threads: Seq<profile_stats::ThreadView>,
    k: int,
)
    requires
        profile_stats::longest_chat_ok(Some(chat), facts, threads),
        0 <= k < facts.len(),
    ensures
        profile_stats::chat_size(facts, facts[k].thread) <= chat.messages,
        profile_stats::chat_size(facts, facts[k].thread) == chat.messages
            ==> profile_stats::chat_span(facts, facts[k].thread) <= profile_stats::chat_span(
            facts,
            chat.thread_id@,
        ),
        chat.seconds == profile_stats::chat_span(facts, chat.thread_id@) / 1000,
{
    assert(profile_stats::chat_at_most(facts, facts[k].thread, chat.thread_id@));
}

} // verus!
