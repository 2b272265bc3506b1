//! Statistics of a profile: messages of the last 30 days, rows of active days, training runs.

use vstd::prelude::*;

use crate::calendar;
use crate::calendar::{date_string, local_day};
use crate::text;

verus! {

/// The window of the statistics in days.
pub const STATS_WINDOW_DAYS: i64 = 30;

/// How many of the latest training runs are shown.
pub const RECENT_RUNS_LIMIT: usize = 5;

/// Times below this are seconds, not milliseconds.
pub const MILLIS_THRESHOLD: i64 = 100_000_000_000;

#[derive(Debug)]
pub struct ProfileStatsQuery {
    /// Offset of the browser's time zone in minutes: UTC minus local time.
    pub tz_offset_minutes: i64,
}

/// What the statistics need of a thread.
#[derive(Debug)]
pub struct ThreadFacts {
    pub id: String,
    pub title: Option<String>,
    pub model_id: Option<String>,
}

/// What the statistics need of a message; messages without a time are left out.
#[derive(Debug)]
pub struct MessageFacts {
    pub thread_id: String,
    pub role: String,
    /// Seconds or milliseconds since 1970.
    pub created_at: i64,
}

/// What the statistics need of a training run. Losses are 32-bit floating-point values, held as
/// their bits.
#[derive(Debug)]
pub struct RunFacts {
    pub status: String,
    pub model_name: String,
    pub dataset_name: String,
    pub started_at: String,
    pub final_step: Option<u32>,
    pub final_loss: Option<u32>,
    pub duration_seconds: Option<u64>,
}

#[derive(Debug)]
pub struct DailyStat {
    pub date: String,
    pub messages: u64,
    pub chats: u64,
}

#[derive(Debug)]
pub struct ModelStat {
    pub id: String,
    pub messages: u64,
}

#[derive(Debug)]
pub struct LongestChat {
    pub thread_id: String,
    pub title: Option<String>,
    pub seconds: i64,
    pub messages: u64,
}

#[derive(Debug)]
pub struct TrainingStats {
    pub runs: u64,
    pub completed: u64,
    pub steps: u64,
    pub seconds: u64,
    pub models: u64,
    pub datasets: u64,
    pub best_loss: Option<u32>,
    /// Positions of the latest runs, the latest first.
    pub recent: Vec<usize>,
}

#[derive(Debug)]
pub struct ProfileStats {
    pub generated_at: i64,
    pub threads: u64,
    pub messages: u64,
    pub user_messages: u64,
    pub assistant_messages: u64,
    pub active_days: u64,
    pub current_streak: u64,
    pub longest_streak: u64,
    pub last_active_day: Option<String>,
    pub longest_chat: Option<LongestChat>,
    pub daily: Vec<DailyStat>,
    pub models: Vec<ModelStat>,
}

/// A time in milliseconds.
pub open spec fn spec_created_at_ms(raw: i64) -> i64 {
    if raw < MILLIS_THRESHOLD {
        if raw * 1000 < i64::MIN {
            i64::MIN
        } else {
            (raw * 1000) as i64
        }
    } else {
        raw
    }
}

/// A time in milliseconds: small numbers are seconds.
pub fn created_at_ms(raw: i64) -> (r: i64)
    ensures
        r == spec_created_at_ms(raw),
{
    if raw < MILLIS_THRESHOLD {
        match raw.checked_mul(calendar::MILLIS_PER_SECOND) {
            Some(ms) => ms,
            None => i64::MIN,
        }
    } else {
        raw
    }
}

/// A message as the statistics see it.
#[verifier::ext_equal]
pub struct Fact {
    pub thread: Seq<char>,
    pub role: Seq<char>,
    pub ms: i64,
}

impl View for MessageFacts {
    type V = Fact;

    open spec fn view(&self) -> Fact {
        Fact {
            thread: self.thread_id@,
            role: self.role@,
            ms: spec_created_at_ms(self.created_at),
        }
    }
}

pub open spec fn facts_view(s: Seq<MessageFacts>) -> Seq<Fact> {
    Seq::new(s.len(), |i: int| s[i]@)
}

pub open spec fn fact_day(f: Fact, tz: int) -> int {
    calendar::spec_local_day(f.ms as int, tz)
}

/// The messages of the first `n` that are not before the window.
pub open spec fn in_window(facts: Seq<Fact>, tz: int, start: int, n: int) -> Seq<Fact>
    decreases n,
{
    if n <= 0 {
        Seq::empty()
    } else {
        let before = in_window(facts, tz, start, n - 1);
        if fact_day(facts[n - 1], tz) >= start {
            before.push(facts[n - 1])
        } else {
            before
        }
    }
}

/// How many of the first `n` messages have a property.
pub open spec fn count_if(facts: Seq<Fact>, p: spec_fn(Fact) -> bool, n: int) -> int
    decreases n,
{
    if n <= 0 {
        0
    } else {
        count_if(facts, p, n - 1) + if p(facts[n - 1]) {
            1int
        } else {
            0
        }
    }
}

/// The threads of those of the first `n` messages that have a property.
pub open spec fn threads_if(facts: Seq<Fact>, p: spec_fn(Fact) -> bool, n: int) -> Set<Seq<char>>
    decreases n,
{
    if n <= 0 {
        Set::empty()
    } else {
        let before = threads_if(facts, p, n - 1);
        if p(facts[n - 1]) {
            before.insert(facts[n - 1].thread)
        } else {
            before
        }
    }
}

pub open spec fn any_fact() -> spec_fn(Fact) -> bool {
    |f: Fact| true
}

pub open spec fn of_role(role: Seq<char>) -> spec_fn(Fact) -> bool {
    |f: Fact| f.role == role
}

pub open spec fn of_day(tz: int, day: int) -> spec_fn(Fact) -> bool {
    |f: Fact| fact_day(f, tz) == day
}

pub open spec fn of_thread(thread: Seq<char>) -> spec_fn(Fact) -> bool {
    |f: Fact| f.thread == thread
}

pub open spec fn of_model(threads: Seq<ThreadView>, model: Seq<char>) -> spec_fn(Fact) -> bool {
    |f: Fact| model_of(threads, f) == Some(model)
}

#[verifier::ext_equal]
pub struct ThreadView {
    pub id: Seq<char>,
    pub title: Option<Seq<char>>,
    pub model_id: Option<Seq<char>>,
}

pub open spec fn opt(o: Option<String>) -> Option<Seq<char>> {
    match o {
        Some(s) => Some(s@),
        None => None,
    }
}

impl View for ThreadFacts {
    type V = ThreadView;

    open spec fn view(&self) -> ThreadView {
        ThreadView { id: self.id@, title: opt(self.title), model_id: opt(self.model_id) }
    }
}

pub open spec fn threads_view(s: Seq<ThreadFacts>) -> Seq<ThreadView> {
    Seq::new(s.len(), |i: int| s[i]@)
}

/// The first thread with this name among the first `n`.
pub open spec fn thread_at(threads: Seq<ThreadView>, id: Seq<char>, n: int) -> Option<ThreadView>
    decreases n,
{
    if n <= 0 {
        None
    } else {
        match thread_at(threads, id, n - 1) {
            Some(t) => Some(t),
            None => if threads[n - 1].id == id {
                Some(threads[n - 1])
            } else {
                None
            },
        }
    }
}

pub open spec fn thread_of(threads: Seq<ThreadView>, id: Seq<char>) -> Option<ThreadView> {
    thread_at(threads, id, threads.len() as int)
}

/// The model of the thread of a message.
pub open spec fn model_of(threads: Seq<ThreadView>, f: Fact) -> Option<Seq<char>> {
    match thread_of(threads, f.thread) {
        Some(t) => match t.model_id {
            Some(id) => if id.len() == 0 {
                None
            } else {
                Some(id)
            },
            None => None,
        },
        None => None,
    }
}

pub open spec fn title_of(threads: Seq<ThreadView>, id: Seq<char>) -> Option<Seq<char>> {
    match thread_of(threads, id) {
        Some(t) => t.title,
        None => None,
    }
}

/// Days in rising order, none twice.
pub open spec fn rising(days: Seq<i64>) -> bool {
    forall|i: int, j: int| 0 <= i < j < days.len() ==> days[i] < days[j]
}

/// These are the days of the messages, in rising order.
pub open spec fn days_of(days: Seq<i64>, facts: Seq<Fact>, tz: int) -> bool {
    &&& rising(days)
    &&& forall|k: int|
        0 <= k < facts.len() ==> days.contains(fact_day(#[trigger] facts[k], tz) as i64)
    &&& forall|i: int| 0 <= i < days.len() ==> day_used(facts, tz, #[trigger] days[i] as int)
}

/// Whether there is a message of this day.
pub open spec fn day_used(facts: Seq<Fact>, tz: int, day: int) -> bool {
    exists|k: int| 0 <= k < facts.len() && fact_day(#[trigger] facts[k], tz) == day
}

/// The row of days that ends with day `k`: how many days without a gap.
pub open spec fn run_at(days: Seq<i64>, k: int) -> int
    decreases k,
{
    if k <= 0 {
        1
    } else if days[k - 1] == days[k] - 1 {
        run_at(days, k - 1) + 1
    } else {
        1
    }
}

/// The longest row among those that end with one of the first `n` days.
pub open spec fn longest_run(days: Seq<i64>, n: int) -> int
    decreases n,
{
    if n <= 0 {
        0
    } else {
        let before = longest_run(days, n - 1);
        if run_at(days, n - 1) > before {
            run_at(days, n - 1)
        } else {
            before
        }
    }
}

/// The row that ends with this day, if it is one of the first `n`.
pub open spec fn run_of(days: Seq<i64>, day: int, n: int) -> Option<int>
    decreases n,
{
    if n <= 0 {
        None
    } else if days[n - 1] == day {
        Some(run_at(days, n - 1))
    } else {
        run_of(days, day, n - 1)
    }
}

/// The current row of active days. A day that is not over yet does not break it.
pub open spec fn current_run(days: Seq<i64>, today: int) -> int {
    match run_of(days, today, days.len() as int) {
        Some(n) => n,
        None => match run_of(days, today - 1, days.len() as int) {
            Some(n) => n,
            None => 0,
        },
    }
}

/// Current and longest row of days with activity. The current row is not broken if there was no
/// message today yet, but there was one yesterday.
pub fn streaks(active_days: &Vec<i64>, today: i64) -> (r: (u64, u64))
    requires
        rising(active_days@),
        today > i64::MIN,
        active_days@.len() > 0 ==> active_days@[0] > i64::MIN,
    ensures
        r.0 == current_run(active_days@, today as int),
        r.1 == longest_run(active_days@, active_days@.len() as int),
{
    let ghost days = active_days@;
    let mut longest: u64 = 0;
    let mut run: u64 = 0;
    let mut at_today: Option<u64> = None;
    let mut at_yesterday: Option<u64> = None;
    let mut i: usize = 0;
    while i < active_days.len()
        invariant
            i <= active_days@.len(),
            days == active_days@,
            rising(days),
            today > i64::MIN,
            days.len() > 0 ==> days[0] > i64::MIN,
            run <= i,
            longest <= i,
            i > 0 ==> run == run_at(days, i - 1),
            longest == longest_run(days, i as int),
            match at_today {
                Some(n) => run_of(days, today as int, i as int) == Some(n as int),
                None => run_of(days, today as int, i as int) is None,
            },
            match at_yesterday {
                Some(n) => run_of(days, today - 1, i as int) == Some(n as int),
                None => run_of(days, today - 1, i as int) is None,
            },
        decreases active_days@.len() - i,
    {
        let day = active_days[i];
        assert(day > i64::MIN) by {
            if i > 0 {
                assert(days[0] < days[i as int]);
            }
        }
        run = if i > 0 && active_days[i - 1] == day - 1 {
            run + 1
        } else {
            1
        };
        if run > longest {
            longest = run;
        }
        if day == today {
            at_today = Some(run);
        }
        if day == today - 1 {
            at_yesterday = Some(run);
        }
        i += 1;
    }
    let current: u64 = match at_today {
        Some(n) => n,
        None => match at_yesterday {
            Some(n) => n,
            None => 0,
        },
    };
    (current, longest)
}

pub(crate) proof fn lemma_run_is_gapless(days: Seq<i64>, k: int)
    requires
        rising(days),
        0 <= k < days.len(),
    ensures
        1 <= run_at(days, k) <= k + 1,
        forall|d: int|
            days[k] - run_at(days, k) < d <= days[k] ==> #[trigger] active(days, d),
        !active(days, days[k] - run_at(days, k)),
    decreases k,
{
    if k > 0 && days[k - 1] == days[k] - 1 {
        lemma_run_is_gapless(days, k - 1);
        assert forall|d: int| days[k] - run_at(days, k) < d <= days[k] implies #[trigger] active(
            days,
            d,
        ) by {
            if d == days[k] {
                assert(days[k] == d);
            } else {
                assert(active(days, d));
            }
        }
    } else {
        assert forall|d: int| days[k] - run_at(days, k) < d <= days[k] implies #[trigger] active(
            days,
            d,
        ) by {
            assert(days[k] == d);
        }
        if active(days, days[k] - 1) {
            let j = choose|j: int| 0 <= j < days.len() && #[trigger] days[j] == days[k] - 1;
            if j < k - 1 {
                assert(days[j] < days[k - 1] && days[k - 1] < days[k]);
            } else if j > k {
                assert(days[k] < days[j]);
            }
        }
    }
}

/// Whether there was activity on a day.
pub open spec fn active(days: Seq<i64>, d: int) -> bool {
    exists|j: int| 0 <= j < days.len() && #[trigger] days[j] == d
}

proof fn lemma_run_of(days: Seq<i64>, day: int, n: int)
    requires
        n <= days.len(),
    ensures
        match run_of(days, day, n) {
            Some(r) => exists|k: int|
                0 <= k < n && #[trigger] days[k] == day && r == run_at(days, k),
            None => forall|k: int| 0 <= k < n ==> #[trigger] days[k] != day,
        },
    decreases n,
{
    if n > 0 {
        if days[n - 1] == day {
            assert(days[n - 1] == day && run_of(days, day, n) == Some(run_at(days, n - 1)));
        } else {
            lemma_run_of(days, day, n - 1);
        }
    }
}

/// The current row of days ends today or yesterday, has activity on every one of its days and none
/// on the day before its first.
pub proof fn law_current_streak_has_no_gap(days: Seq<i64>, today: int)
    requires
        rising(days),
    ensures
        active(days, today) ==> gapless(days, today, current_run(days, today)),
        !active(days, today) && active(days, today - 1) ==> gapless(
            days,
            today - 1,
            current_run(days, today),
        ),
        !active(days, today) && !active(days, today - 1) ==> current_run(days, today) == 0,
{
    let n = days.len() as int;
    lemma_run_of(days, today, n);
    lemma_run_of(days, today - 1, n);
    if let Some(r) = run_of(days, today, n) {
        let k = choose|k: int| 0 <= k < n && #[trigger] days[k] == today && r == run_at(days, k);
        lemma_run_is_gapless(days, k);
    } else if let Some(r) = run_of(days, today - 1, n) {
        let k = choose|k: int|
            0 <= k < n && #[trigger] days[k] == today - 1 && r == run_at(days, k);
        lemma_run_is_gapless(days, k);
    }
}

pub(crate) proof fn lemma_longest_is_at_least(days: Seq<i64>, k: int, n: int)
    requires
        0 <= k < n,
    ensures
        run_at(days, k) <= longest_run(days, n),
    decreases n,
{
    if k < n - 1 {
        lemma_longest_is_at_least(days, k, n - 1);
    }
}

/// The longest row of days is at least as long as the current one.
pub proof fn law_longest_streak_is_at_least_the_current(days: Seq<i64>, today: int)
    ensures
        0 <= current_run(days, today) <= longest_run(days, days.len() as int),
{
    let n = days.len() as int;
    lemma_run_of(days, today, n);
    lemma_run_of(days, today - 1, n);
    lemma_longest_is_natural(days, n);
    if let Some(r) = run_of(days, today, n) {
        let k = choose|k: int| 0 <= k < n && #[trigger] days[k] == today && r == run_at(days, k);
        lemma_run_is_positive(days, k);
        lemma_longest_is_at_least(days, k, n);
    } else if let Some(r) = run_of(days, today - 1, n) {
        let k = choose|k: int|
            0 <= k < n && #[trigger] days[k] == today - 1 && r == run_at(days, k);
        lemma_run_is_positive(days, k);
        lemma_longest_is_at_least(days, k, n);
    }
}

proof fn lemma_run_is_positive(days: Seq<i64>, k: int)
    ensures
        run_at(days, k) >= 1,
    decreases k,
{
    if k > 0 {
        lemma_run_is_positive(days, k - 1);
    }
}

proof fn lemma_longest_is_natural(days: Seq<i64>, n: int)
    ensures
        longest_run(days, n) >= 0,
    decreases n,
{
    if n > 0 {
        lemma_longest_is_natural(days, n - 1);
    }
}

/// Activity on every one of `len` days up to `last`, and none on the day before them.
pub open spec fn gapless(days: Seq<i64>, last: int, len: int) -> bool {
    &&& len >= 1
    &&& forall|d: int| last - len < d <= last ==> #[trigger] active(days, d)
    &&& !active(days, last - len)
}

/// The earliest message of a thread among the first `n`.
pub open spec fn first_ms(facts: Seq<Fact>, thread: Seq<char>, n: int) -> Option<int>
    decreases n,
{
    if n <= 0 {
        None
    } else {
        let before = first_ms(facts, thread, n - 1);
        let f = facts[n - 1];
        if f.thread != thread {
            before
        } else {
            match before {
                Some(ms) => if f.ms < ms {
                    Some(f.ms as int)
                } else {
                    before
                },
                None => Some(f.ms as int),
            }
        }
    }
}

/// The latest message of a thread among the first `n`.
pub open spec fn last_ms(facts: Seq<Fact>, thread: Seq<char>, n: int) -> Option<int>
    decreases n,
{
    if n <= 0 {
        None
    } else {
        let before = last_ms(facts, thread, n - 1);
        let f = facts[n - 1];
        if f.thread != thread {
            before
        } else {
            match before {
                Some(ms) => if f.ms > ms {
                    Some(f.ms as int)
                } else {
                    before
                },
                None => Some(f.ms as int),
            }
        }
    }
}

/// How many messages a thread has.
pub open spec fn chat_size(facts: Seq<Fact>, thread: Seq<char>) -> int {
    count_if(facts, of_thread(thread), facts.len() as int)
}

/// How long a thread lasted, in milliseconds.
pub open spec fn chat_span(facts: Seq<Fact>, thread: Seq<char>) -> int {
    last_ms(facts, thread, facts.len() as int)->0 - first_ms(
        facts,
        thread,
        facts.len() as int,
    )->0
}

/// A thread is no longer than another: fewer messages, or as many in no more time.
pub open spec fn chat_at_most(facts: Seq<Fact>, a: Seq<char>, b: Seq<char>) -> bool {
    chat_size(facts, a) < chat_size(facts, b) || (chat_size(facts, a) == chat_size(facts, b)
        && chat_span(facts, a) <= chat_span(facts, b))
}

/// What is said of the longest chat; nothing if there are no messages.
pub open spec fn longest_chat_ok(
    chat: Option<LongestChat>,
    facts: Seq<Fact>,
    threads: Seq<ThreadView>,
) -> bool {
    match chat {
        None => facts.len() == 0,
        Some(c) => {
            &&& exists|k: int| 0 <= k < facts.len() && (#[trigger] facts[k]).thread == c.thread_id@
            &&& forall|k: int|
                0 <= k < facts.len() ==> chat_at_most(
                    facts,
                    (#[trigger] facts[k]).thread,
                    c.thread_id@,
                )
            &&& opt(c.title) == title_of(threads, c.thread_id@)
            &&& c.messages == chat_size(facts, c.thread_id@)
            &&& c.seconds == chat_span(facts, c.thread_id@) / 1000
        },
    }
}

/// One entry for every day with messages, in rising order.
pub open spec fn daily_ok(daily: Seq<DailyStat>, facts: Seq<Fact>, tz: int) -> bool {
    exists|days: Seq<i64>|
        #![trigger days_of(days, facts, tz)]
        days_of(days, facts, tz) && daily.len() == days.len() && forall|i: int|
            0 <= i < days.len() ==> day_ok(#[trigger] daily[i], facts, tz, days[i] as int)
}

pub open spec fn day_ok(d: DailyStat, facts: Seq<Fact>, tz: int, day: int) -> bool {
    &&& calendar::is_date_text(d.date@, day)
    &&& d.messages == count_if(facts, of_day(tz, day), facts.len() as int)
    &&& d.chats == threads_if(facts, of_day(tz, day), facts.len() as int).len()
}

/// A model stands before another: more messages, or as many and an earlier name.
pub open spec fn model_before(a: ModelStat, b: ModelStat) -> bool {
    a.messages > b.messages || (a.messages == b.messages && text::before(a.id@, b.id@))
}

/// One entry for every model that was used, by falling number of messages and then by name.
pub open spec fn models_ok(
    models: Seq<ModelStat>,
    facts: Seq<Fact>,
    threads: Seq<ThreadView>,
) -> bool {
    &&& forall|i: int, j: int|
        0 <= i < j < models.len() ==> model_before(#[trigger] models[i], #[trigger] models[j])
    &&& forall|i: int|
        0 <= i < models.len() ==> (#[trigger] models[i]).messages == count_if(
            facts,
            of_model(threads, models[i].id@),
            facts.len() as int,
        ) && models[i].messages > 0
    &&& forall|k: int|
        0 <= k < facts.len() && model_of(threads, #[trigger] facts[k]) is Some ==> has_model(
            models,
            model_of(threads, facts[k])->0,
        )
}

pub open spec fn has_model(models: Seq<ModelStat>, id: Seq<char>) -> bool {
    exists|i: int| 0 <= i < models.len() && (#[trigger] models[i]).id@ == id
}

/// What the statistics say of all messages and of those in the window.
pub open spec fn stats_ok(
    s: ProfileStats,
    threads: Seq<ThreadView>,
    facts: Seq<Fact>,
    tz: int,
    now_ms: int,
) -> bool {
    let today = calendar::spec_local_day(now_ms, tz);
    let window = in_window(facts, tz, today - STATS_WINDOW_DAYS + 1, facts.len() as int);
    let n = window.len() as int;
    &&& s.generated_at == calendar::seconds_of(now_ms)
    &&& s.threads == threads_if(window, any_fact(), n).len()
    &&& s.messages == n
    &&& s.user_messages == count_if(window, of_role("user"@), n)
    &&& s.assistant_messages == count_if(window, of_role("assistant"@), n)
    &&& s.active_days == s.daily@.len()
    &&& daily_ok(s.daily@, window, tz)
    &&& longest_chat_ok(s.longest_chat, window, threads)
    &&& models_ok(s.models@, window, threads)
    &&& exists|days: Seq<i64>|
        #![trigger days_of(days, facts, tz)]
        days_of(days, facts, tz) && s.current_streak == current_run(days, today)
            && s.longest_streak == longest_run(days, days.len() as int)
            && match s.last_active_day {
            Some(d) => days.len() > 0 && calendar::is_date_text(d@, days.last() as int),
            None => days.len() == 0,
        }
}

/// Adds a name to a list unless it is there already.
fn add_name(names: &mut Vec<String>, name: &str)
    requires
        text::views(old(names)@).no_duplicates(),
    ensures
        text::views(final(names)@).no_duplicates(),
        text::views(final(names)@).to_set() == text::views(old(names)@).to_set().insert(name@),
{
    let ghost before = text::views(names@);
    let wanted = name.to_owned();
    let mut i: usize = 0;
    while i < names.len()
        invariant
            i <= names@.len(),
            wanted@ == name@,
            before == text::views(names@),
            before.no_duplicates(),
            names@ == old(names)@,
            forall|k: int| 0 <= k < i ==> before[k] != name@,
        decreases names@.len() - i,
    {
        assert(before[i as int] == names@[i as int]@);
        if names[i] == wanted {
            assert(before.to_set().insert(name@) =~= before.to_set()) by {
                assert(before.contains(name@));
            }
            return;
        }
        i += 1;
    }
    names.push(wanted);
    proof {
        let after = text::views(names@);
        assert(after =~= before.push(name@));
        assert(after.to_set() =~= before.to_set().insert(name@)) by {
            assert forall|x: Seq<char>| after.to_set().contains(x) == before.to_set().insert(
                name@,
            ).contains(x) by {
                if before.contains(x) {
                    let k = choose|k: int| 0 <= k < before.len() && before[k] == x;
                    assert(after[k] == x);
                }
                if x == name@ {
                    assert(after[before.len() as int] == x);
                }
            }
        }
    }
}

fn copy_fact(f: &MessageFacts) -> (r: MessageFacts)
    ensures
        r@ == f@,
        r.created_at == f.created_at,
{
    MessageFacts {
        thread_id: f.thread_id.clone(),
        role: f.role.clone(),
        created_at: f.created_at,
    }
}

/// Whether every message has a local day.
pub open spec fn days_fit(facts: Seq<Fact>, tz: int) -> bool {
    forall|i: int| 0 <= i < facts.len() ==> calendar::has_local_day((#[trigger] facts[i]).ms as int, tz)
}

fn day_of(f: &MessageFacts, tz: i64) -> (r: i64)
    requires
        calendar::has_local_day(f@.ms as int, tz as int),
    ensures
        r == fact_day(f@, tz as int),
        calendar::reachable(r as int),
{
    local_day(created_at_ms(f.created_at), tz)
}

fn window_of(messages: &Vec<MessageFacts>, tz: i64, start: i64) -> (r: Vec<MessageFacts>)
    requires
        days_fit(facts_view(messages@), tz as int),
    ensures
        days_fit(facts_view(r@), tz as int),
        facts_view(r@) == in_window(
            facts_view(messages@),
            tz as int,
            start as int,
            messages@.len() as int,
        ),
{
    let ghost facts = facts_view(messages@);
    let mut out: Vec<MessageFacts> = Vec::new();
    let mut i: usize = 0;
    assert(facts_view(out@) =~= Seq::<Fact>::empty());
    while i < messages.len()
        invariant
            i <= messages@.len(),
            days_fit(facts, tz as int),
            days_fit(facts_view(out@), tz as int),
            facts == facts_view(messages@),
            facts_view(out@) == in_window(facts, tz as int, start as int, i as int),
        decreases messages@.len() - i,
    {
        assert(facts[i as int] == messages@[i as int]@);
        if day_of(&messages[i], tz) >= start {
            let ghost before = facts_view(out@);
            out.push(copy_fact(&messages[i]));
            assert(facts_view(out@) =~= before.push(facts[i as int]));
        }
        i += 1;
    }
    out
}

fn count_role(facts: &Vec<MessageFacts>, role: &str) -> (r: u64)
    ensures
        r == count_if(facts_view(facts@), of_role(role@), facts@.len() as int),
{
    let ghost view = facts_view(facts@);
    let mut count: u64 = 0;
    let mut i: usize = 0;
    while i < facts.len()
        invariant
            i <= facts@.len(),
            view == facts_view(facts@),
            count <= i,
            count == count_if(view, of_role(role@), i as int),
        decreases facts@.len() - i,
    {
        assert(view[i as int] == facts@[i as int]@);
        if text::same(facts[i].role.as_str(), role) {
            count += 1;
        }
        i += 1;
    }
    count
}

/// Messages and chats of a day.
fn day_counts(facts: &Vec<MessageFacts>, tz: i64, day: i64) -> (r: (u64, u64))
    requires
        days_fit(facts_view(facts@), tz as int),
    ensures
        r.0 == count_if(facts_view(facts@), of_day(tz as int, day as int), facts@.len() as int),
        r.1 == threads_if(
            facts_view(facts@),
            of_day(tz as int, day as int),
            facts@.len() as int,
        ).len(),
{
    let ghost view = facts_view(facts@);
    let ghost p = of_day(tz as int, day as int);
    let mut count: u64 = 0;
    let mut names: Vec<String> = Vec::new();
    let mut i: usize = 0;
    assert(text::views(names@).to_set() =~= Set::<Seq<char>>::empty());
    while i < facts.len()
        invariant
            i <= facts@.len(),
            days_fit(view, tz as int),
            view == facts_view(facts@),
            p == of_day(tz as int, day as int),
            count <= i,
            count == count_if(view, p, i as int),
            text::views(names@).no_duplicates(),
            text::views(names@).to_set() == threads_if(view, p, i as int),
        decreases facts@.len() - i,
    {
        assert(view[i as int] == facts@[i as int]@);
        if day_of(&facts[i], tz) == day {
            count += 1;
            add_name(&mut names, facts[i].thread_id.as_str());
        }
        i += 1;
    }
    proof {
        text::views(names@).unique_seq_to_set();
    }
    (count, names.len() as u64)
}

/// The names of all threads, each once.
fn thread_names(facts: &Vec<MessageFacts>) -> (r: Vec<String>)
    ensures
        text::views(r@).no_duplicates(),
        text::views(r@).to_set() == threads_if(
            facts_view(facts@),
            any_fact(),
            facts@.len() as int,
        ),
{
    let ghost view = facts_view(facts@);
    let mut names: Vec<String> = Vec::new();
    let mut i: usize = 0;
    assert(text::views(names@).to_set() =~= Set::<Seq<char>>::empty());
    while i < facts.len()
        invariant
            i <= facts@.len(),
            view == facts_view(facts@),
            text::views(names@).no_duplicates(),
            text::views(names@).to_set() == threads_if(view, any_fact(), i as int),
        decreases facts@.len() - i,
    {
        assert(view[i as int] == facts@[i as int]@);
        add_name(&mut names, facts[i].thread_id.as_str());
        i += 1;
    }
    names
}

proof fn lemma_threads_if(facts: Seq<Fact>, n: int, t: Seq<char>)
    requires
        n <= facts.len(),
    ensures
        threads_if(facts, any_fact(), n).contains(t) <==> exists|k: int|
            0 <= k < n && (#[trigger] facts[k]).thread == t,
    decreases n,
{
    if n > 0 {
        lemma_threads_if(facts, n - 1, t);
        if facts[n - 1].thread == t {
            assert(threads_if(facts, any_fact(), n).contains(t));
        }
    }
}

/// Puts a day into a rising list unless it is there already.
fn add_day(days: &mut Vec<i64>, day: i64)
    requires
        rising(old(days)@),
    ensures
        rising(final(days)@),
        forall|d: i64| final(days)@.contains(d) <==> old(days)@.contains(d) || d == day,
{
    let ghost before = days@;
    let mut i: usize = 0;
    while i < days.len() && days[i] < day
        invariant
            i <= days@.len(),
            days@ == before,
            forall|k: int| 0 <= k < i ==> before[k] < day,
        decreases days@.len() - i,
    {
        i += 1;
    }
    if i < days.len() && days[i] == day {
        return;
    }
    days.insert(i, day);
    proof {
        let after = days@;
        assert forall|a: int, b: int| 0 <= a < b < after.len() implies after[a] < after[b] by {
            let x = if a < i {
                a
            } else {
                a - 1
            };
            let y = if b < i {
                b
            } else {
                b - 1
            };
            if a != i && b != i {
                assert(before[x] < before[y]);
            } else if a == i {
                assert(after[b] == before[y]);
                if y > i {
                    assert(before[i as int] < before[y]);
                }
            }
        }
        assert forall|d: i64| after.contains(d) <==> before.contains(d) || d == day by {
            if before.contains(d) {
                let k = choose|k: int| 0 <= k < before.len() && before[k] == d;
                if k < i {
                    assert(after[k] == d);
                } else {
                    assert(after[k + 1] == d);
                }
            }
            if d == day {
                assert(after[i as int] == d);
            }
            if after.contains(d) && d != day {
                let k = choose|k: int| 0 <= k < after.len() && after[k] == d;
                if k < i {
                    assert(before[k] == d);
                } else {
                    assert(before[k - 1] == d);
                }
            }
        }
    }
}

/// The days of messages in rising order.
fn days_list(facts: &Vec<MessageFacts>, tz: i64) -> (r: Vec<i64>)
    requires
        days_fit(facts_view(facts@), tz as int),
    ensures
        days_of(r@, facts_view(facts@), tz as int),
        forall|i: int| 0 <= i < r@.len() ==> calendar::reachable(#[trigger] r@[i] as int),
{
    let ghost view = facts_view(facts@);
    let mut days: Vec<i64> = Vec::new();
    let mut i: usize = 0;
    while i < facts.len()
        invariant
            i <= facts@.len(),
            days_fit(view, tz as int),
            view == facts_view(facts@),
            rising(days@),
            forall|k: int|
                0 <= k < i ==> days@.contains(fact_day(#[trigger] view[k], tz as int) as i64),
            forall|d: i64| #[trigger]
                days@.contains(d) ==> calendar::reachable(d as int) && exists|k: int|
                    0 <= k < i && fact_day(#[trigger] view[k], tz as int) == d,
        decreases facts@.len() - i,
    {
        assert(view[i as int] == facts@[i as int]@);
        let ghost before = days@;
        let day = day_of(&facts[i], tz);
        add_day(&mut days, day);
        proof {
            assert forall|d: i64| #[trigger]
                days@.contains(d) implies calendar::reachable(d as int) && exists|k: int|
                    0 <= k < i + 1 && fact_day(#[trigger] view[k], tz as int) == d by {
                if d == day {
                    assert(fact_day(view[i as int], tz as int) == d);
                } else {
                    assert(before.contains(d));
                    let k = choose|k: int|
                        0 <= k < i && fact_day(#[trigger] view[k], tz as int) == d;
                    assert(fact_day(view[k], tz as int) == d);
                }
            }
        }
        i += 1;
    }
    proof {
        assert forall|j: int| 0 <= j < days@.len() implies calendar::reachable(
            #[trigger] days@[j] as int,
        ) && day_used(view, tz as int, days@[j] as int) by {
            assert(days@.contains(days@[j]));
        }
    }
    days
}

fn find_thread<'a>(threads: &'a Vec<ThreadFacts>, id: &str) -> (r: Option<&'a ThreadFacts>)
    ensures
        match r {
            Some(t) => thread_of(threads_view(threads@), id@) == Some(t@),
            None => thread_of(threads_view(threads@), id@) is None,
        },
{
    let ghost view = threads_view(threads@);
    let wanted = id.to_owned();
    let mut i: usize = 0;
    while i < threads.len()
        invariant
            i <= threads@.len(),
            view == threads_view(threads@),
            wanted@ == id@,
            thread_at(view, id@, i as int) is None,
        decreases threads@.len() - i,
    {
        assert(view[i as int] == threads@[i as int]@);
        if threads[i].id == wanted {
            proof {
                lemma_thread_kept(view, id@, i + 1, view.len() as int);
            }
            return Some(&threads[i]);
        }
        i += 1;
    }
    None
}

proof fn lemma_thread_kept(threads: Seq<ThreadView>, id: Seq<char>, k: int, n: int)
    requires
        k <= n,
        thread_at(threads, id, k) is Some,
    ensures
        thread_at(threads, id, n) == thread_at(threads, id, k),
    decreases n - k,
{
    if k < n {
        lemma_thread_kept(threads, id, k, n - 1);
    }
}

/// The model of the thread of a message.
fn fact_model(threads: &Vec<ThreadFacts>, f: &MessageFacts) -> (r: Option<String>)
    ensures
        opt(r) == model_of(threads_view(threads@), f@),
{
    match find_thread(threads, f.thread_id.as_str()) {
        Some(t) => match &t.model_id {
            Some(id) => if id.as_str().is_empty() {
                None
            } else {
                Some(id.clone())
            },
            None => None,
        },
        None => None,
    }
}

fn count_model(threads: &Vec<ThreadFacts>, facts: &Vec<MessageFacts>, model: &String) -> (r: u64)
    ensures
        r == count_if(
            facts_view(facts@),
            of_model(threads_view(threads@), model@),
            facts@.len() as int,
        ),
{
    let ghost view = facts_view(facts@);
    let ghost p = of_model(threads_view(threads@), model@);
    let mut count: u64 = 0;
    let mut i: usize = 0;
    while i < facts.len()
        invariant
            i <= facts@.len(),
            view == facts_view(facts@),
            p == of_model(threads_view(threads@), model@),
            count <= i,
            count == count_if(view, p, i as int),
        decreases facts@.len() - i,
    {
        assert(view[i as int] == facts@[i as int]@);
        match fact_model(threads, &facts[i]) {
            Some(id) => {
                if id == *model {
                    count += 1;
                }
            },
            None => {},
        }
        i += 1;
    }
    count
}

proof fn lemma_count_positive(facts: Seq<Fact>, p: spec_fn(Fact) -> bool, k: int, n: int)
    requires
        0 <= k < n,
        p(facts[k]),
    ensures
        count_if(facts, p, n) > 0,
    decreases n,
{
    lemma_count_not_negative(facts, p, n - 1);
    if k < n - 1 {
        lemma_count_positive(facts, p, k, n - 1);
    }
}

proof fn lemma_count_not_negative(facts: Seq<Fact>, p: spec_fn(Fact) -> bool, n: int)
    ensures
        count_if(facts, p, n) >= 0,
    decreases n,
{
    if n > 0 {
        lemma_count_not_negative(facts, p, n - 1);
    }
}

proof fn lemma_model_order(a: ModelStat, b: ModelStat)
    ensures
        model_before(a, b) || model_before(b, a) || a.id@ == b.id@,
        !(model_before(a, b) && model_before(b, a)),
{
    text::lemma_before_is_total(a.id@, b.id@);
}

proof fn lemma_model_order_transitive(a: ModelStat, b: ModelStat, c: ModelStat)
    requires
        model_before(a, b),
        model_before(b, c),
    ensures
        model_before(a, c),
{
    if a.messages == b.messages && b.messages == c.messages {
        text::lemma_before_is_transitive(a.id@, b.id@, c.id@);
    }
}

pub open spec fn models_sorted(models: Seq<ModelStat>) -> bool {
    forall|i: int, j: int|
        0 <= i < j < models.len() ==> model_before(#[trigger] models[i], #[trigger] models[j])
}

fn stands_before(a: &ModelStat, b: &ModelStat) -> (r: bool)
    ensures
        r == model_before(*a, *b),
{
    a.messages > b.messages || (a.messages == b.messages && text::comes_before(
        a.id.as_str(),
        b.id.as_str(),
    ))
}

/// Puts a model into a sorted list that does not hold it.
fn insert_model(models: &mut Vec<ModelStat>, item: ModelStat)
    requires
        models_sorted(old(models)@),
        !has_model(old(models)@, item.id@),
    ensures
        models_sorted(final(models)@),
        exists|at: int|
            0 <= at <= old(models)@.len() && final(models)@ == #[trigger] old(models)@.insert(
                at,
                item,
            ),
{
    let ghost before = models@;
    let mut at: usize = 0;
    while at < models.len() && stands_before(&models[at], &item)
        invariant
            at <= models@.len(),
            models@ == before,
            forall|k: int| 0 <= k < at ==> model_before(#[trigger] before[k], item),
        decreases models@.len() - at,
    {
        at += 1;
    }
    proof {
        if at < before.len() {
            lemma_model_order(before[at as int], item);
            assert(before[at as int].id@ != item.id@);
            assert(model_before(item, before[at as int]));
        }
        let after = before.insert(at as int, item);
        assert forall|a: int, b: int| 0 <= a < b < after.len() implies model_before(
            #[trigger] after[a],
            #[trigger] after[b],
        ) by {
            let x = if a < at {
                a
            } else {
                a - 1
            };
            let y = if b < at {
                b
            } else {
                b - 1
            };
            if a != at && b != at {
                assert(model_before(before[x], before[y]));
            } else if a == at {
                assert(after[b] == before[y]);
                if y > at {
                    assert(model_before(before[at as int], before[y]));
                    lemma_model_order_transitive(item, before[at as int], before[y]);
                }
            } else {
                assert(after[a] == before[a]);
            }
        }
    }
    models.insert(at, item);
    assert(models@ == before.insert(at as int, item));
}

fn holds_model(models: &Vec<ModelStat>, id: &String) -> (r: bool)
    ensures
        r == has_model(models@, id@),
{
    let mut i: usize = 0;
    while i < models.len()
        invariant
            i <= models@.len(),
            forall|k: int| 0 <= k < i ==> (#[trigger] models@[k]).id@ != id@,
        decreases models@.len() - i,
    {
        if models[i].id == *id {
            return true;
        }
        i += 1;
    }
    false
}

/// The models that were used, by falling number of messages and then by name.
fn model_stats(threads: &Vec<ThreadFacts>, facts: &Vec<MessageFacts>) -> (r: Vec<ModelStat>)
    ensures
        models_ok(r@, facts_view(facts@), threads_view(threads@)),
{
    let ghost view = facts_view(facts@);
    let ghost tv = threads_view(threads@);
    let mut models: Vec<ModelStat> = Vec::new();
    let mut i: usize = 0;
    while i < facts.len()
        invariant
            i <= facts@.len(),
            view == facts_view(facts@),
            tv == threads_view(threads@),
            models_sorted(models@),
            forall|k: int|
                0 <= k < models@.len() ==> (#[trigger] models@[k]).messages == count_if(
                    view,
                    of_model(tv, models@[k].id@),
                    view.len() as int,
                ) && models@[k].messages > 0,
            forall|k: int|
                0 <= k < i && model_of(tv, #[trigger] view[k]) is Some ==> has_model(
                    models@,
                    model_of(tv, view[k])->0,
                ),
        decreases facts@.len() - i,
    {
        assert(view[i as int] == facts@[i as int]@);
        match fact_model(threads, &facts[i]) {
            Some(id) => {
                if !holds_model(&models, &id) {
                    let messages = count_model(threads, facts, &id);
                    proof {
                        lemma_count_positive(view, of_model(tv, id@), i as int, view.len() as int);
                    }
                    let ghost before = models@;
                    let item = ModelStat { id, messages };
                    insert_model(&mut models, item);
                    proof {
                        let at = choose|at: int|
                            0 <= at <= before.len() && models@ == #[trigger] before.insert(
                                at,
                                item,
                            );
                        assert(models@[at] == item);
                        assert forall|k: int| 0 <= k < models@.len() implies (
                        #[trigger] models@[k]).messages == count_if(
                            view,
                            of_model(tv, models@[k].id@),
                            view.len() as int,
                        ) && models@[k].messages > 0 by {
                            if k < at {
                                assert(models@[k] == before[k]);
                            } else if k > at {
                                assert(models@[k] == before[k - 1]);
                            }
                        }
                        assert forall|k: int|
                            0 <= k < i && model_of(tv, #[trigger] view[k]) is Some implies has_model(
                            models@,
                            model_of(tv, view[k])->0,
                        ) by {
                            let m = model_of(tv, view[k])->0;
                            let q = choose|q: int|
                                0 <= q < before.len() && (#[trigger] before[q]).id@ == m;
                            if q < at {
                                assert(models@[q] == before[q]);
                            } else {
                                assert(models@[q + 1] == before[q]);
                            }
                        }
                    }
                }
            },
            None => {},
        }
        i += 1;
    }
    models
}

/// Size of a thread, its first and its last message.
fn thread_span(facts: &Vec<MessageFacts>, thread: &String) -> (r: (u64, i64, i64))
    requires
        exists|k: int| 0 <= k < facts@.len() && (#[trigger] facts@[k]).thread_id@ == thread@,
    ensures
        r.0 == chat_size(facts_view(facts@), thread@),
        first_ms(facts_view(facts@), thread@, facts@.len() as int) == Some(r.1 as int),
        last_ms(facts_view(facts@), thread@, facts@.len() as int) == Some(r.2 as int),
        r.1 <= r.2,
{
    let ghost view = facts_view(facts@);
    let mut count: u64 = 0;
    let mut first: i64 = 0;
    let mut last: i64 = 0;
    let mut i: usize = 0;
    while i < facts.len()
        invariant
            i <= facts@.len(),
            view == facts_view(facts@),
            count <= i,
            count == count_if(view, of_thread(thread@), i as int),
            count == 0 ==> first_ms(view, thread@, i as int) is None && last_ms(
                view,
                thread@,
                i as int,
            ) is None && forall|k: int| 0 <= k < i ==> (#[trigger] facts@[k]).thread_id@ != thread@,
            count > 0 ==> first_ms(view, thread@, i as int) == Some(first as int) && last_ms(
                view,
                thread@,
                i as int,
            ) == Some(last as int) && first <= last,
        decreases facts@.len() - i,
    {
        assert(view[i as int] == facts@[i as int]@);
        if facts[i].thread_id == *thread {
            let ms = created_at_ms(facts[i].created_at);
            if count == 0 {
                first = ms;
                last = ms;
            } else {
                if ms < first {
                    first = ms;
                }
                if ms > last {
                    last = ms;
                }
            }
            count += 1;
        }
        i += 1;
    }
    (count, first, last)
}

/// The longest chat of the messages.
fn longest_chat(facts: &Vec<MessageFacts>, threads: &Vec<ThreadFacts>) -> (r: Option<LongestChat>)
    ensures
        longest_chat_ok(r, facts_view(facts@), threads_view(threads@)),
{
    let ghost view = facts_view(facts@);
    if facts.len() == 0 {
        return None;
    }
    let mut best: usize = 0;
    let mut best_count: u64 = 0;
    let mut best_span: i128 = 0;
    let mut i: usize = 0;
    while i < facts.len()
        invariant
            i <= facts@.len(),
            view == facts_view(facts@),
            0 < facts@.len(),
            best < facts@.len(),
            i > 0 ==> best_count == chat_size(view, view[best as int].thread) && best_span
                == chat_span(view, view[best as int].thread),
            0 <= best_span <= 0xffff_ffff_ffff_ffff,
            forall|k: int|
                0 <= k < i ==> chat_at_most(
                    view,
                    (#[trigger] view[k]).thread,
                    view[best as int].thread,
                ),
        decreases facts@.len() - i,
    {
        assert(view[i as int] == facts@[i as int]@);
        let (count, first, last) = thread_span(facts, &facts[i].thread_id);
        let span: i128 = last as i128 - first as i128;
        if i == 0 || count > best_count || (count == best_count && span >= best_span) {
            best = i;
            best_count = count;
            best_span = span;
        }
        i += 1;
    }
    let thread_id = facts[best].thread_id.clone();
    assert(view[best as int].thread == thread_id@);
    let title = match find_thread(threads, thread_id.as_str()) {
        Some(t) => match &t.title {
            Some(title) => Some(title.clone()),
            None => None,
        },
        None => None,
    };
    Some(
        LongestChat {
            thread_id,
            title,
            seconds: (best_span / 1000) as i64,
            messages: best_count,
        },
    )
}

/// The entries of all days with messages.
fn daily_stats(facts: &Vec<MessageFacts>, tz: i64) -> (r: Vec<DailyStat>)
    requires
        days_fit(facts_view(facts@), tz as int),
    ensures
        daily_ok(r@, facts_view(facts@), tz as int),
{
    let days = days_list(facts, tz);
    let ghost view = facts_view(facts@);
    let mut daily: Vec<DailyStat> = Vec::new();
    let mut i: usize = 0;
    while i < days.len()
        invariant
            i <= days@.len(),
            days_fit(view, tz as int),
            view == facts_view(facts@),
            forall|k: int| 0 <= k < days@.len() ==> calendar::reachable(#[trigger] days@[k] as int),
            daily@.len() == i,
            forall|k: int|
                0 <= k < i ==> day_ok(#[trigger] daily@[k], view, tz as int, days@[k] as int),
        decreases days@.len() - i,
    {
        let day = days[i];
        assert(calendar::reachable(days@[i as int] as int));
        let (messages, chats) = day_counts(facts, tz, day);
        let item = DailyStat { date: date_string(day), messages, chats };
        assert(day_ok(item, view, tz as int, day as int));
        daily.push(item);
        i += 1;
    }
    assert(days_of(days@, view, tz as int));
    daily
}

/// The statistics of a profile: totals of the window, rows of active days over all time.
pub fn compute_profile_stats(
    threads: &Vec<ThreadFacts>,
    messages: &Vec<MessageFacts>,
    tz_offset_minutes: i64,
    now_ms: i64,
) -> (r: ProfileStats)
    requires
        days_fit(facts_view(messages@), tz_offset_minutes as int),
        calendar::has_local_day(now_ms as int, tz_offset_minutes as int),
    ensures
        stats_ok(
            r,
            threads_view(threads@),
            facts_view(messages@),
            tz_offset_minutes as int,
            now_ms as int,
        ),
{
    let tz = tz_offset_minutes;
    let today = local_day(now_ms, tz);
    let window = window_of(messages, tz, today - STATS_WINDOW_DAYS + 1);
    let days = days_list(messages, tz);
    proof {
        if days@.len() > 0 {
            assert(calendar::reachable(days@[0] as int));
        }
    }
    let (current_streak, longest_streak) = streaks(&days, today);
    let last_active_day = if days.len() > 0 {
        let last = days[days.len() - 1];
        assert(calendar::reachable(days@[days@.len() - 1] as int));
        Some(date_string(last))
    } else {
        None
    };
    let names = thread_names(&window);
    proof {
        text::views(names@).unique_seq_to_set();
    }
    let daily = daily_stats(&window, tz);
    let user_messages = count_role(&window, "user");
    let assistant_messages = count_role(&window, "assistant");
    let chat = longest_chat(&window, threads);
    let models = model_stats(threads, &window);
    let r = ProfileStats {
        generated_at: calendar::whole_seconds(now_ms),
        threads: names.len() as u64,
        messages: window.len() as u64,
        user_messages,
        assistant_messages,
        active_days: daily.len() as u64,
        current_streak,
        longest_streak,
        last_active_day,
        longest_chat: chat,
        daily,
        models,
    };
    assert(days_of(days@, facts_view(messages@), tz as int));
    assert(facts_view(window@).len() == window@.len());
    r
}

/// A training run as the statistics see it.
#[verifier::ext_equal]
pub struct RunView {
    pub status: Seq<char>,
    pub model: Seq<char>,
    pub dataset: Seq<char>,
    pub started_at: Seq<char>,
    pub final_step: Option<u32>,
    pub final_loss: Option<u32>,
    pub seconds: Option<u64>,
}

impl View for RunFacts {
    type V = RunView;

    open spec fn view(&self) -> RunView {
        RunView {
            status: self.status@,
            model: self.model_name@,
            dataset: self.dataset_name@,
            started_at: self.started_at@,
            final_step: self.final_step,
            final_loss: self.final_loss,
            seconds: self.duration_seconds,
        }
    }
}

pub open spec fn runs_view(s: Seq<RunFacts>) -> Seq<RunView> {
    Seq::new(s.len(), |i: int| s[i]@)
}

pub open spec fn completed_runs(runs: Seq<RunView>, n: int) -> int
    decreases n,
{
    if n <= 0 {
        0
    } else {
        completed_runs(runs, n - 1) + if runs[n - 1].status == "completed"@ {
            1int
        } else {
            0
        }
    }
}

pub open spec fn step_sum(runs: Seq<RunView>, n: int) -> int
    decreases n,
{
    if n <= 0 {
        0
    } else {
        step_sum(runs, n - 1) + match runs[n - 1].final_step {
            Some(s) => s as int,
            None => 0,
        }
    }
}

pub open spec fn second_sum(runs: Seq<RunView>, n: int) -> int
    decreases n,
{
    if n <= 0 {
        0
    } else {
        second_sum(runs, n - 1) + match runs[n - 1].seconds {
            Some(s) => s as int,
            None => 0,
        }
    }
}

pub open spec fn model_names(runs: Seq<RunView>, n: int) -> Set<Seq<char>>
    decreases n,
{
    if n <= 0 {
        Set::empty()
    } else {
        model_names(runs, n - 1).insert(runs[n - 1].model)
    }
}

pub open spec fn dataset_names(runs: Seq<RunView>, n: int) -> Set<Seq<char>>
    decreases n,
{
    if n <= 0 {
        Set::empty()
    } else {
        dataset_names(runs, n - 1).insert(runs[n - 1].dataset)
    }
}

/// Orders finite 32-bit floating-point values by their bits; both zeros are the same.
pub open spec fn float_rank(bits: u32) -> int {
    if bits < 0x8000_0000 {
        bits as int
    } else {
        0x8000_0000 - bits
    }
}

/// Whether a run ended with a finite loss.
pub open spec fn has_loss(r: RunView) -> bool {
    r.final_loss is Some && crate::cluster::finite_bits(r.final_loss->0)
}

/// The smallest finite loss of the first `n` runs; nothing if there is none.
pub open spec fn best_loss_ok(best: Option<u32>, runs: Seq<RunView>, n: int) -> bool {
    match best {
        None => forall|i: int| 0 <= i < n ==> !has_loss(#[trigger] runs[i]),
        Some(b) => {
            &&& exists|i: int|
                0 <= i < n && has_loss(#[trigger] runs[i]) && runs[i].final_loss == Some(b)
            &&& forall|i: int|
                0 <= i < n && has_loss(#[trigger] runs[i]) ==> float_rank(b) <= float_rank(
                    runs[i].final_loss->0,
                )
        },
    }
}

/// Run `a` stands before run `b`: it started later, or at the same time and is listed first.
pub open spec fn run_before(runs: Seq<RunView>, a: int, b: int) -> bool {
    text::before(runs[b].started_at, runs[a].started_at) || (runs[a].started_at
        == runs[b].started_at && a < b)
}

/// The positions of the latest of the first `n` runs, the latest first: all of them, or as many as
/// are shown, and then no other run is later.
pub open spec fn recent_ok(recent: Seq<usize>, runs: Seq<RunView>, n: int) -> bool {
    &&& recent.len() == if n < RECENT_RUNS_LIMIT {
        n
    } else {
        RECENT_RUNS_LIMIT as int
    }
    &&& forall|i: int| 0 <= i < recent.len() ==> 0 <= #[trigger] recent[i] < n
    &&& forall|i: int, j: int|
        0 <= i < j < recent.len() ==> run_before(
            runs,
            #[trigger] recent[i] as int,
            #[trigger] recent[j] as int,
        )
    &&& forall|k: int|
        0 <= k < n && !recent.contains(k as usize) ==> #[trigger] later_than(
            runs,
            recent,
            k,
        )
}

/// Every listed run stands before run `k`.
pub open spec fn later_than(runs: Seq<RunView>, recent: Seq<usize>, k: int) -> bool {
    forall|i: int| 0 <= i < recent.len() ==> run_before(runs, #[trigger] recent[i] as int, k)
}

pub open spec fn training_ok(t: TrainingStats, runs: Seq<RunView>) -> bool {
    let n = runs.len() as int;
    &&& t.runs == n
    &&& t.completed == completed_runs(runs, n)
    &&& t.steps == step_sum(runs, n)
    &&& t.seconds == second_sum(runs, n)
    &&& t.models == model_names(runs, n).len()
    &&& t.datasets == dataset_names(runs, n).len()
    &&& best_loss_ok(t.best_loss, runs, n)
    &&& recent_ok(t.recent@, runs, n)
}

proof fn lemma_sums_grow(runs: Seq<RunView>, k: int, n: int)
    requires
        0 <= k <= n,
    ensures
        0 <= step_sum(runs, k) <= step_sum(runs, n),
        0 <= second_sum(runs, k) <= second_sum(runs, n),
    decreases n,
{
    if n > 0 {
        if k < n {
            lemma_sums_grow(runs, k, n - 1);
        } else {
            lemma_sums_grow(runs, k - 1, n - 1);
        }
    }
}

fn rank_of(bits: u32) -> (r: i64)
    ensures
        r == float_rank(bits),
{
    if bits < 0x8000_0000 {
        bits as i64
    } else {
        0x8000_0000i64 - bits as i64
    }
}

fn finite_loss(loss: Option<u32>) -> (r: Option<u32>)
    ensures
        match r {
            Some(b) => loss == Some(b) && crate::cluster::finite_bits(b),
            None => loss is None || !crate::cluster::finite_bits(loss->0),
        },
{
    match loss {
        Some(bits) => if (bits / 0x80_0000) % 0x100 != 0xff {
            Some(bits)
        } else {
            None
        },
        None => None,
    }
}

proof fn lemma_run_order_transitive(runs: Seq<RunView>, a: int, b: int, c: int)
    requires
        run_before(runs, a, b),
        run_before(runs, b, c),
    ensures
        run_before(runs, a, c),
{
    if text::before(runs[b].started_at, runs[a].started_at) && text::before(
        runs[c].started_at,
        runs[b].started_at,
    ) {
        text::lemma_before_is_transitive(
            runs[c].started_at,
            runs[b].started_at,
            runs[a].started_at,
        );
    }
}

/// All of the first `n` runs, the latest first.
spec fn all_ordered(order: Seq<usize>, runs: Seq<RunView>, n: int) -> bool {
    &&& order.len() == n
    &&& forall|i: int| 0 <= i < order.len() ==> 0 <= #[trigger] order[i] < n
    &&& forall|i: int, j: int|
        0 <= i < j < order.len() ==> run_before(
            runs,
            #[trigger] order[i] as int,
            #[trigger] order[j] as int,
        )
    &&& forall|k: int| 0 <= k < n ==> #[trigger] order.contains(k as usize)
}

proof fn lemma_order_inserted(before: Seq<usize>, runs: Seq<RunView>, k: int, at: int)
    requires
        0 <= k <= usize::MAX,
        0 <= at <= before.len(),
        all_ordered(before, runs, k),
        forall|i: int| 0 <= i < at ==> run_before(runs, #[trigger] before[i] as int, k),
        at < before.len() ==> run_before(runs, k, before[at] as int),
    ensures
        all_ordered(before.insert(at, k as usize), runs, k + 1),
{
    let after = before.insert(at, k as usize);
    assert forall|i: int, j: int| 0 <= i < j < after.len() implies run_before(
        runs,
        #[trigger] after[i] as int,
        #[trigger] after[j] as int,
    ) by {
        let x = if i < at {
            i
        } else {
            i - 1
        };
        let y = if j < at {
            j
        } else {
            j - 1
        };
        if i != at && j != at {
            assert(run_before(runs, before[x] as int, before[y] as int));
        } else if i == at {
            assert(after[j] == before[y]);
            if y > at {
                assert(run_before(runs, before[at] as int, before[y] as int));
                lemma_run_order_transitive(runs, k, before[at] as int, before[y] as int);
            }
        } else {
            assert(after[i] == before[i]);
        }
    }
    assert forall|i: int| 0 <= i < after.len() implies 0 <= #[trigger] after[i] < k + 1 by {
        if i < at {
            assert(after[i] == before[i]);
        } else if i > at {
            assert(after[i] == before[i - 1]);
        }
    }
    assert forall|q: int| 0 <= q < k + 1 implies #[trigger] after.contains(q as usize) by {
        if q == k {
            assert(after[at] == q as usize);
        } else {
            assert(before.contains(q as usize));
            let m = choose|m: int| 0 <= m < before.len() && before[m] == q as usize;
            if m < at {
                assert(after[m] == q as usize);
            } else {
                assert(after[m + 1] == q as usize);
            }
        }
    }
}

/// Puts run `k` among the runs before it.
fn add_run(order: &mut Vec<usize>, runs: &Vec<RunFacts>, k: usize)
    requires
        k < runs@.len(),
        all_ordered(old(order)@, runs_view(runs@), k as int),
    ensures
        all_ordered(final(order)@, runs_view(runs@), k + 1),
{
    let ghost before = order@;
    let ghost view = runs_view(runs@);
    let mut at: usize = 0;
    while at < order.len() && !text::comes_before(
        runs[order[at]].started_at.as_str(),
        runs[k].started_at.as_str(),
    )
        invariant
            at <= order@.len(),
            order@ == before,
            k < runs@.len(),
            view == runs_view(runs@),
            forall|i: int| 0 <= i < before.len() ==> 0 <= #[trigger] before[i] < k,
            forall|i: int| 0 <= i < at ==> run_before(view, #[trigger] before[i] as int, k as int),
        decreases order@.len() - at,
    {
        proof {
            let a = before[at as int] as int;
            assert(view[a].started_at == runs@[a].started_at@);
            assert(view[k as int].started_at == runs@[k as int].started_at@);
            text::lemma_before_is_total(view[a].started_at, view[k as int].started_at);
        }
        at += 1;
    }
    proof {
        if at < before.len() {
            let a = before[at as int] as int;
            assert(view[a].started_at == runs@[a].started_at@);
            assert(view[k as int].started_at == runs@[k as int].started_at@);
        }
        lemma_order_inserted(before, view, k as int, at as int);
    }
    order.insert(at, k);
}

/// The positions of the latest runs, the latest first.
fn recent_runs(runs: &Vec<RunFacts>) -> (r: Vec<usize>)
    ensures
        recent_ok(r@, runs_view(runs@), runs@.len() as int),
{
    let ghost view = runs_view(runs@);
    let mut order: Vec<usize> = Vec::new();
    let mut k: usize = 0;
    while k < runs.len()
        invariant
            k <= runs@.len(),
            view == runs_view(runs@),
            all_ordered(order@, view, k as int),
        decreases runs@.len() - k,
    {
        add_run(&mut order, runs, k);
        k += 1;
    }
    let ghost full = order@;
    if order.len() > RECENT_RUNS_LIMIT {
        order.truncate(RECENT_RUNS_LIMIT);
    }
    proof {
        let cut = order@;
        assert forall|i: int| 0 <= i < cut.len() implies #[trigger] cut[i] == full[i] by {}
        assert forall|q: int|
            0 <= q < view.len() && !cut.contains(q as usize) implies #[trigger] later_than(
            view,
            cut,
            q,
        ) by {
            assert(full.contains(q as usize));
            let m = choose|m: int| 0 <= m < full.len() && full[m] == q as usize;
            if m < cut.len() {
                assert(cut[m] == q as usize);
            }
            assert forall|i: int| 0 <= i < cut.len() implies run_before(
                view,
                #[trigger] cut[i] as int,
                q,
            ) by {
                assert(run_before(view, full[i] as int, full[m] as int));
            }
        }
    }
    order
}

/// The statistics of training runs.
pub fn training_stats(runs: &Vec<RunFacts>) -> (r: TrainingStats)
    requires
        step_sum(runs_view(runs@), runs@.len() as int) <= u64::MAX,
        second_sum(runs_view(runs@), runs@.len() as int) <= u64::MAX,
    ensures
        training_ok(r, runs_view(runs@)),
{
    let ghost view = runs_view(runs@);
    let mut completed: u64 = 0;
    let mut steps: u64 = 0;
    let mut seconds: u64 = 0;
    let mut models: Vec<String> = Vec::new();
    let mut datasets: Vec<String> = Vec::new();
    let mut best_loss: Option<u32> = None;
    let mut i: usize = 0;
    assert(text::views(models@).to_set() =~= Set::<Seq<char>>::empty());
    assert(text::views(datasets@).to_set() =~= Set::<Seq<char>>::empty());
    while i < runs.len()
        invariant
            i <= runs@.len(),
            view == runs_view(runs@),
            step_sum(view, runs@.len() as int) <= u64::MAX,
            second_sum(view, runs@.len() as int) <= u64::MAX,
            completed <= i,
            completed == completed_runs(view, i as int),
            steps == step_sum(view, i as int),
            seconds == second_sum(view, i as int),
            text::views(models@).no_duplicates(),
            text::views(models@).to_set() == model_names(view, i as int),
            text::views(datasets@).no_duplicates(),
            text::views(datasets@).to_set() == dataset_names(view, i as int),
            best_loss_ok(best_loss, view, i as int),
        decreases runs@.len() - i,
    {
        let run = &runs[i];
        assert(view[i as int] == run@);
        proof {
            lemma_sums_grow(view, i + 1, runs@.len() as int);
        }
        if text::same(run.status.as_str(), "completed") {
            completed += 1;
        }
        if let Some(s) = run.final_step {
            steps += s as u64;
        }
        if let Some(s) = run.duration_seconds {
            seconds += s;
        }
        add_name(&mut models, run.model_name.as_str());
        add_name(&mut datasets, run.dataset_name.as_str());
        let ghost before = best_loss;
        if let Some(bits) = finite_loss(run.final_loss) {
            best_loss = match best_loss {
                Some(b) => if rank_of(bits) < rank_of(b) {
                    Some(bits)
                } else {
                    Some(b)
                },
                None => Some(bits),
            };
            assert(has_loss(view[i as int]));
        }
        proof {
            assert(best_loss_ok(best_loss, view, i + 1)) by {
                if let Some(b) = best_loss {
                    if before == Some(b) {
                        let w = choose|w: int|
                            0 <= w < i && has_loss(#[trigger] view[w]) && view[w].final_loss
                                == Some(b);
                        assert(has_loss(view[w]));
                    } else {
                        assert(has_loss(view[i as int]) && view[i as int].final_loss == Some(b));
                    }
                }
            }
        }
        i += 1;
    }
    proof {
        text::views(models@).unique_seq_to_set();
        text::views(datasets@).unique_seq_to_set();
    }
    let recent = recent_runs(runs);
    TrainingStats {
        runs: runs.len() as u64,
        completed,
        steps,
        seconds,
        models: models.len() as u64,
        datasets: datasets.len() as u64,
        best_loss,
        recent,
    }
}

} // verus!
