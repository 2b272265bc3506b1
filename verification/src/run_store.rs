//! The runs that are kept: stored by id, listed from the newest on, page by page.

use vstd::prelude::*;

use crate::text;
use crate::training_session;
use crate::training_session::{find_run, TrainingRunSummary};

verus! {

/// The runs that are kept, one for each id.
#[derive(Debug)]
pub struct RunTable {
    pub rows: Vec<TrainingRunSummary>,
}

impl View for RunTable {
    type V = Seq<training_session::RunView>;

    open spec fn view(&self) -> Seq<training_session::RunView> {
        training_session::runs_view(self.rows@)
    }
}

/// No id stands for two runs.
pub open spec fn ids_distinct(rows: Seq<training_session::RunView>) -> bool {
    forall|i: int, j: int|
        0 <= i < j < rows.len() ==> (#[trigger] rows[i]).id != (#[trigger] rows[j]).id
}

/// The rows with this run in the place of the one with its id, or at the end.
pub open spec fn stored(
    rows: Seq<training_session::RunView>,
    run: training_session::RunView,
) -> Seq<training_session::RunView> {
    match training_session::run_from(rows, run.id, 0) {
        Some(k) => rows.update(k, run),
        None => rows.push(run),
    }
}

/// The run with an id.
pub open spec fn run_of(rows: Seq<training_session::RunView>, id: Seq<char>) -> Option<
    training_session::RunView,
> {
    match training_session::run_from(rows, id, 0) {
        Some(k) => Some(rows[k]),
        None => None,
    }
}

/// The rows without the run of an id.
pub open spec fn deleted(rows: Seq<training_session::RunView>, id: Seq<char>) -> Seq<
    training_session::RunView,
> {
    match training_session::run_from(rows, id, 0) {
        Some(k) => rows.remove(k),
        None => rows,
    }
}

/// Whether a run is listed before another one: the later one first, then the one with the greater
/// id.
pub open spec fn newer(a: training_session::RunView, b: training_session::RunView) -> bool {
    text::before(b.started_at, a.started_at) || (b.started_at == a.started_at && text::before(
        b.id,
        a.id,
    ))
}

/// `list` holds the places of the first `n` rows, each once, the newest run first.
pub open spec fn newest_first(
    list: Seq<int>,
    rows: Seq<training_session::RunView>,
    n: int,
) -> bool {
    &&& list.len() == n
    &&& forall|i: int| 0 <= i < list.len() ==> 0 <= #[trigger] list[i] < n
    &&& forall|j: int| 0 <= j < n ==> #[trigger] list.contains(j)
    &&& forall|i: int, j: int|
        0 <= i < j < list.len() ==> newer(rows[#[trigger] list[i]], rows[#[trigger] list[j]])
}

pub open spec fn places(s: Seq<usize>) -> Seq<int> {
    s.map_values(|p: usize| p as int)
}

fn is_newer(a: &TrainingRunSummary, b: &TrainingRunSummary) -> (r: bool)
    ensures
        r == newer(a@, b@),
{
    text::comes_before(b.started_at.as_str(), a.started_at.as_str()) || (text::same(
        b.started_at.as_str(),
        a.started_at.as_str(),
    ) && text::comes_before(b.id.as_str(), a.id.as_str()))
}

/// Of two runs with different ids one is newer.
proof fn lemma_newer_is_total(a: training_session::RunView, b: training_session::RunView)
    requires
        a.id != b.id,
    ensures
        newer(a, b) || newer(b, a),
{
    text::lemma_before_is_total(a.started_at, b.started_at);
    text::lemma_before_is_total(a.id, b.id);
}

proof fn lemma_newer_is_transitive(
    a: training_session::RunView,
    b: training_session::RunView,
    c: training_session::RunView,
)
    requires
        newer(a, b),
        newer(b, c),
    ensures
        newer(a, c),
{
    if text::before(c.started_at, b.started_at) && text::before(b.started_at, a.started_at) {
        text::lemma_before_is_transitive(c.started_at, b.started_at, a.started_at);
    }
    if text::before(c.id, b.id) && text::before(b.id, a.id) {
        text::lemma_before_is_transitive(c.id, b.id, a.id);
    }
}

/// The place of the next row among those before it.
proof fn lemma_inserted(
    list: Seq<int>,
    rows: Seq<training_session::RunView>,
    n: int,
    at: int,
)
    requires
        0 <= n < rows.len(),
        ids_distinct(rows),
        newest_first(list, rows, n),
        0 <= at <= list.len(),
        forall|i: int| 0 <= i < at ==> newer(rows[#[trigger] list[i]], rows[n]),
        at < list.len() ==> !newer(rows[list[at]], rows[n]),
    ensures
        newest_first(list.insert(at, n), rows, n + 1),
{
    let longer = list.insert(at, n);
    assert(longer[at] == n);
    assert forall|j: int| 0 <= j < n + 1 implies #[trigger] longer.contains(j) by {
        if j < n {
            assert(list.contains(j));
            let k = choose|k: int| 0 <= k < list.len() && list[k] == j;
            if k < at {
                assert(longer[k] == j);
            } else {
                assert(longer[k + 1] == j);
            }
        }
    }
    if at < list.len() {
        assert(0 <= list[at] < n);
        assert(rows[list[at]].id != rows[n].id);
        lemma_newer_is_total(rows[list[at]], rows[n]);
    }
    assert forall|i: int| at <= i < list.len() implies newer(rows[n], rows[#[trigger] list[i]]) by {
        if i > at {
            assert(newer(rows[list[at]], rows[list[i]]));
            lemma_newer_is_transitive(rows[n], rows[list[at]], rows[list[i]]);
        }
    }
    assert forall|i: int, j: int| 0 <= i < j < longer.len() implies newer(
        rows[#[trigger] longer[i]],
        rows[#[trigger] longer[j]],
    ) by {
        let a = if i < at {
            i
        } else {
            i - 1
        };
        let b = if j < at {
            j
        } else {
            j - 1
        };
        if i != at && j != at {
            assert(longer[i] == list[a] && longer[j] == list[b]);
        } else if i == at {
            assert(longer[j] == list[b]);
        } else {
            assert(longer[i] == list[a]);
        }
    }
    assert forall|i: int| 0 <= i < longer.len() implies 0 <= #[trigger] longer[i] < n + 1 by {
        if i < at {
            assert(longer[i] == list[i]);
        } else if i > at {
            assert(longer[i] == list[i - 1]);
        }
    }
}

fn sorted_rows(rows: &Vec<TrainingRunSummary>) -> (r: Vec<usize>)
    requires
        ids_distinct(training_session::runs_view(rows@)),
    ensures
        newest_first(
            places(r@),
            training_session::runs_view(rows@),
            rows@.len() as int,
        ),
{
    let ghost view = training_session::runs_view(rows@);
    let mut list: Vec<usize> = Vec::new();
    let mut i: usize = 0;
    assert(places(list@) =~= Seq::empty());
    while i < rows.len()
        invariant
            i <= rows@.len(),
            view == training_session::runs_view(rows@),
            ids_distinct(view),
            newest_first(places(list@), view, i as int),
        decreases rows@.len() - i,
    {
        let ghost before = places(list@);
        assert forall|k: int| 0 <= k < list@.len() implies (#[trigger] list@[k]) < rows@.len() by {
            assert(before[k] == list@[k]);
        }
        let mut at: usize = 0;
        while at < list.len() && is_newer(&rows[list[at]], &rows[i])
            invariant
                at <= list@.len(),
                i < rows@.len(),
                view == training_session::runs_view(rows@),
                before == places(list@),
                newest_first(before, view, i as int),
                forall|k: int| 0 <= k < list@.len() ==> (#[trigger] list@[k]) < rows@.len(),
                forall|k: int| 0 <= k < at ==> newer(view[#[trigger] before[k]], view[i as int]),
            decreases list@.len() - at,
        {
            assert(before[at as int] == list@[at as int]);
            at += 1;
        }
        proof {
            if at < list@.len() {
                assert(before[at as int] == list@[at as int]);
            }
            lemma_inserted(before, view, i as int, at as int);
        }
        list.insert(at, i);
        assert(places(list@) =~= before.insert(at as int, i as int));
        i += 1;
    }
    list
}

/// The page of a list: `limit` entries behind the first `offset`.
pub open spec fn page_of(list: Seq<int>, limit: u32, offset: u32) -> Seq<int> {
    let start = if offset > list.len() {
        list.len() as int
    } else {
        offset as int
    };
    let end = if start + limit > list.len() {
        list.len() as int
    } else {
        start + limit
    };
    list.subrange(start, end)
}

pub open spec fn rows_at(rows: Seq<training_session::RunView>, list: Seq<int>) -> Seq<
    training_session::RunView,
> {
    Seq::new(list.len(), |i: int| rows[list[i]])
}

/// `page` holds the runs of a page of the rows, the newest first.
pub open spec fn is_page(
    page: Seq<training_session::RunView>,
    rows: Seq<training_session::RunView>,
    limit: u32,
    offset: u32,
) -> bool {
    exists|list: Seq<int>| #[trigger]
        newest_first(list, rows, rows.len() as int) && page == rows_at(
            rows,
            page_of(list, limit, offset),
        )
}

impl RunTable {
    pub open spec fn wf(&self) -> bool {
        ids_distinct(self@)
    }

    pub fn new() -> (r: Self)
        ensures
            r.wf(),
            r@.len() == 0,
    {
        RunTable { rows: Vec::new() }
    }

    /// Stores a run, a new one or a changed one.
    pub fn upsert(&mut self, run: &TrainingRunSummary)
        requires
            old(self).wf(),
        ensures
            final(self).wf(),
            final(self)@ == stored(old(self)@, run@),
    {
        let ghost before = self@;
        proof {
            law_stored_run_is_read_back(before, run@);
        }
        match find_run(&self.rows, run.id.as_str()) {
            Some(k) => {
                self.rows.set(k, run.duplicate());
                assert(self@ =~= before.update(k as int, run@));
            },
            None => {
                self.rows.push(run.duplicate());
                assert(self@ =~= before.push(run@));
            },
        }
    }

    /// The run with an id.
    pub fn get(&self, id: &str) -> (r: Option<&TrainingRunSummary>)
        ensures
            run_of(self@, id@) == (match r {
                Some(run) => Some(run@),
                None => None,
            }),
    {
        match find_run(&self.rows, id) {
            Some(k) => Some(&self.rows[k]),
            None => None,
        }
    }

    /// A page of the runs, the newest first, and how many there are.
    pub fn list(&self, limit: u32, offset: u32) -> (r: (Vec<TrainingRunSummary>, u64))
        requires
            self.wf(),
        ensures
            is_page(training_session::runs_view(r.0@), self@, limit, offset),
            r.1 == self@.len(),
    {
        let sorted = sorted_rows(&self.rows);
        let ghost rows = self@;
        let ghost list = places(sorted@);
        let total = sorted.len();
        let start: usize = if offset as u64 > total as u64 {
            total
        } else {
            offset as usize
        };
        let end: usize = if (total - start) as u64 <= limit as u64 {
            total
        } else {
            start + limit as usize
        };
        let ghost page = page_of(list, limit, offset);
        assert(page =~= list.subrange(start as int, end as int));
        let mut out: Vec<TrainingRunSummary> = Vec::new();
        let mut i: usize = start;
        while i < end
            invariant
                start <= i <= end <= sorted@.len(),
                rows == self@,
                list == places(sorted@),
                newest_first(list, rows, rows.len() as int),
                page == list.subrange(start as int, end as int),
                out@.len() == i - start,
                forall|k: int| 0 <= k < out@.len() ==> (#[trigger] out@[k])@ == rows[page[k]],
            decreases end - i,
        {
            assert(list[i as int] == sorted@[i as int]);
            assert(page[i - start] == list[i as int]);
            assert(rows[list[i as int]] == self.rows@[sorted@[i as int] as int]@);
            out.push(self.rows[sorted[i]].duplicate());
            i += 1;
        }
        assert(training_session::runs_view(out@) =~= rows_at(rows, page));
        (out, total as u64)
    }

    /// All runs, the newest first.
    pub fn all(&self) -> (r: Vec<TrainingRunSummary>)
        requires
            self.wf(),
        ensures
            is_page(training_session::runs_view(r@), self@, u32::MAX, 0),
    {
        self.list(u32::MAX, 0).0
    }

    /// Deletes a run. Returns whether there was one.
    pub fn delete(&mut self, id: &str) -> (r: bool)
        requires
            old(self).wf(),
        ensures
            final(self).wf(),
            final(self)@ == deleted(old(self)@, id@),
            r == (run_of(old(self)@, id@) is Some),
    {
        let ghost before = self@;
        match find_run(&self.rows, id) {
            Some(k) => {
                self.rows.remove(k);
                assert(self@ =~= before.remove(k as int));
                assert forall|i: int, j: int| 0 <= i < j < self@.len() implies (
                #[trigger] self@[i]).id != (#[trigger] self@[j]).id by {
                    let a = if i < k {
                        i
                    } else {
                        i + 1
                    };
                    let b = if j < k {
                        j
                    } else {
                        j + 1
                    };
                    assert(self@[i] == before[a] && self@[j] == before[b]);
                }
                true
            },
            None => false,
        }
    }
}

// ---------- laws ----------

proof fn lemma_run_from(rows: Seq<training_session::RunView>, id: Seq<char>, i: int)
    requires
        0 <= i <= rows.len(),
    ensures
        match training_session::run_from(rows, id, i) {
            Some(k) => i <= k < rows.len() && rows[k].id == id && forall|j: int|
                i <= j < k ==> (#[trigger] rows[j]).id != id,
            None => forall|j: int| i <= j < rows.len() ==> (#[trigger] rows[j]).id != id,
        },
    decreases rows.len() - i,
{
    if i < rows.len() && rows[i].id != id {
        lemma_run_from(rows, id, i + 1);
    }
}

proof fn lemma_first_run(rows: Seq<training_session::RunView>, id: Seq<char>, i: int, k: int)
    requires
        0 <= i <= k < rows.len(),
        rows[k].id == id,
        forall|j: int| i <= j < k ==> (#[trigger] rows[j]).id != id,
    ensures
        training_session::run_from(rows, id, i) == Some(k),
    decreases k - i,
{
    if i < k {
        lemma_first_run(rows, id, i + 1, k);
    }
}

/// A run that is stored is read back, and ids stay distinct.
pub proof fn law_stored_run_is_read_back(
    rows: Seq<training_session::RunView>,
    run: training_session::RunView,
)
    requires
        ids_distinct(rows),
    ensures
        run_of(stored(rows, run), run.id) == Some(run),
        ids_distinct(stored(rows, run)),
{
    lemma_run_from(rows, run.id, 0);
    let after = stored(rows, run);
    let k = match training_session::run_from(rows, run.id, 0) {
        Some(k) => k,
        None => rows.len() as int,
    };
    assert forall|j: int| 0 <= j < k implies (#[trigger] after[j]).id != run.id by {
        assert(after[j] == rows[j]);
    }
    lemma_first_run(after, run.id, 0, k);
    assert forall|i: int, j: int| 0 <= i < j < after.len() implies (#[trigger] after[i]).id != (
    #[trigger] after[j]).id by {
        if i < rows.len() {
            assert(after[i].id == rows[i].id);
        }
        if j < rows.len() {
            assert(after[j].id == rows[j].id);
        }
    }
}

/// A run that is deleted is not found any more.
pub proof fn law_deleted_run_is_gone(rows: Seq<training_session::RunView>, id: Seq<char>)
    requires
        ids_distinct(rows),
    ensures
        run_of(deleted(rows, id), id) is None,
{
    lemma_run_from(rows, id, 0);
    lemma_run_from(deleted(rows, id), id, 0);
    if let Some(k) = training_session::run_from(rows, id, 0) {
        let after = rows.remove(k);
        assert forall|j: int| 0 <= j < after.len() implies (#[trigger] after[j]).id != id by {
            if j < k {
                assert(after[j] == rows[j]);
            } else {
                assert(after[j] == rows[j + 1]);
                assert(rows[k].id != rows[j + 1].id);
            }
        }
    }
}

/// There is one list of the runs from the newest on.
pub proof fn law_run_list_is_unique(
    a: Seq<int>,
    b: Seq<int>,
    rows: Seq<training_session::RunView>,
)
    requires
        newest_first(a, rows, rows.len() as int),
        newest_first(b, rows, rows.len() as int),
    ensures
        a == b,
{
    lemma_lists_agree(a, b, rows, a.len() as int);
    assert(a =~= b);
}

proof fn lemma_not_newer_than_itself(a: training_session::RunView, b: training_session::RunView)
    requires
        newer(a, b),
    ensures
        !newer(b, a),
        a != b,
{
    if newer(b, a) {
        lemma_newer_is_transitive(a, b, a);
    }
    lemma_never_before_itself(a.started_at);
    lemma_never_before_itself(a.id);
}

proof fn lemma_never_before_itself(s: Seq<char>)
    ensures
        !text::before(s, s),
    decreases s.len(),
{
    if s.len() > 0 {
        lemma_never_before_itself(s.drop_first());
    }
}

proof fn lemma_lists_agree(
    a: Seq<int>,
    b: Seq<int>,
    rows: Seq<training_session::RunView>,
    n: int,
)
    requires
        newest_first(a, rows, rows.len() as int),
        newest_first(b, rows, rows.len() as int),
        0 <= n <= a.len(),
    ensures
        forall|i: int| 0 <= i < n ==> #[trigger] a[i] == b[i],
    decreases n,
{
    if n > 0 {
        lemma_lists_agree(a, b, rows, n - 1);
        let k = n - 1;
        if a[k] != b[k] {
            assert(a.contains(b[k]));
            let i = choose|i: int| 0 <= i < a.len() && a[i] == b[k];
            assert(b.contains(a[k]));
            let j = choose|j: int| 0 <= j < b.len() && b[j] == a[k];
            if i < k {
                assert(a[i] == b[i]);
                assert(newer(rows[b[i]], rows[b[k]]));
                lemma_not_newer_than_itself(rows[b[i]], rows[b[k]]);
            }
            if j < k {
                assert(a[j] == b[j]);
                assert(newer(rows[a[j]], rows[a[k]]));
                lemma_not_newer_than_itself(rows[a[j]], rows[a[k]]);
            }
            assert(newer(rows[a[k]], rows[a[i]]));
            assert(newer(rows[b[k]], rows[b[j]]));
            lemma_not_newer_than_itself(rows[a[k]], rows[b[k]]);
        }
    }
}

} // verus!
