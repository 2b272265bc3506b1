//! The downloads that run: one job for each repository and variant, how it is joined, cancelled and
//! finished, and what is said of its progress.

use vstd::prelude::*;

use crate::chat_store;
use crate::downloads;
use crate::downloads::{next_step, FileStep, RemoteFile};
use crate::hub;
use crate::model_scan;
use crate::model_scan::LocalModel;
use crate::names;
use crate::text;

verus! {

#[derive(Debug, Clone, Copy, PartialEq, Eq, Structural)]
pub enum JobState {
    Running,
    Cancelling,
    Complete,
    Error,
    Cancelled,
}

pub open spec fn state_name(s: JobState) -> Seq<char> {
    match s {
        JobState::Running => "running"@,
        JobState::Cancelling => "cancelling"@,
        JobState::Complete => "complete"@,
        JobState::Error => "error"@,
        JobState::Cancelled => "cancelled"@,
    }
}

pub open spec fn active(s: JobState) -> bool {
    s == JobState::Running || s == JobState::Cancelling
}

impl JobState {
    /// The name of the state in answers.
    pub fn as_str(self) -> (r: &'static str)
        ensures
            r@ == state_name(self),
    {
        match self {
            JobState::Running => "running",
            JobState::Cancelling => "cancelling",
            JobState::Complete => "complete",
            JobState::Error => "error",
            JobState::Cancelled => "cancelled",
        }
    }

    /// Whether the job still works.
    pub fn is_active(self) -> (r: bool)
        ensures
            r == active(self),
    {
        match self {
            JobState::Running => true,
            JobState::Cancelling => true,
            _ => false,
        }
    }
}

/// A download of a variant.
#[derive(Debug)]
pub struct Job {
    pub key: String,
    pub repo_id: String,
    pub variant: String,
    /// Which start of a download this is.
    pub generation: u64,
    pub state: JobState,
    pub error: Option<String>,
    pub files: Vec<RemoteFile>,
    /// What was received, the current file included.
    pub downloaded_bytes: u64,
    /// What lies in files that are complete.
    pub completed_bytes: u64,
    pub total_bytes: u64,
}

#[verifier::ext_equal]
pub struct JobView {
    pub key: Seq<char>,
    pub repo_id: Seq<char>,
    pub variant: Seq<char>,
    pub generation: u64,
    pub state: JobState,
    pub error: Option<Seq<char>>,
    pub files: Seq<downloads::RemoteView>,
    pub downloaded_bytes: u64,
    pub completed_bytes: u64,
    pub total_bytes: u64,
}

impl View for Job {
    type V = JobView;

    open spec fn view(&self) -> JobView {
        JobView {
            key: self.key@,
            repo_id: self.repo_id@,
            variant: self.variant@,
            generation: self.generation,
            state: self.state,
            error: chat_store::opt_text(self.error),
            files: downloads::remotes_view(self.files@),
            downloaded_bytes: self.downloaded_bytes,
            completed_bytes: self.completed_bytes,
            total_bytes: self.total_bytes,
        }
    }
}

pub open spec fn jobs_view(s: Seq<Job>) -> Seq<JobView> {
    Seq::new(s.len(), |i: int| s[i]@)
}

/// All downloads since the start of the program, one for each key.
#[derive(Debug)]
pub struct DownloadRegistry {
    pub jobs: Vec<Job>,
    /// The generation that was given last.
    pub last_generation: u64,
}

#[verifier::ext_equal]
pub struct RegistryView {
    pub jobs: Seq<JobView>,
    pub last_generation: u64,
}

impl View for DownloadRegistry {
    type V = RegistryView;

    open spec fn view(&self) -> RegistryView {
        RegistryView { jobs: jobs_view(self.jobs@), last_generation: self.last_generation }
    }
}

/// The first job with a key from `i` on.
pub open spec fn job_from(jobs: Seq<JobView>, key: Seq<char>, i: int) -> Option<int>
    decreases jobs.len() - i,
{
    if i < 0 || i >= jobs.len() {
        None
    } else if jobs[i].key == key {
        Some(i)
    } else {
        job_from(jobs, key, i + 1)
    }
}

/// The job with a key.
pub open spec fn job_of(s: RegistryView, key: Seq<char>) -> Option<JobView> {
    match job_from(s.jobs, key, 0) {
        Some(k) => Some(s.jobs[k]),
        None => None,
    }
}

/// Each key has one job, and no generation is ahead of the last one given.
pub open spec fn sound(s: RegistryView) -> bool {
    &&& forall|i: int, j: int|
        0 <= i < j < s.jobs.len() ==> (#[trigger] s.jobs[i]).key != (#[trigger] s.jobs[j]).key
    &&& forall|i: int|
        0 <= i < s.jobs.len() ==> (#[trigger] s.jobs[i]).generation <= s.last_generation
}

/// The registry with this job in place of the one with its key.
pub open spec fn with_job(s: RegistryView, job: JobView) -> RegistryView {
    match job_from(s.jobs, job.key, 0) {
        Some(k) => RegistryView { jobs: s.jobs.update(k, job), ..s },
        None => RegistryView { jobs: s.jobs.push(job), ..s },
    }
}

/// What happens to a job.
#[derive(Debug)]
pub enum Change {
    /// So much is received.
    Downloaded(u64),
    /// So much lies in complete files.
    Completed(u64),
    /// All files are there.
    Finished,
    Cancelled,
    Failed(String),
}

#[verifier::ext_equal]
pub enum ChangeView {
    Downloaded(u64),
    Completed(u64),
    Finished,
    Cancelled,
    Failed(Seq<char>),
}

impl View for Change {
    type V = ChangeView;

    open spec fn view(&self) -> ChangeView {
        match self {
            Change::Downloaded(n) => ChangeView::Downloaded(*n),
            Change::Completed(n) => ChangeView::Completed(*n),
            Change::Finished => ChangeView::Finished,
            Change::Cancelled => ChangeView::Cancelled,
            Change::Failed(s) => ChangeView::Failed(s@),
        }
    }
}

pub open spec fn greater(a: u64, b: u64) -> u64 {
    if a >= b {
        a
    } else {
        b
    }
}

/// A job after a change.
pub open spec fn changed(job: JobView, change: ChangeView) -> JobView {
    match change {
        ChangeView::Downloaded(n) => JobView { downloaded_bytes: n, ..job },
        ChangeView::Completed(n) => JobView { downloaded_bytes: n, completed_bytes: n, ..job },
        ChangeView::Finished => {
            let all = greater(job.total_bytes, job.completed_bytes);
            JobView {
                state: JobState::Complete,
                downloaded_bytes: all,
                completed_bytes: all,
                ..job
            }
        },
        ChangeView::Cancelled => JobView { state: JobState::Cancelled, ..job },
        ChangeView::Failed(why) => JobView { state: JobState::Error, error: Some(why), ..job },
    }
}

/// The registry after a change from the task of a generation. A task whose job was replaced changes
/// nothing.
pub open spec fn updated(
    s: RegistryView,
    key: Seq<char>,
    generation: u64,
    change: ChangeView,
) -> RegistryView {
    match job_from(s.jobs, key, 0) {
        Some(k) => if s.jobs[k].generation == generation {
            RegistryView { jobs: s.jobs.update(k, changed(s.jobs[k], change)), ..s }
        } else {
            s
        },
        None => s,
    }
}

/// The known sizes of the first `n` files.
pub open spec fn known_bytes(files: Seq<downloads::RemoteView>, n: int) -> int
    decreases n,
{
    if n <= 0 {
        0
    } else {
        known_bytes(files, n - 1) + match files[n - 1].size {
            Some(size) => size as int,
            None => 0,
        }
    }
}

pub proof fn lemma_known_grows(files: Seq<downloads::RemoteView>, k: int, n: int)
    requires
        0 <= k <= n,
    ensures
        0 <= known_bytes(files, k) <= known_bytes(files, n),
    decreases n,
{
    if k < n {
        lemma_known_grows(files, k, n - 1);
    } else if n > 0 {
        lemma_known_grows(files, n - 1, n - 1);
    }
}

/// A new job.
pub open spec fn new_job(
    s: RegistryView,
    key: Seq<char>,
    repo_id: Seq<char>,
    variant: Seq<char>,
    files: Seq<downloads::RemoteView>,
) -> JobView {
    JobView {
        key,
        repo_id,
        variant,
        generation: (s.last_generation + 1) as u64,
        state: JobState::Running,
        error: None,
        files,
        downloaded_bytes: 0,
        completed_bytes: 0,
        total_bytes: known_bytes(files, files.len() as int) as u64,
    }
}

/// The registry after a request to start a download, and whether it joined one that works.
pub open spec fn started(
    s: RegistryView,
    key: Seq<char>,
    repo_id: Seq<char>,
    variant: Seq<char>,
    files: Seq<downloads::RemoteView>,
) -> (RegistryView, bool) {
    let running = match job_of(s, key) {
        Some(job) => active(job.state),
        None => false,
    };
    if running {
        (s, true)
    } else {
        let job = new_job(s, key, repo_id, variant, files);
        (RegistryView { last_generation: job.generation, ..with_job(s, job) }, false)
    }
}

/// Whether a request to cancel is for this job: it works, and is of the generation that is meant.
pub open spec fn meant_job(job: JobView, generation: Option<u64>) -> bool {
    active(job.state) && (generation is Some ==> generation->Some_0 == job.generation)
}

/// The registry after a request to cancel. `listening` says whether the task of the job can still be
/// told.
pub open spec fn cancelled(
    s: RegistryView,
    key: Seq<char>,
    generation: Option<u64>,
    listening: bool,
) -> RegistryView {
    match job_from(s.jobs, key, 0) {
        None => s,
        Some(k) => {
            let job = s.jobs[k];
            if meant_job(job, generation) {
                let state = if listening {
                    JobState::Cancelling
                } else {
                    JobState::Cancelled
                };
                RegistryView { jobs: s.jobs.update(k, JobView { state, ..job }), ..s }
            } else {
                s
            }
        },
    }
}

/// The answer to a request to start a download.
#[derive(Debug)]
pub struct StartAnswer {
    pub job_key: String,
    pub state: JobState,
    /// None where there was nothing to download.
    pub generation: Option<u64>,
    /// Whether the request joined a download that works already.
    pub attached: bool,
}

impl Job {
    /// Whether a request to cancel is for this job.
    fn is_meant(&self, generation: Option<u64>) -> (r: bool)
        ensures
            r == meant_job(self@, generation),
    {
        self.state.is_active() && match generation {
            Some(g) => g == self.generation,
            None => true,
        }
    }
}

fn find_job(jobs: &Vec<Job>, key: &str) -> (r: Option<usize>)
    ensures
        job_from(jobs_view(jobs@), key@, 0) == (match r {
            Some(k) => Some(k as int),
            None => None,
        }),
        r is Some ==> r->Some_0 < jobs@.len() && jobs@[r->Some_0 as int].key@ == key@,
{
    let ghost view = jobs_view(jobs@);
    let mut i: usize = 0;
    while i < jobs.len()
        invariant
            i <= jobs@.len(),
            view == jobs_view(jobs@),
            job_from(view, key@, 0) == job_from(view, key@, i as int),
        decreases jobs@.len() - i,
    {
        assert(view[i as int] == jobs@[i as int]@);
        if text::same(jobs[i].key.as_str(), key) {
            return Some(i);
        }
        i += 1;
    }
    None
}

pub(crate) fn size_of_files(files: &Vec<RemoteFile>) -> (r: u64)
    requires
        known_bytes(downloads::remotes_view(files@), files@.len() as int) <= u64::MAX,
    ensures
        r == known_bytes(downloads::remotes_view(files@), files@.len() as int),
{
    let ghost view = downloads::remotes_view(files@);
    let mut total: u64 = 0;
    let mut i: usize = 0;
    while i < files.len()
        invariant
            i <= files@.len(),
            view == downloads::remotes_view(files@),
            known_bytes(view, files@.len() as int) <= u64::MAX,
            total == known_bytes(view, i as int),
        decreases files@.len() - i,
    {
        assert(view[i as int] == files@[i as int]@);
        proof {
            lemma_known_grows(view, i + 1, files@.len() as int);
        }
        if let Some(size) = files[i].size {
            total = total + size;
        }
        i += 1;
    }
    total
}

impl DownloadRegistry {
    /// No downloads.
    pub fn new() -> (r: Self)
        ensures
            r@.jobs.len() == 0,
            r@.last_generation == 0,
            sound(r@),
    {
        DownloadRegistry { jobs: Vec::new(), last_generation: 0 }
    }

    /// The job with a key.
    pub fn snapshot(&self, key: &str) -> (r: Option<&Job>)
        ensures
            job_of(self@, key@) == (match r {
                Some(job) => Some(job@),
                None => None,
            }),
    {
        match find_job(&self.jobs, key) {
            Some(k) => Some(&self.jobs[k]),
            None => None,
        }
    }

    /// Changes a job, if it is still of this generation: the task of a job that was replaced does
    /// not touch the new one.
    pub fn update(&mut self, key: &str, generation: u64, change: Change)
        ensures
            final(self)@ == updated(old(self)@, key@, generation, change@),
    {
        let ghost before = self@;
        let k = match find_job(&self.jobs, key) {
            Some(k) => k,
            None => return,
        };
        if self.jobs[k].generation != generation {
            return;
        }
        let ghost old_job = self.jobs@[k as int]@;
        assert(before.jobs[k as int] == old_job);
        match change {
            Change::Downloaded(n) => {
                self.jobs[k].downloaded_bytes = n;
            },
            Change::Completed(n) => {
                self.jobs[k].completed_bytes = n;
                self.jobs[k].downloaded_bytes = n;
            },
            Change::Finished => {
                let total = self.jobs[k].total_bytes;
                let completed = self.jobs[k].completed_bytes;
                let all = if total >= completed {
                    total
                } else {
                    completed
                };
                self.jobs[k].state = JobState::Complete;
                self.jobs[k].downloaded_bytes = all;
                self.jobs[k].completed_bytes = all;
            },
            Change::Cancelled => {
                self.jobs[k].state = JobState::Cancelled;
            },
            Change::Failed(why) => {
                self.jobs[k].state = JobState::Error;
                self.jobs[k].error = Some(why);
            },
        }
        assert(self.jobs@[k as int]@ =~= changed(old_job, change@));
        assert(jobs_view(self.jobs@) =~= before.jobs.update(k as int, changed(old_job, change@)));
    }

    /// Starts a download, or joins the one of the same key that works already.
    pub fn start(
        &mut self,
        key: String,
        repo_id: String,
        variant: String,
        files: Vec<RemoteFile>,
    ) -> (r: StartAnswer)
        requires
            old(self).last_generation < u64::MAX,
            known_bytes(downloads::remotes_view(files@), files@.len() as int) <= u64::MAX,
        ensures
            (final(self)@, r.attached) == started(
                old(self)@,
                key@,
                repo_id@,
                variant@,
                downloads::remotes_view(files@),
            ),
            job_of(final(self)@, key@) is Some,
            r.job_key@ == key@,
            r.state == job_of(final(self)@, key@)->Some_0.state,
            r.generation == Some(job_of(final(self)@, key@)->Some_0.generation),
    {
        let ghost before = self@;
        let place = find_job(&self.jobs, key.as_str());
        if let Some(k) = place {
            assert(before.jobs[k as int] == self.jobs@[k as int]@);
            let state = self.jobs[k].state;
            if state.is_active() {
                let generation = self.jobs[k].generation;
                return StartAnswer {
                    job_key: key,
                    state,
                    generation: Some(generation),
                    attached: true,
                };
            }
        }
        let generation = self.last_generation + 1;
        let total_bytes = size_of_files(&files);
        let job = Job {
            key: key.clone(),
            repo_id,
            variant,
            generation,
            state: JobState::Running,
            error: None,
            files,
            downloaded_bytes: 0,
            completed_bytes: 0,
            total_bytes,
        };
        let ghost item = job@;
        self.last_generation = generation;
        match place {
            Some(k) => {
                self.jobs.set(k, job);
                assert(jobs_view(self.jobs@) =~= before.jobs.update(k as int, item));
            },
            None => {
                self.jobs.push(job);
                assert(jobs_view(self.jobs@) =~= before.jobs.push(item));
            },
        }
        proof {
            lemma_stored_job_is_found(before, item);
            assert(self@.jobs == with_job(before, item).jobs);
        }
        StartAnswer {
            job_key: key,
            state: JobState::Running,
            generation: Some(generation),
            attached: false,
        }
    }

    /// Whether a request to cancel reaches a job, so that its task is to be told.
    pub fn reaches(&self, key: &str, generation: Option<u64>) -> (r: bool)
        ensures
            r == (job_of(self@, key@) is Some && meant_job(job_of(self@, key@)->0, generation)),
    {
        match find_job(&self.jobs, key) {
            Some(k) => {
                assert(self@.jobs[k as int] == self.jobs@[k as int]@);
                self.jobs[k].is_meant(generation)
            },
            None => false,
        }
    }

    /// Cancels a job, if it works and is of the generation that is meant. Returns its state; none if
    /// there is no such job. `listening` says whether its task can still be told.
    pub fn cancel(&mut self, key: &str, generation: Option<u64>, listening: bool) -> (r: Option<
        JobState,
    >)
        ensures
            final(self)@ == cancelled(old(self)@, key@, generation, listening),
            r == (match job_of(final(self)@, key@) {
                Some(job) => Some(job.state),
                None => None,
            }),
    {
        let ghost before = self@;
        let k = match find_job(&self.jobs, key) {
            Some(k) => k,
            None => return None,
        };
        let ghost old_job = self.jobs@[k as int]@;
        assert(before.jobs[k as int] == old_job);
        let state = self.jobs[k].state;
        if self.jobs[k].is_meant(generation) {
            let next = if listening {
                JobState::Cancelling
            } else {
                JobState::Cancelled
            };
            self.jobs[k].state = next;
            let ghost new_job = JobView { state: next, ..old_job };
            assert(self.jobs@[k as int]@ =~= new_job);
            assert(jobs_view(self.jobs@) =~= before.jobs.update(k as int, new_job));
            proof {
                lemma_stored_job_is_found(before, new_job);
            }
            Some(next)
        } else {
            Some(state)
        }
    }
}

proof fn lemma_job_from(jobs: Seq<JobView>, key: Seq<char>, i: int)
    requires
        0 <= i <= jobs.len(),
    ensures
        match job_from(jobs, key, i) {
            Some(k) => i <= k < jobs.len() && jobs[k].key == key && forall|j: int|
                i <= j < k ==> (#[trigger] jobs[j]).key != key,
            None => forall|j: int| i <= j < jobs.len() ==> (#[trigger] jobs[j]).key != key,
        },
    decreases jobs.len() - i,
{
    if i < jobs.len() && jobs[i].key != key {
        lemma_job_from(jobs, key, i + 1);
    }
}

/// A job that is found first at a place.
proof fn lemma_first_job(jobs: Seq<JobView>, key: Seq<char>, i: int, k: int)
    requires
        0 <= i <= k < jobs.len(),
        jobs[k].key == key,
        forall|j: int| i <= j < k ==> (#[trigger] jobs[j]).key != key,
    ensures
        job_from(jobs, key, i) == Some(k),
    decreases k - i,
{
    if i < k {
        lemma_first_job(jobs, key, i + 1, k);
    }
}

proof fn lemma_no_job(jobs: Seq<JobView>, key: Seq<char>, i: int)
    requires
        0 <= i <= jobs.len(),
        forall|j: int| i <= j < jobs.len() ==> (#[trigger] jobs[j]).key != key,
    ensures
        job_from(jobs, key, i) is None,
    decreases jobs.len() - i,
{
    if i < jobs.len() {
        lemma_no_job(jobs, key, i + 1);
    }
}

proof fn lemma_stored_job_is_found(s: RegistryView, job: JobView)
    ensures
        job_from(with_job(s, job).jobs, job.key, 0) is Some,
        job_of(with_job(s, job), job.key) == Some(job),
{
    lemma_job_from(s.jobs, job.key, 0);
    let after = with_job(s, job).jobs;
    match job_from(s.jobs, job.key, 0) {
        Some(k) => {
            assert forall|j: int| 0 <= j < k implies (#[trigger] after[j]).key != job.key by {
                assert(after[j] == s.jobs[j]);
            }
            lemma_first_job(after, job.key, 0, k);
        },
        None => {
            let k = s.jobs.len() as int;
            assert forall|j: int| 0 <= j < k implies (#[trigger] after[j]).key != job.key by {
                assert(after[j] == s.jobs[j]);
            }
            lemma_first_job(after, job.key, 0, k);
        },
    }
}

// ---------- the files of a job, one after another ----------

/// How far a job has come with its files.
#[derive(Debug)]
pub struct JobRun {
    pub files: Vec<RemoteFile>,
    /// The file that is next.
    pub next: usize,
    /// What lies in complete files.
    pub completed: u64,
}

/// What a job does next.
#[derive(Debug)]
pub enum RunStep {
    /// All files are there.
    Finished,
    File(FileStep),
}

#[verifier::ext_equal]
pub enum RunView {
    Finished,
    File(downloads::StepView),
}

impl View for RunStep {
    type V = RunView;

    open spec fn view(&self) -> RunView {
        match self {
            RunStep::Finished => RunView::Finished,
            RunStep::File(step) => RunView::File(step@),
        }
    }
}

impl JobRun {
    pub open spec fn wf(&self) -> bool {
        self.next <= self.files@.len()
    }

    /// Starts with the first file.
    pub fn new(files: Vec<RemoteFile>) -> (r: Self)
        ensures
            r.wf(),
            r.files@ == files@,
            r.next == 0,
            r.completed == 0,
    {
        JobRun { files, next: 0, completed: 0 }
    }

    /// What to do next. `present` is the size of the next file on disk, if there is one.
    pub fn step(&self, cancelled: bool, present: Option<u64>) -> (r: RunStep)
        requires
            self.wf(),
        ensures
            r@ == (if self.next == self.files@.len() {
                RunView::Finished
            } else {
                RunView::File(
                    downloads::spec_step(
                        self.files@[self.next as int]@,
                        cancelled,
                        present,
                    ),
                )
            }),
    {
        if self.next == self.files.len() {
            RunStep::Finished
        } else {
            RunStep::File(next_step(&self.files[self.next], cancelled, present))
        }
    }

    /// The next file is complete, with so many bytes. Returns what is said to the registry.
    pub fn file_done(&mut self, bytes: u64) -> (r: Change)
        requires
            old(self).next < old(self).files@.len(),
            old(self).completed + bytes <= u64::MAX,
        ensures
            final(self).wf(),
            final(self).files@ == old(self).files@,
            final(self).next == old(self).next + 1,
            final(self).completed == old(self).completed + bytes,
            r@ == ChangeView::Completed(final(self).completed),
    {
        let total = self.files.len();
        assert(self.next < total);
        self.completed = self.completed + bytes;
        self.next = self.next + 1;
        Change::Completed(self.completed)
    }

    /// So many bytes of the next file are there. Returns what is said to the registry.
    pub fn received(&self, written: u64) -> (r: Change)
        requires
            self.completed + written <= u64::MAX,
        ensures
            r@ == ChangeView::Downloaded((self.completed + written) as u64),
    {
        Change::Downloaded(self.completed + written)
    }
}

// ---------- requests ----------

/// A request to start a download.
#[derive(Debug)]
pub struct StartRequest {
    pub repo_id: Option<String>,
    pub gguf_variant: Option<String>,
    pub hf_token: Option<String>,
    pub files: Option<Vec<String>>,
}

/// A request to cancel a download.
#[derive(Debug)]
pub struct CancelRequest {
    pub repo_id: Option<String>,
    pub gguf_variant: Option<String>,
    pub generation: Option<u64>,
}

/// A question about downloads.
#[derive(Debug)]
pub struct ProgressQuery {
    pub repo_id: Option<String>,
    pub gguf_variant: Option<String>,
    pub variant: Option<String>,
    pub expected_bytes: Option<u64>,
}

pub open spec fn text_or_empty(s: Option<Seq<char>>) -> Seq<char> {
    match s {
        Some(t) => t,
        None => ""@,
    }
}

/// A text without the blanks around it, if anything is left.
pub open spec fn filled(s: Option<Seq<char>>) -> Option<Seq<char>> {
    match s {
        Some(t) => if text::trimmed(t).len() > 0 {
            Some(text::trimmed(t))
        } else {
            None
        },
        None => None,
    }
}

/// A text without the blanks around it, if anything is left.
pub fn non_empty(value: &Option<String>) -> (r: Option<String>)
    ensures
        chat_store::opt_text(r) == filled(chat_store::opt_text(*value)),
{
    match value {
        Some(t) => {
            let s = text::trim(t.as_str());
            if s.as_str().is_empty() {
                None
            } else {
                Some(s)
            }
        },
        None => None,
    }
}

impl StartRequest {
    /// The token of a request, where none came otherwise.
    pub fn token(&self, known: Option<String>) -> (r: Option<String>)
        ensures
            chat_store::opt_text(r) == (match known {
                Some(t) => Some(t@),
                None => match self.hf_token {
                    Some(t) => if text::trimmed(t@).len() > 0 {
                        Some(t@)
                    } else {
                        None
                    },
                    None => None,
                },
            }),
    {
        match known {
            Some(t) => Some(t),
            None => match &self.hf_token {
                Some(t) => {
                    if text::trim(t.as_str()).as_str().is_empty() {
                        None
                    } else {
                        Some(t.clone())
                    }
                },
                None => None,
            },
        }
    }
}

impl CancelRequest {
    /// The key of the job that a request means.
    pub fn job_key(&self) -> (r: String)
        ensures
            r@ == downloads::spec_job_key(
                text_or_empty(chat_store::opt_text(self.repo_id)),
                chat_store::opt_text(self.gguf_variant),
            ),
    {
        let repo = match &self.repo_id {
            Some(s) => s.as_str(),
            None => "",
        };
        let variant = match &self.gguf_variant {
            Some(s) => Some(s.as_str()),
            None => None,
        };
        downloads::job_key(repo, variant)
    }
}

impl ProgressQuery {
    pub open spec fn spec_repo(&self) -> Seq<char> {
        text::trimmed(text_or_empty(chat_store::opt_text(self.repo_id)))
    }

    pub open spec fn spec_variant(&self) -> Option<Seq<char>> {
        filled(
            match self.gguf_variant {
                Some(v) => Some(v@),
                None => chat_store::opt_text(self.variant),
            },
        )
    }

    /// The repository, empty if none is named.
    pub fn repo(&self) -> (r: String)
        ensures
            r@ == self.spec_repo(),
    {
        match &self.repo_id {
            Some(s) => text::trim(s.as_str()),
            None => text::trim(""),
        }
    }

    /// The variant, by either of its names.
    pub fn variant(&self) -> (r: Option<String>)
        ensures
            chat_store::opt_text(r) == self.spec_variant(),
    {
        match &self.gguf_variant {
            Some(_) => non_empty(&self.gguf_variant),
            None => non_empty(&self.variant),
        }
    }
}

// ---------- what is said of downloads ----------

/// Whether a job is of a repository and, if one is named, a variant.
pub open spec fn job_matches(job: JobView, repo: Seq<char>, variant: Option<Seq<char>>) -> bool {
    active(job.state) && hub::like(job.repo_id, repo) && match variant {
        Some(v) => hub::like(job.variant, v),
        None => true,
    }
}

/// What the jobs among the first `n` of a repository and variant have together.
pub struct Sums {
    pub count: int,
    pub downloaded: int,
    pub completed: int,
    pub total: int,
}

pub open spec fn sums(
    jobs: Seq<JobView>,
    repo: Seq<char>,
    variant: Option<Seq<char>>,
    n: int,
) -> Sums
    decreases n,
{
    if n <= 0 {
        Sums { count: 0, downloaded: 0, completed: 0, total: 0 }
    } else {
        let before = sums(jobs, repo, variant, n - 1);
        let job = jobs[n - 1];
        if job_matches(job, repo, variant) {
            Sums {
                count: before.count + 1,
                downloaded: before.downloaded + job.downloaded_bytes,
                completed: before.completed + job.completed_bytes,
                total: before.total + job.total_bytes,
            }
        } else {
            before
        }
    }
}

proof fn lemma_sums_grow(
    jobs: Seq<JobView>,
    repo: Seq<char>,
    variant: Option<Seq<char>>,
    k: int,
    n: int,
)
    requires
        0 <= k <= n,
    ensures
        0 <= sums(jobs, repo, variant, k).downloaded <= sums(jobs, repo, variant, n).downloaded,
        0 <= sums(jobs, repo, variant, k).completed <= sums(jobs, repo, variant, n).completed,
        0 <= sums(jobs, repo, variant, k).total <= sums(jobs, repo, variant, n).total,
        0 <= sums(jobs, repo, variant, k).count <= k,
    decreases n,
{
    if k < n {
        lemma_sums_grow(jobs, repo, variant, k, n - 1);
    } else if n > 0 {
        lemma_sums_grow(jobs, repo, variant, n - 1, n - 1);
    }
}

/// Whether the sums can be held.
pub open spec fn sums_fit(s: Sums) -> bool {
    s.downloaded <= u64::MAX && s.completed <= u64::MAX && s.total <= u64::MAX
}

/// The progress of a download.
#[derive(Debug)]
pub struct Progress {
    pub downloaded_bytes: u64,
    pub completed_bytes: u64,
    pub expected_bytes: u64,
    pub complete_on_disk: bool,
    /// Whether anything of it is there.
    pub target_present: bool,
    pub cache_path: Option<String>,
}

#[verifier::ext_equal]
pub struct ProgressView {
    pub downloaded_bytes: int,
    pub completed_bytes: int,
    pub expected_bytes: int,
    pub complete_on_disk: bool,
    pub target_present: bool,
    pub cache_path: Option<Seq<char>>,
}

impl View for Progress {
    type V = ProgressView;

    open spec fn view(&self) -> ProgressView {
        ProgressView {
            downloaded_bytes: self.downloaded_bytes as int,
            completed_bytes: self.completed_bytes as int,
            expected_bytes: self.expected_bytes as int,
            complete_on_disk: self.complete_on_disk,
            target_present: self.target_present,
            cache_path: chat_store::opt_text(self.cache_path),
        }
    }
}

pub open spec fn progress_of(
    downloaded: int,
    completed: int,
    expected: int,
    complete: bool,
    path: Option<Seq<char>>,
) -> ProgressView {
    ProgressView {
        downloaded_bytes: downloaded,
        completed_bytes: completed,
        expected_bytes: expected,
        complete_on_disk: complete,
        target_present: complete || downloaded > 0,
        cache_path: path,
    }
}

fn progress(
    downloaded: u64,
    completed: u64,
    expected: u64,
    complete: bool,
    path: Option<String>,
) -> (r: Progress)
    ensures
        r@ == progress_of(
            downloaded as int,
            completed as int,
            expected as int,
            complete,
            chat_store::opt_text(path),
        ),
{
    Progress {
        downloaded_bytes: downloaded,
        completed_bytes: completed,
        expected_bytes: expected,
        complete_on_disk: complete,
        target_present: complete || downloaded > 0,
        cache_path: path,
    }
}

pub open spec fn opt_str(v: Option<&str>) -> Option<Seq<char>> {
    match v {
        Some(s) => Some(s@),
        None => None,
    }
}

fn matches_job(job: &Job, repo: &str, variant: Option<&str>) -> (r: bool)
    ensures
        r == job_matches(job@, repo@, opt_str(variant)),
{
    if !job.state.is_active() || !text::same_ignoring_case(job.repo_id.as_str(), repo) {
        return false;
    }
    match variant {
        Some(v) => text::same_ignoring_case(job.variant.as_str(), v),
        None => true,
    }
}

/// The progress of the downloads that work; none if there is no such download. `dir` is the
/// repository's folder.
pub fn active_progress(
    registry: &DownloadRegistry,
    repo: &str,
    variant: Option<&str>,
    expected_hint: Option<u64>,
    dir: Option<String>,
) -> (r: Option<Progress>)
    requires
        sums_fit(
            sums(registry@.jobs, repo@, opt_str(variant), registry@.jobs.len() as int),
        ),
    ensures
        ({
            let s = sums(registry@.jobs, repo@, opt_str(variant), registry@.jobs.len() as int);
            if s.count == 0 {
                r is None
            } else {
                r is Some && r->Some_0@ == progress_of(
                    s.downloaded,
                    s.completed,
                    if s.total > 0 {
                        s.total
                    } else if expected_hint is Some {
                        expected_hint->Some_0 as int
                    } else {
                        0
                    },
                    false,
                    chat_store::opt_text(dir),
                )
            }
        }),
{
    let ghost view = registry@.jobs;
    let ghost v = opt_str(variant);
    let ghost all = sums(view, repo@, v, view.len() as int);
    let mut found = false;
    let mut downloaded: u64 = 0;
    let mut completed: u64 = 0;
    let mut total: u64 = 0;
    let mut i: usize = 0;
    while i < registry.jobs.len()
        invariant
            i <= registry.jobs@.len(),
            view == registry@.jobs,
            view.len() == registry.jobs@.len(),
            v == opt_str(variant),
            all == sums(view, repo@, v, view.len() as int),
            sums_fit(all),
            found == (sums(view, repo@, v, i as int).count > 0),
            downloaded == sums(view, repo@, v, i as int).downloaded,
            completed == sums(view, repo@, v, i as int).completed,
            total == sums(view, repo@, v, i as int).total,
        decreases registry.jobs@.len() - i,
    {
        assert(view[i as int] == registry.jobs@[i as int]@);
        proof {
            lemma_sums_grow(view, repo@, v, i as int, view.len() as int);
            lemma_sums_grow(view, repo@, v, i + 1, view.len() as int);
        }
        let job = &registry.jobs[i];
        if matches_job(job, repo, variant) {
            found = true;
            downloaded = downloaded + job.downloaded_bytes;
            completed = completed + job.completed_bytes;
            total = total + job.total_bytes;
        }
        i += 1;
    }
    proof {
        lemma_sums_grow(view, repo@, v, i as int, i as int);
    }
    if !found {
        return None;
    }
    let expected = if total > 0 {
        total
    } else {
        match expected_hint {
            Some(n) => n,
            None => 0,
        }
    };
    Some(progress(downloaded, completed, expected, false, dir))
}

/// Whether a model is a complete one of a repository and, if one is named, a variant.
pub open spec fn model_matches(
    m: model_scan::ModelView,
    repo: Seq<char>,
    variant: Option<Seq<char>>,
) -> bool {
    m.complete && hub::like(model_scan::spec_repo_id(m), text::trimmed(repo)) && match filled(
        variant,
    ) {
        Some(v) => hub::like(names::spec_quant(model_scan::spec_path_in_repo(m)), v),
        None => true,
    }
}

/// The first such model from `i` on.
pub open spec fn model_from(
    models: Seq<model_scan::ModelView>,
    repo: Seq<char>,
    variant: Option<Seq<char>>,
    i: int,
) -> Option<int>
    decreases models.len() - i,
{
    if i < 0 || i >= models.len() {
        None
    } else if model_matches(models[i], repo, variant) {
        Some(i)
    } else {
        model_from(models, repo, variant, i + 1)
    }
}

/// The complete model of a repository and, if one is named, a variant.
pub fn local_variant<'a>(models: &'a Vec<LocalModel>, repo: &str, variant: &Option<String>) -> (r:
    Option<&'a LocalModel>)
    ensures
        match model_from(
            model_scan::models_view(models@),
            repo@,
            chat_store::opt_text(*variant),
            0,
        ) {
            Some(k) => 0 <= k < models@.len() && r is Some && r->Some_0@ == models@[k]@,
            None => r is None,
        },
{
    let ghost view = model_scan::models_view(models@);
    let ghost v = chat_store::opt_text(*variant);
    let name = text::trim(repo);
    let wanted = non_empty(variant);
    let mut i: usize = 0;
    while i < models.len()
        invariant
            i <= models@.len(),
            view == model_scan::models_view(models@),
            v == chat_store::opt_text(*variant),
            name@ == text::trimmed(repo@),
            chat_store::opt_text(wanted) == filled(v),
            model_from(view, repo@, v, 0) == model_from(view, repo@, v, i as int),
        decreases models@.len() - i,
    {
        assert(view[i as int] == models@[i as int]@);
        let m = &models[i];
        if m.complete && text::same_ignoring_case(m.repo_id().as_str(), name.as_str()) {
            let fits = match &wanted {
                Some(w) => text::same_ignoring_case(m.quant().as_str(), w.as_str()),
                None => true,
            };
            if fits {
                return Some(m);
            }
        }
        i += 1;
    }
    None
}

/// The progress where no download works: a complete model, or what is left of a broken download.
pub fn idle_progress(
    model: Option<&LocalModel>,
    partial: u64,
    expected_hint: Option<u64>,
    dir: Option<String>,
) -> (r: Progress)
    ensures
        r@ == (match model {
            Some(m) => progress_of(
                m@.size_bytes as int,
                m@.size_bytes as int,
                m@.size_bytes as int,
                true,
                Some(m@.path),
            ),
            None => progress_of(
                partial as int,
                0,
                if expected_hint is Some {
                    expected_hint->Some_0 as int
                } else {
                    0
                },
                false,
                if partial > 0 {
                    chat_store::opt_text(dir)
                } else {
                    None
                },
            ),
        }),
{
    match model {
        Some(m) => progress(m.size_bytes, m.size_bytes, m.size_bytes, true, Some(m.id())),
        None => {
            let expected = match expected_hint {
                Some(n) => n,
                None => 0,
            };
            let path = if partial > 0 {
                dir
            } else {
                None
            };
            progress(partial, 0, expected, false, path)
        },
    }
}

/// The state of a download that has no job.
pub fn idle_state(present: bool) -> (r: &'static str)
    ensures
        r@ == (if present {
            "complete"@
        } else {
            "idle"@
        }),
{
    if present {
        "complete"
    } else {
        "idle"
    }
}

/// The places among the first `n` of jobs that work, of one repository or of all.
pub open spec fn working(jobs: Seq<JobView>, repo: Seq<char>, n: int) -> Seq<int>
    decreases n,
{
    if n <= 0 {
        Seq::empty()
    } else {
        let before = working(jobs, repo, n - 1);
        let job = jobs[n - 1];
        if active(job.state) && (repo.len() == 0 || hub::like(job.repo_id, repo)) {
            before.push(n - 1)
        } else {
            before
        }
    }
}

/// The places of the jobs that work, of one repository or, without a name, of all.
pub fn active_jobs(registry: &DownloadRegistry, repo: &str) -> (r: Vec<usize>)
    ensures
        r@.map_values(|k: usize| k as int) == working(
            registry@.jobs,
            repo@,
            registry@.jobs.len() as int,
        ),
{
    let ghost view = registry@.jobs;
    let mut out: Vec<usize> = Vec::new();
    let mut i: usize = 0;
    assert(out@.map_values(|k: usize| k as int) =~= Seq::empty());
    while i < registry.jobs.len()
        invariant
            i <= registry.jobs@.len(),
            view == registry@.jobs,
            view.len() == registry.jobs@.len(),
            out@.map_values(|k: usize| k as int) == working(view, repo@, i as int),
        decreases registry.jobs@.len() - i,
    {
        assert(view[i as int] == registry.jobs@[i as int]@);
        let job = &registry.jobs[i];
        if job.state.is_active() && (repo.is_empty() || text::same_ignoring_case(
            job.repo_id.as_str(),
            repo,
        )) {
            let ghost before = out@.map_values(|k: usize| k as int);
            out.push(i);
            assert(out@.map_values(|k: usize| k as int) =~= before.push(i as int));
        }
        i += 1;
    }
    out
}

// ---------- laws ----------

/// A request for a download that works already joins it and changes nothing.
pub proof fn law_running_download_is_joined(
    s: RegistryView,
    key: Seq<char>,
    repo_id: Seq<char>,
    variant: Seq<char>,
    files: Seq<downloads::RemoteView>,
)
    requires
        job_of(s, key) is Some,
        active(job_of(s, key)->Some_0.state),
    ensures
        started(s, key, repo_id, variant, files) == (s, true),
{
}

/// A download that starts has a generation that was never given before, and it is the job of its
/// key.
pub proof fn law_new_download_has_a_new_generation(
    s: RegistryView,
    key: Seq<char>,
    repo_id: Seq<char>,
    variant: Seq<char>,
    files: Seq<downloads::RemoteView>,
)
    requires
        sound(s),
        s.last_generation < u64::MAX,
        !started(s, key, repo_id, variant, files).1,
    ensures
        ({
            let after = started(s, key, repo_id, variant, files).0;
            let job = new_job(s, key, repo_id, variant, files);
            &&& job_of(after, key) == Some(job)
            &&& after.last_generation == job.generation
            &&& forall|i: int|
                0 <= i < s.jobs.len() ==> (#[trigger] s.jobs[i]).generation < job.generation
        }),
{
    let job = new_job(s, key, repo_id, variant, files);
    lemma_stored_job_is_found(s, job);
    assert(started(s, key, repo_id, variant, files).0.jobs == with_job(s, job).jobs);
}

/// The task of a job that was replaced changes nothing any more.
pub proof fn law_replaced_task_changes_nothing(
    s: RegistryView,
    key: Seq<char>,
    repo_id: Seq<char>,
    variant: Seq<char>,
    files: Seq<downloads::RemoteView>,
    change: ChangeView,
)
    requires
        sound(s),
        s.last_generation < u64::MAX,
        job_of(s, key) is Some,
        !started(s, key, repo_id, variant, files).1,
    ensures
        ({
            let after = started(s, key, repo_id, variant, files).0;
            updated(after, key, job_of(s, key)->Some_0.generation, change) == after
        }),
{
    law_new_download_has_a_new_generation(s, key, repo_id, variant, files);
    lemma_job_from(s.jobs, key, 0);
}

/// A request to cancel another start of a download than the current one is ignored, as is one for a
/// download that has ended.
pub proof fn law_only_the_current_download_is_cancelled(
    s: RegistryView,
    key: Seq<char>,
    generation: Option<u64>,
    listening: bool,
)
    requires
        job_of(s, key) is Some,
        !active(job_of(s, key)->Some_0.state) || (generation is Some && generation->Some_0
            != job_of(s, key)->Some_0.generation),
    ensures
        cancelled(s, key, generation, listening) == s,
{
}

/// What happens to one download leaves those of other keys as they are.
pub proof fn law_downloads_do_not_touch_each_other(
    s: RegistryView,
    key: Seq<char>,
    other: Seq<char>,
    generation: u64,
    change: ChangeView,
    which: Option<u64>,
    listening: bool,
    repo_id: Seq<char>,
    variant: Seq<char>,
    files: Seq<downloads::RemoteView>,
)
    requires
        key != other,
    ensures
        job_of(updated(s, key, generation, change), other) == job_of(s, other),
        job_of(cancelled(s, key, which, listening), other) == job_of(s, other),
        job_of(started(s, key, repo_id, variant, files).0, other) == job_of(s, other),
{
    lemma_job_from(s.jobs, key, 0);
    lemma_same_job_elsewhere(s.jobs, updated(s, key, generation, change).jobs, key, other);
    lemma_same_job_elsewhere(s.jobs, cancelled(s, key, which, listening).jobs, key, other);
    lemma_same_job_elsewhere(
        s.jobs,
        started(s, key, repo_id, variant, files).0.jobs,
        key,
        other,
    );
}

/// The same job is found where only jobs of another key differ.
proof fn lemma_same_job_elsewhere(
    a: Seq<JobView>,
    b: Seq<JobView>,
    key: Seq<char>,
    other: Seq<char>,
)
    requires
        key != other,
        a.len() <= b.len(),
        forall|i: int|
            0 <= i < a.len() ==> (#[trigger] b[i] == a[i] || (b[i].key == key && a[i].key == key)),
        forall|i: int| a.len() <= i < b.len() ==> (#[trigger] b[i]).key == key,
    ensures
        match job_from(a, other, 0) {
            Some(k) => job_from(b, other, 0) == Some(k) && b[k] == a[k],
            None => job_from(b, other, 0) is None,
        },
{
    lemma_job_from(a, other, 0);
    match job_from(a, other, 0) {
        Some(k) => {
            assert(b[k] == a[k]);
            assert forall|j: int| 0 <= j < k implies (#[trigger] b[j]).key != other by {
                assert(a[j].key != other);
            }
            lemma_first_job(b, other, 0, k);
        },
        None => {
            assert forall|j: int| 0 <= j < b.len() implies (#[trigger] b[j]).key != other by {
                if j < a.len() {
                    assert(a[j].key != other);
                }
            }
            lemma_no_job(b, other, 0);
        },
    }
}

/// Whatever happens, each key has one job, and no generation is ahead of the last one given.
pub proof fn law_registry_stays_sound(
    s: RegistryView,
    key: Seq<char>,
    generation: u64,
    change: ChangeView,
    which: Option<u64>,
    listening: bool,
    repo_id: Seq<char>,
    variant: Seq<char>,
    files: Seq<downloads::RemoteView>,
)
    requires
        sound(s),
        s.last_generation < u64::MAX,
    ensures
        sound(updated(s, key, generation, change)),
        sound(cancelled(s, key, which, listening)),
        sound(started(s, key, repo_id, variant, files).0),
{
    lemma_job_from(s.jobs, key, 0);
    lemma_sound_after(s, updated(s, key, generation, change));
    lemma_sound_after(s, cancelled(s, key, which, listening));
    lemma_sound_after(s, started(s, key, repo_id, variant, files).0);
}

proof fn lemma_sound_after(s: RegistryView, t: RegistryView)
    requires
        sound(s),
        s.last_generation <= t.last_generation,
        s.jobs.len() <= t.jobs.len() <= s.jobs.len() + 1,
        forall|i: int| 0 <= i < s.jobs.len() ==> (#[trigger] t.jobs[i]).key == s.jobs[i].key,
        forall|i: int|
            0 <= i < t.jobs.len() ==> (#[trigger] t.jobs[i]).generation <= t.last_generation,
        t.jobs.len() > s.jobs.len() ==> forall|i: int|
            0 <= i < s.jobs.len() ==> (#[trigger] s.jobs[i]).key != t.jobs.last().key,
    ensures
        sound(t),
{
    assert forall|i: int, j: int| 0 <= i < j < t.jobs.len() implies (#[trigger] t.jobs[i]).key != (
    #[trigger] t.jobs[j]).key by {
        assert(t.jobs[i].key == s.jobs[i].key);
        if j < s.jobs.len() {
            assert(t.jobs[j].key == s.jobs[j].key);
        }
    }
}

/// A download that is finished reports at least the sizes that were known, and as much received as
/// stored.
pub proof fn law_finished_download_is_fully_counted(job: JobView)
    ensures
        ({
            let done = changed(job, ChangeView::Finished);
            &&& done.state == JobState::Complete
            &&& done.downloaded_bytes == done.completed_bytes
            &&& done.downloaded_bytes >= job.total_bytes
        }),
{
}

} // verus!
