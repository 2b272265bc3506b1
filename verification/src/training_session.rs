//! The run that is being trained: how it starts, proceeds, stops and ends, and what is remembered
//! of it.
//!
//! Floating-point numbers are 32-bit ones, held as their bits.

use vstd::prelude::*;

use crate::chat_store;
use crate::text;
use crate::training;
use crate::training::{
    resolve_hyperparameters, TrainStartRequest, FIRST_LOSS, FIRST_TOKENS_PER_SEC, MAX_LOSS_HISTORY,
    NO_JOB,
};

verus! {

/// What is remembered of a run.
#[derive(Debug)]
pub struct TrainingRunSummary {
    pub id: String,
    pub status: String,
    pub model_name: String,
    pub project_name: Option<String>,
    pub dataset_name: String,
    pub display_name: Option<String>,
    pub started_at: String,
    pub ended_at: Option<String>,
    pub total_steps: Option<u32>,
    pub final_step: Option<u32>,
    pub final_loss: Option<u32>,
    pub output_dir: Option<String>,
    pub can_resume: bool,
    pub resume_blocked_reason: Option<String>,
    pub resumed_later: bool,
    pub has_preview_model: bool,
    pub preview_ref: Option<String>,
    pub preview_sig: Option<String>,
    pub duration_seconds: Option<u64>,
    pub error_message: Option<String>,
    pub loss_sparkline: Option<Vec<u32>>,
}

#[verifier::ext_equal]
pub struct RunView {
    pub id: Seq<char>,
    pub status: Seq<char>,
    pub model_name: Seq<char>,
    pub project_name: Option<Seq<char>>,
    pub dataset_name: Seq<char>,
    pub display_name: Option<Seq<char>>,
    pub started_at: Seq<char>,
    pub ended_at: Option<Seq<char>>,
    pub total_steps: Option<u32>,
    pub final_step: Option<u32>,
    pub final_loss: Option<u32>,
    pub output_dir: Option<Seq<char>>,
    pub can_resume: bool,
    pub resume_blocked_reason: Option<Seq<char>>,
    pub resumed_later: bool,
    pub has_preview_model: bool,
    pub preview_ref: Option<Seq<char>>,
    pub preview_sig: Option<Seq<char>>,
    pub duration_seconds: Option<u64>,
    pub error_message: Option<Seq<char>>,
    pub loss_sparkline: Option<Seq<u32>>,
}

impl View for TrainingRunSummary {
    type V = RunView;

    open spec fn view(&self) -> RunView {
        RunView {
            id: self.id@,
            status: self.status@,
            model_name: self.model_name@,
            project_name: chat_store::opt_text(self.project_name),
            dataset_name: self.dataset_name@,
            display_name: chat_store::opt_text(self.display_name),
            started_at: self.started_at@,
            ended_at: chat_store::opt_text(self.ended_at),
            total_steps: self.total_steps,
            final_step: self.final_step,
            final_loss: self.final_loss,
            output_dir: chat_store::opt_text(self.output_dir),
            can_resume: self.can_resume,
            resume_blocked_reason: chat_store::opt_text(self.resume_blocked_reason),
            resumed_later: self.resumed_later,
            has_preview_model: self.has_preview_model,
            preview_ref: chat_store::opt_text(self.preview_ref),
            preview_sig: chat_store::opt_text(self.preview_sig),
            duration_seconds: self.duration_seconds,
            error_message: chat_store::opt_text(self.error_message),
            loss_sparkline: match self.loss_sparkline {
                Some(v) => Some(v@),
                None => None,
            },
        }
    }
}

pub open spec fn runs_view(s: Seq<TrainingRunSummary>) -> Seq<RunView> {
    Seq::new(s.len(), |i: int| s[i]@)
}

fn copy_text(v: &Option<String>) -> (r: Option<String>)
    ensures
        chat_store::opt_text(r) == chat_store::opt_text(*v),
{
    match v {
        Some(s) => Some(s.clone()),
        None => None,
    }
}

fn copy_numbers(v: &Vec<u32>) -> (r: Vec<u32>)
    ensures
        r@ == v@,
{
    let mut out: Vec<u32> = Vec::new();
    let mut i: usize = 0;
    while i < v.len()
        invariant
            i <= v@.len(),
            out@ == v@.take(i as int),
        decreases v@.len() - i,
    {
        out.push(v[i]);
        i += 1;
        assert(out@ =~= v@.take(i as int));
    }
    assert(v@.take(i as int) =~= v@);
    out
}

impl TrainingRunSummary {
    pub fn duplicate(&self) -> (r: Self)
        ensures
            r@ == self@,
    {
        let sparkline = match &self.loss_sparkline {
            Some(v) => Some(copy_numbers(v)),
            None => None,
        };
        TrainingRunSummary {
            id: self.id.clone(),
            status: self.status.clone(),
            model_name: self.model_name.clone(),
            project_name: copy_text(&self.project_name),
            dataset_name: self.dataset_name.clone(),
            display_name: copy_text(&self.display_name),
            started_at: self.started_at.clone(),
            ended_at: copy_text(&self.ended_at),
            total_steps: self.total_steps,
            final_step: self.final_step,
            final_loss: self.final_loss,
            output_dir: copy_text(&self.output_dir),
            can_resume: self.can_resume,
            resume_blocked_reason: copy_text(&self.resume_blocked_reason),
            resumed_later: self.resumed_later,
            has_preview_model: self.has_preview_model,
            preview_ref: copy_text(&self.preview_ref),
            preview_sig: copy_text(&self.preview_sig),
            duration_seconds: self.duration_seconds,
            error_message: copy_text(&self.error_message),
            loss_sparkline: sparkline,
        }
    }
}

/// The loss and the learning rate of a step.
#[derive(Debug, Clone, Copy, PartialEq, Eq, Structural)]
pub struct LossHistoryEntry {
    pub step: u32,
    pub loss: u32,
    pub lr: u32,
}

/// The run that is being trained, and those before it.
#[derive(Debug)]
pub struct TrainingSession {
    pub is_active: bool,
    pub step: u32,
    pub total_steps: u32,
    pub epoch: u32,
    pub loss: u32,
    pub learning_rate: u32,
    pub tokens_per_sec: u32,
    pub vram_used_mb: u64,
    pub status_text: String,
    pub current_job_id: String,
    pub current_start_request_id: Option<String>,
    pub model_name: String,
    pub dataset_name: String,
    pub project_name: Option<String>,
    pub loss_history: Vec<LossHistoryEntry>,
    pub current_run: Option<TrainingRunSummary>,
    pub runs: Vec<TrainingRunSummary>,
}

#[verifier::ext_equal]
pub struct SessionView {
    pub is_active: bool,
    pub step: u32,
    pub total_steps: u32,
    pub epoch: u32,
    pub loss: u32,
    pub learning_rate: u32,
    pub tokens_per_sec: u32,
    pub vram_used_mb: u64,
    pub status_text: Seq<char>,
    pub current_job_id: Seq<char>,
    pub current_start_request_id: Option<Seq<char>>,
    pub model_name: Seq<char>,
    pub dataset_name: Seq<char>,
    pub project_name: Option<Seq<char>>,
    pub loss_history: Seq<LossHistoryEntry>,
    pub current_run: Option<RunView>,
    pub runs: Seq<RunView>,
}

impl View for TrainingSession {
    type V = SessionView;

    open spec fn view(&self) -> SessionView {
        SessionView {
            is_active: self.is_active,
            step: self.step,
            total_steps: self.total_steps,
            epoch: self.epoch,
            loss: self.loss,
            learning_rate: self.learning_rate,
            tokens_per_sec: self.tokens_per_sec,
            vram_used_mb: self.vram_used_mb,
            status_text: self.status_text@,
            current_job_id: self.current_job_id@,
            current_start_request_id: chat_store::opt_text(self.current_start_request_id),
            model_name: self.model_name@,
            dataset_name: self.dataset_name@,
            project_name: chat_store::opt_text(self.project_name),
            loss_history: self.loss_history@,
            current_run: match self.current_run {
                Some(r) => Some(r@),
                None => None,
            },
            runs: runs_view(self.runs@),
        }
    }
}

/// The answer to a request to start a run.
#[derive(Debug)]
pub struct TrainStartResponse {
    pub job_id: String,
    pub session_id: String,
    pub status: &'static str,
    pub message: &'static str,
    pub total_steps: u32,
    pub mode: String,
    pub lora_rank: usize,
    pub lora_alpha: u32,
    pub learning_rate: u32,
}

/// The answer to a request to stop.
#[derive(Debug)]
pub struct TrainStopResponse {
    pub status: &'static str,
    pub step: u32,
    pub loss: u32,
    pub message: &'static str,
}

/// The answer to a request to start over.
#[derive(Debug)]
pub struct TrainResetResponse {
    pub status: &'static str,
}

pub const ALREADY_ACTIVE: &'static str = "A training session is already currently active.";

pub const STARTED_MESSAGE: &'static str =
    "Asynchronous LoRA training task successfully initialized with Vulkan GPU acceleration.";

pub const STOPPED_MESSAGE: &'static str = "Training session successfully halted.";

/// The name of a session.
pub open spec fn session_name(number: u64) -> Seq<char> {
    "train-"@ + text::decimal_of(number as int)
}

pub open spec fn job_name(number: u64) -> Seq<char> {
    "job-"@ + session_name(number)
}

/// What is remembered of a run that starts.
pub open spec fn first_summary(
    req: TrainStartRequest,
    number: u64,
    started_at: Seq<char>,
) -> RunView {
    RunView {
        id: job_name(number),
        status: "running"@,
        model_name: training::text_or(req.base_model, "slothforge-llama-3.2-3b"@),
        project_name: chat_store::opt_text(req.project_name),
        dataset_name: training::text_or(req.dataset_path, "default_dataset"@),
        display_name: Some("SlothForge Training Run"@),
        started_at,
        ended_at: None,
        total_steps: Some(training::spec_resolve(req).total_steps),
        final_step: None,
        final_loss: None,
        output_dir: Some("outputs/slothforge-lora"@),
        can_resume: false,
        resume_blocked_reason: None,
        resumed_later: false,
        has_preview_model: false,
        preview_ref: None,
        preview_sig: None,
        duration_seconds: None,
        error_message: None,
        loss_sparkline: Some(Seq::empty()),
    }
}

/// The session after a run has started.
pub open spec fn started(
    s: SessionView,
    req: TrainStartRequest,
    number: u64,
    started_at: Seq<char>,
) -> SessionView {
    let params = training::spec_resolve(req);
    let run = first_summary(req, number, started_at);
    SessionView {
        is_active: true,
        step: 0,
        total_steps: params.total_steps,
        epoch: 1,
        loss: FIRST_LOSS,
        learning_rate: params.learning_rate,
        tokens_per_sec: FIRST_TOKENS_PER_SEC,
        vram_used_mb: params.vram_target_mb,
        status_text: "training"@,
        current_job_id: run.id,
        current_start_request_id: chat_store::opt_text(req.start_request_id),
        model_name: run.model_name,
        dataset_name: run.dataset_name,
        project_name: run.project_name,
        loss_history: Seq::empty(),
        current_run: Some(run),
        runs: s.runs.push(run),
    }
}

pub open spec fn losses(history: Seq<LossHistoryEntry>) -> Seq<u32> {
    Seq::new(history.len(), |i: int| history[i].loss)
}

/// What is remembered of a run that ended.
pub open spec fn ended_run(
    run: RunView,
    status: Seq<char>,
    step: u32,
    loss: u32,
    ended_at: Seq<char>,
    seconds: u64,
    history: Seq<LossHistoryEntry>,
) -> RunView {
    RunView {
        status,
        final_step: Some(step),
        final_loss: Some(loss),
        ended_at: Some(ended_at),
        duration_seconds: Some(seconds),
        loss_sparkline: Some(losses(history)),
        ..run
    }
}

/// The first run with an id from `i` on.
pub open spec fn run_from(runs: Seq<RunView>, id: Seq<char>, i: int) -> Option<int>
    decreases runs.len() - i,
{
    if i < 0 || i >= runs.len() {
        None
    } else if runs[i].id == id {
        Some(i)
    } else {
        run_from(runs, id, i + 1)
    }
}

/// The runs with this one in the place of the one with its id, if there is one.
pub open spec fn with_run(runs: Seq<RunView>, run: RunView) -> Seq<RunView> {
    match run_from(runs, run.id, 0) {
        Some(k) => runs.update(k, run),
        None => runs,
    }
}

/// The session after its run has ended in some way.
pub open spec fn with_ended_run(
    s: SessionView,
    status: Seq<char>,
    step: u32,
    ended_at: Seq<char>,
    seconds: u64,
) -> SessionView {
    match s.current_run {
        None => s,
        Some(run) => {
            let done = ended_run(run, status, step, s.loss, ended_at, seconds, s.loss_history);
            SessionView { current_run: Some(done), runs: with_run(s.runs, done), ..s }
        },
    }
}

/// The session after a request to stop.
pub open spec fn stopped(s: SessionView, ended_at: Seq<char>, seconds: u64) -> SessionView {
    with_ended_run(
        SessionView { is_active: false, status_text: "idle"@, ..s },
        "stopped"@,
        s.step,
        ended_at,
        seconds,
    )
}

/// The session after a request to start over.
pub open spec fn spec_reset(s: SessionView, ended_at: Seq<char>, seconds: u64) -> SessionView {
    SessionView {
        is_active: false,
        step: 0,
        epoch: 1,
        status_text: "idle"@,
        loss: FIRST_LOSS,
        loss_history: Seq::empty(),
        current_job_id: NO_JOB@,
        current_start_request_id: None,
        ..stopped(s, ended_at, seconds)
    }
}

/// The history with one entry more; the oldest one leaves where it gets too long.
pub open spec fn recorded(
    history: Seq<LossHistoryEntry>,
    entry: LossHistoryEntry,
) -> Seq<LossHistoryEntry> {
    let longer = history.push(entry);
    if longer.len() > MAX_LOSS_HISTORY {
        longer.remove(0)
    } else {
        longer
    }
}

/// The epoch of a step: a run is taken to have three.
pub open spec fn epoch_of(step: u32, total_steps: u32) -> int {
    let third = total_steps as int / 3;
    step as int / (if third < 1 {
        1
    } else {
        third
    }) + 1
}

/// Tokens in a second at a step, with other machines or without.
pub open spec fn tokens_at(step: u32, has_workers: bool) -> int {
    (if has_workers {
        5480int
    } else {
        2850
    }) + (step as int % 5) * 12
}

/// The session after a step.
pub open spec fn stepped(
    s: SessionView,
    step: u32,
    total_steps: u32,
    vram_base: u64,
    loss: u32,
    lr: u32,
    has_workers: bool,
) -> SessionView {
    SessionView {
        step,
        learning_rate: lr,
        loss,
        vram_used_mb: (vram_base + (step as int % 20) * 3) as u64,
        tokens_per_sec: tokens_at(step, has_workers) as u32,
        epoch: epoch_of(step, total_steps) as u32,
        loss_history: recorded(s.loss_history, LossHistoryEntry { step, loss, lr }),
        ..s
    }
}

/// The session after the steps of a run are over, all of them or up to a request to stop.
pub open spec fn finished(
    s: SessionView,
    step: u32,
    total_steps: u32,
    ended_at: Seq<char>,
    seconds: u64,
) -> SessionView {
    if step >= total_steps {
        with_ended_run(
            SessionView { is_active: false, status_text: "completed"@, ..s },
            "completed"@,
            step,
            ended_at,
            seconds,
        )
    } else {
        SessionView { is_active: false, status_text: "idle"@, ..s }
    }
}

pub(crate) fn find_run(runs: &Vec<TrainingRunSummary>, id: &str) -> (r: Option<usize>)
    ensures
        run_from(runs_view(runs@), id@, 0) == (match r {
            Some(k) => Some(k as int),
            None => None,
        }),
        r is Some ==> r->Some_0 < runs@.len(),
{
    let ghost view = runs_view(runs@);
    let mut i: usize = 0;
    while i < runs.len()
        invariant
            i <= runs@.len(),
            view == runs_view(runs@),
            run_from(view, id@, 0) == run_from(view, id@, i as int),
        decreases runs@.len() - i,
    {
        assert(view[i as int] == runs@[i as int]@);
        if text::same(runs[i].id.as_str(), id) {
            return Some(i);
        }
        i += 1;
    }
    None
}

fn sparkline(history: &Vec<LossHistoryEntry>) -> (r: Vec<u32>)
    ensures
        r@ == losses(history@),
{
    let mut out: Vec<u32> = Vec::new();
    let mut i: usize = 0;
    while i < history.len()
        invariant
            i <= history@.len(),
            out@.len() == i,
            forall|k: int| 0 <= k < i ==> #[trigger] out@[k] == history@[k].loss,
        decreases history@.len() - i,
    {
        out.push(history[i].loss);
        i += 1;
    }
    assert(out@ =~= losses(history@));
    out
}

impl TrainingSession {
    /// No run yet.
    pub fn new() -> (r: Self)
        ensures
            !r@.is_active,
            r@.step == 0 && r@.total_steps == 0 && r@.epoch == 1,
            r@.loss == FIRST_LOSS && r@.learning_rate == 0,
            r@.tokens_per_sec == 0 && r@.vram_used_mb == 0,
            r@.status_text == "idle"@,
            r@.current_job_id == NO_JOB@,
            r@.current_start_request_id is None,
            r@.model_name.len() == 0 && r@.dataset_name.len() == 0 && r@.project_name is None,
            r@.loss_history.len() == 0,
            r@.current_run is None,
            r@.runs.len() == 0,
    {
        TrainingSession {
            is_active: false,
            step: 0,
            total_steps: 0,
            epoch: 1,
            loss: FIRST_LOSS,
            learning_rate: 0,
            tokens_per_sec: 0,
            vram_used_mb: 0,
            status_text: "idle".to_owned(),
            current_job_id: NO_JOB.to_owned(),
            current_start_request_id: None,
            model_name: String::new(),
            dataset_name: String::new(),
            project_name: None,
            loss_history: Vec::new(),
            current_run: None,
            runs: Vec::new(),
        }
    }

    /// Starts a run, unless one is active.
    pub fn start(&mut self, req: &TrainStartRequest, number: u64, started_at: String) -> (r: Result<
        TrainStartResponse,
        &'static str,
    >)
        ensures
            if old(self)@.is_active {
                r is Err && r->Err_0@ == ALREADY_ACTIVE@ && final(self)@ == old(self)@
            } else {
                let params = training::spec_resolve(*req);
                &&& final(self)@ == started(old(self)@, *req, number, started_at@)
                &&& r is Ok
                &&& r->Ok_0.job_id@ == job_name(number)
                &&& r->Ok_0.session_id@ == session_name(number)
                &&& r->Ok_0.status@ == "queued"@
                &&& r->Ok_0.message@ == STARTED_MESSAGE@
                &&& r->Ok_0.total_steps == params.total_steps
                &&& r->Ok_0.mode@ == params.mode_name
                &&& r->Ok_0.lora_rank == params.rank
                &&& r->Ok_0.lora_alpha == params.alpha
                &&& r->Ok_0.learning_rate == params.learning_rate
            },
    {
        if self.is_active {
            return Err(ALREADY_ACTIVE);
        }
        let ghost before = self@;
        let params = resolve_hyperparameters(req);
        let session_id = text::join2("train-", text::decimal(number).as_str());
        let job_id = text::join2("job-", session_id.as_str());
        let model_name = match &req.base_model {
            Some(s) => s.clone(),
            None => "slothforge-llama-3.2-3b".to_owned(),
        };
        let dataset_name = match &req.dataset_path {
            Some(s) => s.clone(),
            None => "default_dataset".to_owned(),
        };
        let run = TrainingRunSummary {
            id: job_id.clone(),
            status: "running".to_owned(),
            model_name: model_name.clone(),
            project_name: copy_text(&req.project_name),
            dataset_name: dataset_name.clone(),
            display_name: Some("SlothForge Training Run".to_owned()),
            started_at,
            ended_at: None,
            total_steps: Some(params.total_steps),
            final_step: None,
            final_loss: None,
            output_dir: Some("outputs/slothforge-lora".to_owned()),
            can_resume: false,
            resume_blocked_reason: None,
            resumed_later: false,
            has_preview_model: false,
            preview_ref: None,
            preview_sig: None,
            duration_seconds: None,
            error_message: None,
            loss_sparkline: Some(Vec::new()),
        };
        assert(run@ =~= first_summary(*req, number, run.started_at@));
        let ghost item = run@;
        self.runs.push(run.duplicate());
        assert(runs_view(self.runs@) =~= before.runs.push(item));
        self.current_run = Some(run);
        self.is_active = true;
        self.step = 0;
        self.total_steps = params.total_steps;
        self.epoch = 1;
        self.loss = FIRST_LOSS;
        self.learning_rate = params.learning_rate;
        self.tokens_per_sec = FIRST_TOKENS_PER_SEC;
        self.vram_used_mb = params.vram_target_mb;
        self.status_text = "training".to_owned();
        self.current_job_id = job_id.clone();
        self.current_start_request_id = copy_text(&req.start_request_id);
        self.model_name = model_name;
        self.dataset_name = dataset_name;
        self.project_name = copy_text(&req.project_name);
        self.loss_history = Vec::new();
        assert(self.loss_history@ =~= Seq::empty());
        Ok(
            TrainStartResponse {
                job_id,
                session_id,
                status: "queued",
                message: STARTED_MESSAGE,
                total_steps: params.total_steps,
                mode: params.mode_name,
                lora_rank: params.rank,
                lora_alpha: params.alpha,
                learning_rate: params.learning_rate,
            },
        )
    }

    fn end_run(&mut self, status: &str, step: u32, ended_at: String, seconds: u64)
        ensures
            final(self)@ == with_ended_run(old(self)@, status@, step, ended_at@, seconds),
    {
        let ghost before = self@;
        let run = match &self.current_run {
            Some(run) => run.duplicate(),
            None => return,
        };
        let ghost old_run = run@;
        let mut done = run;
        done.status = status.to_owned();
        done.final_step = Some(step);
        done.final_loss = Some(self.loss);
        done.ended_at = Some(ended_at);
        done.duration_seconds = Some(seconds);
        done.loss_sparkline = Some(sparkline(&self.loss_history));
        let ghost item = done@;
        assert(item =~= ended_run(
            old_run,
            status@,
            step,
            before.loss,
            ended_at@,
            seconds,
            before.loss_history,
        ));
        if let Some(k) = find_run(&self.runs, done.id.as_str()) {
            self.runs.set(k, done.duplicate());
            assert(runs_view(self.runs@) =~= before.runs.update(k as int, item));
        }
        self.current_run = Some(done);
    }

    /// Stops the run. `seconds` is how long it took.
    pub fn stop(&mut self, ended_at: String, seconds: u64) -> (r: TrainStopResponse)
        ensures
            final(self)@ == stopped(old(self)@, ended_at@, seconds),
            r.status@ == (if old(self)@.is_active {
                "stopped"@
            } else {
                "already_stopped"@
            }),
            r.step == old(self)@.step,
            r.loss == old(self)@.loss,
            r.message@ == STOPPED_MESSAGE@,
    {
        let was_active = self.is_active;
        let step = self.step;
        let loss = self.loss;
        self.is_active = false;
        self.status_text = "idle".to_owned();
        self.end_run("stopped", step, ended_at, seconds);
        TrainStopResponse {
            status: if was_active {
                "stopped"
            } else {
                "already_stopped"
            },
            step,
            loss,
            message: STOPPED_MESSAGE,
        }
    }

    /// Stops the run and forgets its progress.
    pub fn reset(&mut self, ended_at: String, seconds: u64) -> (r: TrainResetResponse)
        ensures
            final(self)@ == spec_reset(old(self)@, ended_at@, seconds),
            r.status@ == "ok"@,
    {
        self.stop(ended_at, seconds);
        self.is_active = false;
        self.step = 0;
        self.epoch = 1;
        self.status_text = "idle".to_owned();
        self.loss = FIRST_LOSS;
        self.loss_history = Vec::new();
        assert(self.loss_history@ =~= Seq::empty());
        self.current_job_id = NO_JOB.to_owned();
        self.current_start_request_id = None;
        TrainResetResponse { status: "ok" }
    }

    /// Whether the run goes on with another step.
    pub fn goes_on(&self, done: u32, total_steps: u32, stop: bool) -> (r: bool)
        ensures
            r == (done < total_steps && !stop && self.is_active),
    {
        done < total_steps && !stop && self.is_active
    }

    /// Takes the step behind `done`, with the loss and the learning rate it came to. Returns its
    /// number.
    pub fn advance(
        &mut self,
        done: u32,
        total_steps: u32,
        vram_base: u64,
        loss: u32,
        lr: u32,
        has_workers: bool,
    ) -> (r: u32)
        requires
            done < total_steps,
            vram_base <= u64::MAX - 57,
            old(self)@.loss_history.len() <= MAX_LOSS_HISTORY,
        ensures
            r == done + 1,
            final(self)@ == stepped(
                old(self)@,
                r,
                total_steps,
                vram_base,
                loss,
                lr,
                has_workers,
            ),
            final(self)@.loss_history.len() <= MAX_LOSS_HISTORY,
    {
        let step = done + 1;
        let third = total_steps / 3;
        let divisor = if third < 1 {
            1
        } else {
            third
        };
        proof {
            lemma_epoch_is_small(step, total_steps);
        }
        self.step = step;
        self.learning_rate = lr;
        self.loss = loss;
        self.vram_used_mb = vram_base + ((step % 20) as u64) * 3;
        self.tokens_per_sec = (if has_workers {
            5480u32
        } else {
            2850u32
        }) + (step % 5) * 12;
        self.epoch = step / divisor + 1;
        self.loss_history.push(LossHistoryEntry { step, loss, lr });
        if self.loss_history.len() > MAX_LOSS_HISTORY {
            self.loss_history.remove(0);
        }
        step
    }

    /// The steps of the run are over: all of them, or up to a request to stop.
    pub fn finish(&mut self, done: u32, total_steps: u32, ended_at: String, seconds: u64)
        ensures
            final(self)@ == finished(old(self)@, done, total_steps, ended_at@, seconds),
    {
        self.is_active = false;
        if done >= total_steps {
            self.status_text = "completed".to_owned();
            self.end_run("completed", done, ended_at, seconds);
        } else {
            self.status_text = "idle".to_owned();
        }
    }
}

/// Whether a step is reported in the log: every fifteenth, and the last one.
pub fn is_reported(step: u32, total_steps: u32) -> (r: bool)
    ensures
        r == (step % 15 == 0 || step == total_steps),
{
    step % 15 == 0 || step == total_steps
}

/// The epochs that are counted stay small.
proof fn lemma_epoch_is_small(step: u32, total_steps: u32)
    requires
        1 <= step <= total_steps,
    ensures
        1 <= epoch_of(step, total_steps) <= 6,
{
    let third = total_steps as int / 3;
    let d = if third < 1 {
        1
    } else {
        third
    };
    assert(step as int / d <= 5) by (nonlinear_arith)
        requires
            d >= 1,
            0 <= step <= total_steps,
            d == 1 ==> total_steps <= 5,
            d > 1 ==> total_steps <= 3 * d + 2,
    ;
    assert(step as int / d >= 0) by (nonlinear_arith)
        requires
            d >= 1,
            0 <= step,
    ;
}

// ---------- laws ----------

/// The history never grows too long and ends with the latest step.
pub proof fn law_history_keeps_the_latest(history: Seq<LossHistoryEntry>, entry: LossHistoryEntry)
    requires
        history.len() <= MAX_LOSS_HISTORY,
    ensures
        0 < recorded(history, entry).len() <= MAX_LOSS_HISTORY,
        recorded(history, entry).last() == entry,
        history.len() < MAX_LOSS_HISTORY ==> recorded(history, entry) == history.push(entry),
{
}

proof fn lemma_run_at_end(runs: Seq<RunView>, run: RunView, i: int)
    requires
        0 <= i <= runs.len(),
        run_from(runs, run.id, i) is None,
    ensures
        run_from(runs.push(run), run.id, i) == Some(runs.len() as int),
    decreases runs.len() - i,
{
    if i < runs.len() {
        lemma_run_at_end(runs, run, i + 1);
    }
}

/// A run that is stopped is remembered as stopped, with its last step and loss, beside all runs
/// before it.
pub proof fn law_stopped_run_is_remembered(
    s: SessionView,
    req: TrainStartRequest,
    number: u64,
    started_at: Seq<char>,
    ended_at: Seq<char>,
    seconds: u64,
)
    requires
        run_from(s.runs, job_name(number), 0) is None,
    ensures
        ({
            let running = started(s, req, number, started_at);
            let after = stopped(running, ended_at, seconds);
            let run = ended_run(
                first_summary(req, number, started_at),
                "stopped"@,
                0,
                FIRST_LOSS,
                ended_at,
                seconds,
                Seq::empty(),
            );
            &&& !after.is_active
            &&& after.current_run == Some(run)
            &&& after.runs == s.runs.push(run)
        }),
{
    let running = started(s, req, number, started_at);
    let first = first_summary(req, number, started_at);
    lemma_run_at_end(s.runs, first, 0);
    let after = stopped(running, ended_at, seconds);
    let run = after.current_run->Some_0;
    assert(run.id == first.id);
    assert(after.runs =~= s.runs.push(run));
}

/// Steps do not touch the runs that are remembered, nor whether the run is active.
pub proof fn law_steps_leave_the_runs_alone(
    s: SessionView,
    step: u32,
    total_steps: u32,
    vram_base: u64,
    loss: u32,
    lr: u32,
    has_workers: bool,
)
    ensures
        ({
            let after = stepped(s, step, total_steps, vram_base, loss, lr, has_workers);
            after.runs == s.runs && after.current_run == s.current_run && after.is_active
                == s.is_active && after.current_job_id == s.current_job_id
        }),
{
}

/// A run whose steps are all taken is remembered as completed; one that was stopped before is not.
pub proof fn law_only_a_whole_run_is_completed(
    s: SessionView,
    done: u32,
    total_steps: u32,
    ended_at: Seq<char>,
    seconds: u64,
)
    requires
        s.current_run is Some,
    ensures
        ({
            let after = finished(s, done, total_steps, ended_at, seconds);
            &&& !after.is_active
            &&& done >= total_steps ==> after.current_run->Some_0.status == "completed"@
                && after.current_run->Some_0.final_step == Some(done)
            &&& done < total_steps ==> after.current_run == s.current_run && after.runs == s.runs
        }),
{
}

} // verus!
