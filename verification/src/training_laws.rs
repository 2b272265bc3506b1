//! What a request to start a run can rely on: its own numbers come first, and a preset gives the rest.

use vstd::prelude::*;

use crate::json;
use crate::run_store;
use crate::text;
use crate::training;
use crate::training::{Intensity, TrainStartRequest};
use crate::training_session;
use crate::training_session::LossHistoryEntry;

verus! {

/// Whatever the mode and the preset: the learning rate, the scale, the rank, the epochs and the steps
/// of a request are those of the run, the last three up to their limits.
pub proof fn law_numbers_of_the_request_come_first(req: TrainStartRequest)
    ensures
        req.learning_rate matches Some(x) ==> training::spec_resolve(req).learning_rate == x,
        req.lora_alpha matches Some(x) ==> training::spec_resolve(req).alpha == x,
        req.lora_rank matches Some(n) ==> training::spec_resolve(req).rank == (if n <= 1024 {
            n
        } else {
            1024
        }),
        req.epochs matches Some(n) ==> training::spec_resolve(req).epochs == (if n <= 1000 {
            n
        } else {
            1000
        }),
        req.total_steps matches Some(n) ==> training::spec_resolve(req).total_steps == (if n
            <= 1_000_000 {
            n
        } else {
            1_000_000
        }),
        req.total_steps is None ==> training::spec_resolve(req).total_steps == 250
            * training::spec_resolve(req).epochs,
{
}

/// A request in the mode for experts sets everything itself; only what it leaves out has the usual
/// value: rank 16, scale 32.0, no dropout, a learning rate of 0.0002, a decay of 0.01, the four
/// projections of the attention and three epochs.
pub proof fn law_experts_set_everything(req: TrainStartRequest)
    requires
        (req.mode matches Some(m) && m@ == "pro"@) || ((req.preset is None || req.preset->0@.len()
            == 0) && req.lora_rank is Some),
    ensures
        training::spec_resolve(req).mode_name == "pro"@,
        training::spec_resolve(req).vram_target_mb == 3200,
        req.lora_dropout matches Some(x) ==> training::spec_resolve(req).dropout == x,
        req.weight_decay matches Some(x) ==> training::spec_resolve(req).weight_decay == x,
        req.target_modules matches Some(m) ==> training::spec_resolve(req).target_modules
            == text::views(m@),
        req.lora_rank is None ==> training::spec_resolve(req).rank == 16,
        req.lora_alpha is None ==> training::spec_resolve(req).alpha == 0x4200_0000,
        req.lora_dropout is None ==> training::spec_resolve(req).dropout == 0,
        req.learning_rate is None ==> training::spec_resolve(req).learning_rate == 0x3951_b717,
        req.weight_decay is None ==> training::spec_resolve(req).weight_decay == 0x3c23_d70a,
        req.target_modules is None ==> training::spec_resolve(req).target_modules == seq![
            "q_proj"@,
            "k_proj"@,
            "v_proj"@,
            "o_proj"@,
        ],
        req.epochs is None ==> training::spec_resolve(req).epochs == 3,
{
    reveal_strlit("auto");
    reveal_strlit("pro");
    reveal_strlit("");
    assert("auto"@.len() != "pro"@.len());
}

/// A request that leaves the choice to a preset: not in the mode for experts, and with a preset or
/// without a rank of its own.
pub open spec fn by_preset(req: TrainStartRequest) -> bool {
    (req.mode matches Some(m) ==> m@ != "pro"@) && ((req.preset matches Some(p) && p@.len() > 0)
        || req.lora_rank is None)
}

/// The name of the preset, empty where there is none.
pub open spec fn preset_of(req: TrainStartRequest) -> Seq<char> {
    match req.preset {
        Some(p) => p@,
        None => Seq::empty(),
    }
}

proof fn lemma_by_preset(req: TrainStartRequest)
    requires
        by_preset(req),
    ensures
        !training::is_pro(req),
        training::text_or(req.preset, ""@) == preset_of(req),
{
    reveal_strlit("auto");
    reveal_strlit("pro");
    reveal_strlit("");
    assert("auto"@.len() != "pro"@.len());
    assert(""@ =~= Seq::empty());
}

/// A run by a preset has neither dropout nor another decay than 0.01, and is named after its preset.
pub proof fn law_preset_gives_its_name(req: TrainStartRequest)
    requires
        by_preset(req),
    ensures
        training::spec_resolve(req).dropout == 0,
        training::spec_resolve(req).weight_decay == 0x3c23_d70a,
        preset_of(req).len() > 0 ==> training::spec_resolve(req).mode_name == "beginner:"@
            + preset_of(req),
        preset_of(req).len() == 0 ==> training::spec_resolve(req).mode_name == "beginner:"@
            + "style"@,
{
    lemma_by_preset(req);
}

/// The presets for facts and for code train all projections at rank 32 and scale 64.0.
pub proof fn law_presets_for_knowledge(req: TrainStartRequest)
    requires
        by_preset(req),
        text::has_part(preset_of(req), "fact"@) || text::has_part(preset_of(req), "knowledge"@)
            || text::has_part(preset_of(req), "cod"@),
    ensures
        req.lora_rank is None ==> training::spec_resolve(req).rank == 32,
        req.lora_alpha is None ==> training::spec_resolve(req).alpha == 0x4280_0000,
        training::spec_resolve(req).target_modules == seq![
            "q_proj"@,
            "k_proj"@,
            "v_proj"@,
            "o_proj"@,
            "gate_proj"@,
            "up_proj"@,
            "down_proj"@,
        ],
        training::spec_resolve(req).vram_target_mb == (if text::has_part(
            preset_of(req),
            "fact"@,
        ) || text::has_part(preset_of(req), "knowledge"@) {
            3500u64
        } else {
            3400u64
        }),
{
    lemma_by_preset(req);
}

/// Every other preset trains queries and values only: at rank 8 and scale 16.0 where it is to save
/// memory, else at rank 16 and scale 32.0.
pub proof fn law_presets_for_style_and_memory(req: TrainStartRequest)
    requires
        by_preset(req),
        !text::has_part(preset_of(req), "fact"@),
        !text::has_part(preset_of(req), "knowledge"@),
        !text::has_part(preset_of(req), "cod"@),
    ensures
        training::spec_resolve(req).target_modules == seq!["q_proj"@, "v_proj"@],
        text::has_part(preset_of(req), "memory"@) || text::has_part(preset_of(req), "save"@)
            || text::has_part(preset_of(req), "4gb"@) ==> {
            &&& training::spec_resolve(req).vram_target_mb == 2100
            &&& req.lora_rank is None ==> training::spec_resolve(req).rank == 8
            &&& req.lora_alpha is None ==> training::spec_resolve(req).alpha == 0x4180_0000
        },
        !(text::has_part(preset_of(req), "memory"@) || text::has_part(preset_of(req), "save"@)
            || text::has_part(preset_of(req), "4gb"@)) ==> {
            &&& training::spec_resolve(req).vram_target_mb == 2800
            &&& req.lora_rank is None ==> training::spec_resolve(req).rank == 16
            &&& req.lora_alpha is None ==> training::spec_resolve(req).alpha == 0x4200_0000
        },
{
    lemma_by_preset(req);
}

/// An intensity is a word or a number: `gentle`, `low` and `soft` are at most 3, `aggressive`, `high`
/// and `deep` at least 8, and everything else lies between.
pub proof fn law_intensity_is_a_word_or_a_number(value: Option<json::JsonView>)
    ensures
        json::text_of(value) matches Some(s) ==> (training::spec_intensity(value)
            == Intensity::Gentle <==> (text::lowered(s) == "gentle"@ || text::lowered(s) == "low"@
            || text::lowered(s) == "soft"@)),
        json::text_of(value) matches Some(s) ==> (training::spec_intensity(value)
            == Intensity::Aggressive <==> (text::lowered(s) == "aggressive"@ || text::lowered(s)
            == "high"@ || text::lowered(s) == "deep"@)),
        json::text_of(value) is None ==> (training::spec_intensity(value) == Intensity::Gentle <==> (
        json::u64_of(value) matches Some(n) && n <= 3)),
        json::text_of(value) is None ==> (training::spec_intensity(value) == Intensity::Aggressive
            <==> (json::u64_of(value) matches Some(n) && n >= 8)),
{
    reveal_strlit("gentle");
    reveal_strlit("low");
    reveal_strlit("soft");
    reveal_strlit("aggressive");
    reveal_strlit("high");
    reveal_strlit("deep");
    assert("gentle"@.len() == 6 && "low"@.len() == 3 && "aggressive"@.len() == 10);
    assert("soft"@[0] != "high"@[0] && "soft"@[0] != "deep"@[0]);
}

/// A preset runs four epochs for facts, two to save memory and three otherwise; a gentle run is one
/// epoch shorter, an aggressive one is one longer.
pub proof fn law_intensity_moves_the_epochs(req: TrainStartRequest)
    requires
        by_preset(req),
        req.epochs is None,
    ensures
        ({
            let preset = preset_of(req);
            let usual: int = if text::has_part(preset, "fact"@) || text::has_part(
                preset,
                "knowledge"@,
            ) {
                4
            } else if text::has_part(preset, "cod"@) {
                3
            } else if text::has_part(preset, "memory"@) || text::has_part(preset, "save"@)
                || text::has_part(preset, "4gb"@) {
                2
            } else {
                3
            };
            match training::spec_intensity(training::value_of(req.intensity)) {
                Intensity::Gentle => training::spec_resolve(req).epochs == usual - 1,
                Intensity::Normal => training::spec_resolve(req).epochs == usual,
                Intensity::Aggressive => training::spec_resolve(req).epochs == usual + 1,
            }
        }),
{
    lemma_by_preset(req);
}

/// The learning rate of a preset is 0.0001 for facts, 0.00015 for code and 0.0002 otherwise, three
/// quarters of that for a gentle run and 1.35 times that for an aggressive one. The numbers are the
/// bits of 32-bit floating-point numbers.
pub proof fn law_intensity_moves_the_learning_rate(req: TrainStartRequest)
    requires
        by_preset(req),
        req.learning_rate is None,
    ensures
        ({
            let preset = preset_of(req);
            let facts = text::has_part(preset, "fact"@) || text::has_part(preset, "knowledge"@);
            let code = !facts && text::has_part(preset, "cod"@);
            let rate = training::spec_resolve(req).learning_rate;
            match training::spec_intensity(training::value_of(req.intensity)) {
                Intensity::Gentle => if facts {
                    rate == 0x389d_4951
                } else if code {
                    rate == 0x38eb_edfb
                } else {
                    rate == 0x391d_4951
                },
                Intensity::Normal => if facts {
                    rate == 0x38d1_b717
                } else if code {
                    rate == 0x391d_4952
                } else {
                    rate == 0x3951_b717
                },
                Intensity::Aggressive => if facts {
                    rate == 0x390d_8ec9
                } else if code {
                    rate == 0x3954_562f
                } else {
                    rate == 0x398d_8ec9
                },
            }
        }),
{
    lemma_by_preset(req);
}

/// The checkpointing of gradients is switched on by the words `true` and `unsloth` and by no other.
pub proof fn law_words_for_checkpointing(word: Seq<char>)
    ensures
        training::spec_checkpointing(word) <==> (word == seq!['t', 'r', 'u', 'e'] || word == seq![
            'u',
            'n',
            's',
            'l',
            'o',
            't',
            'h',
        ]),
{
    reveal_strlit("true");
    reveal_strlit("unsloth");
    assert("true"@ =~= seq!['t', 'r', 'u', 'e']);
    assert("unsloth"@ =~= seq!['u', 'n', 's', 'l', 'o', 't', 'h']);
}

// ---------- the run ----------

/// A run that starts is active, at its first step, with the numbers that the request asks for; it is
/// remembered behind the runs before it.
pub proof fn law_started_run_has_the_numbers_of_the_request(
    s: training_session::SessionView,
    req: TrainStartRequest,
    number: u64,
    started_at: Seq<char>,
)
    ensures
        ({
            let after = training_session::started(s, req, number, started_at);
            let params = training::spec_resolve(req);
            &&& after.is_active
            &&& after.step == 0
            &&& after.epoch == 1
            &&& after.total_steps == params.total_steps
            &&& after.learning_rate == params.learning_rate
            &&& after.vram_used_mb == params.vram_target_mb
            &&& after.loss == 0x4036_6666
            &&& after.tokens_per_sec == 2840
            &&& after.status_text == "training"@
            &&& after.current_job_id == "job-"@ + ("train-"@ + text::decimal_of(number as int))
            &&& after.loss_history.len() == 0
            &&& req.start_request_id matches Some(id) ==> after.current_start_request_id == Some(id@)
            &&& req.start_request_id is None ==> after.current_start_request_id is None
            &&& after.runs.len() == s.runs.len() + 1
            &&& after.runs.drop_last() == s.runs
            &&& after.current_run == Some(after.runs.last())
            &&& after.runs.last().id == after.current_job_id
            &&& after.runs.last().status == "running"@
            &&& after.runs.last().started_at == started_at
            &&& after.runs.last().ended_at is None
            &&& after.runs.last().final_step is None
            &&& after.runs.last().final_loss is None
            &&& after.runs.last().error_message is None
            &&& !after.runs.last().can_resume
            &&& after.runs.last().total_steps == Some(params.total_steps)
            &&& after.runs.last().model_name == after.model_name
            &&& after.runs.last().dataset_name == after.dataset_name
            &&& after.runs.last().project_name == after.project_name
            &&& req.base_model matches Some(m) ==> after.model_name == m@
            &&& req.base_model is None ==> after.model_name == "slothforge-llama-3.2-3b"@
            &&& req.dataset_path matches Some(d) ==> after.dataset_name == d@
            &&& req.dataset_path is None ==> after.dataset_name == "default_dataset"@
            &&& req.project_name matches Some(p) ==> after.project_name == Some(p@)
            &&& req.project_name is None ==> after.project_name is None
        }),
{
    let after = training_session::started(s, req, number, started_at);
    assert(after.runs.drop_last() =~= s.runs);
}

/// A step sets the numbers that are shown and adds itself to the history; more machines give more
/// tokens in a second.
pub proof fn law_step_sets_what_is_shown(
    s: training_session::SessionView,
    step: u32,
    total_steps: u32,
    vram_base: u64,
    loss: u32,
    lr: u32,
    has_workers: bool,
)
    requires
        1 <= step <= total_steps,
        vram_base <= u64::MAX - 57,
    ensures
        ({
            let after = training_session::stepped(
                s,
                step,
                total_steps,
                vram_base,
                loss,
                lr,
                has_workers,
            );
            &&& after.step == step
            &&& after.loss == loss
            &&& after.learning_rate == lr
            &&& after.total_steps == s.total_steps
            &&& after.status_text == s.status_text
            &&& after.loss_history.last() == (LossHistoryEntry { step, loss, lr })
            &&& vram_base <= after.vram_used_mb <= vram_base + 57
            &&& (after.vram_used_mb - vram_base) == 3 * (step as int % 20)
            &&& !has_workers ==> after.tokens_per_sec == 2850 + 12 * (step as int % 5)
            &&& has_workers ==> after.tokens_per_sec == 5480 + 12 * (step as int % 5)
            &&& total_steps < 3 ==> after.epoch == step + 1
            &&& total_steps >= 3 ==> (after.epoch - 1) * (total_steps as int / 3) <= step
                < after.epoch * (total_steps as int / 3)
        }),
{
    let third = total_steps as int / 3;
    let d = if third < 1 {
        1
    } else {
        third
    };
    let x = step as int;
    let q = x / d;
    assert(q * d <= x < (q + 1) * d && 0 <= q <= x) by (nonlinear_arith)
        requires
            d >= 1,
            x >= 0,
            q == x / d,
    ;
    if total_steps < 3 {
        assert(q == x) by (nonlinear_arith)
            requires
                d == 1,
                q == x / d,
        ;
    } else {
        assert(q <= 5) by (nonlinear_arith)
            requires
                q * d <= x,
                x <= 3 * d + 2,
                d >= 1,
        ;
    }
}

/// The history holds the last 500 steps: a full one loses its oldest entry.
pub proof fn law_history_holds_the_last_steps(
    history: Seq<LossHistoryEntry>,
    entry: LossHistoryEntry,
)
    ensures
        history.len() < 500 ==> training_session::recorded(history, entry) == history.push(entry),
        history.len() == 500 ==> training_session::recorded(history, entry)
            == history.drop_first().push(entry),
{
    if history.len() == 500 {
        assert(history.push(entry).remove(0) =~= history.drop_first().push(entry));
    }
}

/// What is known of a run before it ends stays known.
pub open spec fn same_run(a: training_session::RunView, b: training_session::RunView) -> bool {
    &&& a.id == b.id
    &&& a.model_name == b.model_name
    &&& a.project_name == b.project_name
    &&& a.dataset_name == b.dataset_name
    &&& a.display_name == b.display_name
    &&& a.started_at == b.started_at
    &&& a.total_steps == b.total_steps
    &&& a.output_dir == b.output_dir
    &&& a.error_message == b.error_message
    &&& a.can_resume == b.can_resume
}

/// Whether a run is recorded as ended in this way, with the losses of its steps.
pub open spec fn ended_as(
    run: training_session::RunView,
    status: Seq<char>,
    step: u32,
    loss: u32,
    ended_at: Seq<char>,
    seconds: u64,
    history: Seq<LossHistoryEntry>,
) -> bool {
    &&& run.status == status
    &&& run.final_step == Some(step)
    &&& run.final_loss == Some(loss)
    &&& run.ended_at == Some(ended_at)
    &&& run.duration_seconds == Some(seconds)
    &&& run.loss_sparkline matches Some(line) && line.len() == history.len() && forall|i: int|
        0 <= i < history.len() ==> #[trigger] line[i] == history[i].loss
}

proof fn lemma_run_found(runs: Seq<training_session::RunView>, id: Seq<char>, i: int)
    requires
        0 <= i,
    ensures
        match training_session::run_from(runs, id, i) {
            Some(k) => i <= k < runs.len() && runs[k].id == id && forall|j: int|
                i <= j < k ==> (#[trigger] runs[j]).id != id,
            None => forall|j: int| i <= j < runs.len() ==> (#[trigger] runs[j]).id != id,
        },
    decreases runs.len() - i,
{
    if i < runs.len() && runs[i].id != id {
        lemma_run_found(runs, id, i + 1);
    }
}

/// Stopping ends the run where it is: it is remembered as stopped with its step, its loss and its time,
/// in its old place; the other runs and the progress stay.
pub proof fn law_stopping_ends_the_run(
    s: training_session::SessionView,
    ended_at: Seq<char>,
    seconds: u64,
    k: int,
)
    ensures
        ({
            let after = training_session::stopped(s, ended_at, seconds);
            &&& !after.is_active
            &&& after.status_text == "idle"@
            &&& after.step == s.step
            &&& after.loss == s.loss
            &&& after.epoch == s.epoch
            &&& after.loss_history == s.loss_history
            &&& after.current_job_id == s.current_job_id
            &&& after.runs.len() == s.runs.len()
            &&& s.current_run is None ==> after.current_run is None && after.runs == s.runs
            &&& s.current_run matches Some(run) ==> {
                &&& after.current_run matches Some(done) && same_run(run, done) && ended_as(
                    done,
                    "stopped"@,
                    s.step,
                    s.loss,
                    ended_at,
                    seconds,
                    s.loss_history,
                )
                &&& 0 <= k < s.runs.len() && s.runs[k].id != run.id ==> after.runs[k] == s.runs[k]
                &&& 0 <= k < s.runs.len() && s.runs[k].id == run.id && (forall|j: int|
                    0 <= j < k ==> (#[trigger] s.runs[j]).id != run.id) ==> Some(after.runs[k])
                    == after.current_run
            }
        }),
{
    if let Some(run) = s.current_run {
        lemma_run_found(s.runs, run.id, 0);
    }
}

/// Starting over stops the run and forgets its progress.
pub proof fn law_reset_forgets_the_progress(
    s: training_session::SessionView,
    ended_at: Seq<char>,
    seconds: u64,
)
    ensures
        ({
            let after = training_session::spec_reset(s, ended_at, seconds);
            let stopped = training_session::stopped(s, ended_at, seconds);
            &&& !after.is_active
            &&& after.step == 0
            &&& after.epoch == 1
            &&& after.loss == 0x4036_6666
            &&& after.status_text == "idle"@
            &&& after.loss_history.len() == 0
            &&& after.current_job_id == "job-default"@
            &&& after.current_start_request_id is None
            &&& after.runs == stopped.runs
            &&& after.current_run == stopped.current_run
        }),
{
}

/// A run that took all its steps is remembered as completed, with its step, its loss and its time.
pub proof fn law_whole_run_is_recorded(
    s: training_session::SessionView,
    done: u32,
    total_steps: u32,
    ended_at: Seq<char>,
    seconds: u64,
    k: int,
)
    requires
        s.current_run is Some,
        done >= total_steps,
    ensures
        ({
            let run = s.current_run->0;
            let after = training_session::finished(s, done, total_steps, ended_at, seconds);
            &&& !after.is_active
            &&& after.status_text == "completed"@
            &&& after.step == s.step
            &&& after.loss_history == s.loss_history
            &&& after.current_run matches Some(end) && same_run(run, end) && ended_as(
                end,
                "completed"@,
                done,
                s.loss,
                ended_at,
                seconds,
                s.loss_history,
            )
            &&& after.runs.len() == s.runs.len()
            &&& 0 <= k < s.runs.len() && s.runs[k].id != run.id ==> after.runs[k] == s.runs[k]
            &&& 0 <= k < s.runs.len() && s.runs[k].id == run.id && (forall|j: int|
                0 <= j < k ==> (#[trigger] s.runs[j]).id != run.id) ==> Some(after.runs[k])
                == after.current_run
        }),
{
    lemma_run_found(s.runs, s.current_run->0.id, 0);
}

// ---------- the runs that are kept ----------

/// A page of the runs holds as many as are asked for from the offset on, fewer at the end.
pub proof fn law_page_is_cut_from_the_list(list: Seq<int>, limit: u32, offset: u32, i: int)
    ensures
        ({
            let page = run_store::page_of(list, limit, offset);
            &&& offset >= list.len() ==> page.len() == 0
            &&& offset < list.len() && offset + limit <= list.len() ==> page.len() == limit
            &&& offset < list.len() < offset + limit ==> page.len() == list.len() - offset
            &&& 0 <= i < page.len() ==> page[i] == list[offset + i]
        }),
{
}

/// Storing a run changes no other one, and adds one only under a new id.
pub proof fn law_storing_a_run_leaves_the_others(
    rows: Seq<training_session::RunView>,
    run: training_session::RunView,
    k: int,
)
    ensures
        ({
            let after = run_store::stored(rows, run);
            &&& 0 <= k < rows.len() && rows[k].id != run.id ==> after[k] == rows[k]
            &&& after.len() == rows.len() || after.len() == rows.len() + 1
            &&& (exists|j: int| 0 <= j < rows.len() && (#[trigger] rows[j]).id == run.id)
                <==> after.len() == rows.len()
        }),
{
    lemma_run_found(rows, run.id, 0);
}

/// Runs are listed by the time of their start, the latest first.
pub proof fn law_runs_are_listed_latest_first(
    list: Seq<int>,
    rows: Seq<training_session::RunView>,
    i: int,
    j: int,
)
    requires
        run_store::newest_first(list, rows, rows.len() as int),
        0 <= i < j < list.len(),
    ensures
        rows[list[i]].started_at == rows[list[j]].started_at || text::before(
            rows[list[j]].started_at,
            rows[list[i]].started_at,
        ),
        rows[list[i]].started_at == rows[list[j]].started_at ==> text::before(
            rows[list[j]].id,
            rows[list[i]].id,
        ) || text::before(rows[list[j]].started_at, rows[list[i]].started_at),
{
    assert(run_store::newer(rows[list[i]], rows[list[j]]));
}

} // verus!
