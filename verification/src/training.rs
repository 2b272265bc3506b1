//! Training: the parameters of a run, as a request and its presets give them.
//!
//! Floating-point numbers are 32-bit ones, held as their bits.

use vstd::prelude::*;
use vstd::utf8::*;

use crate::json;
use crate::json::Json;
use crate::text;

verus! {

/// The largest values that a request may ask for.
pub const MAX_LORA_RANK: usize = 1024;

pub const MAX_EPOCHS: u32 = 1000;

pub const MAX_TOTAL_STEPS: u32 = 1_000_000;

/// How many steps an epoch is taken to have, as long as the size of the dataset is not known.
pub const ESTIMATED_STEPS_PER_EPOCH: u32 = 250;

/// How many entries the history of losses keeps.
pub const MAX_LOSS_HISTORY: usize = 500;

/// The loss before the first step: 2.85.
pub const FIRST_LOSS: u32 = 0x4036_6666;

/// Tokens in a second before the first step.
pub const FIRST_TOKENS_PER_SEC: u32 = 2840;

/// 0.01.
pub const USUAL_WEIGHT_DECAY: u32 = 0x3c23_d70a;

/// 32.0 and 0.0002.
pub const USUAL_ALPHA: u32 = 0x4200_0000;

pub const USUAL_LEARNING_RATE: u32 = 0x3951_b717;

/// The job where there is none.
pub const NO_JOB: &'static str = "job-default";

/// A request to start a run.
#[derive(Debug)]
pub struct TrainStartRequest {
    pub mode: Option<String>,
    pub preset: Option<String>,
    pub intensity: Option<Json>,
    pub lora_rank: Option<usize>,
    pub lora_alpha: Option<u32>,
    pub lora_dropout: Option<u32>,
    pub target_modules: Option<Vec<String>>,
    pub micro_batch_size: Option<usize>,
    pub gradient_accumulation: Option<usize>,
    pub max_seq_length: Option<usize>,
    pub sequence_packing: Option<bool>,
    pub optimizer: Option<String>,
    pub learning_rate: Option<u32>,
    pub weight_decay: Option<u32>,
    pub lr_schedule: Option<String>,
    pub warmup_ratio: Option<u32>,
    pub gradient_checkpointing: Option<bool>,
    pub base_model: Option<String>,
    pub dataset_path: Option<String>,
    pub project_name: Option<String>,
    pub epochs: Option<u32>,
    pub total_steps: Option<u32>,
    pub start_request_id: Option<String>,
}

/// The parameters of a run.
#[derive(Debug)]
pub struct ResolvedHyperparams {
    pub rank: usize,
    pub alpha: u32,
    pub dropout: u32,
    pub learning_rate: u32,
    pub weight_decay: u32,
    pub target_modules: Vec<String>,
    pub total_steps: u32,
    pub epochs: u32,
    pub vram_target_mb: u64,
    pub mode_name: String,
}

#[verifier::ext_equal]
pub struct ParamsView {
    pub rank: usize,
    pub alpha: u32,
    pub dropout: u32,
    pub learning_rate: u32,
    pub weight_decay: u32,
    pub target_modules: Seq<Seq<char>>,
    pub total_steps: u32,
    pub epochs: u32,
    pub vram_target_mb: u64,
    pub mode_name: Seq<char>,
}

impl View for ResolvedHyperparams {
    type V = ParamsView;

    open spec fn view(&self) -> ParamsView {
        ParamsView {
            rank: self.rank,
            alpha: self.alpha,
            dropout: self.dropout,
            learning_rate: self.learning_rate,
            weight_decay: self.weight_decay,
            target_modules: text::views(self.target_modules@),
            total_steps: self.total_steps,
            epochs: self.epochs,
            vram_target_mb: self.vram_target_mb,
            mode_name: self.mode_name@,
        }
    }
}

// ---------- presets ----------

/// What a run is to teach.
#[derive(Debug, Clone, Copy, PartialEq, Eq, Structural)]
pub enum PresetKind {
    Facts,
    Coding,
    Memory,
    Style,
}

/// How strongly a run is to change the model.
#[derive(Debug, Clone, Copy, PartialEq, Eq, Structural)]
pub enum Intensity {
    Gentle,
    Normal,
    Aggressive,
}

pub open spec fn spec_kind(preset: Seq<char>) -> PresetKind {
    if text::has_part(preset, "fact"@) || text::has_part(preset, "knowledge"@) {
        PresetKind::Facts
    } else if text::has_part(preset, "cod"@) {
        PresetKind::Coding
    } else if text::has_part(preset, "memory"@) || text::has_part(preset, "save"@)
        || text::has_part(preset, "4gb"@) {
        PresetKind::Memory
    } else {
        PresetKind::Style
    }
}

/// The kind of a preset, by its name.
pub fn preset_kind(preset: &str) -> (r: PresetKind)
    ensures
        r == spec_kind(preset@),
{
    if text::contains(preset, "fact") || text::contains(preset, "knowledge") {
        PresetKind::Facts
    } else if text::contains(preset, "cod") {
        PresetKind::Coding
    } else if text::contains(preset, "memory") || text::contains(preset, "save")
        || text::contains(preset, "4gb") {
        PresetKind::Memory
    } else {
        PresetKind::Style
    }
}

pub open spec fn named_intensity(lower: Seq<char>) -> Intensity {
    if lower == "gentle"@ || lower == "low"@ || lower == "soft"@ {
        Intensity::Gentle
    } else if lower == "aggressive"@ || lower == "high"@ || lower == "deep"@ {
        Intensity::Aggressive
    } else {
        Intensity::Normal
    }
}

/// The intensity by its name in small letters.
pub fn intensity_of_name(lower: &str) -> (r: Intensity)
    ensures
        r == named_intensity(lower@),
{
    if text::same(lower, "gentle") || text::same(lower, "low") || text::same(lower, "soft") {
        Intensity::Gentle
    } else if text::same(lower, "aggressive") || text::same(lower, "high") || text::same(
        lower,
        "deep",
    ) {
        Intensity::Aggressive
    } else {
        Intensity::Normal
    }
}

/// The intensity that a request asks for: a name, or a number from 1 to 10.
pub open spec fn spec_intensity(value: Option<json::JsonView>) -> Intensity {
    match json::text_of(value) {
        Some(s) => named_intensity(text::lowered(s)),
        None => match json::u64_of(value) {
            Some(n) => if n <= 3 {
                Intensity::Gentle
            } else if n >= 8 {
                Intensity::Aggressive
            } else {
                Intensity::Normal
            },
            None => Intensity::Normal,
        },
    }
}

pub open spec fn value_of(v: Option<Json>) -> Option<json::JsonView> {
    match v {
        Some(j) => Some(j@),
        None => None,
    }
}

/// The intensity that a request asks for: a name, or a number from 1 to 10.
pub fn intensity_of(value: &Option<Json>) -> (r: Intensity)
    ensures
        r == spec_intensity(value_of(*value)),
        json::text_of(value_of(*value)) matches Some(s) ==> is_ascii_chars(s) ==> r
            == named_intensity(text::lower(s)),
{
    if let Some(v) = value {
        if let Some(s) = v.as_str() {
            let lower = text::to_lowercase(s);
            return intensity_of_name(lower.as_str());
        }
        if let Some(n) = v.as_u64() {
            if n <= 3 {
                return Intensity::Gentle;
            }
            if n >= 8 {
                return Intensity::Aggressive;
            }
        }
    }
    Intensity::Normal
}

pub open spec fn kind_rank(k: PresetKind) -> usize {
    match k {
        PresetKind::Facts => 32,
        PresetKind::Coding => 32,
        PresetKind::Memory => 8,
        PresetKind::Style => 16,
    }
}

/// 64.0, 64.0, 16.0 and 32.0.
pub open spec fn kind_alpha(k: PresetKind) -> u32 {
    match k {
        PresetKind::Facts => 0x4280_0000,
        PresetKind::Coding => 0x4280_0000,
        PresetKind::Memory => 0x4180_0000,
        PresetKind::Style => 0x4200_0000,
    }
}

/// 0.0001, 0.00015, 0.0002 and 0.0002; times 0.75 for a gentle run, times 1.35 for an aggressive
/// one.
pub open spec fn kind_learning_rate(k: PresetKind, i: Intensity) -> u32 {
    match (k, i) {
        (PresetKind::Facts, Intensity::Gentle) => 0x389d_4951,
        (PresetKind::Facts, Intensity::Normal) => 0x38d1_b717,
        (PresetKind::Facts, Intensity::Aggressive) => 0x390d_8ec9,
        (PresetKind::Coding, Intensity::Gentle) => 0x38eb_edfb,
        (PresetKind::Coding, Intensity::Normal) => 0x391d_4952,
        (PresetKind::Coding, Intensity::Aggressive) => 0x3954_562f,
        (_, Intensity::Gentle) => 0x391d_4951,
        (_, Intensity::Normal) => 0x3951_b717,
        (_, Intensity::Aggressive) => 0x398d_8ec9,
    }
}

pub open spec fn kind_epochs(k: PresetKind) -> int {
    match k {
        PresetKind::Facts => 4,
        PresetKind::Coding => 3,
        PresetKind::Memory => 2,
        PresetKind::Style => 3,
    }
}

/// One epoch less for a gentle run, one more for an aggressive one.
pub open spec fn epochs_for(k: PresetKind, i: Intensity) -> u32 {
    (match i {
        Intensity::Gentle => kind_epochs(k) - 1,
        Intensity::Normal => kind_epochs(k),
        Intensity::Aggressive => kind_epochs(k) + 1,
    }) as u32
}

pub open spec fn kind_vram(k: PresetKind) -> u64 {
    match k {
        PresetKind::Facts => 3500,
        PresetKind::Coding => 3400,
        PresetKind::Memory => 2100,
        PresetKind::Style => 2800,
    }
}

pub open spec fn attention_modules() -> Seq<Seq<char>> {
    seq!["q_proj"@, "k_proj"@, "v_proj"@, "o_proj"@]
}

pub open spec fn kind_modules(k: PresetKind) -> Seq<Seq<char>> {
    match k {
        PresetKind::Facts => attention_modules() + seq!["gate_proj"@, "up_proj"@, "down_proj"@],
        PresetKind::Coding => attention_modules() + seq!["gate_proj"@, "up_proj"@, "down_proj"@],
        PresetKind::Memory => seq!["q_proj"@, "v_proj"@],
        PresetKind::Style => seq!["q_proj"@, "v_proj"@],
    }
}

fn rank_of(k: PresetKind) -> (r: usize)
    ensures
        r == kind_rank(k),
{
    match k {
        PresetKind::Facts => 32,
        PresetKind::Coding => 32,
        PresetKind::Memory => 8,
        PresetKind::Style => 16,
    }
}

fn alpha_of(k: PresetKind) -> (r: u32)
    ensures
        r == kind_alpha(k),
{
    match k {
        PresetKind::Facts => 0x4280_0000,
        PresetKind::Coding => 0x4280_0000,
        PresetKind::Memory => 0x4180_0000,
        PresetKind::Style => 0x4200_0000,
    }
}

fn learning_rate_of(k: PresetKind, i: Intensity) -> (r: u32)
    ensures
        r == kind_learning_rate(k, i),
{
    match (k, i) {
        (PresetKind::Facts, Intensity::Gentle) => 0x389d_4951,
        (PresetKind::Facts, Intensity::Normal) => 0x38d1_b717,
        (PresetKind::Facts, Intensity::Aggressive) => 0x390d_8ec9,
        (PresetKind::Coding, Intensity::Gentle) => 0x38eb_edfb,
        (PresetKind::Coding, Intensity::Normal) => 0x391d_4952,
        (PresetKind::Coding, Intensity::Aggressive) => 0x3954_562f,
        (_, Intensity::Gentle) => 0x391d_4951,
        (_, Intensity::Normal) => 0x3951_b717,
        (_, Intensity::Aggressive) => 0x398d_8ec9,
    }
}

fn epochs_of(k: PresetKind, i: Intensity) -> (r: u32)
    ensures
        r == epochs_for(k, i),
{
    let base: u32 = match k {
        PresetKind::Facts => 4,
        PresetKind::Coding => 3,
        PresetKind::Memory => 2,
        PresetKind::Style => 3,
    };
    match i {
        Intensity::Gentle => base - 1,
        Intensity::Normal => base,
        Intensity::Aggressive => base + 1,
    }
}

fn vram_of(k: PresetKind) -> (r: u64)
    ensures
        r == kind_vram(k),
{
    match k {
        PresetKind::Facts => 3500,
        PresetKind::Coding => 3400,
        PresetKind::Memory => 2100,
        PresetKind::Style => 2800,
    }
}

fn all_attention() -> (r: Vec<String>)
    ensures
        text::views(r@) == attention_modules(),
{
    let mut out: Vec<String> = Vec::new();
    out.push("q_proj".to_owned());
    out.push("k_proj".to_owned());
    out.push("v_proj".to_owned());
    out.push("o_proj".to_owned());
    assert(text::views(out@) =~= attention_modules());
    out
}

fn modules_of(k: PresetKind) -> (r: Vec<String>)
    ensures
        text::views(r@) == kind_modules(k),
{
    match k {
        PresetKind::Memory | PresetKind::Style => {
            let mut out: Vec<String> = Vec::new();
            out.push("q_proj".to_owned());
            out.push("v_proj".to_owned());
            assert(text::views(out@) =~= kind_modules(k));
            out
        },
        _ => {
            let mut out = all_attention();
            let ghost first = out@;
            assert(text::views(first).len() == 4);
            out.push("gate_proj".to_owned());
            out.push("up_proj".to_owned());
            out.push("down_proj".to_owned());
            assert forall|j: int| 0 <= j < 4 implies #[trigger] text::views(out@)[j]
                == attention_modules()[j] by {
                assert(out@[j] == first[j]);
                assert(text::views(first)[j] == first[j]@);
            }
            assert(text::views(out@) =~= kind_modules(k));
            out
        },
    }
}

// ---------- the parameters of a run ----------

pub open spec fn text_or(v: Option<String>, default: Seq<char>) -> Seq<char> {
    match v {
        Some(s) => s@,
        None => default,
    }
}

pub open spec fn or_u32(v: Option<u32>, default: u32) -> u32 {
    match v {
        Some(n) => n,
        None => default,
    }
}

pub open spec fn rank_or(v: Option<usize>, default: usize) -> usize {
    let n = match v {
        Some(n) => n,
        None => default,
    };
    if n > MAX_LORA_RANK {
        MAX_LORA_RANK
    } else {
        n
    }
}

pub open spec fn at_most(n: u32, max: u32) -> u32 {
    if n > max {
        max
    } else {
        n
    }
}

/// The epochs that are asked for, up to the limit.
pub open spec fn epochs_or(v: Option<u32>, default: u32) -> u32 {
    at_most(or_u32(v, default), MAX_EPOCHS)
}

/// The steps that are asked for, or as many as the epochs are taken to have, up to the limit.
pub open spec fn steps_or(v: Option<u32>, epochs: u32) -> u32 {
    at_most(or_u32(v, (epochs * ESTIMATED_STEPS_PER_EPOCH) as u32), MAX_TOTAL_STEPS)
}

/// Whether the parameters are those of the request rather than those of a preset.
pub open spec fn is_pro(req: TrainStartRequest) -> bool {
    text_or(req.mode, "auto"@) == "pro"@ || (text_or(req.preset, ""@).len() == 0
        && req.lora_rank is Some)
}

pub open spec fn spec_resolve(req: TrainStartRequest) -> ParamsView {
    resolved_with(req, spec_intensity(value_of(req.intensity)))
}

/// The parameters of a run of this intensity.
pub open spec fn resolved_with(req: TrainStartRequest, intensity: Intensity) -> ParamsView {
    if is_pro(req) {
        let epochs = epochs_or(req.epochs, 3);
        ParamsView {
            rank: rank_or(req.lora_rank, 16),
            alpha: or_u32(req.lora_alpha, USUAL_ALPHA),
            dropout: or_u32(req.lora_dropout, 0),
            learning_rate: or_u32(req.learning_rate, USUAL_LEARNING_RATE),
            weight_decay: or_u32(req.weight_decay, USUAL_WEIGHT_DECAY),
            target_modules: match req.target_modules {
                Some(m) => text::views(m@),
                None => attention_modules(),
            },
            total_steps: steps_or(req.total_steps, epochs),
            epochs,
            vram_target_mb: 3200,
            mode_name: "pro"@,
        }
    } else {
        let preset = text_or(req.preset, ""@);
        let kind = spec_kind(preset);
        let epochs = epochs_or(req.epochs, epochs_for(kind, intensity));
        ParamsView {
            rank: rank_or(req.lora_rank, kind_rank(kind)),
            alpha: or_u32(req.lora_alpha, kind_alpha(kind)),
            dropout: 0,
            learning_rate: or_u32(req.learning_rate, kind_learning_rate(kind, intensity)),
            weight_decay: USUAL_WEIGHT_DECAY,
            target_modules: kind_modules(kind),
            total_steps: steps_or(req.total_steps, epochs),
            epochs,
            vram_target_mb: kind_vram(kind),
            mode_name: "beginner:"@ + if preset.len() == 0 {
                "style"@
            } else {
                preset
            },
        }
    }
}

fn take_rank(v: Option<usize>, default: usize) -> (r: usize)
    ensures
        r == rank_or(v, default),
{
    let n = match v {
        Some(n) => n,
        None => default,
    };
    if n > MAX_LORA_RANK {
        MAX_LORA_RANK
    } else {
        n
    }
}

fn take_u32(v: Option<u32>, default: u32) -> (r: u32)
    ensures
        r == or_u32(v, default),
{
    match v {
        Some(n) => n,
        None => default,
    }
}

fn take_epochs(v: Option<u32>, default: u32) -> (r: u32)
    ensures
        r == epochs_or(v, default),
        r <= MAX_EPOCHS,
{
    let n = take_u32(v, default);
    if n > MAX_EPOCHS {
        MAX_EPOCHS
    } else {
        n
    }
}

fn take_steps(v: Option<u32>, epochs: u32) -> (r: u32)
    requires
        epochs <= MAX_EPOCHS,
    ensures
        r == steps_or(v, epochs),
{
    let n = take_u32(v, epochs * ESTIMATED_STEPS_PER_EPOCH);
    if n > MAX_TOTAL_STEPS {
        MAX_TOTAL_STEPS
    } else {
        n
    }
}

fn copy_texts(list: &Vec<String>) -> (r: Vec<String>)
    ensures
        text::views(r@) == text::views(list@),
{
    let mut out: Vec<String> = Vec::new();
    let mut i: usize = 0;
    while i < list.len()
        invariant
            i <= list@.len(),
            out@.len() == i,
            forall|k: int| 0 <= k < i ==> (#[trigger] out@[k])@ == list@[k]@,
        decreases list@.len() - i,
    {
        out.push(list[i].clone());
        i += 1;
    }
    assert(text::views(out@) =~= text::views(list@));
    out
}

/// The parameters of a run: those of the request, within limits, or those of a preset.
pub fn resolve_hyperparameters(req: &TrainStartRequest) -> (r: ResolvedHyperparams)
    ensures
        r@ == spec_resolve(*req),
        json::text_of(value_of(req.intensity)) matches Some(s) ==> is_ascii_chars(s) ==> r@
            == resolved_with(*req, named_intensity(text::lower(s))),
{
    let mode = match &req.mode {
        Some(s) => s.as_str(),
        None => "auto",
    };
    let preset = match &req.preset {
        Some(s) => s.as_str(),
        None => "",
    };
    if text::same(mode, "pro") || (preset.is_empty() && req.lora_rank.is_some()) {
        let epochs = take_epochs(req.epochs, 3);
        let modules = match &req.target_modules {
            Some(m) => copy_texts(m),
            None => all_attention(),
        };
        ResolvedHyperparams {
            rank: take_rank(req.lora_rank, 16),
            alpha: take_u32(req.lora_alpha, USUAL_ALPHA),
            dropout: take_u32(req.lora_dropout, 0),
            learning_rate: take_u32(req.learning_rate, USUAL_LEARNING_RATE),
            weight_decay: take_u32(req.weight_decay, USUAL_WEIGHT_DECAY),
            target_modules: modules,
            total_steps: take_steps(req.total_steps, epochs),
            epochs,
            vram_target_mb: 3200,
            mode_name: "pro".to_owned(),
        }
    } else {
        let kind = preset_kind(preset);
        let intensity = intensity_of(&req.intensity);
        let epochs = take_epochs(req.epochs, epochs_of(kind, intensity));
        let shown = if preset.is_empty() {
            "style"
        } else {
            preset
        };
        ResolvedHyperparams {
            rank: take_rank(req.lora_rank, rank_of(kind)),
            alpha: take_u32(req.lora_alpha, alpha_of(kind)),
            dropout: 0,
            learning_rate: take_u32(req.learning_rate, learning_rate_of(kind, intensity)),
            weight_decay: USUAL_WEIGHT_DECAY,
            target_modules: modules_of(kind),
            total_steps: take_steps(req.total_steps, epochs),
            epochs,
            vram_target_mb: vram_of(kind),
            mode_name: text::join2("beginner:", shown),
        }
    }
}

/// Whatever a request asks for, a run stays within the limits.
pub proof fn law_run_stays_within_limits(req: TrainStartRequest)
    ensures
        spec_resolve(req).rank <= MAX_LORA_RANK,
        spec_resolve(req).epochs <= MAX_EPOCHS,
        spec_resolve(req).total_steps <= MAX_TOTAL_STEPS,
{
}

pub open spec fn spec_checkpointing(lower: Seq<char>) -> bool {
    lower == "true"@ || lower == "unsloth"@
}

/// Whether a name in small letters switches the checkpointing of gradients on.
pub fn checkpointing_of_name(lower: &str) -> (r: bool)
    ensures
        r == spec_checkpointing(lower@),
{
    text::same(lower, "true") || text::same(lower, "unsloth")
}

/// Whether a request switches the checkpointing of gradients on: by a flag or by a name.
pub fn gradient_checkpointing(value: &Option<Json>) -> (r: Option<bool>)
    ensures
        r == (match json::bool_of(value_of(*value)) {
            Some(b) => Some(b),
            None => match json::text_of(value_of(*value)) {
                Some(s) => Some(spec_checkpointing(text::lowered(s))),
                None => None,
            },
        }),
        json::text_of(value_of(*value)) matches Some(s) ==> is_ascii_chars(s) ==> r == Some(
            spec_checkpointing(text::lower(s)),
        ),
{
    if let Some(v) = value {
        if let Some(b) = v.as_bool() {
            return Some(b);
        }
        if let Some(s) = v.as_str() {
            let lower = text::to_lowercase(s);
            return Some(checkpointing_of_name(lower.as_str()));
        }
    }
    None
}

} // verus!
