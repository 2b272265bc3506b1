//! Training samples: from lines of a dataset to fixed windows of tokens.

use vstd::prelude::*;

pub use crate::tokenizer::{
    SimpleTokenizer, BOS_TOKEN_ID, EOS_TOKEN_ID, IM_END_TOKEN_ID, IM_START_TOKEN_ID, PAD_TOKEN_ID,
};
use crate::text;
use crate::tokenizer;

verus! {

/// The label of a position that is not learned.
pub const IGNORE_LABEL_ID: i64 = -100;

/// Why a dataset cannot be used.
#[derive(Debug)]
pub enum DatasetError {
    /// A line could not be parsed; the parser's own words.
    Json(String),
    UnknownFormat,
    EmptyDataset,
}

#[derive(Debug, Clone, Copy, PartialEq, Eq, Structural)]
pub enum DatasetFormat {
    Alpaca,
    ChatML,
    RawJsonl,
    Auto,
}

#[derive(Debug)]
pub struct ChatMessage {
    pub role: String,
    pub content: String,
}

#[derive(Debug)]
pub struct AlpacaEntry {
    pub instruction: String,
    pub input: String,
    pub output: String,
}

#[derive(Debug)]
pub struct RawEntry {
    pub prompt: Option<String>,
    pub completion: Option<String>,
    pub text: Option<String>,
}

/// A parsed line.
#[derive(Debug)]
pub enum DatasetEntry {
    Alpaca(AlpacaEntry),
    ChatML(Vec<ChatMessage>),
    Raw(RawEntry),
}

/// A line to be parsed, and as what.
#[derive(Debug)]
pub struct DatasetLine {
    pub format: DatasetFormat,
    pub text: String,
}

#[derive(Debug)]
pub struct SampleItem {
    pub prompt: String,
    pub completion: String,
}

#[derive(Debug)]
pub struct PackedSequence {
    pub input_ids: Vec<u32>,
    pub labels: Vec<i64>,
    pub position_ids: Vec<u32>,
    pub segment_ids: Vec<u32>,
    pub seq_lengths: Vec<usize>,
}

#[verifier::ext_equal]
pub struct LineView {
    pub format: DatasetFormat,
    pub text: Seq<char>,
}

#[verifier::ext_equal]
pub struct SampleView {
    pub prompt: Seq<char>,
    pub completion: Seq<char>,
}

#[verifier::ext_equal]
pub enum EntryView {
    Alpaca { instruction: Seq<char>, input: Seq<char>, output: Seq<char> },
    /// Role and content of each message.
    ChatML(Seq<(Seq<char>, Seq<char>)>),
    Raw { prompt: Option<Seq<char>>, completion: Option<Seq<char>>, text: Option<Seq<char>> },
}

#[verifier::ext_equal]
pub enum DatasetErrorView {
    Json(Seq<char>),
    UnknownFormat,
    EmptyDataset,
}

#[verifier::ext_equal]
pub struct PackedView {
    pub input_ids: Seq<u32>,
    pub labels: Seq<i64>,
    pub position_ids: Seq<u32>,
    pub segment_ids: Seq<u32>,
    pub seq_lengths: Seq<usize>,
}

impl View for DatasetLine {
    type V = LineView;

    open spec fn view(&self) -> LineView {
        LineView { format: self.format, text: self.text@ }
    }
}

impl View for SampleItem {
    type V = SampleView;

    open spec fn view(&self) -> SampleView {
        SampleView { prompt: self.prompt@, completion: self.completion@ }
    }
}

pub open spec fn opt_view(o: Option<String>) -> Option<Seq<char>> {
    match o {
        Some(s) => Some(s@),
        None => None,
    }
}

pub open spec fn messages_view(m: Seq<ChatMessage>) -> Seq<(Seq<char>, Seq<char>)> {
    Seq::new(m.len(), |i: int| (m[i].role@, m[i].content@))
}

impl View for DatasetEntry {
    type V = EntryView;

    open spec fn view(&self) -> EntryView {
        match *self {
            DatasetEntry::Alpaca(e) => EntryView::Alpaca {
                instruction: e.instruction@,
                input: e.input@,
                output: e.output@,
            },
            DatasetEntry::ChatML(m) => EntryView::ChatML(messages_view(m@)),
            DatasetEntry::Raw(e) => EntryView::Raw {
                prompt: opt_view(e.prompt),
                completion: opt_view(e.completion),
                text: opt_view(e.text),
            },
        }
    }
}

impl View for DatasetError {
    type V = DatasetErrorView;

    open spec fn view(&self) -> DatasetErrorView {
        match *self {
            DatasetError::Json(text) => DatasetErrorView::Json(text@),
            DatasetError::UnknownFormat => DatasetErrorView::UnknownFormat,
            DatasetError::EmptyDataset => DatasetErrorView::EmptyDataset,
        }
    }
}

impl View for PackedSequence {
    type V = PackedView;

    open spec fn view(&self) -> PackedView {
        PackedView {
            input_ids: self.input_ids@,
            labels: self.labels@,
            position_ids: self.position_ids@,
            segment_ids: self.segment_ids@,
            seq_lengths: self.seq_lengths@,
        }
    }
}

pub open spec fn lines_view(s: Seq<DatasetLine>) -> Seq<LineView> {
    Seq::new(s.len(), |i: int| s[i]@)
}

pub open spec fn samples_view(s: Seq<SampleItem>) -> Seq<SampleView> {
    Seq::new(s.len(), |i: int| s[i]@)
}

pub open spec fn packed_view(s: Seq<PackedSequence>) -> Seq<PackedView> {
    Seq::new(s.len(), |i: int| s[i]@)
}

/// What a parser answered for a line.
pub type Outcome = Result<EntryView, Seq<char>>;

pub open spec fn outcome_view(r: Result<DatasetEntry, String>) -> Outcome {
    match r {
        Ok(entry) => Ok(entry@),
        Err(text) => Err(text@),
    }
}

pub open spec fn outcomes_view(s: Seq<Result<DatasetEntry, String>>) -> Seq<Outcome> {
    Seq::new(s.len(), |i: int| outcome_view(s[i]))
}

/// The format of a line: the one asked for, or, where that is `Auto`, the one whose key the line
/// shows.
pub open spec fn line_format(line: Seq<char>, format: DatasetFormat) -> DatasetFormat {
    if format != DatasetFormat::Auto {
        format
    } else if text::has_part(line, "\"messages\""@) {
        DatasetFormat::ChatML
    } else if text::has_part(line, "\"instruction\""@) {
        DatasetFormat::Alpaca
    } else {
        DatasetFormat::RawJsonl
    }
}

/// The lines to be parsed among the first `n`: trimmed, and only those that are not empty then.
pub open spec fn kept_lines(lines: Seq<Seq<char>>, format: DatasetFormat, n: int) -> Seq<LineView>
    decreases n,
{
    if n <= 0 {
        Seq::empty()
    } else {
        let before = kept_lines(lines, format, n - 1);
        let line = text::trimmed(lines[n - 1]);
        if line.len() == 0 {
            before
        } else {
            before.push(LineView { format: line_format(line, format), text: line })
        }
    }
}

pub open spec fn spec_lines(content: Seq<char>, format: DatasetFormat) -> Seq<LineView> {
    let lines = text::pieces(content, '\n');
    kept_lines(lines, format, lines.len() as int)
}

/// The prompt of an instruction, with or without an input.
pub open spec fn alpaca_prompt(instruction: Seq<char>, input: Seq<char>) -> Seq<char> {
    if input.len() == 0 {
        "Below is an instruction that describes a task. Write a response that appropriately completes the request.\n\n### Instruction:\n"@
            + instruction + "\n\n### Response:\n"@
    } else {
        "Below is an instruction that describes a task, paired with an input that provides further context. Write a response that appropriately completes the request.\n\n### Instruction:\n"@
            + instruction + "\n\n### Input:\n"@ + input + "\n\n### Response:\n"@
    }
}

/// One message between its markers.
pub open spec fn chat_turn(role: Seq<char>, content: Seq<char>) -> Seq<char> {
    "<|im_start|>"@ + role + "\n"@ + content + "<|im_end|>\n"@
}

/// The turns of everybody but the assistant, among the first `n` messages.
pub open spec fn chat_prompt(m: Seq<(Seq<char>, Seq<char>)>, n: int) -> Seq<char>
    decreases n,
{
    if n <= 0 {
        Seq::empty()
    } else if m[n - 1].0 == "assistant"@ {
        chat_prompt(m, n - 1)
    } else {
        chat_prompt(m, n - 1) + chat_turn(m[n - 1].0, m[n - 1].1)
    }
}

/// The last turn of the assistant among the first `n` messages.
pub open spec fn chat_completion(m: Seq<(Seq<char>, Seq<char>)>, n: int) -> Seq<char>
    decreases n,
{
    if n <= 0 {
        Seq::empty()
    } else if m[n - 1].0 == "assistant"@ {
        "<|im_start|>assistant\n"@ + m[n - 1].1 + "<|im_end|>\n"@
    } else {
        chat_completion(m, n - 1)
    }
}

/// The sample that a parsed line gives; a raw line without texts gives none.
pub open spec fn spec_sample(entry: EntryView) -> Option<SampleView> {
    match entry {
        EntryView::Alpaca { instruction, input, output } => Some(
            SampleView { prompt: alpaca_prompt(instruction, input), completion: output },
        ),
        EntryView::ChatML(m) => {
            let prompt = chat_prompt(m, m.len() as int);
            let completion = chat_completion(m, m.len() as int);
            Some(
                SampleView {
                    prompt: if completion.len() == 0 {
                        prompt
                    } else {
                        prompt + "<|im_start|>assistant\n"@
                    },
                    completion,
                },
            )
        },
        EntryView::Raw { prompt, completion, text } => if prompt is Some && completion is Some {
            Some(SampleView { prompt: prompt->0, completion: completion->0 })
        } else if text is Some {
            Some(SampleView { prompt: Seq::empty(), completion: text->0 })
        } else {
            None
        },
    }
}

/// The samples of the first `n` answers, or the first error.
pub open spec fn collect(outcomes: Seq<Outcome>, n: int) -> Result<Seq<SampleView>, Seq<char>>
    decreases n,
{
    if n <= 0 {
        Ok(Seq::empty())
    } else {
        match collect(outcomes, n - 1) {
            Err(e) => Err(e),
            Ok(samples) => match outcomes[n - 1] {
                Err(e) => Err(e),
                Ok(entry) => match spec_sample(entry) {
                    Some(sample) => Ok(samples.push(sample)),
                    None => Ok(samples),
                },
            },
        }
    }
}

/// The samples of a dataset whose lines were answered so.
pub open spec fn spec_samples(outcomes: Seq<Outcome>) -> Result<Seq<SampleView>, DatasetErrorView> {
    match collect(outcomes, outcomes.len() as int) {
        Err(e) => Err(DatasetErrorView::Json(e)),
        Ok(samples) => if samples.len() == 0 {
            Err(DatasetErrorView::EmptyDataset)
        } else {
            Ok(samples)
        },
    }
}

/// Whether these are answers of the parser for the lines of the content: one for each line in
/// turn, up to the first error.
pub open spec fn answered<F: Fn(&DatasetLine) -> Result<DatasetEntry, String>>(
    parse: F,
    content: Seq<char>,
    format: DatasetFormat,
    lines: Seq<DatasetLine>,
    outcomes: Seq<Result<DatasetEntry, String>>,
) -> bool {
    &&& lines_view(lines) == spec_lines(content, format)
    &&& outcomes.len() <= lines.len()
    &&& forall|i: int|
        0 <= i < outcomes.len() ==> call_ensures(parse, (&lines[i],), #[trigger] outcomes[i])
    &&& outcomes.len() < lines.len() ==> outcomes.len() > 0 && outcomes.last() is Err
}

fn alpaca_text(instruction: &str, input: &str) -> (r: String)
    ensures
        r@ == alpaca_prompt(instruction@, input@),
{
    if input.is_empty() {
        text::join3(
            "Below is an instruction that describes a task. Write a response that appropriately completes the request.\n\n### Instruction:\n",
            instruction,
            "\n\n### Response:\n",
        )
    } else {
        let mut out = text::join3(
            "Below is an instruction that describes a task, paired with an input that provides further context. Write a response that appropriately completes the request.\n\n### Instruction:\n",
            instruction,
            "\n\n### Input:\n",
        );
        out.append(input);
        out.append("\n\n### Response:\n");
        out
    }
}

fn chat_sample(messages: &Vec<ChatMessage>) -> (r: SampleItem)
    ensures
        Some(r@) == spec_sample(EntryView::ChatML(messages_view(messages@))),
{
    let ghost m = messages_view(messages@);
    let mut prompt = String::new();
    let mut completion = String::new();
    let mut i: usize = 0;
    while i < messages.len()
        invariant
            i <= messages@.len(),
            m == messages_view(messages@),
            prompt@ == chat_prompt(m, i as int),
            completion@ == chat_completion(m, i as int),
        decreases messages@.len() - i,
    {
        let message = &messages[i];
        assert(m[i as int] == (message.role@, message.content@));
        if text::same(message.role.as_str(), "assistant") {
            completion = text::join3(
                "<|im_start|>assistant\n",
                message.content.as_str(),
                "<|im_end|>\n",
            );
        } else {
            let mut turn = text::join3("<|im_start|>", message.role.as_str(), "\n");
            turn.append(message.content.as_str());
            turn.append("<|im_end|>\n");
            assert(turn@ == chat_turn(message.role@, message.content@));
            prompt.append(turn.as_str());
        }
        i += 1;
    }
    if !completion.as_str().is_empty() {
        prompt.append("<|im_start|>assistant\n");
    }
    SampleItem { prompt, completion }
}

/// The sample that a parsed line gives; a raw line without texts gives none.
pub fn sample_of(entry: DatasetEntry) -> (r: Option<SampleItem>)
    ensures
        match r {
            Some(sample) => spec_sample(entry@) == Some(sample@),
            None => spec_sample(entry@) is None,
        },
        entry matches DatasetEntry::Alpaca(e) ==> {
            &&& r is Some
            &&& r->0.completion@ == e.output@
            &&& e.input@.len() > 0 ==> r->0.prompt@
                == "Below is an instruction that describes a task, paired with an input that provides further context. Write a response that appropriately completes the request.\n\n### Instruction:\n"@
                + e.instruction@ + "\n\n### Input:\n"@ + e.input@ + "\n\n### Response:\n"@
            &&& e.input@.len() == 0 ==> r->0.prompt@
                == "Below is an instruction that describes a task. Write a response that appropriately completes the request.\n\n### Instruction:\n"@
                + e.instruction@ + "\n\n### Response:\n"@
        },
{
    match entry {
        DatasetEntry::Alpaca(e) => Some(
            SampleItem {
                prompt: alpaca_text(e.instruction.as_str(), e.input.as_str()),
                completion: e.output,
            },
        ),
        DatasetEntry::ChatML(messages) => Some(chat_sample(&messages)),
        DatasetEntry::Raw(e) => match (e.prompt, e.completion, e.text) {
            (Some(prompt), Some(completion), _) => Some(SampleItem { prompt, completion }),
            (_, _, Some(completion)) => Some(SampleItem { prompt: String::new(), completion }),
            _ => None,
        },
    }
}

proof fn lemma_collect_error(outcomes: Seq<Outcome>, k: int, n: int)
    requires
        k <= n,
        collect(outcomes, k) is Err,
    ensures
        collect(outcomes, n) == collect(outcomes, k),
    decreases n - k,
{
    if k < n {
        lemma_collect_error(outcomes, k, n - 1);
    }
}

/// The samples of a dataset whose lines were answered so.
pub fn samples_from(outcomes: Vec<Result<DatasetEntry, String>>) -> (r: Result<
    Vec<SampleItem>,
    DatasetError,
>)
    ensures
        match spec_samples(outcomes_view(outcomes@)) {
            Ok(v) => r is Ok && samples_view(r->Ok_0@) == v,
            Err(e) => r is Err && r->Err_0@ == e,
        },
{
    let ghost view = outcomes_view(outcomes@);
    let ghost all = outcomes@;
    let mut samples: Vec<SampleItem> = Vec::new();
    assert(samples_view(samples@) =~= Seq::<SampleView>::empty());
    for outcome in it: outcomes
        invariant
            view == outcomes_view(all),
            it.seq() == all,
            collect(view, it.index() as int) == Ok::<Seq<SampleView>, Seq<char>>(
                samples_view(samples@),
            ),
    {
        let ghost i = it.index() as int;
        assert(view[i] == outcome_view(outcome));
        match outcome {
            Ok(entry) => {
                let ghost before = samples_view(samples@);
                match sample_of(entry) {
                    Some(sample) => {
                        let ghost seen = sample@;
                        samples.push(sample);
                        assert(samples_view(samples@) =~= before.push(seen));
                    },
                    None => {},
                }
            },
            Err(e) => {
                proof {
                    lemma_collect_error(view, i + 1, view.len() as int);
                }
                return Err(DatasetError::Json(e));
            },
        }
    }
    if samples.len() == 0 {
        return Err(DatasetError::EmptyDataset);
    }
    Ok(samples)
}

/// A tokenized sample: what goes in, and what is to be learned at each position.
#[verifier::ext_equal]
pub struct Tokens {
    pub ids: Seq<u32>,
    pub labels: Seq<i64>,
}

/// The prompt without labels, the completion with itself as labels, and the end token.
pub open spec fn spec_tokens(v: tokenizer::Vocab, sample: SampleView) -> Tokens {
    let prompt = tokenizer::spec_encode(v, sample.prompt);
    let completion = tokenizer::spec_encode(v, sample.completion);
    Tokens {
        ids: prompt + completion + seq![EOS_TOKEN_ID],
        labels: Seq::new(prompt.len(), |i: int| IGNORE_LABEL_ID) + Seq::new(
            completion.len(),
            |i: int| completion[i] as i64,
        ) + seq![EOS_TOKEN_ID as i64],
    }
}

/// A row of the same value.
pub open spec fn fill<T>(n: int, value: T) -> Seq<T> {
    Seq::new(n as nat, |i: int| value)
}

/// The positions 0, 1, 2...
pub open spec fn count_up(n: int) -> Seq<u32> {
    Seq::new(n as nat, |i: int| i as u32)
}

/// A sample in a window of its own: cut to the window, or filled up to it.
pub open spec fn spec_single(t: Tokens, max: int) -> PackedView {
    let len = if t.ids.len() > max {
        max
    } else {
        t.ids.len() as int
    };
    PackedView {
        input_ids: t.ids.take(len) + fill(max - len, PAD_TOKEN_ID),
        labels: t.labels.take(len) + fill(max - len, IGNORE_LABEL_ID),
        position_ids: count_up(len),
        segment_ids: fill(len, 0u32),
        seq_lengths: seq![len as usize],
    }
}

/// What the first `n` samples of a window hold, one after the other. Positions start again with
/// every sample, and every sample has a segment number of its own.
pub open spec fn spec_row(open: Seq<Tokens>, n: int) -> PackedView
    decreases n,
{
    if n <= 0 {
        PackedView {
            input_ids: Seq::empty(),
            labels: Seq::empty(),
            position_ids: Seq::empty(),
            segment_ids: Seq::empty(),
            seq_lengths: Seq::empty(),
        }
    } else {
        let before = spec_row(open, n - 1);
        let t = open[n - 1];
        PackedView {
            input_ids: before.input_ids + t.ids,
            labels: before.labels + t.labels,
            position_ids: before.position_ids + count_up(t.ids.len() as int),
            segment_ids: before.segment_ids + fill(t.ids.len() as int, (n - 1) as u32),
            seq_lengths: before.seq_lengths.push(t.ids.len() as usize),
        }
    }
}

/// A window of samples, filled up to its length.
pub open spec fn spec_window(open: Seq<Tokens>, max: int) -> PackedView {
    let row = spec_row(open, open.len() as int);
    let pad = max - row.input_ids.len();
    PackedView {
        input_ids: row.input_ids + fill(pad, PAD_TOKEN_ID),
        labels: row.labels + fill(pad, IGNORE_LABEL_ID),
        position_ids: row.position_ids + fill(pad, 0u32),
        segment_ids: row.segment_ids + fill(pad, open.len() as u32),
        seq_lengths: row.seq_lengths,
    }
}

/// Windows that are closed, and the samples of the one that is open.
#[verifier::ext_equal]
pub struct Packing {
    pub done: Seq<PackedView>,
    pub open: Seq<Tokens>,
}

pub open spec fn row_len(open: Seq<Tokens>) -> int {
    spec_row(open, open.len() as int).input_ids.len() as int
}

/// The packing after one more sample: a sample longer than a window gets a cut window of its own;
/// one that does not fit into the open window closes it.
pub open spec fn spec_add(p: Packing, t: Tokens, max: int) -> Packing {
    if t.ids.len() > max {
        Packing { done: p.done.push(spec_single(t, max)), open: p.open }
    } else if row_len(p.open) + t.ids.len() > max {
        Packing { done: p.done.push(spec_window(p.open, max)), open: seq![t] }
    } else {
        Packing { done: p.done, open: p.open.push(t) }
    }
}

/// The packing of the first `n` samples.
pub open spec fn spec_pack(tokens: Seq<Tokens>, max: int, n: int) -> Packing
    decreases n,
{
    if n <= 0 {
        Packing { done: Seq::empty(), open: Seq::empty() }
    } else {
        spec_add(spec_pack(tokens, max, n - 1), tokens[n - 1], max)
    }
}

/// All windows, the open one closed.
pub open spec fn spec_finish(p: Packing, max: int) -> Seq<PackedView> {
    if p.open.len() == 0 {
        p.done
    } else {
        p.done.push(spec_window(p.open, max))
    }
}

/// The tokenized samples.
pub open spec fn all_tokens(v: tokenizer::Vocab, samples: Seq<SampleView>) -> Seq<Tokens> {
    Seq::new(samples.len(), |i: int| spec_tokens(v, samples[i]))
}

/// The windows of a list of samples, packed or one for each.
pub open spec fn spec_batches(
    v: tokenizer::Vocab,
    samples: Seq<SampleView>,
    max: int,
    pack: bool,
) -> Seq<PackedView> {
    let tokens = all_tokens(v, samples);
    if pack {
        spec_finish(spec_pack(tokens, max, tokens.len() as int), max)
    } else {
        Seq::new(tokens.len(), |i: int| spec_single(tokens[i], max))
    }
}

/// The windows of a dataset whose lines were answered so.
pub open spec fn spec_load(
    v: tokenizer::Vocab,
    outcomes: Seq<Outcome>,
    max: int,
    pack: bool,
) -> Result<Seq<PackedView>, DatasetErrorView> {
    match spec_samples(outcomes) {
        Err(e) => Err(e),
        Ok(samples) => Ok(spec_batches(v, samples, max, pack)),
    }
}

fn tokenize(t: &SimpleTokenizer, sample: &SampleItem) -> (r: (Vec<u32>, Vec<i64>))
    requires
        tokenizer::no_empty_special(t@.vocab),
    ensures
        r.0@ == spec_tokens(t@.vocab, sample@).ids,
        r.1@ == spec_tokens(t@.vocab, sample@).labels,
{
    let mut ids = t.encode(sample.prompt.as_str());
    let mut completion = t.encode(sample.completion.as_str());
    let mut labels: Vec<i64> = Vec::new();
    let ghost want = spec_tokens(t@.vocab, sample@);
    let n = ids.len();
    let mut i: usize = 0;
    while i < n
        invariant
            i <= n,
            labels@ == fill(i as int, IGNORE_LABEL_ID),
        decreases n - i,
    {
        labels.push(IGNORE_LABEL_ID);
        i += 1;
        assert(labels@ =~= fill(i as int, IGNORE_LABEL_ID));
    }
    let ghost front = labels@;
    let mut j: usize = 0;
    while j < completion.len()
        invariant
            j <= completion@.len(),
            labels@ == front + Seq::new(j as nat, |k: int| completion@[k] as i64),
        decreases completion@.len() - j,
    {
        labels.push(completion[j] as i64);
        j += 1;
        assert(labels@ =~= front + Seq::new(j as nat, |k: int| completion@[k] as i64));
    }
    ids.append(&mut completion);
    ids.push(EOS_TOKEN_ID);
    labels.push(EOS_TOKEN_ID as i64);
    assert(ids@ =~= want.ids);
    assert(labels@ =~= want.labels);
    (ids, labels)
}

/// Fills a row up to a length.
fn pad_to<T: Copy>(row: &mut Vec<T>, len: usize, value: T)
    requires
        old(row)@.len() <= len,
    ensures
        final(row)@ == old(row)@ + fill(len - old(row)@.len(), value),
{
    let ghost before = row@;
    while row.len() < len
        invariant
            before.len() <= row@.len() <= len,
            row@ == before + fill(row@.len() - before.len(), value),
        decreases len - row@.len(),
    {
        let ghost n = row@.len();
        row.push(value);
        assert(row@ =~= before + fill(n + 1 - before.len(), value));
    }
}

/// Appends the positions 0, 1, 2... up to `n`.
fn push_positions(row: &mut Vec<u32>, n: usize)
    requires
        n <= u32::MAX,
    ensures
        final(row)@ == old(row)@ + count_up(n as int),
{
    let ghost before = row@;
    let mut i: usize = 0;
    assert(row@ =~= before + count_up(0));
    while i < n
        invariant
            i <= n <= u32::MAX,
            row@ == before + count_up(i as int),
        decreases n - i,
    {
        row.push(i as u32);
        i += 1;
        assert(row@ =~= before + count_up(i as int));
    }
}

/// Appends the same segment number `n` times.
fn push_segment(row: &mut Vec<u32>, n: usize, segment: u32)
    ensures
        final(row)@ == old(row)@ + fill(n as int, segment),
{
    let ghost before = row@;
    let mut i: usize = 0;
    assert(row@ =~= before + fill(0, segment));
    while i < n
        invariant
            i <= n,
            row@ == before + fill(i as int, segment),
        decreases n - i,
    {
        row.push(segment);
        i += 1;
        assert(row@ =~= before + fill(i as int, segment));
    }
}

/// A sample in a window of its own.
fn single(ids: Vec<u32>, labels: Vec<i64>, max: usize) -> (r: PackedSequence)
    requires
        ids@.len() == labels@.len(),
        max <= u32::MAX,
    ensures
        r@ == spec_single((Tokens { ids: ids@, labels: labels@ }), max as int),
{
    let ghost t = Tokens { ids: ids@, labels: labels@ };
    let mut ids = ids;
    let mut labels = labels;
    if ids.len() > max {
        ids.truncate(max);
        labels.truncate(max);
    }
    let len = ids.len();
    assert(ids@ =~= t.ids.take(len as int));
    assert(labels@ =~= t.labels.take(len as int));
    let mut position_ids: Vec<u32> = Vec::new();
    push_positions(&mut position_ids, len);
    let mut segment_ids: Vec<u32> = Vec::new();
    push_segment(&mut segment_ids, len, 0);
    pad_to(&mut ids, max, PAD_TOKEN_ID);
    pad_to(&mut labels, max, IGNORE_LABEL_ID);
    let mut seq_lengths: Vec<usize> = Vec::new();
    seq_lengths.push(len);
    let r = PackedSequence { input_ids: ids, labels, position_ids, segment_ids, seq_lengths };
    let ghost want = spec_single(t, max as int);
    assert(r@.input_ids =~= want.input_ids);
    assert(r@.labels =~= want.labels);
    assert(r@.position_ids =~= want.position_ids);
    assert(r@.segment_ids =~= want.segment_ids);
    assert(r@.seq_lengths =~= want.seq_lengths);
    r
}

fn empty_row() -> (r: PackedSequence)
    ensures
        r@ == spec_row(Seq::empty(), 0),
{
    let r = PackedSequence {
        input_ids: Vec::new(),
        labels: Vec::new(),
        position_ids: Vec::new(),
        segment_ids: Vec::new(),
        seq_lengths: Vec::new(),
    };
    assert(r@ =~= spec_row(Seq::empty(), 0));
    r
}

pub(crate) proof fn lemma_row_prefix(open: Seq<Tokens>, more: Seq<Tokens>, n: int)
    requires
        n <= open.len() <= more.len(),
        forall|i: int| 0 <= i < open.len() ==> open[i] == more[i],
    ensures
        spec_row(open, n) == spec_row(more, n),
    decreases n,
{
    if n > 0 {
        lemma_row_prefix(open, more, n - 1);
    }
}

/// Every sample has as many labels as tokens, and at least its end token.
pub open spec fn well_tokenized(t: Tokens) -> bool {
    t.ids.len() == t.labels.len() && t.ids.len() > 0
}

pub open spec fn all_well_tokenized(s: Seq<Tokens>) -> bool {
    forall|i: int| 0 <= i < s.len() ==> well_tokenized(#[trigger] s[i])
}

pub(crate) proof fn lemma_row_lengths(open: Seq<Tokens>, n: int)
    requires
        0 <= n <= open.len(),
        all_well_tokenized(open),
    ensures
        n <= spec_row(open, n).input_ids.len(),
        spec_row(open, n).labels.len() == spec_row(open, n).input_ids.len(),
        spec_row(open, n).position_ids.len() == spec_row(open, n).input_ids.len(),
        spec_row(open, n).segment_ids.len() == spec_row(open, n).input_ids.len(),
        spec_row(open, n).seq_lengths.len() == n,
    decreases n,
{
    if n > 0 {
        lemma_row_lengths(open, n - 1);
        assert(well_tokenized(open[n - 1]));
    }
}

/// Appends a sample to a row.
fn add_to_row(row: &mut PackedSequence, ids: Vec<u32>, labels: Vec<i64>, Ghost(open): Ghost<
    Seq<Tokens>,
>)
    requires
        old(row)@ == spec_row(open, open.len() as int),
        open.len() < u32::MAX,
        old(row)@.seq_lengths.len() == open.len(),
        ids@.len() == labels@.len() <= u32::MAX,
    ensures
        final(row)@ == spec_row(
            open.push(Tokens { ids: ids@, labels: labels@ }),
            (open.len() + 1) as int,
        ),
{
    let ghost t = Tokens { ids: ids@, labels: labels@ };
    let ghost more = open.push(t);
    proof {
        lemma_row_prefix(open, more, open.len() as int);
    }
    let mut ids = ids;
    let mut labels = labels;
    let len = ids.len();
    let segment = row.seq_lengths.len() as u32;
    row.input_ids.append(&mut ids);
    row.labels.append(&mut labels);
    push_positions(&mut row.position_ids, len);
    push_segment(&mut row.segment_ids, len, segment);
    row.seq_lengths.push(len);
    assert(row@ =~= spec_row(more, (open.len() + 1) as int));
}

/// Fills a row up to a window.
fn close_row(row: PackedSequence, max: usize, Ghost(open): Ghost<Seq<Tokens>>) -> (r:
    PackedSequence)
    requires
        row@ == spec_row(open, open.len() as int),
        all_well_tokenized(open),
        row@.input_ids.len() <= max <= u32::MAX,
    ensures
        r@ == spec_window(open, max as int),
{
    proof {
        lemma_row_lengths(open, open.len() as int);
    }
    let segment = row.seq_lengths.len() as u32;
    let mut row = row;
    pad_to(&mut row.input_ids, max, PAD_TOKEN_ID);
    pad_to(&mut row.labels, max, IGNORE_LABEL_ID);
    pad_to(&mut row.position_ids, max, 0);
    pad_to(&mut row.segment_ids, max, segment);
    assert(row@ =~= spec_window(open, max as int));
    row
}

/// Samples one by one, each in a window of its own.
fn separate(samples: &Vec<SampleItem>, t: &SimpleTokenizer, max: usize) -> (r: Vec<PackedSequence>)
    requires
        tokenizer::no_empty_special(t@.vocab),
        max <= u32::MAX,
    ensures
        packed_view(r@) == spec_batches(t@.vocab, samples_view(samples@), max as int, false),
{
    let ghost view = samples_view(samples@);
    let mut batches: Vec<PackedSequence> = Vec::new();
    let mut i: usize = 0;
    while i < samples.len()
        invariant
            i <= samples@.len(),
            view == samples_view(samples@),
            tokenizer::no_empty_special(t@.vocab),
            max <= u32::MAX,
            batches@.len() == i,
            forall|k: int|
                0 <= k < i ==> (#[trigger] batches@[k])@ == spec_single(
                    spec_tokens(t@.vocab, view[k]),
                    max as int,
                ),
        decreases samples@.len() - i,
    {
        assert(view[i as int] == samples@[i as int]@);
        let (ids, labels) = tokenize(t, &samples[i]);
        batches.push(single(ids, labels, max));
        i += 1;
    }
    assert(packed_view(batches@) =~= spec_batches(t@.vocab, view, max as int, false));
    batches
}

pub(crate) proof fn lemma_pack_open(tokens: Seq<Tokens>, max: int, n: int)
    requires
        0 <= n <= tokens.len(),
        all_well_tokenized(tokens),
    ensures
        all_well_tokenized(spec_pack(tokens, max, n).open),
        max >= 0 ==> row_len(spec_pack(tokens, max, n).open) <= max,
    decreases n,
{
    if n > 0 {
        lemma_pack_open(tokens, max, n - 1);
        let p = spec_pack(tokens, max, n - 1);
        let t = tokens[n - 1];
        assert(well_tokenized(t));
        if t.ids.len() <= max {
            if row_len(p.open) + t.ids.len() > max {
                assert(seq![t][0] == t);
                reveal_with_fuel(spec_row, 2);
            } else {
                lemma_row_prefix(p.open, p.open.push(t), p.open.len() as int);
            }
        }
    }
}

/// Samples packed into windows.
fn packed(samples: &Vec<SampleItem>, t: &SimpleTokenizer, max: usize) -> (r: Vec<PackedSequence>)
    requires
        tokenizer::no_empty_special(t@.vocab),
        max <= u32::MAX,
    ensures
        packed_view(r@) == spec_batches(t@.vocab, samples_view(samples@), max as int, true),
{
    let ghost view = samples_view(samples@);
    let ghost tokens = all_tokens(t@.vocab, view);
    let mut done: Vec<PackedSequence> = Vec::new();
    let mut row = empty_row();
    let mut i: usize = 0;
    assert(packed_view(done@) =~= Seq::<PackedView>::empty());
    assert(all_well_tokenized(tokens));
    while i < samples.len()
        invariant
            i <= samples@.len(),
            view == samples_view(samples@),
            tokens == all_tokens(t@.vocab, view),
            all_well_tokenized(tokens),
            tokenizer::no_empty_special(t@.vocab),
            max <= u32::MAX,
            packed_view(done@) == spec_pack(tokens, max as int, i as int).done,
            row@ == spec_row(
                spec_pack(tokens, max as int, i as int).open,
                spec_pack(tokens, max as int, i as int).open.len() as int,
            ),
        decreases samples@.len() - i,
    {
        let ghost p = spec_pack(tokens, max as int, i as int);
        assert(view[i as int] == samples@[i as int]@);
        proof {
            lemma_pack_open(tokens, max as int, i as int);
            lemma_row_lengths(p.open, p.open.len() as int);
        }
        let (ids, labels) = tokenize(t, &samples[i]);
        let ghost one = Tokens { ids: ids@, labels: labels@ };
        assert(one =~= tokens[i as int]);
        assert(well_tokenized(one));
        let ghost before = packed_view(done@);
        if ids.len() > max {
            done.push(single(ids, labels, max));
            assert(packed_view(done@) =~= before.push(spec_single(one, max as int)));
        } else if row.input_ids.len() > max - ids.len() {
            done.push(close_row(row, max, Ghost(p.open)));
            assert(packed_view(done@) =~= before.push(spec_window(p.open, max as int)));
            row = empty_row();
            add_to_row(&mut row, ids, labels, Ghost(Seq::empty()));
            assert(Seq::<Tokens>::empty().push(one) =~= seq![one]);
        } else {
            add_to_row(&mut row, ids, labels, Ghost(p.open));
        }
        i += 1;
    }
    proof {
        lemma_pack_open(tokens, max as int, i as int);
        let p = spec_pack(tokens, max as int, i as int);
        lemma_row_lengths(p.open, p.open.len() as int);
    }
    if row.input_ids.len() > 0 {
        let ghost p = spec_pack(tokens, max as int, i as int);
        let ghost before = packed_view(done@);
        done.push(close_row(row, max, Ghost(p.open)));
        assert(packed_view(done@) =~= before.push(spec_window(p.open, max as int)));
    }
    done
}

pub struct DatasetLoader;

impl DatasetLoader {
    /// The lines of a dataset that are to be parsed, each with its format.
    pub fn dataset_lines(content: &str, format: DatasetFormat) -> (r: Vec<DatasetLine>)
        ensures
            lines_view(r@) == spec_lines(content@, format),
    {
        let lines = text::split(content, '\n');
        let ghost all = text::pieces(content@, '\n');
        let mut kept: Vec<DatasetLine> = Vec::new();
        let mut i: usize = 0;
        assert(lines_view(kept@) =~= Seq::<LineView>::empty());
        while i < lines.len()
            invariant
                i <= lines@.len(),
                all == text::views(lines@),
                lines_view(kept@) == kept_lines(all, format, i as int),
            decreases lines@.len() - i,
        {
            let line = text::trim(lines[i].as_str());
            assert(all[i as int] == lines@[i as int]@);
            let ghost before = lines_view(kept@);
            if !line.as_str().is_empty() {
                let format = match format {
                    DatasetFormat::Auto => {
                        if text::contains(line.as_str(), "\"messages\"") {
                            DatasetFormat::ChatML
                        } else if text::contains(line.as_str(), "\"instruction\"") {
                            DatasetFormat::Alpaca
                        } else {
                            DatasetFormat::RawJsonl
                        }
                    },
                    other => other,
                };
                let item = DatasetLine { format, text: line };
                let ghost seen = item@;
                kept.push(item);
                assert(lines_view(kept@) =~= before.push(seen));
            }
            i += 1;
        }
        kept
    }

    /// The samples of a dataset. `parse` turns a line into an entry of its format, or says why it
    /// cannot.
    pub fn parse_samples<F: Fn(&DatasetLine) -> Result<DatasetEntry, String>>(
        content: &str,
        format: DatasetFormat,
        parse: F,
    ) -> (r: Result<Vec<SampleItem>, DatasetError>)
        requires
            forall|line: &DatasetLine| #[trigger] call_requires(parse, (line,)),
        ensures
            exists|lines: Seq<DatasetLine>, outcomes: Seq<Result<DatasetEntry, String>>|
                #![trigger answered(parse, content@, format, lines, outcomes)]
                answered(parse, content@, format, lines, outcomes) && match spec_samples(
                    outcomes_view(outcomes),
                ) {
                    Ok(v) => r is Ok && samples_view(r->Ok_0@) == v,
                    Err(e) => r is Err && r->Err_0@ == e,
                },
    {
        let lines = DatasetLoader::dataset_lines(content, format);
        let mut outcomes: Vec<Result<DatasetEntry, String>> = Vec::new();
        let mut i: usize = 0;
        let mut failed = false;
        while i < lines.len() && !failed
            invariant
                i <= lines@.len(),
                outcomes@.len() == i,
                forall|line: &DatasetLine| #[trigger] call_requires(parse, (line,)),
                forall|k: int|
                    0 <= k < outcomes@.len() ==> call_ensures(
                        parse,
                        (&lines@[k],),
                        #[trigger] outcomes@[k],
                    ),
                failed ==> outcomes@.len() > 0 && outcomes@.last() is Err,
            decreases lines@.len() - i,
        {
            let outcome = parse(&lines[i]);
            failed = outcome.is_err();
            outcomes.push(outcome);
            i += 1;
        }
        assert(answered(parse, content@, format, lines@, outcomes@));
        samples_from(outcomes)
    }

    /// The windows of a list of samples: packed, or one for each sample.
    pub fn pack_samples(
        samples: &Vec<SampleItem>,
        tokenizer: &SimpleTokenizer,
        max_seq_len: usize,
        pack_sequences: bool,
    ) -> (r: Vec<PackedSequence>)
        requires
            tokenizer::no_empty_special(tokenizer@.vocab),
            max_seq_len <= u32::MAX,
        ensures
            packed_view(r@) == spec_batches(
                tokenizer@.vocab,
                samples_view(samples@),
                max_seq_len as int,
                pack_sequences,
            ),
    {
        if pack_sequences {
            packed(samples, tokenizer, max_seq_len)
        } else {
            separate(samples, tokenizer, max_seq_len)
        }
    }

    /// The windows of a dataset. `parse` turns a line into an entry of its format, or says why it
    /// cannot.
    pub fn load_from_str<F: Fn(&DatasetLine) -> Result<DatasetEntry, String>>(
        content: &str,
        format: DatasetFormat,
        tokenizer: &SimpleTokenizer,
        max_seq_len: usize,
        pack_sequences: bool,
        parse: F,
    ) -> (r: Result<Vec<PackedSequence>, DatasetError>)
        requires
            forall|line: &DatasetLine| #[trigger] call_requires(parse, (line,)),
            tokenizer::no_empty_special(tokenizer@.vocab),
            max_seq_len <= u32::MAX,
        ensures
            exists|lines: Seq<DatasetLine>, outcomes: Seq<Result<DatasetEntry, String>>|
                #![trigger answered(parse, content@, format, lines, outcomes)]
                answered(parse, content@, format, lines, outcomes) && match spec_load(
                    tokenizer@.vocab,
                    outcomes_view(outcomes),
                    max_seq_len as int,
                    pack_sequences,
                ) {
                    Ok(v) => r is Ok && packed_view(r->Ok_0@) == v,
                    Err(e) => r is Err && r->Err_0@ == e,
                },
    {
        let samples = match DatasetLoader::parse_samples(content, format, parse) {
            Ok(samples) => samples,
            Err(e) => return Err(e),
        };
        Ok(DatasetLoader::pack_samples(&samples, tokenizer, max_seq_len, pack_sequences))
    }
}

/// At every position that is learned the label is the token itself.
pub open spec fn labels_are_tokens(ids: Seq<u32>, labels: Seq<i64>) -> bool {
    ids.len() == labels.len() && forall|i: int|
        0 <= i < labels.len() ==> #[trigger] labels[i] == IGNORE_LABEL_ID || labels[i] == ids[i]
}

pub(crate) proof fn lemma_tokens_labels(v: tokenizer::Vocab, s: SampleView)
    ensures
        well_tokenized(spec_tokens(v, s)),
        labels_are_tokens(spec_tokens(v, s).ids, spec_tokens(v, s).labels),
{
}

proof fn lemma_single_shape(t: Tokens, max: int)
    requires
        max >= 0,
        labels_are_tokens(t.ids, t.labels),
    ensures
        spec_single(t, max).input_ids.len() == max,
        labels_are_tokens(spec_single(t, max).input_ids, spec_single(t, max).labels),
{
}

proof fn lemma_row_labels(open: Seq<Tokens>, n: int)
    requires
        0 <= n <= open.len(),
        forall|i: int|
            0 <= i < open.len() ==> labels_are_tokens(
                (#[trigger] open[i]).ids,
                open[i].labels,
            ),
    ensures
        labels_are_tokens(spec_row(open, n).input_ids, spec_row(open, n).labels),
    decreases n,
{
    if n > 0 {
        lemma_row_labels(open, n - 1);
        assert(labels_are_tokens(open[n - 1].ids, open[n - 1].labels));
    }
}

pub open spec fn all_labelled(s: Seq<Tokens>) -> bool {
    forall|i: int| 0 <= i < s.len() ==> labels_are_tokens((#[trigger] s[i]).ids, s[i].labels)
}

/// A window as a trainer needs it: every row is as long as the window, and every label is the
/// token itself or not learned.
pub open spec fn full_window(w: PackedView, max: int) -> bool {
    &&& w.input_ids.len() == max
    &&& w.position_ids.len() == max
    &&& w.segment_ids.len() == max
    &&& labels_are_tokens(w.input_ids, w.labels)
}

/// How many samples the windows hold.
pub open spec fn sample_count(windows: Seq<PackedView>) -> int
    decreases windows.len(),
{
    if windows.len() == 0 {
        0
    } else {
        sample_count(windows.drop_last()) + windows.last().seq_lengths.len()
    }
}

proof fn lemma_window_full(open: Seq<Tokens>, max: int)
    requires
        all_well_tokenized(open),
        all_labelled(open),
        row_len(open) <= max,
    ensures
        full_window(spec_window(open, max), max),
        spec_window(open, max).seq_lengths.len() == open.len(),
{
    lemma_row_lengths(open, open.len() as int);
    lemma_row_labels(open, open.len() as int);
}

proof fn lemma_pack_windows(tokens: Seq<Tokens>, max: int, n: int)
    requires
        0 <= n <= tokens.len(),
        max >= 0,
        all_well_tokenized(tokens),
        all_labelled(tokens),
    ensures
        all_labelled(spec_pack(tokens, max, n).open),
        forall|i: int|
            0 <= i < spec_pack(tokens, max, n).done.len() ==> full_window(
                #[trigger] spec_pack(tokens, max, n).done[i],
                max,
            ),
        sample_count(spec_pack(tokens, max, n).done) + spec_pack(tokens, max, n).open.len() == n,
    decreases n,
{
    if n > 0 {
        lemma_pack_windows(tokens, max, n - 1);
        lemma_pack_open(tokens, max, n - 1);
        let p = spec_pack(tokens, max, n - 1);
        let t = tokens[n - 1];
        let q = spec_add(p, t, max);
        assert(labels_are_tokens(t.ids, t.labels));
        if t.ids.len() > max {
            lemma_single_shape(t, max);
            assert(q.done.drop_last() =~= p.done);
        } else if row_len(p.open) + t.ids.len() > max {
            lemma_window_full(p.open, max);
            assert(q.done.drop_last() =~= p.done);
        }
    }
}

/// Packed windows are full, their labels are the tokens themselves or not learned, and together
/// they hold as many samples as were given.
pub proof fn law_packed_windows_are_full(
    v: tokenizer::Vocab,
    samples: Seq<SampleView>,
    max: int,
    k: int,
)
    requires
        max >= 0,
        0 <= k < spec_batches(v, samples, max, true).len(),
    ensures
        full_window(spec_batches(v, samples, max, true)[k], max),
        sample_count(spec_batches(v, samples, max, true)) == samples.len(),
{
    let tokens = all_tokens(v, samples);
    assert forall|i: int| 0 <= i < tokens.len() implies well_tokenized(#[trigger] tokens[i])
        && labels_are_tokens(tokens[i].ids, tokens[i].labels) by {
        lemma_tokens_labels(v, samples[i]);
    }
    let n = tokens.len() as int;
    lemma_pack_windows(tokens, max, n);
    lemma_pack_open(tokens, max, n);
    let p = spec_pack(tokens, max, n);
    if p.open.len() > 0 {
        lemma_window_full(p.open, max);
        assert(spec_finish(p, max).drop_last() =~= p.done);
    }
}

/// Without packing there is one window for each sample, in the order of the samples, as long as
/// asked for.
pub proof fn law_separate_windows_follow_samples(
    v: tokenizer::Vocab,
    samples: Seq<SampleView>,
    max: int,
    k: int,
)
    requires
        max >= 0,
        0 <= k < samples.len(),
    ensures
        spec_batches(v, samples, max, false).len() == samples.len(),
        spec_batches(v, samples, max, false)[k].input_ids.len() == max,
        labels_are_tokens(
            spec_batches(v, samples, max, false)[k].input_ids,
            spec_batches(v, samples, max, false)[k].labels,
        ),
{
    lemma_tokens_labels(v, samples[k]);
    lemma_single_shape(spec_tokens(v, samples[k]), max);
}

} // verus!
