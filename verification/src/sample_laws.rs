//! What the samples of a dataset are: how each kind of entry becomes a prompt and a completion, and how
//! the samples follow from the lines.

use vstd::prelude::*;

use crate::dataset;
use crate::dataset::DatasetFormat;
use crate::text;

verus! {

/// An instruction with an input becomes a prompt that quotes the one and then the other, each under its
/// heading; the output is the completion.
pub proof fn law_instruction_with_input(
    instruction: Seq<char>,
    input: Seq<char>,
    output: Seq<char>,
)
    requires
        input.len() > 0,
    ensures
        dataset::spec_sample(dataset::EntryView::Alpaca { instruction, input, output }) == Some(
            dataset::SampleView {
                prompt: "Below is an instruction that describes a task, paired with an input that provides further context. Write a response that appropriately completes the request.\n\n### Instruction:\n"@
                    + instruction + "\n\n### Input:\n"@ + input + "\n\n### Response:\n"@,
                completion: output,
            },
        ),
{
}

/// An instruction without an input has no heading for it.
pub proof fn law_instruction_without_input(instruction: Seq<char>, output: Seq<char>)
    ensures
        dataset::spec_sample(
            dataset::EntryView::Alpaca { instruction, input: Seq::empty(), output },
        ) == Some(
            dataset::SampleView {
                prompt: "Below is an instruction that describes a task. Write a response that appropriately completes the request.\n\n### Instruction:\n"@
                    + instruction + "\n\n### Response:\n"@,
                completion: output,
            },
        ),
{
}

/// A raw entry is a prompt and its completion, or a text that is all to be learned; one with neither is
/// left out.
pub proof fn law_raw_entry(
    prompt: Option<Seq<char>>,
    completion: Option<Seq<char>>,
    text: Option<Seq<char>>,
)
    ensures
        prompt matches Some(p) ==> completion matches Some(c) ==> dataset::spec_sample(
            dataset::EntryView::Raw { prompt, completion, text },
        ) == Some(dataset::SampleView { prompt: p, completion: c }),
        text matches Some(t) ==> prompt is None || completion is None ==> dataset::spec_sample(
            dataset::EntryView::Raw { prompt, completion, text },
        ) == Some(dataset::SampleView { prompt: Seq::empty(), completion: t }),
        (prompt is None || completion is None) && text is None ==> dataset::spec_sample(
            dataset::EntryView::Raw { prompt, completion, text },
        ) is None,
{
}

// ---------- conversations ----------

proof fn lemma_turns_before(
    m: Seq<(Seq<char>, Seq<char>)>,
    more: (Seq<char>, Seq<char>),
    n: int,
)
    requires
        0 <= n <= m.len(),
    ensures
        dataset::chat_prompt(m.push(more), n) == dataset::chat_prompt(m, n),
        dataset::chat_completion(m.push(more), n) == dataset::chat_completion(m, n),
    decreases n,
{
    if n > 0 {
        lemma_turns_before(m, more, n - 1);
    }
}

/// A conversation without messages is an empty sample.
pub proof fn law_empty_conversation()
    ensures
        dataset::spec_sample(dataset::EntryView::ChatML(Seq::empty())) == Some(
            dataset::SampleView { prompt: Seq::empty(), completion: Seq::empty() },
        ),
{
}

/// A conversation that goes on with somebody other than the assistant keeps its completion, and has
/// the new turn at the end of its prompt: before the words that hand over to the assistant, where
/// the assistant has spoken.
pub proof fn law_turn_of_the_user(
    m: Seq<(Seq<char>, Seq<char>)>,
    role: Seq<char>,
    content: Seq<char>,
)
    requires
        role != "assistant"@,
    ensures
        ({
            let before = dataset::spec_sample(dataset::EntryView::ChatML(m))->0;
            let after = dataset::spec_sample(
                dataset::EntryView::ChatML(m.push((role, content))),
            )->0;
            let turn = "<|im_start|>"@ + role + "\n"@ + content + "<|im_end|>\n"@;
            let hand_over = "<|im_start|>assistant\n"@;
            &&& after.completion == before.completion
            &&& before.completion.len() == 0 ==> after.prompt == before.prompt + turn
            &&& before.completion.len() > 0 ==> before.prompt.len() >= hand_over.len()
                && after.prompt == before.prompt.take(before.prompt.len() - hand_over.len()) + turn
                + hand_over
        }),
{
    lemma_turns_before(m, (role, content), m.len() as int);
    let prompt = dataset::chat_prompt(m, m.len() as int);
    let hand_over = "<|im_start|>assistant\n"@;
    assert((prompt + hand_over).take(prompt.len() as int) =~= prompt);
}

/// A conversation that goes on with the assistant has that turn as its completion, whatever the
/// assistant said before, and its prompt ends with the words that hand over to the assistant.
pub proof fn law_turn_of_the_assistant(m: Seq<(Seq<char>, Seq<char>)>, content: Seq<char>)
    ensures
        ({
            let before = dataset::spec_sample(dataset::EntryView::ChatML(m))->0;
            let after = dataset::spec_sample(
                dataset::EntryView::ChatML(m.push(("assistant"@, content))),
            )->0;
            let hand_over = "<|im_start|>assistant\n"@;
            &&& after.completion == "<|im_start|>assistant\n"@ + content + "<|im_end|>\n"@
            &&& before.completion.len() == 0 ==> after.prompt == before.prompt + hand_over
            &&& before.completion.len() > 0 ==> after.prompt == before.prompt
        }),
{
    lemma_turns_before(m, ("assistant"@, content), m.len() as int);
    reveal_strlit("<|im_start|>assistant\n");
}

// ---------- lines ----------

proof fn lemma_collected_before(outcomes: Seq<dataset::Outcome>, more: dataset::Outcome, n: int)
    requires
        0 <= n <= outcomes.len(),
    ensures
        dataset::collect(outcomes.push(more), n) == dataset::collect(outcomes, n),
    decreases n,
{
    if n > 0 {
        lemma_collected_before(outcomes, more, n - 1);
    }
}

/// The samples that a dataset has so far; none where every line was left out.
pub open spec fn so_far(outcomes: Seq<dataset::Outcome>) -> Option<Seq<dataset::SampleView>> {
    match dataset::spec_samples(outcomes) {
        Ok(samples) => Some(samples),
        Err(dataset::DatasetErrorView::EmptyDataset) => Some(Seq::empty()),
        Err(_) => None,
    }
}

/// One line after the other: a line with a sample adds it at the end, a line without one adds nothing,
/// and a line that could not be read is the error, whatever follows it.
pub proof fn law_samples_follow_the_lines(
    outcomes: Seq<dataset::Outcome>,
    entry: dataset::EntryView,
    why: Seq<char>,
)
    ensures
        so_far(Seq::empty()) == Some(Seq::<dataset::SampleView>::empty()),
        so_far(outcomes) matches Some(samples) ==> {
            &&& dataset::spec_sample(entry) matches Some(sample) ==> dataset::spec_samples(
                outcomes.push(Ok(entry)),
            ) == Ok::<Seq<dataset::SampleView>, dataset::DatasetErrorView>(samples.push(sample))
            &&& dataset::spec_sample(entry) is None ==> dataset::spec_samples(
                outcomes.push(Ok(entry)),
            ) == dataset::spec_samples(outcomes)
            &&& dataset::spec_samples(outcomes.push(Err(why))) == Err::<
                Seq<dataset::SampleView>,
                dataset::DatasetErrorView,
            >(dataset::DatasetErrorView::Json(why))
        },
        so_far(outcomes) is None ==> dataset::spec_samples(outcomes.push(Ok(entry)))
            == dataset::spec_samples(outcomes) && dataset::spec_samples(outcomes.push(Err(why)))
            == dataset::spec_samples(outcomes),
        dataset::spec_samples(outcomes) matches Ok(samples) ==> samples.len() > 0,
{
    let n = outcomes.len() as int;
    lemma_collected_before(outcomes, Ok(entry), n);
    lemma_collected_before(outcomes, Err(why), n);
    if let Ok(samples) = dataset::collect(outcomes, n) {
        if samples.len() == 0 {
            assert(samples =~= Seq::empty());
        }
    }
}

proof fn lemma_pieces_of_more(a: Seq<char>, line: Seq<char>, sep: char)
    requires
        !line.contains(sep),
    ensures
        text::pieces(a + seq![sep] + line, sep) == text::pieces(a, sep).push(line),
    decreases line.len(),
{
    let whole = a + seq![sep] + line;
    if line.len() == 0 {
        assert(whole.drop_last() =~= a);
        assert(whole.last() == sep);
        assert(line =~= Seq::empty());
    } else {
        let short = line.drop_last();
        assert forall|i: int| 0 <= i < short.len() implies short[i] != sep by {
            assert(line.contains(line[i]));
        }
        assert(line.contains(line.last()));
        lemma_pieces_of_more(a, short, sep);
        assert(whole.drop_last() =~= a + seq![sep] + short);
        assert(whole.last() == line.last());
        let rest = text::pieces(a + seq![sep] + short, sep);
        assert(rest.drop_last() =~= text::pieces(a, sep));
        assert(short.push(line.last()) =~= line);
        assert(text::pieces(whole, sep) =~= text::pieces(a, sep).push(line));
    }
}

proof fn lemma_kept_before(
    lines: Seq<Seq<char>>,
    more: Seq<char>,
    format: DatasetFormat,
    n: int,
)
    requires
        0 <= n <= lines.len(),
    ensures
        dataset::kept_lines(lines.push(more), format, n) == dataset::kept_lines(lines, format, n),
    decreases n,
{
    if n > 0 {
        lemma_kept_before(lines, more, format, n - 1);
    }
}

/// A line more in the file is a line more to read, without the blanks around it; a blank one changes
/// nothing.
pub proof fn law_lines_are_read_in_turn(content: Seq<char>, line: Seq<char>, format: DatasetFormat)
    requires
        !line.contains('\n'),
        format != DatasetFormat::Auto,
    ensures
        ({
            let before = dataset::spec_lines(content, format);
            let after = dataset::spec_lines(content + seq!['\n'] + line, format);
            &&& text::trimmed(line).len() > 0 ==> after == before.push(
                dataset::LineView { format, text: text::trimmed(line) },
            )
            &&& text::trimmed(line).len() == 0 ==> after == before
        }),
{
    lemma_pieces_of_more(content, line, '\n');
    let lines = text::pieces(content, '\n');
    lemma_kept_before(lines, line, format, lines.len() as int);
}

} // verus!
