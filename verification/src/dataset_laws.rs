//! What holds of every dataset: how its lines are read, and what its windows keep of the samples.

use vstd::prelude::*;

use crate::dataset;
use crate::dataset::{DatasetFormat, EOS_TOKEN_ID, IGNORE_LABEL_ID, PAD_TOKEN_ID};
use crate::text;
use crate::tokenizer;

verus! {

// ---------- labels ----------

/// In every window, packed or not, every label is the token at its place or says that nothing is
/// learned there.
pub proof fn law_labels_are_tokens_or_ignored(
    v: tokenizer::Vocab,
    samples: Seq<dataset::SampleView>,
    max: int,
    pack: bool,
    k: int,
    i: int,
)
    requires
        max >= 0,
        0 <= k < dataset::spec_batches(v, samples, max, pack).len(),
        0 <= i < dataset::spec_batches(v, samples, max, pack)[k].labels.len(),
    ensures
        dataset::spec_batches(v, samples, max, pack)[k].labels.len() == dataset::spec_batches(
            v,
            samples,
            max,
            pack,
        )[k].input_ids.len(),
        dataset::spec_batches(v, samples, max, pack)[k].labels[i] == IGNORE_LABEL_ID
            || dataset::spec_batches(v, samples, max, pack)[k].labels[i] == dataset::spec_batches(
            v,
            samples,
            max,
            pack,
        )[k].input_ids[i],
{
    if pack {
        dataset::law_packed_windows_are_full(v, samples, max, k);
    } else {
        dataset::law_separate_windows_follow_samples(v, samples, max, k);
    }
}

// ---------- windows of their own ----------

/// How many tokens of a sample a window can hold.
pub open spec fn cut_len(t: dataset::Tokens, max: int) -> int {
    if t.ids.len() > max {
        max
    } else {
        t.ids.len() as int
    }
}

/// Without packing, a window is made of its own sample alone: its tokens up to the length of the
/// window, then padding that is not learned; positions and segments stand only for the tokens.
pub proof fn law_separate_window_of_a_sample(
    v: tokenizer::Vocab,
    samples: Seq<dataset::SampleView>,
    max: int,
    k: int,
)
    requires
        0 <= max <= u32::MAX,
        0 <= k < samples.len(),
    ensures
        ({
            let all = dataset::spec_batches(v, samples, max, false);
            let prompt = tokenizer::spec_encode(v, samples[k].prompt);
            let completion = tokenizer::spec_encode(v, samples[k].completion);
            let whole = prompt.len() + completion.len() + 1;
            let n: int = if whole <= max {
                whole as int
            } else {
                max
            };
            &&& all.len() == samples.len()
            &&& all[k].seq_lengths == seq![n as usize]
            &&& all[k].position_ids == Seq::new(n as nat, |i: int| i as u32)
            &&& all[k].segment_ids == Seq::new(n as nat, |i: int| 0u32)
            &&& all[k].input_ids.len() == max
            &&& all[k].labels.len() == max
            &&& forall|i: int|
                0 <= i < n ==> #[trigger] all[k].input_ids[i] == (if i < prompt.len() {
                    prompt[i]
                } else if i < prompt.len() + completion.len() {
                    completion[i - prompt.len()]
                } else {
                    EOS_TOKEN_ID
                })
            &&& forall|i: int|
                0 <= i < n ==> #[trigger] all[k].labels[i] == (if i < prompt.len() {
                    IGNORE_LABEL_ID
                } else {
                    all[k].input_ids[i] as i64
                })
            &&& forall|i: int|
                n <= i < max ==> #[trigger] all[k].input_ids[i] == PAD_TOKEN_ID
            &&& forall|i: int| n <= i < max ==> #[trigger] all[k].labels[i] == IGNORE_LABEL_ID
        }),
{
    let t = dataset::spec_tokens(v, samples[k]);
    let w = dataset::spec_single(t, max);
    let n = cut_len(t, max);
    assert(dataset::spec_batches(v, samples, max, false)[k] == w);
    assert(w.position_ids =~= Seq::new(n as nat, |i: int| i as u32));
    assert(w.segment_ids =~= Seq::new(n as nat, |i: int| 0u32));
    assert(w.seq_lengths =~= seq![n as usize]);
}

/// What a window without packing holds depends on its own sample alone.
pub proof fn law_separate_windows_are_independent(
    v: tokenizer::Vocab,
    a: Seq<dataset::SampleView>,
    b: Seq<dataset::SampleView>,
    max: int,
    i: int,
    j: int,
)
    requires
        0 <= i < a.len(),
        0 <= j < b.len(),
        a[i] == b[j],
    ensures
        dataset::spec_batches(v, a, max, false)[i] == dataset::spec_batches(v, b, max, false)[j],
{
}

// ---------- where a sample stands ----------

/// A sample cut to the length of a window.
pub open spec fn cut(t: dataset::Tokens, max: int) -> dataset::Tokens {
    dataset::Tokens { ids: t.ids.take(cut_len(t, max)), labels: t.labels.take(cut_len(t, max)) }
}

/// Whether a window holds these tokens with these labels, from a position on.
pub open spec fn stands_at(w: dataset::PackedView, at: int, t: dataset::Tokens) -> bool {
    &&& 0 <= at
    &&& at + t.ids.len() <= w.input_ids.len()
    &&& at + t.labels.len() <= w.labels.len()
    &&& w.input_ids.subrange(at, at + t.ids.len()) == t.ids
    &&& w.labels.subrange(at, at + t.labels.len()) == t.labels
}

/// Whether one of the windows holds these tokens with these labels.
pub open spec fn stands_in(windows: Seq<dataset::PackedView>, t: dataset::Tokens) -> bool {
    exists|k: int, at: int|
        #![trigger stands_at(windows[k], at, t)]
        0 <= k < windows.len() && stands_at(windows[k], at, t)
}

proof fn lemma_single_holds(t: dataset::Tokens, max: int)
    requires
        max >= 0,
        dataset::well_tokenized(t),
    ensures
        stands_at(dataset::spec_single(t, max), 0, cut(t, max)),
{
    let w = dataset::spec_single(t, max);
    let c = cut(t, max);
    assert(w.input_ids.subrange(0, c.ids.len() as int) =~= c.ids);
    assert(w.labels.subrange(0, c.labels.len() as int) =~= c.labels);
}

proof fn lemma_row_holds(open: Seq<dataset::Tokens>, j: int, n: int)
    requires
        0 <= j < n <= open.len(),
        dataset::all_well_tokenized(open),
    ensures
        stands_at(
            dataset::spec_row(open, n),
            dataset::spec_row(open, j).input_ids.len() as int,
            open[j],
        ),
    decreases n,
{
    let at = dataset::spec_row(open, j).input_ids.len() as int;
    let t = open[j];
    let w = dataset::spec_row(open, n);
    assert(dataset::well_tokenized(t));
    dataset::lemma_row_lengths(open, j);
    dataset::lemma_row_lengths(open, n - 1);
    if j < n - 1 {
        lemma_row_holds(open, j, n - 1);
        let before = dataset::spec_row(open, n - 1);
        assert(w.input_ids.subrange(at, at + t.ids.len()) =~= before.input_ids.subrange(
            at,
            at + t.ids.len(),
        ));
        assert(w.labels.subrange(at, at + t.labels.len()) =~= before.labels.subrange(
            at,
            at + t.labels.len(),
        ));
    } else {
        assert(w.input_ids.subrange(at, at + t.ids.len()) =~= t.ids);
        assert(w.labels.subrange(at, at + t.labels.len()) =~= t.labels);
    }
}

proof fn lemma_window_holds(open: Seq<dataset::Tokens>, j: int, max: int)
    requires
        0 <= j < open.len(),
        dataset::all_well_tokenized(open),
        dataset::row_len(open) <= max,
        open[j].ids.len() <= max,
    ensures
        exists|at: int|
            #[trigger] stands_at(dataset::spec_window(open, max), at, cut(open[j], max)),
{
    let n = open.len() as int;
    let t = open[j];
    let at = dataset::spec_row(open, j).input_ids.len() as int;
    lemma_row_holds(open, j, n);
    dataset::lemma_row_lengths(open, n);
    assert(dataset::well_tokenized(t));
    let row = dataset::spec_row(open, n);
    let w = dataset::spec_window(open, max);
    assert(cut(t, max).ids =~= t.ids);
    assert(cut(t, max).labels =~= t.labels);
    assert(w.input_ids.subrange(at, at + t.ids.len()) =~= row.input_ids.subrange(
        at,
        at + t.ids.len(),
    ));
    assert(w.labels.subrange(at, at + t.labels.len()) =~= row.labels.subrange(
        at,
        at + t.labels.len(),
    ));
    assert(stands_at(w, at, cut(t, max)));
}

/// Whether a sample stands in a closed window or waits in the open one.
spec fn placed(p: dataset::Packing, t: dataset::Tokens, max: int) -> bool {
    stands_in(p.done, cut(t, max)) || (t.ids.len() <= max && exists|j: int|
        0 <= j < p.open.len() && #[trigger] p.open[j] == t)
}

proof fn lemma_stands_in_longer(
    windows: Seq<dataset::PackedView>,
    more: dataset::PackedView,
    t: dataset::Tokens,
)
    requires
        stands_in(windows, t),
    ensures
        stands_in(windows.push(more), t),
{
    let (k, at) = choose|k: int, at: int|
        #![trigger stands_at(windows[k], at, t)]
        0 <= k < windows.len() && stands_at(windows[k], at, t);
    assert(stands_at(windows.push(more)[k], at, t));
}

proof fn lemma_stands_in_last(
    windows: Seq<dataset::PackedView>,
    last: dataset::PackedView,
    at: int,
    t: dataset::Tokens,
)
    requires
        stands_at(last, at, t),
    ensures
        stands_in(windows.push(last), t),
{
    assert(stands_at(windows.push(last)[windows.len() as int], at, t));
}

/// What waited in the open window stands in it when it is closed.
proof fn lemma_closed_holds(p: dataset::Packing, t: dataset::Tokens, max: int)
    requires
        placed(p, t, max),
        dataset::all_well_tokenized(p.open),
        dataset::row_len(p.open) <= max,
    ensures
        stands_in(p.done.push(dataset::spec_window(p.open, max)), cut(t, max)),
{
    let w = dataset::spec_window(p.open, max);
    if stands_in(p.done, cut(t, max)) {
        lemma_stands_in_longer(p.done, w, cut(t, max));
    } else {
        let j = choose|j: int| 0 <= j < p.open.len() && #[trigger] p.open[j] == t;
        lemma_window_holds(p.open, j, max);
        let at = choose|at: int| #[trigger] stands_at(w, at, cut(p.open[j], max));
        lemma_stands_in_last(p.done, w, at, cut(t, max));
    }
}

proof fn lemma_all_placed(tokens: Seq<dataset::Tokens>, max: int, n: int, i: int)
    requires
        0 <= i < n <= tokens.len(),
        max >= 0,
        dataset::all_well_tokenized(tokens),
    ensures
        placed(dataset::spec_pack(tokens, max, n), tokens[i], max),
    decreases n,
{
    let p = dataset::spec_pack(tokens, max, n - 1);
    let t = tokens[n - 1];
    let q = dataset::spec_add(p, t, max);
    assert(dataset::well_tokenized(t));
    dataset::lemma_pack_open(tokens, max, n - 1);
    if i < n - 1 {
        let mine = tokens[i];
        lemma_all_placed(tokens, max, n - 1, i);
        if t.ids.len() > max {
            if stands_in(p.done, cut(mine, max)) {
                lemma_stands_in_longer(p.done, dataset::spec_single(t, max), cut(mine, max));
            }
        } else if dataset::row_len(p.open) + t.ids.len() > max {
            lemma_closed_holds(p, mine, max);
        } else if !stands_in(p.done, cut(mine, max)) {
            let j = choose|j: int| 0 <= j < p.open.len() && #[trigger] p.open[j] == mine;
            assert(q.open[j] == mine);
        }
    } else if t.ids.len() > max {
        lemma_single_holds(t, max);
        lemma_stands_in_last(p.done, dataset::spec_single(t, max), 0, cut(t, max));
    } else {
        assert(q.open[q.open.len() - 1] == t);
    }
}

/// Every sample stands in a window, packed or not, token by token and label by label: the prompt
/// without labels, the completion with itself as labels, and the end token; cut to the length of
/// a window where it is longer.
pub proof fn law_every_sample_stands_in_a_window(
    v: tokenizer::Vocab,
    samples: Seq<dataset::SampleView>,
    max: int,
    pack: bool,
    i: int,
)
    requires
        max >= 0,
        0 <= i < samples.len(),
    ensures
        stands_in(
            dataset::spec_batches(v, samples, max, pack),
            cut(dataset::spec_tokens(v, samples[i]), max),
        ),
        dataset::spec_tokens(v, samples[i]).ids.len() <= max ==> cut(
            dataset::spec_tokens(v, samples[i]),
            max,
        ) == dataset::spec_tokens(v, samples[i]),
{
    let tokens = dataset::all_tokens(v, samples);
    assert forall|k: int| 0 <= k < tokens.len() implies dataset::well_tokenized(
        #[trigger] tokens[k],
    ) by {
        dataset::lemma_tokens_labels(v, samples[k]);
    }
    let t = tokens[i];
    assert(dataset::well_tokenized(t));
    if t.ids.len() <= max {
        assert(cut(t, max).ids =~= t.ids);
        assert(cut(t, max).labels =~= t.labels);
    }
    let all = dataset::spec_batches(v, samples, max, pack);
    if pack {
        let n = tokens.len() as int;
        lemma_all_placed(tokens, max, n, i);
        dataset::lemma_pack_open(tokens, max, n);
        let p = dataset::spec_pack(tokens, max, n);
        if p.open.len() > 0 {
            lemma_closed_holds(p, t, max);
        }
    } else {
        lemma_single_holds(t, max);
        assert(stands_at(all[i], 0, cut(t, max)));
    }
}

// ---------- lengths ----------

/// The lengths that the windows give, one window after the other.
pub open spec fn lengths(windows: Seq<dataset::PackedView>) -> Seq<usize>
    decreases windows.len(),
{
    if windows.len() == 0 {
        Seq::empty()
    } else {
        lengths(windows.drop_last()) + windows.last().seq_lengths
    }
}

/// The lengths of the samples, each cut to the length of a window.
pub open spec fn cut_lengths(tokens: Seq<dataset::Tokens>, max: int) -> Seq<usize> {
    Seq::new(tokens.len(), |i: int| cut_len(tokens[i], max) as usize)
}

proof fn lemma_lengths_of_longer(windows: Seq<dataset::PackedView>, more: dataset::PackedView)
    ensures
        lengths(windows.push(more)) == lengths(windows) + more.seq_lengths,
{
    assert(windows.push(more).drop_last() =~= windows);
}

proof fn lemma_row_of_one(t: dataset::Tokens)
    ensures
        dataset::spec_row(seq![t], 1).seq_lengths == seq![t.ids.len() as usize],
{
    reveal_with_fuel(dataset::spec_row, 2);
    assert(dataset::spec_row(seq![t], 1).seq_lengths =~= seq![t.ids.len() as usize]);
}

proof fn lemma_packed_lengths(tokens: Seq<dataset::Tokens>, max: int, n: int)
    requires
        0 <= n <= tokens.len(),
        max >= 0,
        dataset::all_well_tokenized(tokens),
    ensures
        ({
            let p = dataset::spec_pack(tokens, max, n);
            (lengths(p.done) + dataset::spec_row(p.open, p.open.len() as int).seq_lengths)
                .to_multiset() == cut_lengths(tokens, max).take(n).to_multiset()
        }),
    decreases n,
{
    broadcast use vstd::seq_lib::group_to_multiset_ensures;

    let all = cut_lengths(tokens, max);
    let p = dataset::spec_pack(tokens, max, n);
    let open = dataset::spec_row(p.open, p.open.len() as int).seq_lengths;
    if n == 0 {
        assert(lengths(p.done) + open =~= all.take(0));
    } else {
        lemma_packed_lengths(tokens, max, n - 1);
        let q = dataset::spec_pack(tokens, max, n - 1);
        let before = dataset::spec_row(q.open, q.open.len() as int).seq_lengths;
        let t = tokens[n - 1];
        let len = cut_len(t, max) as usize;
        assert(all.take(n) =~= all.take(n - 1).push(len));
        let old_lengths = lengths(q.done) + before;
        if t.ids.len() > max {
            lemma_lengths_of_longer(q.done, dataset::spec_single(t, max));
            vstd::seq_lib::lemma_multiset_commutative(lengths(q.done) + seq![len], before);
            vstd::seq_lib::lemma_multiset_commutative(lengths(q.done), before);
            assert(lengths(q.done) + seq![len] =~= lengths(q.done).push(len));
            assert((lengths(p.done) + open).to_multiset() =~= old_lengths.push(len).to_multiset());
        } else if dataset::row_len(q.open) + t.ids.len() > max {
            lemma_lengths_of_longer(q.done, dataset::spec_window(q.open, max));
            lemma_row_of_one(t);
            assert(lengths(p.done) + open =~= old_lengths.push(len));
        } else {
            dataset::lemma_row_prefix(q.open, q.open.push(t), q.open.len() as int);
            assert(lengths(p.done) + open =~= old_lengths.push(len));
        }
    }
}

proof fn lemma_separate_lengths(tokens: Seq<dataset::Tokens>, max: int)
    ensures
        lengths(Seq::new(tokens.len(), |i: int| dataset::spec_single(tokens[i], max)))
            == cut_lengths(tokens, max),
    decreases tokens.len(),
{
    let windows = Seq::new(tokens.len(), |i: int| dataset::spec_single(tokens[i], max));
    if tokens.len() > 0 {
        let short = tokens.drop_last();
        lemma_separate_lengths(short, max);
        assert(windows.drop_last() =~= Seq::new(
            short.len(),
            |i: int| dataset::spec_single(short[i], max),
        ));
        assert(lengths(windows) =~= cut_lengths(tokens, max));
    } else {
        assert(lengths(windows) =~= cut_lengths(tokens, max));
    }
}

/// Packed or not, the windows together hold the samples' lengths, each cut to the length of a
/// window: none is lost and none is counted twice.
pub proof fn law_windows_keep_the_lengths(
    v: tokenizer::Vocab,
    samples: Seq<dataset::SampleView>,
    max: int,
    pack: bool,
)
    requires
        max >= 0,
    ensures
        lengths(dataset::spec_batches(v, samples, max, pack)).to_multiset() == cut_lengths(
            dataset::all_tokens(v, samples),
            max,
        ).to_multiset(),
{
    let tokens = dataset::all_tokens(v, samples);
    assert forall|k: int| 0 <= k < tokens.len() implies dataset::well_tokenized(
        #[trigger] tokens[k],
    ) by {
        dataset::lemma_tokens_labels(v, samples[k]);
    }
    if pack {
        let n = tokens.len() as int;
        let p = dataset::spec_pack(tokens, max, n);
        lemma_packed_lengths(tokens, max, n);
        assert(cut_lengths(tokens, max).take(n) =~= cut_lengths(tokens, max));
        if p.open.len() > 0 {
            lemma_lengths_of_longer(p.done, dataset::spec_window(p.open, max));
        } else {
            assert(lengths(p.done) + dataset::spec_row(p.open, 0).seq_lengths =~= lengths(p.done));
        }
    } else {
        lemma_separate_lengths(tokens, max);
    }
}

// ---------- errors ----------

/// A dataset gives no windows exactly where it gives no samples, and then for the same reason:
/// samples once parsed can always be put into windows.
pub proof fn law_loading_fails_as_parsing_does(
    v: tokenizer::Vocab,
    outcomes: Seq<dataset::Outcome>,
    max: int,
    pack: bool,
)
    ensures
        dataset::spec_load(v, outcomes, max, pack) is Err <==> dataset::spec_samples(
            outcomes,
        ) is Err,
        dataset::spec_samples(outcomes) matches Err(e) ==> dataset::spec_load(
            v,
            outcomes,
            max,
            pack,
        ) == Err::<Seq<dataset::PackedView>, dataset::DatasetErrorView>(e),
{
}

// ---------- formats ----------

proof fn lemma_one_piece(s: Seq<char>, sep: char)
    requires
        !s.contains(sep),
    ensures
        text::pieces(s, sep) == seq![s],
    decreases s.len(),
{
    if s.len() > 0 {
        let short = s.drop_last();
        assert forall|i: int| 0 <= i < short.len() implies short[i] != sep by {
            assert(short[i] == s[i]);
        }
        assert(s.contains(s[s.len() - 1]));
        lemma_one_piece(short, sep);
        assert(short.push(s.last()) =~= s);
        assert(text::pieces(s, sep) =~= seq![s]);
    }
}

proof fn lemma_part_survives_trim_start(s: Seq<char>, part: Seq<char>)
    requires
        part.len() > 0,
        !text::is_whitespace(part[0]),
    ensures
        text::has_part(text::trim_start(s), part) == text::has_part(s, part),
    decreases s.len(),
{
    if s.len() > 0 && text::is_whitespace(s[0]) {
        let rest = s.drop_first();
        lemma_part_survives_trim_start(rest, part);
        if text::has_part(s, part) {
            let at = choose|at: int| text::occurs_at(s, part, at);
            assert(s.subrange(at, at + part.len())[0] == s[at]);
            assert(rest.subrange(at - 1, at - 1 + part.len()) =~= s.subrange(
                at,
                at + part.len(),
            ));
            assert(text::occurs_at(rest, part, at - 1));
        }
        if text::has_part(rest, part) {
            let at = choose|at: int| text::occurs_at(rest, part, at);
            assert(s.subrange(at + 1, at + 1 + part.len()) =~= rest.subrange(
                at,
                at + part.len(),
            ));
            assert(text::occurs_at(s, part, at + 1));
        }
    }
}

proof fn lemma_part_survives_trim_end(s: Seq<char>, part: Seq<char>)
    requires
        part.len() > 0,
        !text::is_whitespace(part.last()),
    ensures
        text::has_part(text::trim_end(s), part) == text::has_part(s, part),
    decreases s.len(),
{
    if s.len() > 0 && text::is_whitespace(s.last()) {
        let rest = s.drop_last();
        lemma_part_survives_trim_end(rest, part);
        if text::has_part(s, part) {
            let at = choose|at: int| text::occurs_at(s, part, at);
            assert(s.subrange(at, at + part.len())[part.len() - 1] == s[at + part.len() - 1]);
            assert(rest.subrange(at, at + part.len()) =~= s.subrange(at, at + part.len()));
            assert(text::occurs_at(rest, part, at));
        }
        if text::has_part(rest, part) {
            let at = choose|at: int| text::occurs_at(rest, part, at);
            assert(s.subrange(at, at + part.len()) =~= rest.subrange(at, at + part.len()));
            assert(text::occurs_at(s, part, at));
        }
    }
}

/// A single line of a dataset without a stated format is read as the format whose key it shows in
/// quotes: `messages` before `instruction`, and raw without either.
pub proof fn law_format_of_a_line(line: Seq<char>)
    requires
        !line.contains('\n'),
        text::trimmed(line).len() > 0,
    ensures
        dataset::spec_lines(line, DatasetFormat::Auto) == dataset::spec_lines(
            line,
            if text::has_part(line, "\"messages\""@) {
                DatasetFormat::ChatML
            } else if text::has_part(line, "\"instruction\""@) {
                DatasetFormat::Alpaca
            } else {
                DatasetFormat::RawJsonl
            },
        ),
        dataset::spec_lines(line, DatasetFormat::Auto).len() == 1,
{
    lemma_one_piece(line, '\n');
    reveal_with_fuel(dataset::kept_lines, 2);
    reveal_strlit("\"messages\"");
    reveal_strlit("\"instruction\"");
    let start = text::trim_start(line);
    assert("\"messages\""@[0] == '"' && "\"messages\""@.last() == '"');
    assert("\"instruction\""@[0] == '"' && "\"instruction\""@.last() == '"');
    lemma_part_survives_trim_start(line, "\"messages\""@);
    lemma_part_survives_trim_end(start, "\"messages\""@);
    lemma_part_survives_trim_start(line, "\"instruction\""@);
    lemma_part_survives_trim_end(start, "\"instruction\""@);
}

proof fn lemma_lines_differ_in_format(
    lines: Seq<Seq<char>>,
    a: DatasetFormat,
    b: DatasetFormat,
    n: int,
)
    requires
        0 <= n <= lines.len(),
    ensures
        dataset::kept_lines(lines, a, n).len() == dataset::kept_lines(lines, b, n).len(),
        forall|i: int|
            0 <= i < dataset::kept_lines(lines, a, n).len() ==> {
                &&& (#[trigger] dataset::kept_lines(lines, a, n)[i]).text == dataset::kept_lines(
                    lines,
                    b,
                    n,
                )[i].text
                &&& dataset::kept_lines(lines, a, n)[i].format == dataset::line_format(
                    dataset::kept_lines(lines, a, n)[i].text,
                    a,
                )
            },
    decreases n,
{
    if n > 0 {
        lemma_lines_differ_in_format(lines, a, b, n - 1);
    }
}

/// Whatever the format asked for, the same lines are read; without a stated format each line is
/// read as what it shows by itself, whatever the other lines are.
pub proof fn law_format_is_decided_line_by_line(content: Seq<char>, format: DatasetFormat, i: int)
    requires
        0 <= i < dataset::spec_lines(content, DatasetFormat::Auto).len(),
    ensures
        ({
            let auto = dataset::spec_lines(content, DatasetFormat::Auto);
            let asked = dataset::spec_lines(content, format);
            &&& asked.len() == auto.len()
            &&& asked[i].text == auto[i].text
            &&& format != DatasetFormat::Auto ==> asked[i].format == format
            &&& auto[i].format == dataset::line_format(auto[i].text, DatasetFormat::Auto)
        }),
{
    let lines = text::pieces(content, '\n');
    let n = lines.len() as int;
    lemma_lines_differ_in_format(lines, DatasetFormat::Auto, format, n);
    lemma_lines_differ_in_format(lines, format, DatasetFormat::Auto, n);
    assert(dataset::spec_lines(content, DatasetFormat::Auto)[i].text == dataset::spec_lines(
        content,
        format,
    )[i].text);
}

} // verus!
