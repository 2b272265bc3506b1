//! What packed windows are: where each sample begins and ends in them, what fills them up, and that no
//! window is closed early.

use vstd::prelude::*;

use crate::dataset;
use crate::tokenizer;

verus! {

/// How many tokens the first `j` samples of a window have.
pub open spec fn begin_of(lengths: Seq<usize>, j: int) -> int
    decreases j,
{
    if j <= 0 {
        0
    } else {
        begin_of(lengths, j - 1) + lengths[j - 1]
    }
}

/// How many tokens of a window belong to samples.
pub open spec fn used(w: dataset::PackedView) -> int {
    begin_of(w.seq_lengths, w.seq_lengths.len() as int)
}

proof fn lemma_begin_grows(lengths: Seq<usize>, a: int, b: int)
    requires
        0 <= a <= b,
    ensures
        0 <= begin_of(lengths, a) <= begin_of(lengths, b),
    decreases b,
{
    if a < b {
        lemma_begin_grows(lengths, a, b - 1);
    } else if a > 0 {
        lemma_begin_grows(lengths, a - 1, b - 1);
    }
}

proof fn lemma_begin_prefix(a: Seq<usize>, b: Seq<usize>, j: int)
    requires
        0 <= j <= a.len(),
        j <= b.len(),
        forall|i: int| 0 <= i < j ==> a[i] == b[i],
    ensures
        begin_of(a, j) == begin_of(b, j),
    decreases j,
{
    if j > 0 {
        lemma_begin_prefix(a, b, j - 1);
    }
}

/// Whether positions and segments of a row stand for its samples: in each sample the positions count
/// from zero, and all its tokens have its number in the window.
pub open spec fn sample_by_sample(w: dataset::PackedView) -> bool {
    forall|j: int, i: int|
        #![trigger begin_of(w.seq_lengths, j), w.position_ids[i]]
        0 <= j < w.seq_lengths.len() && begin_of(w.seq_lengths, j) <= i < begin_of(
            w.seq_lengths,
            j + 1,
        ) ==> w.position_ids[i] == (i - begin_of(w.seq_lengths, j)) as u32 && w.segment_ids[i]
            == j as u32
}

/// Whether what follows the samples of a window is padding that is not learned, in a segment behind
/// theirs.
pub open spec fn padded(w: dataset::PackedView, max: int) -> bool {
    forall|i: int|
        used(w) <= i < max ==> #[trigger] w.input_ids[i] == 0 && w.labels[i] == -100
            && w.position_ids[i] == 0 && w.segment_ids[i] == w.seq_lengths.len() as u32
}

/// A window whose rows are as long as it is, and whose samples stand one after the other from its
/// beginning.
pub open spec fn well_packed(w: dataset::PackedView, max: int) -> bool {
    &&& w.input_ids.len() == max
    &&& w.labels.len() == max
    &&& w.position_ids.len() == max
    &&& w.segment_ids.len() == max
    &&& w.seq_lengths.len() > 0
    &&& 0 <= used(w) <= max
    &&& sample_by_sample(w)
    &&& padded(w, max)
}

/// Whether lengths can be counted by the machine.
spec fn countable(s: Seq<dataset::Tokens>) -> bool {
    forall|i: int| 0 <= i < s.len() ==> (#[trigger] s[i]).ids.len() <= usize::MAX
}

proof fn lemma_row_by_sample(open: Seq<dataset::Tokens>, n: int)
    requires
        0 <= n <= open.len(),
        dataset::all_well_tokenized(open),
        countable(open),
    ensures
        sample_by_sample(dataset::spec_row(open, n)),
        used(dataset::spec_row(open, n)) == dataset::spec_row(open, n).input_ids.len(),
    decreases n,
{
    dataset::lemma_row_lengths(open, n);
    let w = dataset::spec_row(open, n);
    if n > 0 {
        lemma_row_by_sample(open, n - 1);
        dataset::lemma_row_lengths(open, n - 1);
        let before = dataset::spec_row(open, n - 1);
        let t = open[n - 1];
        assert(t.ids.len() <= usize::MAX);
        let lengths = w.seq_lengths;
        assert(lengths == before.seq_lengths.push(t.ids.len() as usize));
        lemma_begin_prefix(before.seq_lengths, lengths, n - 1);
        let at = begin_of(lengths, n - 1);
        assert(at == before.input_ids.len());
        assert forall|j: int, i: int|
            #![trigger begin_of(lengths, j), w.position_ids[i]]
            0 <= j < lengths.len() && begin_of(lengths, j) <= i < begin_of(
                lengths,
                j + 1,
            ) implies w.position_ids[i] == (i - begin_of(lengths, j)) as u32 && w.segment_ids[i]
            == j as u32 by {
            if j < n - 1 {
                lemma_begin_prefix(before.seq_lengths, lengths, j);
                lemma_begin_prefix(before.seq_lengths, lengths, j + 1);
                lemma_begin_grows(lengths, 0, j);
                lemma_begin_grows(lengths, j + 1, n - 1);
                assert(begin_of(before.seq_lengths, j) <= i);
                assert(before.position_ids[i] == w.position_ids[i]);
                assert(before.segment_ids[i] == w.segment_ids[i]);
            } else {
                assert(w.position_ids[i] == dataset::count_up(t.ids.len() as int)[i - at]);
                assert(w.segment_ids[i] == dataset::fill(t.ids.len() as int, (n - 1) as u32)[i - at]);
            }
        }
    }
}

proof fn lemma_window_well_packed(open: Seq<dataset::Tokens>, max: int)
    requires
        dataset::all_well_tokenized(open),
        countable(open),
        open.len() > 0,
        dataset::row_len(open) <= max,
    ensures
        well_packed(dataset::spec_window(open, max), max),
        used(dataset::spec_window(open, max)) == dataset::row_len(open),
{
    let n = open.len() as int;
    lemma_row_by_sample(open, n);
    dataset::lemma_row_lengths(open, n);
    let row = dataset::spec_row(open, n);
    let w = dataset::spec_window(open, max);
    let lengths = w.seq_lengths;
    assert forall|j: int, i: int|
        #![trigger begin_of(lengths, j), w.position_ids[i]]
        0 <= j < lengths.len() && begin_of(lengths, j) <= i < begin_of(
            lengths,
            j + 1,
        ) implies w.position_ids[i] == (i - begin_of(lengths, j)) as u32 && w.segment_ids[i]
        == j as u32 by {
        lemma_begin_grows(lengths, 0, j);
        lemma_begin_grows(lengths, j + 1, n);
        assert(begin_of(row.seq_lengths, j) <= i);
        assert(row.position_ids[i] == w.position_ids[i]);
        assert(row.segment_ids[i] == w.segment_ids[i]);
    }
}

proof fn lemma_single_well_packed(t: dataset::Tokens, max: int)
    requires
        dataset::well_tokenized(t),
        0 <= max < t.ids.len(),
        max <= usize::MAX,
    ensures
        well_packed(dataset::spec_single(t, max), max),
        used(dataset::spec_single(t, max)) == max,
{
    let w = dataset::spec_single(t, max);
    reveal_with_fuel(begin_of, 3);
    assert(w.seq_lengths[0] == max);
    assert forall|j: int, i: int|
        #![trigger begin_of(w.seq_lengths, j), w.position_ids[i]]
        0 <= j < w.seq_lengths.len() && begin_of(w.seq_lengths, j) <= i < begin_of(
            w.seq_lengths,
            j + 1,
        ) implies w.position_ids[i] == (i - begin_of(w.seq_lengths, j)) as u32 && w.segment_ids[i]
        == j as u32 by {
        assert(j == 0);
        assert(begin_of(w.seq_lengths, 1) == max);
    }
}

/// Whether every window but the last was closed because the next sample did not fit into it.
pub open spec fn no_room_left(windows: Seq<dataset::PackedView>, max: int) -> bool {
    forall|k: int, next: int|
        #![trigger windows[k], windows[next]]
        0 <= k && next == k + 1 && next < windows.len() ==> used(windows[k])
            + windows[next].seq_lengths[0] > max
}

proof fn lemma_no_room_in_longer(
    windows: Seq<dataset::PackedView>,
    more: dataset::PackedView,
    max: int,
)
    requires
        no_room_left(windows, max),
        windows.len() > 0 ==> used(windows.last()) + more.seq_lengths[0] > max,
    ensures
        no_room_left(windows.push(more), max),
{
    let all = windows.push(more);
    assert forall|k: int, next: int|
        #![trigger all[k], all[next]]
        0 <= k && next == k + 1 && next < all.len() implies used(all[k]) + all[next].seq_lengths[0]
        > max by {
        if next < windows.len() {
            assert(all[k] == windows[k] && all[next] == windows[next]);
        }
    }
}

proof fn lemma_packed(tokens: Seq<dataset::Tokens>, max: int, n: int)
    requires
        0 <= n <= tokens.len(),
        0 <= max <= usize::MAX,
        dataset::all_well_tokenized(tokens),
        countable(tokens),
    ensures
        ({
            let p = dataset::spec_pack(tokens, max, n);
            &&& countable(p.open)
            &&& forall|k: int| 0 <= k < p.done.len() ==> well_packed(#[trigger] p.done[k], max)
            &&& max >= 1 ==> no_room_left(p.done, max)
            &&& max >= 1 && p.open.len() > 0 && p.done.len() > 0 ==> used(p.done.last())
                + p.open[0].ids.len() > max
            &&& p.open.len() == 0 && p.done.len() > 0 ==> used(p.done.last()) == max
        }),
    decreases n,
{
    let p = dataset::spec_pack(tokens, max, n);
    if n > 0 {
        lemma_packed(tokens, max, n - 1);
        dataset::lemma_pack_open(tokens, max, n - 1);
        let q = dataset::spec_pack(tokens, max, n - 1);
        let t = tokens[n - 1];
        assert(dataset::well_tokenized(t));
        assert(t.ids.len() <= usize::MAX);
        if t.ids.len() > max {
            lemma_single_well_packed(t, max);
            let w = dataset::spec_single(t, max);
            assert(w.seq_lengths[0] == max);
            if q.done.len() > 0 {
                lemma_window_is_used(q.done.last(), tokens, max, n - 1);
            }
            if q.open.len() > 0 {
                assert(dataset::well_tokenized(q.open[0]));
            }
            if max >= 1 {
                lemma_no_room_in_longer(q.done, w, max);
            }
        } else if dataset::row_len(q.open) + t.ids.len() > max {
            assert(q.open.len() > 0) by {
                if q.open.len() == 0 {
                    assert(dataset::row_len(q.open) == 0);
                }
            }
            lemma_window_well_packed(q.open, max);
            lemma_first_length(q.open, q.open.len() as int);
            assert(q.open[0].ids.len() <= usize::MAX);
            if max >= 1 {
                lemma_no_room_in_longer(q.done, dataset::spec_window(q.open, max), max);
            }
        }
    } else {
        assert(p.done.len() == 0 && p.open.len() == 0);
    }
}

proof fn lemma_first_length(open: Seq<dataset::Tokens>, n: int)
    requires
        1 <= n <= open.len(),
    ensures
        dataset::spec_row(open, n).seq_lengths.len() == n,
        dataset::spec_row(open, n).seq_lengths[0] == open[0].ids.len() as usize,
    decreases n,
{
    if n > 1 {
        lemma_first_length(open, n - 1);
    } else {
        reveal_with_fuel(dataset::spec_row, 2);
    }
}

/// A closed window holds at least one token.
proof fn lemma_window_is_used(
    w: dataset::PackedView,
    tokens: Seq<dataset::Tokens>,
    max: int,
    n: int,
)
    requires
        0 <= n <= tokens.len(),
        0 <= max <= usize::MAX,
        dataset::all_well_tokenized(tokens),
        countable(tokens),
        dataset::spec_pack(tokens, max, n).done.len() > 0,
        w == dataset::spec_pack(tokens, max, n).done.last(),
    ensures
        max >= 1 ==> used(w) >= 1,
    decreases n,
{
    if n > 0 {
        dataset::lemma_pack_open(tokens, max, n - 1);
        lemma_packed_open_countable(tokens, max, n - 1);
        let q = dataset::spec_pack(tokens, max, n - 1);
        let t = tokens[n - 1];
        assert(dataset::well_tokenized(t));
        if t.ids.len() > max {
            lemma_single_well_packed(t, max);
        } else if dataset::row_len(q.open) + t.ids.len() > max {
            assert(q.open.len() > 0) by {
                if q.open.len() == 0 {
                    assert(dataset::row_len(q.open) == 0);
                }
            }
            lemma_window_well_packed(q.open, max);
            dataset::lemma_row_lengths(q.open, q.open.len() as int);
        } else {
            lemma_window_is_used(w, tokens, max, n - 1);
        }
    }
}

proof fn lemma_packed_open_countable(tokens: Seq<dataset::Tokens>, max: int, n: int)
    requires
        0 <= n <= tokens.len(),
        countable(tokens),
    ensures
        countable(dataset::spec_pack(tokens, max, n).open),
    decreases n,
{
    if n > 0 {
        lemma_packed_open_countable(tokens, max, n - 1);
        assert(tokens[n - 1].ids.len() <= usize::MAX);
    }
}

proof fn lemma_all_tokens(v: tokenizer::Vocab, samples: Seq<dataset::SampleView>)
    requires
        forall|i: int|
            0 <= i < samples.len() ==> tokenizer::spec_encode(v, (#[trigger] samples[i]).prompt).len()
                + tokenizer::spec_encode(v, samples[i].completion).len() < usize::MAX,
    ensures
        dataset::all_well_tokenized(dataset::all_tokens(v, samples)),
        countable(dataset::all_tokens(v, samples)),
{
    let tokens = dataset::all_tokens(v, samples);
    assert forall|k: int| 0 <= k < tokens.len() implies dataset::well_tokenized(
        #[trigger] tokens[k],
    ) && tokens[k].ids.len() <= usize::MAX by {
        dataset::lemma_tokens_labels(v, samples[k]);
        assert(tokens[k] == dataset::spec_tokens(v, samples[k]));
        assert(tokenizer::spec_encode(v, samples[k].prompt).len() + tokenizer::spec_encode(
            v,
            samples[k].completion,
        ).len() < usize::MAX);
    }
}

/// In every packed window the samples stand one after the other from its beginning: positions start
/// again with each, each has a segment of its own, and the rest is padding that is not learned. A
/// window is closed only where the next sample does not fit into it.
pub proof fn law_packed_windows_hold_samples_one_by_one(
    v: tokenizer::Vocab,
    samples: Seq<dataset::SampleView>,
    max: int,
    k: int,
)
    requires
        1 <= max <= usize::MAX,
        forall|i: int|
            0 <= i < samples.len() ==> tokenizer::spec_encode(v, (#[trigger] samples[i]).prompt).len()
                + tokenizer::spec_encode(v, samples[i].completion).len() < usize::MAX,
        0 <= k < dataset::spec_batches(v, samples, max, true).len(),
    ensures
        well_packed(dataset::spec_batches(v, samples, max, true)[k], max),
        k + 1 < dataset::spec_batches(v, samples, max, true).len() ==> used(
            dataset::spec_batches(v, samples, max, true)[k],
        ) + dataset::spec_batches(v, samples, max, true)[k + 1].seq_lengths[0] > max,
{
    let tokens = dataset::all_tokens(v, samples);
    let n = tokens.len() as int;
    lemma_all_tokens(v, samples);
    lemma_packed(tokens, max, n);
    dataset::lemma_pack_open(tokens, max, n);
    let p = dataset::spec_pack(tokens, max, n);
    if p.open.len() > 0 {
        lemma_window_well_packed(p.open, max);
        lemma_first_length(p.open, p.open.len() as int);
    }
}

// ---------- order ----------

/// The tokens of the samples that a window holds, one after the other.
pub open spec fn kept_ids(windows: Seq<dataset::PackedView>) -> Seq<u32>
    decreases windows.len(),
{
    if windows.len() == 0 {
        Seq::empty()
    } else {
        kept_ids(windows.drop_last()) + windows.last().input_ids.take(used(windows.last()))
    }
}

/// The tokens of samples, one after the other: prompt, completion and the end token of each.
pub open spec fn sample_ids(v: tokenizer::Vocab, samples: Seq<dataset::SampleView>) -> Seq<u32>
    decreases samples.len(),
{
    if samples.len() == 0 {
        Seq::empty()
    } else {
        sample_ids(v, samples.drop_last()) + (tokenizer::spec_encode(v, samples.last().prompt)
            + tokenizer::spec_encode(v, samples.last().completion) + seq![2u32])
    }
}

proof fn lemma_kept_of_longer(windows: Seq<dataset::PackedView>, more: dataset::PackedView)
    ensures
        kept_ids(windows.push(more)) == kept_ids(windows) + more.input_ids.take(used(more)),
{
    assert(windows.push(more).drop_last() =~= windows);
}

proof fn lemma_packed_in_order(
    v: tokenizer::Vocab,
    samples: Seq<dataset::SampleView>,
    max: int,
    n: int,
)
    requires
        0 <= n <= samples.len(),
        0 <= max <= usize::MAX,
        dataset::all_well_tokenized(dataset::all_tokens(v, samples)),
        countable(dataset::all_tokens(v, samples)),
        forall|i: int|
            0 <= i < samples.len() ==> (#[trigger] dataset::all_tokens(v, samples)[i]).ids.len() <= max,
    ensures
        ({
            let p = dataset::spec_pack(dataset::all_tokens(v, samples), max, n);
            kept_ids(p.done) + dataset::spec_row(p.open, p.open.len() as int).input_ids
                == sample_ids(v, samples.take(n))
        }),
    decreases n,
{
    let tokens = dataset::all_tokens(v, samples);
    let p = dataset::spec_pack(tokens, max, n);
    let row = dataset::spec_row(p.open, p.open.len() as int).input_ids;
    if n == 0 {
        assert(kept_ids(p.done) + row =~= sample_ids(v, samples.take(0)));
    } else {
        lemma_packed_in_order(v, samples, max, n - 1);
        lemma_packed_open_countable(tokens, max, n - 1);
        dataset::lemma_pack_open(tokens, max, n - 1);
        let q = dataset::spec_pack(tokens, max, n - 1);
        let before = dataset::spec_row(q.open, q.open.len() as int).input_ids;
        let t = tokens[n - 1];
        assert(t.ids.len() <= max);
        assert(samples.take(n).drop_last() =~= samples.take(n - 1));
        assert(samples.take(n).last() == samples[n - 1]);
        let whole = sample_ids(v, samples.take(n - 1));
        assert(sample_ids(v, samples.take(n)) == whole + t.ids);
        if dataset::row_len(q.open) + t.ids.len() > max {
            assert(q.open.len() > 0) by {
                if q.open.len() == 0 {
                    assert(dataset::row_len(q.open) == 0);
                }
            }
            let w = dataset::spec_window(q.open, max);
            lemma_window_well_packed(q.open, max);
            lemma_kept_of_longer(q.done, w);
            assert(w.input_ids.take(used(w)) =~= before);
            reveal_with_fuel(dataset::spec_row, 2);
            assert(row =~= t.ids);
            assert(kept_ids(p.done) + row =~= whole + t.ids);
        } else {
            dataset::lemma_row_prefix(q.open, q.open.push(t), q.open.len() as int);
            assert(row =~= before + t.ids);
            assert(kept_ids(p.done) + row =~= whole + t.ids);
        }
    }
}

/// Where every sample fits into a window, the packed windows without their padding read as the samples
/// in their order: the tokens of the prompt, those of the completion and the end token, then the next.
pub proof fn law_packed_windows_keep_the_order(
    v: tokenizer::Vocab,
    samples: Seq<dataset::SampleView>,
    max: int,
)
    requires
        0 <= max <= usize::MAX,
        forall|i: int|
            0 <= i < samples.len() ==> tokenizer::spec_encode(v, (#[trigger] samples[i]).prompt).len()
                + tokenizer::spec_encode(v, samples[i].completion).len() + 1 <= max,
    ensures
        kept_ids(dataset::spec_batches(v, samples, max, true)) == sample_ids(v, samples),
{
    let tokens = dataset::all_tokens(v, samples);
    let n = tokens.len() as int;
    lemma_all_tokens(v, samples);
    assert forall|i: int| 0 <= i < samples.len() implies (#[trigger] tokens[i]).ids.len() <= max by {
        assert(tokens[i] == dataset::spec_tokens(v, samples[i]));
        assert(tokenizer::spec_encode(v, samples[i].prompt).len() + tokenizer::spec_encode(
            v,
            samples[i].completion,
        ).len() + 1 <= max);
    }
    lemma_packed_in_order(v, samples, max, n);
    assert(samples.take(n) =~= samples);
    let p = dataset::spec_pack(tokens, max, n);
    let row = dataset::spec_row(p.open, p.open.len() as int).input_ids;
    if p.open.len() > 0 {
        lemma_packed_open_countable(tokens, max, n);
        dataset::lemma_pack_open(tokens, max, n);
        let w = dataset::spec_window(p.open, max);
        lemma_window_well_packed(p.open, max);
        lemma_kept_of_longer(p.done, w);
        assert(w.input_ids.take(used(w)) =~= row);
    } else {
        assert(kept_ids(p.done) + row =~= kept_ids(p.done));
    }
}

} // verus!
