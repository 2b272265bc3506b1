//! Variants of a model by the list of files of its repository.

use vstd::prelude::*;
use vstd::utf8::*;

use crate::hub;
use crate::hub::{
    ScannedGgufFile, VariantEntry, VariantsAnswer, DEFAULT_CONTEXT_LENGTH, RECOMMENDED_LIMIT_BYTES,
};
use crate::names;
use crate::names::{extract_quant_from_path, file_matches_repo_and_quant, is_auxiliary_gguf_file};
use crate::text;

verus! {

/// One entry of the list of files of a repository.
#[derive(Debug)]
pub struct TreeItem {
    /// `file`, `directory`...
    pub entry_type: String,
    pub path: String,
    pub size: Option<u64>,
    /// The size of a large file, which is stored elsewhere.
    pub lfs_size: Option<u64>,
    /// Whether the models' folder has this path, or this file's name.
    pub on_disk: bool,
}

/// A file with weights of the model.
#[verifier::ext_equal]
pub struct Shard {
    pub path: Seq<char>,
    pub size: u64,
    pub on_disk: bool,
}

#[verifier::ext_equal]
pub struct ItemView {
    pub entry_type: Seq<char>,
    pub path: Seq<char>,
    pub size: Option<u64>,
    pub lfs_size: Option<u64>,
    pub on_disk: bool,
}

impl View for TreeItem {
    type V = ItemView;

    open spec fn view(&self) -> ItemView {
        ItemView {
            entry_type: self.entry_type@,
            path: self.path@,
            size: self.size,
            lfs_size: self.lfs_size,
            on_disk: self.on_disk,
        }
    }
}

pub open spec fn items_view(s: Seq<TreeItem>) -> Seq<ItemView> {
    Seq::new(s.len(), |i: int| s[i]@)
}

pub open spec fn item_size(i: ItemView) -> u64 {
    match i.lfs_size {
        Some(n) => n,
        None => match i.size {
            Some(n) => n,
            None => 0,
        },
    }
}

pub open spec fn is_projector(i: ItemView) -> bool {
    i.entry_type == "file"@ && text::has_part(text::lowered(i.path), "mmproj"@)
}

/// Whether an entry is a file with weights of the model itself.
pub open spec fn is_shard(i: ItemView) -> bool {
    i.entry_type == "file"@ && !is_projector(i) && !names::spec_auxiliary(i.path)
        && text::has_suffix(i.path, ".gguf"@)
}

/// The files with weights among the first `n` entries.
pub open spec fn shards(items: Seq<ItemView>, n: int) -> Seq<Shard>
    decreases n,
{
    if n <= 0 {
        Seq::empty()
    } else {
        let before = shards(items, n - 1);
        let i = items[n - 1];
        if is_shard(i) {
            before.push(Shard { path: i.path, size: item_size(i), on_disk: i.on_disk })
        } else {
            before
        }
    }
}

pub open spec fn any_projector(items: Seq<ItemView>) -> bool {
    exists|k: int| 0 <= k < items.len() && is_projector(#[trigger] items[k])
}

/// The files of a quantization among the first `n`, in the order of the list.
pub open spec fn shards_of(all: Seq<Shard>, quant: Seq<char>, n: int) -> Seq<Shard>
    decreases n,
{
    if n <= 0 {
        Seq::empty()
    } else {
        let before = shards_of(all, quant, n - 1);
        if names::spec_quant(all[n - 1].path) == quant {
            before.push(all[n - 1])
        } else {
            before
        }
    }
}

pub open spec fn size_sum(all: Seq<Shard>, n: int) -> int
    decreases n,
{
    if n <= 0 {
        0
    } else {
        size_sum(all, n - 1) + all[n - 1].size
    }
}

/// The sizes of the files of each quantization add up within 64 bits.
pub open spec fn groups_fit(all: Seq<Shard>) -> bool {
    forall|quant: Seq<char>|
        size_sum(
            #[trigger] shards_of(all, quant, all.len() as int),
            shards_of(all, quant, all.len() as int).len() as int,
        ) <= u64::MAX
}

/// The place of a quantization in the list: balanced ones first.
pub open spec fn score(k: Seq<char>) -> int {
    if k == "Q4_K_M"@ || k == "UD-Q4_K_XL"@ {
        0
    } else if k == "UD-IQ4_XS"@ || k == "Q4_K_S"@ || k == "Q4_0"@ || k == "IQ4_NL"@ || k
        == "IQ4_XS"@ {
        1
    } else if k == "Q5_K_M"@ || k == "UD-Q5_K_XL"@ || k == "Q5_K_S"@ || k == "Q5_0"@ {
        2
    } else if k == "Q8_0"@ || k == "UD-Q8_K_XL"@ {
        3
    } else if text::has_prefix(k, "Q3_"@) || text::has_prefix(k, "UD-Q3_"@) || text::has_prefix(
        k,
        "IQ3_"@,
    ) {
        4
    } else if text::has_prefix(k, "Q6_"@) || text::has_prefix(k, "UD-Q6_"@) {
        5
    } else if text::has_prefix(k, "Q2_"@) || text::has_prefix(k, "UD-Q2_"@) || text::has_prefix(
        k,
        "IQ2_"@,
    ) {
        6
    } else if text::has_prefix(k, "IQ1_"@) || text::has_prefix(k, "UD-IQ1_"@) {
        7
    } else if k == "BF16"@ || k == "F16"@ || k == "FP16"@ {
        8
    } else {
        10
    }
}

fn score_of(k: &str) -> (r: u32)
    ensures
        r == score(k@),
{
    if text::same(k, "Q4_K_M") || text::same(k, "UD-Q4_K_XL") {
        0
    } else if text::same(k, "UD-IQ4_XS") || text::same(k, "Q4_K_S") || text::same(k, "Q4_0")
        || text::same(k, "IQ4_NL") || text::same(k, "IQ4_XS") {
        1
    } else if text::same(k, "Q5_K_M") || text::same(k, "UD-Q5_K_XL") || text::same(k, "Q5_K_S")
        || text::same(k, "Q5_0") {
        2
    } else if text::same(k, "Q8_0") || text::same(k, "UD-Q8_K_XL") {
        3
    } else if text::starts_with(k, "Q3_") || text::starts_with(k, "UD-Q3_") || text::starts_with(
        k,
        "IQ3_",
    ) {
        4
    } else if text::starts_with(k, "Q6_") || text::starts_with(k, "UD-Q6_") {
        5
    } else if text::starts_with(k, "Q2_") || text::starts_with(k, "UD-Q2_") || text::starts_with(
        k,
        "IQ2_",
    ) {
        6
    } else if text::starts_with(k, "IQ1_") || text::starts_with(k, "UD-IQ1_") {
        7
    } else if text::same(k, "BF16") || text::same(k, "F16") || text::same(k, "FP16") {
        8
    } else {
        10
    }
}

/// The order of quantizations in the list.
pub open spec fn quant_before(a: Seq<char>, b: Seq<char>) -> bool {
    score(a) < score(b) || (score(a) == score(b) && text::before(a, b))
}

pub open spec fn quants_sorted(quants: Seq<Seq<char>>) -> bool {
    forall|i: int, j: int|
        0 <= i < j < quants.len() ==> quant_before(#[trigger] quants[i], #[trigger] quants[j])
}

pub open spec fn quant_used(all: Seq<Shard>, quant: Seq<char>, n: int) -> bool {
    exists|k: int| 0 <= k < n && names::spec_quant((#[trigger] all[k]).path) == quant
}

/// The quantizations of the first `n` files, each once, in the order of the list.
pub open spec fn quants_ok(quants: Seq<Seq<char>>, all: Seq<Shard>, n: int) -> bool {
    &&& quants_sorted(quants)
    &&& forall|i: int| 0 <= i < quants.len() ==> quant_used(all, #[trigger] quants[i], n)
    &&& forall|k: int|
        0 <= k < n ==> quants.contains(names::spec_quant((#[trigger] all[k]).path))
}

/// Whether a file on disk has the name of this one.
pub open spec fn on_disk_as(f: hub::ScannedView, s: Shard) -> bool {
    hub::like(f.filename, s.path) || hub::like(f.filename, text::last_piece(s.path, '/'))
        || s.on_disk
}

pub open spec fn shard_found(files: Seq<hub::ScannedView>, s: Shard) -> bool {
    exists|i: int| 0 <= i < files.len() && on_disk_as(#[trigger] files[i], s)
}

/// Whether a file on disk has the name of one of these, or belongs to the variant by its name.
pub open spec fn file_of_variant(
    f: hub::ScannedView,
    group: Seq<Shard>,
    repo_id: Seq<char>,
    quant: Seq<char>,
) -> bool {
    ||| exists|k: int|
        0 <= k < group.len() && hub::like(
            f.filename,
            text::last_piece((#[trigger] group[k]).path, '/'),
        )
    ||| names::spec_file_matches(f.filename, repo_id, quant)
}

/// Whether a variant is on disk: all of its files are, or a file that belongs to it is.
pub open spec fn variant_downloaded(
    group: Seq<Shard>,
    files: Seq<hub::ScannedView>,
    repo_id: Seq<char>,
    quant: Seq<char>,
) -> bool {
    ||| forall|k: int| 0 <= k < group.len() ==> shard_found(files, #[trigger] group[k])
    ||| exists|i: int|
        0 <= i < files.len() && file_of_variant(#[trigger] files[i], group, repo_id, quant)
}

pub open spec fn shard_paths(group: Seq<Shard>) -> Seq<Seq<char>> {
    Seq::new(group.len(), |i: int| group[i].path)
}

/// The variant that the files of a quantization make.
pub open spec fn tree_variant(
    quant: Seq<char>,
    all: Seq<Shard>,
    files: Seq<hub::ScannedView>,
    repo_id: Seq<char>,
) -> hub::VariantView {
    let group = shards_of(all, quant, all.len() as int);
    let total = size_sum(group, group.len() as int);
    let downloaded = variant_downloaded(group, files, repo_id, quant);
    hub::VariantView {
        filename: group[0].path,
        files: shard_paths(group),
        quant,
        label: if downloaded {
            quant + " (Downloaded)"@
        } else if 0 < total <= RECOMMENDED_LIMIT_BYTES {
            quant + " (Recommended)"@
        } else {
            quant
        },
        size_bytes: total as u64,
        shard_count: Some(group.len() as u64),
        downloaded,
    }
}

/// Quantizations that are preferred as default, best first.
pub open spec fn preferred(i: int) -> Seq<char> {
    if i == 0 {
        "Q4_K_M"@
    } else if i == 1 {
        "UD-Q4_K_XL"@
    } else if i == 2 {
        "UD-IQ4_XS"@
    } else if i == 3 {
        "Q4_K_S"@
    } else if i == 4 {
        "Q4_0"@
    } else if i == 5 {
        "Q5_K_M"@
    } else if i == 6 {
        "UD-Q5_K_XL"@
    } else {
        "Q8_0"@
    }
}

/// The first preferred quantization from `i` on that there is; else the first of the list.
pub open spec fn tree_default(quants: Seq<Seq<char>>, i: int) -> Seq<char>
    decreases 8 - i,
{
    if i >= 8 {
        quants[0]
    } else if quants.contains(preferred(i)) {
        preferred(i)
    } else {
        tree_default(quants, i + 1)
    }
}

/// What the list of files of a repository is answered with; nothing if it has no weights.
pub open spec fn tree_ok(
    answer: Option<hub::AnswerView>,
    repo_id: Seq<char>,
    items: Seq<ItemView>,
    files: Seq<hub::ScannedView>,
) -> bool {
    let all = shards(items, items.len() as int);
    match answer {
        None => all.len() == 0,
        Some(a) => {
            &&& all.len() > 0
            &&& a.repo_id == repo_id
            &&& a.has_vision == any_projector(items)
            &&& a.context_length == DEFAULT_CONTEXT_LENGTH
            &&& a.resolved_locally == (hub::first_downloaded(a.variants, 0) is Some)
            &&& exists|quants: Seq<Seq<char>>|
                #![trigger quants_ok(quants, all, all.len() as int)]
                {
                    &&& quants_ok(quants, all, all.len() as int)
                    &&& a.default_variant == tree_default(quants, 0)
                    &&& a.variants.len() == quants.len()
                    &&& forall|i: int|
                        0 <= i < quants.len() ==> #[trigger] a.variants[i] == tree_variant(
                            quants[i],
                            all,
                            files,
                            repo_id,
                        )
                }
        },
    }
}

/// A file with weights of the model.
struct Weights {
    path: String,
    size: u64,
    on_disk: bool,
    quant: String,
}

spec fn weights_view(s: Seq<Weights>) -> Seq<Shard> {
    Seq::new(
        s.len(),
        |i: int| Shard { path: s[i].path@, size: s[i].size, on_disk: s[i].on_disk },
    )
}

spec fn weights_ok(s: Seq<Weights>) -> bool {
    forall|i: int| 0 <= i < s.len() ==> (#[trigger] s[i]).quant@ == names::spec_quant(s[i].path@)
}

fn collect_weights(items: &Vec<TreeItem>) -> (r: (Vec<Weights>, bool))
    ensures
        weights_view(r.0@) == shards(items_view(items@), items@.len() as int),
        weights_ok(r.0@),
        r.1 == any_projector(items_view(items@)),
{
    let ghost view = items_view(items@);
    let mut out: Vec<Weights> = Vec::new();
    let mut vision = false;
    let mut i: usize = 0;
    assert(weights_view(out@) =~= Seq::<Shard>::empty());
    while i < items.len()
        invariant
            i <= items@.len(),
            view == items_view(items@),
            weights_view(out@) == shards(view, i as int),
            weights_ok(out@),
            vision == exists|k: int| 0 <= k < i && is_projector(#[trigger] view[k]),
        decreases items@.len() - i,
    {
        let item = &items[i];
        assert(view[i as int] == item@);
        if text::same(item.entry_type.as_str(), "file") {
            let lower = text::to_lowercase(item.path.as_str());
            if text::contains(lower.as_str(), "mmproj") {
                vision = true;
                assert(is_projector(view[i as int]));
            } else if !is_auxiliary_gguf_file(item.path.as_str()) && text::ends_with(
                item.path.as_str(),
                ".gguf",
            ) {
                let size: u64 = match item.lfs_size {
                    Some(n) => n,
                    None => match item.size {
                        Some(n) => n,
                        None => 0,
                    },
                };
                let ghost before = weights_view(out@);
                let quant = extract_quant_from_path(item.path.as_str());
                let w = Weights { path: item.path.clone(), size, on_disk: item.on_disk, quant };
                let ghost seen = Shard { path: w.path@, size: w.size, on_disk: w.on_disk };
                out.push(w);
                assert(weights_view(out@) =~= before.push(seen));
            }
        }
        i += 1;
    }
    (out, vision)
}

proof fn lemma_quant_order(a: Seq<char>, b: Seq<char>)
    ensures
        quant_before(a, b) || quant_before(b, a) || a == b,
        !(quant_before(a, b) && quant_before(b, a)),
{
    text::lemma_before_is_total(a, b);
}

proof fn lemma_quant_order_transitive(a: Seq<char>, b: Seq<char>, c: Seq<char>)
    requires
        quant_before(a, b),
        quant_before(b, c),
    ensures
        quant_before(a, c),
{
    if score(a) == score(b) && score(b) == score(c) {
        text::lemma_before_is_transitive(a, b, c);
    }
}

fn stands_before(a: &str, b: &str) -> (r: bool)
    ensures
        r == quant_before(a@, b@),
{
    let x = score_of(a);
    let y = score_of(b);
    x < y || (x == y && text::comes_before(a, b))
}

/// Puts a quantization into the list unless it is there already.
fn add_quant(quants: &mut Vec<String>, quant: &String)
    requires
        quants_sorted(text::views(old(quants)@)),
    ensures
        quants_sorted(text::views(final(quants)@)),
        forall|q: Seq<char>|
            text::views(final(quants)@).contains(q) <==> text::views(old(quants)@).contains(q) || q
                == quant@,
{
    let ghost before = text::views(quants@);
    let mut at: usize = 0;
    while at < quants.len() && stands_before(quants[at].as_str(), quant.as_str())
        invariant
            at <= quants@.len(),
            before == text::views(quants@),
            quants@ == old(quants)@,
            forall|k: int| 0 <= k < at ==> quant_before(#[trigger] before[k], quant@),
        decreases quants@.len() - at,
    {
        assert(before[at as int] == quants@[at as int]@);
        at += 1;
    }
    if at < quants.len() && quants[at] == *quant {
        assert(before[at as int] == quant@);
        return;
    }
    quants.insert(at, quant.clone());
    proof {
        let after = text::views(quants@);
        assert(after =~= before.insert(at as int, quant@));
        if at < before.len() {
            lemma_quant_order(before[at as int], quant@);
        }
        assert forall|i: int, j: int| 0 <= i < j < after.len() implies quant_before(
            #[trigger] after[i],
            #[trigger] after[j],
        ) by {
            let x = if i < at {
                i
            } else {
                i - 1
            };
            let y = if j < at {
                j
            } else {
                j - 1
            };
            if i != at && j != at {
                assert(quant_before(before[x], before[y]));
            } else if i == at {
                assert(after[j] == before[y]);
                if y > at {
                    assert(quant_before(before[at as int], before[y]));
                    lemma_quant_order_transitive(quant@, before[at as int], before[y]);
                }
            } else {
                assert(after[i] == before[i]);
            }
        }
        assert forall|q: Seq<char>| after.contains(q) <==> before.contains(q) || q == quant@ by {
            if before.contains(q) {
                let k = choose|k: int| 0 <= k < before.len() && before[k] == q;
                if k < at {
                    assert(after[k] == q);
                } else {
                    assert(after[k + 1] == q);
                }
            }
            if q == quant@ {
                assert(after[at as int] == q);
            }
            if after.contains(q) && q != quant@ {
                let k = choose|k: int| 0 <= k < after.len() && after[k] == q;
                if k < at {
                    assert(before[k] == q);
                } else {
                    assert(before[k - 1] == q);
                }
            }
        }
    }
}

/// The quantizations of the files, each once, in the order of the list.
fn list_quants(all: &Vec<Weights>) -> (r: Vec<String>)
    requires
        weights_ok(all@),
    ensures
        quants_ok(text::views(r@), weights_view(all@), all@.len() as int),
{
    let ghost view = weights_view(all@);
    let mut quants: Vec<String> = Vec::new();
    let mut i: usize = 0;
    while i < all.len()
        invariant
            i <= all@.len(),
            weights_ok(all@),
            view == weights_view(all@),
            quants_ok(text::views(quants@), view, i as int),
        decreases all@.len() - i,
    {
        let ghost before = text::views(quants@);
        assert(view[i as int].path == all@[i as int].path@);
        add_quant(&mut quants, &all[i].quant);
        proof {
            let after = text::views(quants@);
            assert forall|k: int| 0 <= k < after.len() implies quant_used(
                view,
                #[trigger] after[k],
                i + 1,
            ) by {
                assert(after.contains(after[k]));
                if after[k] == all@[i as int].quant@ {
                    assert(names::spec_quant(view[i as int].path) == after[k]);
                } else {
                    assert(before.contains(after[k]));
                    let m = choose|m: int| 0 <= m < before.len() && before[m] == after[k];
                    assert(quant_used(view, before[m], i as int));
                    let q = choose|q: int|
                        0 <= q < i && names::spec_quant((#[trigger] view[q]).path) == before[m];
                    assert(names::spec_quant(view[q].path) == after[k]);
                }
            }
        }
        i += 1;
    }
    quants
}

proof fn lemma_size_sum_grows(all: Seq<Shard>, k: int, n: int)
    requires
        0 <= k <= n,
    ensures
        0 <= size_sum(all, k) <= size_sum(all, n),
    decreases n,
{
    if n > 0 {
        if k < n {
            lemma_size_sum_grows(all, k, n - 1);
        } else {
            lemma_size_sum_grows(all, k - 1, n - 1);
        }
    }
}

proof fn lemma_group_nonempty(all: Seq<Shard>, quant: Seq<char>, k: int, n: int)
    requires
        0 <= k < n <= all.len(),
        names::spec_quant(all[k].path) == quant,
    ensures
        shards_of(all, quant, n).len() > 0,
    decreases n,
{
    if k < n - 1 {
        lemma_group_nonempty(all, quant, k, n - 1);
    }
}

/// The files of a quantization.
fn pick_group(all: &Vec<Weights>, quant: &String) -> (r: Vec<Weights>)
    requires
        weights_ok(all@),
    ensures
        weights_view(r@) == shards_of(weights_view(all@), quant@, all@.len() as int),
{
    let ghost view = weights_view(all@);
    let mut out: Vec<Weights> = Vec::new();
    let mut i: usize = 0;
    assert(weights_view(out@) =~= Seq::<Shard>::empty());
    while i < all.len()
        invariant
            i <= all@.len(),
            weights_ok(all@),
            view == weights_view(all@),
            weights_view(out@) == shards_of(view, quant@, i as int),
        decreases all@.len() - i,
    {
        assert(view[i as int].path == all@[i as int].path@);
        if all[i].quant == *quant {
            let ghost before = weights_view(out@);
            let w = Weights {
                path: all[i].path.clone(),
                size: all[i].size,
                on_disk: all[i].on_disk,
                quant: all[i].quant.clone(),
            };
            out.push(w);
            assert(weights_view(out@) =~= before.push(view[i as int]));
        }
        i += 1;
    }
    out
}

fn is_shard_found(files: &Vec<ScannedGgufFile>, w: &Weights) -> (r: bool)
    ensures
        r == shard_found(
            hub::scanned_view(files@),
            (Shard { path: w.path@, size: w.size, on_disk: w.on_disk }),
        ),
{
    let ghost view = hub::scanned_view(files@);
    let ghost s = Shard { path: w.path@, size: w.size, on_disk: w.on_disk };
    let name = text::after_last(w.path.as_str(), '/');
    let mut i: usize = 0;
    while i < files.len()
        invariant
            i <= files@.len(),
            view == hub::scanned_view(files@),
            s == (Shard { path: w.path@, size: w.size, on_disk: w.on_disk }),
            name@ == text::last_piece(w.path@, '/'),
            forall|k: int| 0 <= k < i ==> !on_disk_as(#[trigger] view[k], s),
        decreases files@.len() - i,
    {
        assert(view[i as int].filename == files@[i as int].filename@);
        if text::same_ignoring_case(files[i].filename.as_str(), w.path.as_str())
            || text::same_ignoring_case(files[i].filename.as_str(), name.as_str()) || w.on_disk {
            assert(on_disk_as(view[i as int], s));
            return true;
        }
        i += 1;
    }
    false
}

fn is_file_of_variant(f: &ScannedGgufFile, group: &Vec<Weights>, repo_id: &str, quant: &str) -> (r:
    bool)
    ensures
        r == file_of_variant(f@, weights_view(group@), repo_id@, quant@),
{
    let ghost view = weights_view(group@);
    let mut k: usize = 0;
    while k < group.len()
        invariant
            k <= group@.len(),
            view == weights_view(group@),
            forall|j: int|
                0 <= j < k ==> !hub::like(
                    f.filename@,
                    text::last_piece((#[trigger] view[j]).path, '/'),
                ),
        decreases group@.len() - k,
    {
        assert(view[k as int].path == group@[k as int].path@);
        let name = text::after_last(group[k].path.as_str(), '/');
        if text::same_ignoring_case(f.filename.as_str(), name.as_str()) {
            return true;
        }
        k += 1;
    }
    file_matches_repo_and_quant(f.filename.as_str(), repo_id, quant)
}

fn all_found(group: &Vec<Weights>, files: &Vec<ScannedGgufFile>) -> (r: bool)
    ensures
        r == forall|k: int|
            0 <= k < group@.len() ==> shard_found(
                hub::scanned_view(files@),
                #[trigger] weights_view(group@)[k],
            ),
{
    let ghost view = weights_view(group@);
    let mut k: usize = 0;
    while k < group.len()
        invariant
            k <= group@.len(),
            view == weights_view(group@),
            forall|j: int|
                0 <= j < k ==> shard_found(hub::scanned_view(files@), #[trigger] view[j]),
        decreases group@.len() - k,
    {
        if !is_shard_found(files, &group[k]) {
            assert(!shard_found(hub::scanned_view(files@), view[k as int]));
            return false;
        }
        assert(shard_found(hub::scanned_view(files@), view[k as int]));
        k += 1;
    }
    true
}

fn any_of_variant(
    group: &Vec<Weights>,
    files: &Vec<ScannedGgufFile>,
    repo_id: &str,
    quant: &str,
) -> (r: bool)
    ensures
        r == exists|i: int|
            0 <= i < files@.len() && file_of_variant(
                #[trigger] hub::scanned_view(files@)[i],
                weights_view(group@),
                repo_id@,
                quant@,
            ),
{
    let ghost view = hub::scanned_view(files@);
    let mut i: usize = 0;
    while i < files.len()
        invariant
            i <= files@.len(),
            view == hub::scanned_view(files@),
            forall|j: int|
                0 <= j < i ==> !file_of_variant(
                    #[trigger] view[j],
                    weights_view(group@),
                    repo_id@,
                    quant@,
                ),
        decreases files@.len() - i,
    {
        assert(view[i as int] == files@[i as int]@);
        if is_file_of_variant(&files[i], group, repo_id, quant) {
            return true;
        }
        i += 1;
    }
    false
}

/// The variant that the files of a quantization make.
fn make_variant(
    quant: &String,
    all: &Vec<Weights>,
    files: &Vec<ScannedGgufFile>,
    repo_id: &str,
) -> (r: VariantEntry)
    requires
        weights_ok(all@),
        quant_used(weights_view(all@), quant@, all@.len() as int),
        groups_fit(weights_view(all@)),
    ensures
        r@ == tree_variant(
            quant@,
            weights_view(all@),
            hub::scanned_view(files@),
            repo_id@,
        ),
{
    let ghost view = weights_view(all@);
    let group = pick_group(all, quant);
    let ghost gv = weights_view(group@);
    proof {
        let k = choose|k: int|
            0 <= k < all@.len() && names::spec_quant((#[trigger] view[k]).path) == quant@;
        lemma_group_nonempty(view, quant@, k, all@.len() as int);
    }
    let mut paths: Vec<String> = Vec::new();
    let mut total: u64 = 0;
    let mut i: usize = 0;
    while i < group.len()
        invariant
            i <= group@.len(),
            gv == weights_view(group@),
            size_sum(gv, gv.len() as int) <= u64::MAX,
            total == size_sum(gv, i as int),
            paths@.len() == i,
            forall|k: int| 0 <= k < i ==> (#[trigger] paths@[k])@ == gv[k].path,
        decreases group@.len() - i,
    {
        proof {
            lemma_size_sum_grows(gv, i + 1, gv.len() as int);
        }
        assert(gv[i as int].size == group@[i as int].size);
        total = total + group[i].size;
        paths.push(group[i].path.clone());
        i += 1;
    }
    let downloaded = all_found(&group, files) || any_of_variant(
        &group,
        files,
        repo_id,
        quant.as_str(),
    );
    let display_label = if downloaded {
        text::join2(quant.as_str(), " (Downloaded)")
    } else if total > 0 && total <= RECOMMENDED_LIMIT_BYTES {
        text::join2(quant.as_str(), " (Recommended)")
    } else {
        quant.clone()
    };
    assert(text::views(paths@) =~= shard_paths(gv));
    let filename = paths[0].clone();
    let shard_count = Some(paths.len() as u64);
    let r = VariantEntry {
        filename,
        files: paths,
        quant: quant.clone(),
        display_label,
        size_bytes: total,
        shard_count,
        downloaded,
    };
    assert(r@ =~= tree_variant(quant@, view, hub::scanned_view(files@), repo_id@));
    r
}

fn preferred_name(i: usize) -> (r: &'static str)
    ensures
        r@ == preferred(i as int),
{
    match i {
        0 => "Q4_K_M",
        1 => "UD-Q4_K_XL",
        2 => "UD-IQ4_XS",
        3 => "Q4_K_S",
        4 => "Q4_0",
        5 => "Q5_K_M",
        6 => "UD-Q5_K_XL",
        _ => "Q8_0",
    }
}

fn holds_quant(quants: &Vec<String>, quant: &str) -> (r: bool)
    ensures
        r == text::views(quants@).contains(quant@),
{
    let ghost view = text::views(quants@);
    let mut i: usize = 0;
    while i < quants.len()
        invariant
            i <= quants@.len(),
            view == text::views(quants@),
            forall|k: int| 0 <= k < i ==> view[k] != quant@,
        decreases quants@.len() - i,
    {
        assert(view[i as int] == quants@[i as int]@);
        if text::same(quants[i].as_str(), quant) {
            return true;
        }
        i += 1;
    }
    false
}

fn pick_default(quants: &Vec<String>) -> (r: String)
    requires
        quants@.len() > 0,
    ensures
        r@ == tree_default(text::views(quants@), 0),
{
    let mut i: usize = 0;
    while i < 8
        invariant
            i <= 8,
            tree_default(text::views(quants@), i as int) == tree_default(text::views(quants@), 0),
        decreases 8 - i,
    {
        let name = preferred_name(i);
        if holds_quant(quants, name) {
            return name.to_owned();
        }
        i += 1;
    }
    assert(text::views(quants@)[0] == quants@[0]@);
    quants[0].clone()
}

/// The variants of a repository by the list of its files; nothing if it has no weights.
pub fn tree_variants(
    repo_id: &String,
    items: &Vec<TreeItem>,
    files: &Vec<ScannedGgufFile>,
) -> (r: Option<VariantsAnswer>)
    requires
        groups_fit(shards(items_view(items@), items@.len() as int)),
    ensures
        tree_ok(
            match r {
                Some(a) => Some(a@),
                None => None,
            },
            repo_id@,
            items_view(items@),
            hub::scanned_view(files@),
        ),
{
    let (all, has_vision) = collect_weights(items);
    let ghost view = weights_view(all@);
    if all.len() == 0 {
        return None;
    }
    let quants = list_quants(&all);
    let ghost qv = text::views(quants@);
    proof {
        assert(qv.contains(names::spec_quant(view[0].path)));
        assert(qv.len() > 0);
    }
    let default_variant = pick_default(&quants);
    let mut variants: Vec<VariantEntry> = Vec::new();
    let mut i: usize = 0;
    while i < quants.len()
        invariant
            i <= quants@.len(),
            weights_ok(all@),
            view == weights_view(all@),
            qv == text::views(quants@),
            quants_ok(qv, view, all@.len() as int),
            groups_fit(view),
            variants@.len() == i,
            forall|k: int|
                0 <= k < i ==> (#[trigger] variants@[k])@ == tree_variant(
                    qv[k],
                    view,
                    hub::scanned_view(files@),
                    repo_id@,
                ),
        decreases quants@.len() - i,
    {
        assert(qv[i as int] == quants@[i as int]@);
        assert(quant_used(view, qv[i as int], all@.len() as int));
        variants.push(make_variant(&quants[i], &all, files, repo_id.as_str()));
        i += 1;
    }
    let resolved_locally = hub::first_on_disk(&variants).is_some();
    let r = VariantsAnswer {
        repo_id: repo_id.clone(),
        has_vision,
        default_variant,
        context_length: DEFAULT_CONTEXT_LENGTH,
        resolved_locally,
        variants,
    };
    proof {
        assert forall|k: int| 0 <= k < qv.len() implies #[trigger] r@.variants[k] == tree_variant(
            qv[k],
            view,
            hub::scanned_view(files@),
            repo_id@,
        ) by {
            assert(variants@[k]@ == r@.variants[k]);
        }
        assert(quants_ok(qv, view, view.len() as int));
    }
    Some(r)
}

/// Among files with ASCII paths, projectors and weights are told apart by the path with its letters
/// in lower case.
pub proof fn law_ascii_paths_in_lower_case(i: ItemView)
    requires
        is_ascii_chars(i.path),
    ensures
        ({
            let lower = text::lower(i.path);
            let name = text::lower(text::last_piece(i.path, '/'));
            &&& is_projector(i) == (i.entry_type == "file"@ && text::has_part(lower, "mmproj"@))
            &&& is_shard(i) == (i.entry_type == "file"@ && !text::has_part(lower, "mmproj"@)
                && !names::auxiliary(lower, name) && text::has_suffix(i.path, ".gguf"@))
        }),
{
    text::law_parts_of_ascii_are_ascii(i.path, '/', ""@, ""@);
}

} // verus!
