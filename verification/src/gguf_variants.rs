//! The variants of a model: what a repository offers, what of it lies on disk, and which variant is
//! the default one.

use vstd::prelude::*;

use crate::chat_store;
use crate::download_jobs;
use crate::download_jobs::non_empty;
use crate::downloads;
use crate::downloads::{file_is_complete, pick_own, validate_repo_id, RemoteFile};
use crate::error;
use crate::error::{ApiError, ApiResult};
use crate::hub;
use crate::model_scan;
use crate::model_scan::LocalModel;
use crate::names;
use crate::names::extract_quant_from_path;
use crate::order;
use crate::order::{sorted_places, SortKey};
use crate::text;

verus! {

/// A question for the variants of a repository or of a file.
#[derive(Debug)]
pub struct VariantsQuery {
    pub repo_id: Option<String>,
    pub local_path: Option<String>,
    pub prefer_local_cache: Option<bool>,
    pub offline: Option<bool>,
}

/// A variant of a model.
#[derive(Debug)]
pub struct Variant {
    pub quant: String,
    /// The first file: its path inside the repository, or its name.
    pub filename: String,
    pub size_bytes: u64,
    pub shard_count: usize,
    pub downloaded: bool,
    pub partial: bool,
    /// What is left to download, where a part is there.
    pub remaining_bytes: Option<u64>,
    /// The complete copy on disk.
    pub local: Option<LocalModel>,
}

#[verifier::ext_equal]
pub struct VariantView {
    pub quant: Seq<char>,
    pub filename: Seq<char>,
    pub size_bytes: int,
    pub shard_count: int,
    pub downloaded: bool,
    pub partial: bool,
    pub remaining_bytes: Option<int>,
    pub local: Option<model_scan::ModelView>,
}

impl View for Variant {
    type V = VariantView;

    open spec fn view(&self) -> VariantView {
        VariantView {
            quant: self.quant@,
            filename: self.filename@,
            size_bytes: self.size_bytes as int,
            shard_count: self.shard_count as int,
            downloaded: self.downloaded,
            partial: self.partial,
            remaining_bytes: match self.remaining_bytes {
                Some(n) => Some(n as int),
                None => None,
            },
            local: match self.local {
                Some(m) => Some(m@),
                None => None,
            },
        }
    }
}

pub open spec fn variants_view(s: Seq<Variant>) -> Seq<VariantView> {
    Seq::new(s.len(), |i: int| s[i]@)
}

/// What lies on disk of a file.
#[derive(Debug, Clone, Copy, PartialEq, Eq, Structural)]
pub struct DiskFile {
    /// Whether the whole file is there.
    pub complete: bool,
    /// How much is there: the whole file, or a part of it.
    pub bytes: u64,
}

/// A file of a repository and what lies of it on disk.
#[derive(Debug)]
pub struct DiskEntry {
    pub path: String,
    pub file: DiskFile,
}

#[verifier::ext_equal]
pub struct DiskView {
    pub path: Seq<char>,
    pub file: DiskFile,
}

impl View for DiskEntry {
    type V = DiskView;

    open spec fn view(&self) -> DiskView {
        DiskView { path: self.path@, file: self.file }
    }
}

pub open spec fn disk_view(s: Seq<DiskEntry>) -> Seq<DiskView> {
    Seq::new(s.len(), |i: int| s[i]@)
}

// ---------- disk ----------

pub open spec fn spec_disk_file(
    length: Option<u64>,
    part: Option<u64>,
    size: Option<u64>,
) -> DiskFile {
    if downloads::spec_complete(length, size) {
        DiskFile { complete: true, bytes: length->Some_0 }
    } else {
        DiskFile {
            complete: false,
            bytes: match part {
                Some(n) => n,
                None => 0,
            },
        }
    }
}

/// What lies on disk of a file. `length` is the size of the file, if there is one; `part` that of
/// the incomplete one.
pub fn disk_file(length: Option<u64>, part: Option<u64>, size: Option<u64>) -> (r: DiskFile)
    ensures
        r == spec_disk_file(length, part, size),
{
    if file_is_complete(length, size) {
        if let Some(n) = length {
            return DiskFile { complete: true, bytes: n };
        }
    }
    DiskFile {
        complete: false,
        bytes: match part {
            Some(n) => n,
            None => 0,
        },
    }
}

/// What is known of a path among the first `n` entries: the last one counts, and nothing is there
/// without one.
pub open spec fn on_disk(disk: Seq<DiskView>, path: Seq<char>, n: int) -> DiskFile
    decreases n,
{
    if n <= 0 {
        DiskFile { complete: false, bytes: 0 }
    } else if disk[n - 1].path == path {
        disk[n - 1].file
    } else {
        on_disk(disk, path, n - 1)
    }
}

fn look_up(disk: &Vec<DiskEntry>, path: &str) -> (r: DiskFile)
    ensures
        r == on_disk(disk_view(disk@), path@, disk@.len() as int),
{
    let ghost view = disk_view(disk@);
    let mut n: usize = disk.len();
    while n > 0
        invariant
            n <= disk@.len(),
            view == disk_view(disk@),
            on_disk(view, path@, disk@.len() as int) == on_disk(view, path@, n as int),
        decreases n,
    {
        assert(view[n - 1] == disk@[n - 1]@);
        if text::same(disk[n - 1].path.as_str(), path) {
            return disk[n - 1].file;
        }
        n -= 1;
    }
    DiskFile { complete: false, bytes: 0 }
}

// ---------- variants on disk ----------

pub open spec fn local_quant(m: model_scan::ModelView) -> Seq<char> {
    names::spec_quant(model_scan::spec_path_in_repo(m))
}

pub open spec fn local_entry(m: model_scan::ModelView) -> VariantView {
    VariantView {
        quant: local_quant(m),
        filename: model_scan::spec_path_in_repo(m),
        size_bytes: m.size_bytes as int,
        shard_count: m.shard_paths.len() as int,
        downloaded: m.complete,
        partial: !m.complete,
        remaining_bytes: None,
        local: if m.complete {
            Some(m)
        } else {
            None
        },
    }
}

impl Variant {
    /// The variant of a model on disk.
    pub fn from_local(model: &LocalModel) -> (r: Self)
        ensures
            r@ == local_entry(model@),
    {
        let local = if model.complete {
            Some(model.duplicate())
        } else {
            None
        };
        Variant {
            quant: model.quant(),
            filename: model.path_in_repo(),
            size_bytes: model.size_bytes,
            shard_count: model.shard_paths.len(),
            downloaded: model.complete,
            partial: !model.complete,
            remaining_bytes: None,
            local,
        }
    }
}

/// The models among the first `n` that are complete, or those that are not.
pub open spec fn by_state(local: Seq<model_scan::ModelView>, complete: bool, n: int) -> Seq<
    model_scan::ModelView,
>
    decreases n,
{
    if n <= 0 {
        Seq::empty()
    } else {
        let before = by_state(local, complete, n - 1);
        if local[n - 1].complete == complete {
            before.push(local[n - 1])
        } else {
            before
        }
    }
}

pub open spec fn has_quant(variants: Seq<VariantView>, quant: Seq<char>) -> bool {
    exists|i: int| 0 <= i < variants.len() && hub::like((#[trigger] variants[i]).quant, quant)
}

/// The variants with those of the first `n` models whose quantization is not there yet.
pub open spec fn with_models(
    variants: Seq<VariantView>,
    models: Seq<model_scan::ModelView>,
    n: int,
) -> Seq<VariantView>
    decreases n,
{
    if n <= 0 {
        variants
    } else {
        let before = with_models(variants, models, n - 1);
        if has_quant(before, local_quant(models[n - 1])) {
            before
        } else {
            before.push(local_entry(models[n - 1]))
        }
    }
}

/// The variants with those on disk; a complete copy counts before an incomplete one.
pub open spec fn with_local(
    variants: Seq<VariantView>,
    local: Seq<model_scan::ModelView>,
) -> Seq<VariantView> {
    let whole = by_state(local, true, local.len() as int);
    let broken = by_state(local, false, local.len() as int);
    with_models(
        with_models(variants, whole, whole.len() as int),
        broken,
        broken.len() as int,
    )
}

/// By size, then by quantization.
pub open spec fn variant_key(s: Seq<VariantView>) -> spec_fn(int) -> order::KeyView {
    |i: int| order::KeyView { rank: s[i].size_bytes, name: s[i].quant, at: i }
}

pub open spec fn variant_places(s: Seq<VariantView>, at: Seq<int>) -> bool {
    order::lists(at, s.len() as int, model_scan::every(), variant_key(s))
}

pub open spec fn variants_at(s: Seq<VariantView>, at: Seq<int>) -> Seq<VariantView> {
    Seq::new(at.len(), |i: int| s[at[i]])
}

/// `r` is `s` by size, then by quantization.
pub open spec fn is_sorted_list(r: Seq<VariantView>, s: Seq<VariantView>) -> bool {
    exists|at: Seq<int>| #[trigger] variant_places(s, at) && r == variants_at(s, at)
}

fn knows_quant(variants: &Vec<Variant>, quant: &str) -> (r: bool)
    ensures
        r == has_quant(variants_view(variants@), quant@),
{
    let ghost view = variants_view(variants@);
    let mut i: usize = 0;
    while i < variants.len()
        invariant
            i <= variants@.len(),
            view == variants_view(variants@),
            forall|k: int| 0 <= k < i ==> !hub::like((#[trigger] view[k]).quant, quant@),
        decreases variants@.len() - i,
    {
        assert(view[i as int] == variants@[i as int]@);
        if text::same_ignoring_case(variants[i].quant.as_str(), quant) {
            assert(hub::like(view[i as int].quant, quant@));
            return true;
        }
        i += 1;
    }
    false
}

fn add_models(variants: &mut Vec<Variant>, local: &Vec<LocalModel>, complete: bool)
    ensures
        ({
            let models = by_state(
                model_scan::models_view(local@),
                complete,
                local@.len() as int,
            );
            variants_view(final(variants)@) == with_models(
                variants_view(old(variants)@),
                models,
                models.len() as int,
            )
        }),
{
    let ghost start = variants_view(variants@);
    let ghost view = model_scan::models_view(local@);
    let mut i: usize = 0;
    while i < local.len()
        invariant
            i <= local@.len(),
            view == model_scan::models_view(local@),
            variants_view(variants@) == with_models(
                start,
                by_state(view, complete, i as int),
                by_state(view, complete, i as int).len() as int,
            ),
        decreases local@.len() - i,
    {
        assert(view[i as int] == local@[i as int]@);
        let model = &local[i];
        if model.complete == complete {
            let ghost before = by_state(view, complete, i as int);
            let ghost after = before.push(view[i as int]);
            proof {
                lemma_models_prefix(start, before, after, before.len() as int);
            }
            let quant = model.quant();
            let ghost so_far = variants_view(variants@);
            if !knows_quant(variants, quant.as_str()) {
                variants.push(Variant::from_local(model));
                assert(variants_view(variants@) =~= so_far.push(local_entry(view[i as int])));
            }
            assert(after.len() - 1 == before.len());
            assert(after[after.len() - 1] == view[i as int]);
        }
        i += 1;
    }
}

/// Only the first `n` models count.
proof fn lemma_models_prefix(
    variants: Seq<VariantView>,
    a: Seq<model_scan::ModelView>,
    b: Seq<model_scan::ModelView>,
    n: int,
)
    requires
        n <= a.len() <= b.len(),
        forall|i: int| 0 <= i < n ==> #[trigger] b[i] == a[i],
    ensures
        with_models(variants, a, n) == with_models(variants, b, n),
    decreases n,
{
    if n > 0 {
        assert(b[n - 1] == a[n - 1]);
        lemma_models_prefix(variants, a, b, n - 1);
    }
}

fn sort_variants(variants: Vec<Variant>) -> (r: Vec<Variant>)
    ensures
        is_sorted_list(variants_view(r@), variants_view(variants@)),
{
    let ghost s = variants_view(variants@);
    let ghost keep = model_scan::every();
    let ghost key = variant_key(s);
    let mut keys: Vec<SortKey> = Vec::new();
    let mut i: usize = 0;
    assert(order::keys_view(keys@) =~= Seq::empty());
    while i < variants.len()
        invariant
            i <= variants@.len(),
            s == variants_view(variants@),
            keep == model_scan::every(),
            key == variant_key(s),
            order::keys_of(order::keys_view(keys@), i as int, keep, key),
        decreases variants@.len() - i,
    {
        assert(s[i as int] == variants@[i as int]@);
        let ghost before = order::keys_view(keys@);
        proof {
            order::lemma_keys_grow(before, i as int, keep, key);
        }
        let item = SortKey {
            rank: variants[i].size_bytes as i128,
            name: variants[i].quant.clone(),
            at: i,
        };
        assert(item@ =~= key(i as int));
        keys.push(item);
        assert(order::keys_view(keys@) =~= before.push(key(i as int)));
        i += 1;
    }
    let places = sorted_places(keys, Ghost(i as int), Ghost(keep), Ghost(key));
    let ghost at = places@.map_values(|p: usize| p as int);
    let mut out: Vec<Variant> = Vec::new();
    let mut j: usize = 0;
    while j < places.len()
        invariant
            j <= places@.len(),
            s == variants_view(variants@),
            at == places@.map_values(|p: usize| p as int),
            variant_places(s, at),
            out@.len() == j,
            forall|k: int| 0 <= k < j ==> (#[trigger] out@[k])@ == s[at[k]],
        decreases places@.len() - j,
    {
        assert(at[j as int] == places@[j as int]);
        assert(s[at[j as int]] == variants@[places@[j as int] as int]@);
        out.push(variants[places[j]].duplicate());
        j += 1;
    }
    assert(variants_view(out@) =~= variants_at(s, at));
    assert(variant_places(s, at));
    out
}

impl Variant {
    pub fn duplicate(&self) -> (r: Self)
        ensures
            r@ == self@,
    {
        let local = match &self.local {
            Some(m) => Some(m.duplicate()),
            None => None,
        };
        Variant {
            quant: self.quant.clone(),
            filename: self.filename.clone(),
            size_bytes: self.size_bytes,
            shard_count: self.shard_count,
            downloaded: self.downloaded,
            partial: self.partial,
            remaining_bytes: self.remaining_bytes,
            local,
        }
    }
}

/// The variants and those on disk that are not among them, by size. A complete copy counts before an
/// incomplete one.
pub fn merge_local(variants: Vec<Variant>, local: &Vec<LocalModel>) -> (r: Vec<Variant>)
    ensures
        is_sorted_list(
            variants_view(r@),
            with_local(variants_view(variants@), model_scan::models_view(local@)),
        ),
{
    let mut all = variants;
    add_models(&mut all, local, true);
    add_models(&mut all, local, false);
    sort_variants(all)
}

// ---------- variants of a repository ----------

/// The quantizations of the first `n` files, each once.
pub open spec fn quants_of(own: Seq<downloads::RemoteView>, n: int) -> Seq<Seq<char>>
    decreases n,
{
    if n <= 0 {
        Seq::empty()
    } else {
        let before = quants_of(own, n - 1);
        let quant = names::spec_quant(own[n - 1].path);
        if before.contains(quant) {
            before
        } else {
            before.push(quant)
        }
    }
}

/// The files among the first `n` of exactly this quantization.
pub open spec fn group_of(own: Seq<downloads::RemoteView>, quant: Seq<char>, n: int) -> Seq<
    downloads::RemoteView,
>
    decreases n,
{
    if n <= 0 {
        Seq::empty()
    } else {
        let before = group_of(own, quant, n - 1);
        if names::spec_quant(own[n - 1].path) == quant {
            before.push(own[n - 1])
        } else {
            before
        }
    }
}

/// How much of the first `n` files of a group is on disk.
pub open spec fn present_of(
    group: Seq<downloads::RemoteView>,
    disk: Seq<DiskView>,
    n: int,
) -> int
    decreases n,
{
    if n <= 0 {
        0
    } else {
        present_of(group, disk, n - 1) + on_disk(disk, group[n - 1].path, disk.len() as int).bytes
    }
}

pub open spec fn all_complete(group: Seq<downloads::RemoteView>, disk: Seq<DiskView>) -> bool {
    forall|i: int|
        0 <= i < group.len() ==> on_disk(disk, (#[trigger] group[i]).path, disk.len() as int)
            .complete
}

/// The first complete model of a quantization from `i` on.
pub open spec fn copy_from(local: Seq<model_scan::ModelView>, quant: Seq<char>, i: int) -> Option<
    model_scan::ModelView,
>
    decreases local.len() - i,
{
    if i < 0 || i >= local.len() {
        None
    } else if local[i].complete && hub::like(local_quant(local[i]), quant) {
        Some(local[i])
    } else {
        copy_from(local, quant, i + 1)
    }
}

/// The variant of a quantization.
pub open spec fn variant_of(
    own: Seq<downloads::RemoteView>,
    quant: Seq<char>,
    disk: Seq<DiskView>,
    local: Seq<model_scan::ModelView>,
) -> VariantView {
    let group = group_of(own, quant, own.len() as int);
    let size = download_jobs::known_bytes(group, group.len() as int);
    let present = present_of(group, disk, group.len() as int);
    let copy = copy_from(local, quant, 0);
    let downloaded = all_complete(group, disk) || copy is Some;
    let partial = !downloaded && present > 0;
    VariantView {
        quant,
        filename: group[0].path,
        size_bytes: size,
        shard_count: group.len() as int,
        downloaded,
        partial,
        remaining_bytes: if partial {
            Some(
                if size > present {
                    size - present
                } else {
                    0
                },
            )
        } else {
            None
        },
        local: copy,
    }
}

/// The sizes of each variant can be held.
pub open spec fn sizes_fit(own: Seq<downloads::RemoteView>, disk: Seq<DiskView>) -> bool {
    forall|quant: Seq<char>|
        #![trigger group_of(own, quant, own.len() as int)]
        download_jobs::known_bytes(
            group_of(own, quant, own.len() as int),
            group_of(own, quant, own.len() as int).len() as int,
        ) <= u64::MAX && present_of(
            group_of(own, quant, own.len() as int),
            disk,
            group_of(own, quant, own.len() as int).len() as int,
        ) <= u64::MAX
}

/// The variants of the first `n` quantizations.
pub open spec fn offered(
    own: Seq<downloads::RemoteView>,
    disk: Seq<DiskView>,
    local: Seq<model_scan::ModelView>,
    n: int,
) -> Seq<VariantView> {
    let quants = quants_of(own, own.len() as int);
    Seq::new(n as nat, |i: int| variant_of(own, quants[i], disk, local))
}

fn list_quants(own: &Vec<RemoteFile>) -> (r: Vec<String>)
    ensures
        text::views(r@) == quants_of(downloads::remotes_view(own@), own@.len() as int),
{
    let ghost view = downloads::remotes_view(own@);
    let mut out: Vec<String> = Vec::new();
    let mut i: usize = 0;
    assert(text::views(out@) =~= Seq::empty());
    while i < own.len()
        invariant
            i <= own@.len(),
            view == downloads::remotes_view(own@),
            text::views(out@) == quants_of(view, i as int),
        decreases own@.len() - i,
    {
        assert(view[i as int] == own@[i as int]@);
        let quant = extract_quant_from_path(own[i].path.as_str());
        if !chat_store::holds(&out, quant.as_str()) {
            let ghost before = text::views(out@);
            let ghost name = quant@;
            out.push(quant);
            assert(text::views(out@) =~= before.push(name));
        }
        i += 1;
    }
    out
}

fn group(own: &Vec<RemoteFile>, quant: &str) -> (r: Vec<RemoteFile>)
    ensures
        downloads::remotes_view(r@) == group_of(
            downloads::remotes_view(own@),
            quant@,
            own@.len() as int,
        ),
{
    let ghost view = downloads::remotes_view(own@);
    let mut out: Vec<RemoteFile> = Vec::new();
    let mut i: usize = 0;
    assert(downloads::remotes_view(out@) =~= Seq::empty());
    while i < own.len()
        invariant
            i <= own@.len(),
            view == downloads::remotes_view(own@),
            downloads::remotes_view(out@) == group_of(view, quant@, i as int),
        decreases own@.len() - i,
    {
        assert(view[i as int] == own@[i as int]@);
        let q = extract_quant_from_path(own[i].path.as_str());
        if text::same(q.as_str(), quant) {
            let ghost before = downloads::remotes_view(out@);
            out.push(own[i].duplicate());
            assert(downloads::remotes_view(out@) =~= before.push(view[i as int]));
        }
        i += 1;
    }
    out
}

proof fn lemma_present_grows(
    group: Seq<downloads::RemoteView>,
    disk: Seq<DiskView>,
    k: int,
    n: int,
)
    requires
        0 <= k <= n,
    ensures
        0 <= present_of(group, disk, k) <= present_of(group, disk, n),
    decreases n,
{
    if k < n {
        lemma_present_grows(group, disk, k, n - 1);
    } else if n > 0 {
        lemma_present_grows(group, disk, n - 1, n - 1);
    }
}

/// How much of a group is on disk, and whether all of it.
fn measure(files: &Vec<RemoteFile>, disk: &Vec<DiskEntry>) -> (r: (u64, bool))
    requires
        present_of(downloads::remotes_view(files@), disk_view(disk@), files@.len() as int)
            <= u64::MAX,
    ensures
        r.0 == present_of(
            downloads::remotes_view(files@),
            disk_view(disk@),
            files@.len() as int,
        ),
        r.1 == all_complete(downloads::remotes_view(files@), disk_view(disk@)),
{
    let ghost view = downloads::remotes_view(files@);
    let ghost d = disk_view(disk@);
    let mut present: u64 = 0;
    let mut complete = true;
    let mut i: usize = 0;
    while i < files.len()
        invariant
            i <= files@.len(),
            view == downloads::remotes_view(files@),
            d == disk_view(disk@),
            d.len() == disk@.len(),
            present_of(view, d, files@.len() as int) <= u64::MAX,
            present == present_of(view, d, i as int),
            complete == forall|k: int|
                0 <= k < i ==> on_disk(d, (#[trigger] view[k]).path, d.len() as int).complete,
        decreases files@.len() - i,
    {
        assert(view[i as int] == files@[i as int]@);
        proof {
            lemma_present_grows(view, d, i + 1, files@.len() as int);
        }
        let file = look_up(disk, files[i].path.as_str());
        present = present + file.bytes;
        if !file.complete {
            assert(!on_disk(d, view[i as int].path, d.len() as int).complete);
            complete = false;
        }
        i += 1;
    }
    (present, complete)
}

fn find_copy(local: &Vec<LocalModel>, quant: &str) -> (r: Option<LocalModel>)
    ensures
        copy_from(model_scan::models_view(local@), quant@, 0) == (match r {
            Some(m) => Some(m@),
            None => None,
        }),
{
    let ghost view = model_scan::models_view(local@);
    let mut i: usize = 0;
    while i < local.len()
        invariant
            i <= local@.len(),
            view == model_scan::models_view(local@),
            copy_from(view, quant@, 0) == copy_from(view, quant@, i as int),
        decreases local@.len() - i,
    {
        assert(view[i as int] == local@[i as int]@);
        if local[i].complete && text::same_ignoring_case(local[i].quant().as_str(), quant) {
            return Some(local[i].duplicate());
        }
        i += 1;
    }
    None
}

/// Each quantization has a file.
proof fn lemma_quant_has_files(own: Seq<downloads::RemoteView>, n: int, k: int)
    requires
        0 <= n <= own.len(),
        0 <= k < quants_of(own, n).len(),
    ensures
        group_of(own, quants_of(own, n)[k], n).len() > 0,
    decreases n,
{
    if n > 0 {
        let before = quants_of(own, n - 1);
        if k < before.len() {
            assert(quants_of(own, n)[k] == before[k]);
            lemma_quant_has_files(own, n - 1, k);
        }
    }
}

fn make_variant(
    own: &Vec<RemoteFile>,
    quant: String,
    disk: &Vec<DiskEntry>,
    local: &Vec<LocalModel>,
) -> (r: Variant)
    requires
        sizes_fit(downloads::remotes_view(own@), disk_view(disk@)),
        group_of(downloads::remotes_view(own@), quant@, own@.len() as int).len() > 0,
    ensures
        r@ == variant_of(
            downloads::remotes_view(own@),
            quant@,
            disk_view(disk@),
            model_scan::models_view(local@),
        ),
{
    let files = group(own, quant.as_str());
    let ghost view = downloads::remotes_view(files@);
    assert(view.len() == files@.len());
    assert(view[0] == files@[0]@);
    let size_bytes = download_jobs::size_of_files(&files);
    let (present, complete) = measure(&files, disk);
    let copy = find_copy(local, quant.as_str());
    let downloaded = complete || copy.is_some();
    let partial = !downloaded && present > 0;
    let remaining_bytes = if partial {
        if size_bytes > present {
            Some(size_bytes - present)
        } else {
            Some(0)
        }
    } else {
        None
    };
    Variant {
        quant,
        filename: files[0].path.clone(),
        size_bytes,
        shard_count: files.len(),
        downloaded,
        partial,
        remaining_bytes,
        local: copy,
    }
}

/// The variants that a repository offers and those on disk that it does not, by size. `local` holds
/// the models of the same repository.
pub fn remote_variants(
    files: &Vec<RemoteFile>,
    disk: &Vec<DiskEntry>,
    local: &Vec<LocalModel>,
) -> (r: Vec<Variant>)
    requires
        sizes_fit(
            downloads::own_files(downloads::remotes_view(files@), files@.len() as int),
            disk_view(disk@),
        ),
    ensures
        ({
            let own = downloads::own_files(
                downloads::remotes_view(files@),
                files@.len() as int,
            );
            let models = model_scan::models_view(local@);
            let quants = quants_of(own, own.len() as int);
            is_sorted_list(
                variants_view(r@),
                with_local(offered(own, disk_view(disk@), models, quants.len() as int), models),
            )
        }),
{
    let own = pick_own(files);
    let ghost view = downloads::remotes_view(own@);
    let ghost d = disk_view(disk@);
    let ghost models = model_scan::models_view(local@);
    let quants = list_quants(&own);
    let ghost names = text::views(quants@);
    let mut variants: Vec<Variant> = Vec::new();
    let mut i: usize = 0;
    assert(variants_view(variants@) =~= offered(view, d, models, 0));
    while i < quants.len()
        invariant
            i <= quants@.len(),
            view == downloads::remotes_view(own@),
            view.len() == own@.len(),
            d == disk_view(disk@),
            models == model_scan::models_view(local@),
            names == text::views(quants@),
            names == quants_of(view, view.len() as int),
            sizes_fit(view, d),
            variants_view(variants@) == offered(view, d, models, i as int),
        decreases quants@.len() - i,
    {
        assert(names[i as int] == quants@[i as int]@);
        proof {
            lemma_quant_has_files(view, view.len() as int, i as int);
        }
        let ghost before = variants_view(variants@);
        let variant = make_variant(&own, quants[i].clone(), disk, local);
        let ghost item = variant@;
        variants.push(variant);
        assert(variants_view(variants@) =~= before.push(item));
        assert(item == variant_of(view, names[i as int], d, models));
        assert(before.push(item) =~= offered(view, d, models, i + 1));
        i += 1;
    }
    merge_local(variants, local)
}

// ---------- the default variant ----------

/// How many quantizations are preferred.
pub const PREFERRED_COUNT: usize = 8;

/// The quantizations that are preferred where nothing is downloaded, the best one first.
pub open spec fn preferred_name(i: int) -> Seq<char> {
    if i == 0 {
        "UD-Q4_K_XL"@
    } else if i == 1 {
        "Q4_K_M"@
    } else if i == 2 {
        "Q4_K_S"@
    } else if i == 3 {
        "IQ4_XS"@
    } else if i == 4 {
        "IQ4_NL"@
    } else if i == 5 {
        "Q4_0"@
    } else if i == 6 {
        "Q5_K_M"@
    } else {
        "Q8_0"@
    }
}

fn preferred(i: usize) -> (r: &'static str)
    ensures
        r@ == preferred_name(i as int),
{
    if i == 0 {
        "UD-Q4_K_XL"
    } else if i == 1 {
        "Q4_K_M"
    } else if i == 2 {
        "Q4_K_S"
    } else if i == 3 {
        "IQ4_XS"
    } else if i == 4 {
        "IQ4_NL"
    } else if i == 5 {
        "Q4_0"
    } else if i == 6 {
        "Q5_K_M"
    } else {
        "Q8_0"
    }
}

/// The first variant from `i` on that is downloaded.
pub open spec fn downloaded_from(s: Seq<VariantView>, i: int) -> Option<int>
    decreases s.len() - i,
{
    if i < 0 || i >= s.len() {
        None
    } else if s[i].downloaded {
        Some(i)
    } else {
        downloaded_from(s, i + 1)
    }
}

/// The first variant from `i` on of a quantization.
pub open spec fn quant_from(s: Seq<VariantView>, quant: Seq<char>, i: int) -> Option<int>
    decreases s.len() - i,
{
    if i < 0 || i >= s.len() {
        None
    } else if hub::like(s[i].quant, quant) {
        Some(i)
    } else {
        quant_from(s, quant, i + 1)
    }
}

/// The first variant of the preferred quantizations from `p` on.
pub open spec fn preferred_from(s: Seq<VariantView>, p: int) -> Option<int>
    decreases PREFERRED_COUNT - p,
{
    if p >= PREFERRED_COUNT {
        None
    } else {
        match quant_from(s, preferred_name(p), 0) {
            Some(k) => Some(k),
            None => preferred_from(s, p + 1),
        }
    }
}

/// A variant that is downloaded, else one of a preferred quantization, else the first one.
pub open spec fn default_place(s: Seq<VariantView>) -> Option<int> {
    match downloaded_from(s, 0) {
        Some(k) => Some(k),
        None => match preferred_from(s, 0) {
            Some(k) => Some(k),
            None => if s.len() > 0 {
                Some(0)
            } else {
                None
            },
        },
    }
}

fn find_downloaded(variants: &Vec<Variant>) -> (r: Option<usize>)
    ensures
        downloaded_from(variants_view(variants@), 0) == (match r {
            Some(k) => Some(k as int),
            None => None,
        }),
        r is Some ==> r->Some_0 < variants@.len(),
{
    let ghost view = variants_view(variants@);
    let mut i: usize = 0;
    while i < variants.len()
        invariant
            i <= variants@.len(),
            view == variants_view(variants@),
            downloaded_from(view, 0) == downloaded_from(view, i as int),
        decreases variants@.len() - i,
    {
        assert(view[i as int] == variants@[i as int]@);
        if variants[i].downloaded {
            return Some(i);
        }
        i += 1;
    }
    None
}

fn find_quant(variants: &Vec<Variant>, quant: &str) -> (r: Option<usize>)
    ensures
        quant_from(variants_view(variants@), quant@, 0) == (match r {
            Some(k) => Some(k as int),
            None => None,
        }),
        r is Some ==> r->Some_0 < variants@.len(),
{
    let ghost view = variants_view(variants@);
    let mut i: usize = 0;
    while i < variants.len()
        invariant
            i <= variants@.len(),
            view == variants_view(variants@),
            quant_from(view, quant@, 0) == quant_from(view, quant@, i as int),
        decreases variants@.len() - i,
    {
        assert(view[i as int] == variants@[i as int]@);
        if text::same_ignoring_case(variants[i].quant.as_str(), quant) {
            return Some(i);
        }
        i += 1;
    }
    None
}

fn find_preferred(variants: &Vec<Variant>) -> (r: Option<usize>)
    ensures
        preferred_from(variants_view(variants@), 0) == (match r {
            Some(k) => Some(k as int),
            None => None,
        }),
        r is Some ==> r->Some_0 < variants@.len(),
{
    let ghost view = variants_view(variants@);
    let mut p: usize = 0;
    while p < PREFERRED_COUNT
        invariant
            p <= PREFERRED_COUNT,
            view == variants_view(variants@),
            preferred_from(view, 0) == preferred_from(view, p as int),
        decreases PREFERRED_COUNT - p,
    {
        if let Some(k) = find_quant(variants, preferred(p)) {
            return Some(k);
        }
        p += 1;
    }
    None
}

/// The quantization of the default variant.
pub fn default_variant(variants: &Vec<Variant>) -> (r: Option<String>)
    ensures
        match default_place(variants_view(variants@)) {
            Some(k) => 0 <= k < variants@.len() && r is Some && r->Some_0@ == variants@[k].quant@,
            None => r is None,
        },
{
    if let Some(k) = find_downloaded(variants) {
        return Some(variants[k].quant.clone());
    }
    if let Some(k) = find_preferred(variants) {
        return Some(variants[k].quant.clone());
    }
    if variants.len() > 0 {
        return Some(variants[0].quant.clone());
    }
    None
}

// ---------- requests ----------

/// What a question means.
#[derive(Debug)]
pub enum VariantsRoute {
    /// One file, and the repository that is named beside it.
    File { candidate: String, repo_id: Option<String> },
    Repo(String),
}

#[verifier::ext_equal]
pub enum RouteView {
    File { candidate: Seq<char>, repo_id: Option<Seq<char>> },
    Repo(Seq<char>),
}

impl View for VariantsRoute {
    type V = RouteView;

    open spec fn view(&self) -> RouteView {
        match self {
            VariantsRoute::File { candidate, repo_id } => RouteView::File {
                candidate: candidate@,
                repo_id: chat_store::opt_text(*repo_id),
            },
            VariantsRoute::Repo(id) => RouteView::Repo(id@),
        }
    }
}

pub open spec fn spec_route(repo_id: Option<Seq<char>>, local_path: Option<Seq<char>>) -> Result<
    RouteView,
    error::ApiErrorView,
> {
    let repo = download_jobs::filled(repo_id);
    match download_jobs::filled(local_path) {
        Some(path) => Ok(RouteView::File { candidate: path, repo_id: repo }),
        None => match repo {
            Some(id) => if downloads::repo_id_ok(text::trimmed(id)) {
                Ok(RouteView::Repo(id))
            } else {
                Ok(RouteView::File { candidate: id, repo_id: repo })
            },
            None => Err(
                error::ApiErrorView { status: 400, detail: "Укажите repo_id или local_path"@ },
            ),
        },
    }
}

/// What a question means: a file, where a path is given or the name is no repository's, else a
/// repository.
pub fn route(query: &VariantsQuery) -> (r: ApiResult<VariantsRoute>)
    ensures
        match spec_route(
            chat_store::opt_text(query.repo_id),
            chat_store::opt_text(query.local_path),
        ) {
            Ok(v) => r is Ok && r->Ok_0@ == v,
            Err(e) => r is Err && r->Err_0@ == e,
        },
{
    let repo = non_empty(&query.repo_id);
    if let Some(path) = non_empty(&query.local_path) {
        return Ok(VariantsRoute::File { candidate: path, repo_id: repo });
    }
    match repo {
        Some(id) => {
            if validate_repo_id(id.as_str()).is_ok() {
                Ok(VariantsRoute::Repo(id))
            } else {
                Ok(VariantsRoute::File { candidate: id.clone(), repo_id: Some(id) })
            }
        },
        None => Err(ApiError::bad_request("Укажите repo_id или local_path".to_owned())),
    }
}

/// The models among the first `n` of a repository.
pub open spec fn of_repo(models: Seq<model_scan::ModelView>, repo: Seq<char>, n: int) -> Seq<
    model_scan::ModelView,
>
    decreases n,
{
    if n <= 0 {
        Seq::empty()
    } else {
        let before = of_repo(models, repo, n - 1);
        if hub::like(model_scan::spec_repo_id(models[n - 1]), repo) {
            before.push(models[n - 1])
        } else {
            before
        }
    }
}

/// The models of a repository.
pub fn models_of_repo(models: &Vec<LocalModel>, repo: &str) -> (r: Vec<LocalModel>)
    ensures
        model_scan::models_view(r@) == of_repo(
            model_scan::models_view(models@),
            repo@,
            models@.len() as int,
        ),
{
    let ghost view = model_scan::models_view(models@);
    let mut out: Vec<LocalModel> = Vec::new();
    let mut i: usize = 0;
    assert(model_scan::models_view(out@) =~= Seq::empty());
    while i < models.len()
        invariant
            i <= models@.len(),
            view == model_scan::models_view(models@),
            model_scan::models_view(out@) == of_repo(view, repo@, i as int),
        decreases models@.len() - i,
    {
        assert(view[i as int] == models@[i as int]@);
        if text::same_ignoring_case(models[i].repo_id().as_str(), repo) {
            let ghost before = model_scan::models_view(out@);
            out.push(models[i].duplicate());
            assert(model_scan::models_view(out@) =~= before.push(view[i as int]));
        }
        i += 1;
    }
    out
}

/// Whether a question is to be answered from the disk alone: without a network, or where a complete
/// copy is preferred and there is one.
pub fn wants_local(query: &VariantsQuery, local: &Vec<LocalModel>) -> (r: bool)
    ensures
        r == (query.offline == Some(true) || (query.prefer_local_cache == Some(true) && exists|
            i: int,
        |
            0 <= i < local@.len() && (#[trigger] local@[i]).complete)),
{
    let offline = match query.offline {
        Some(b) => b,
        None => false,
    };
    if offline {
        return true;
    }
    let prefer = match query.prefer_local_cache {
        Some(b) => b,
        None => false,
    };
    if !prefer {
        return false;
    }
    let mut i: usize = 0;
    while i < local.len()
        invariant
            i <= local@.len(),
            query.prefer_local_cache == Some(true),
            forall|k: int| 0 <= k < i ==> !(#[trigger] local@[k]).complete,
        decreases local@.len() - i,
    {
        if local[i].complete {
            return true;
        }
        i += 1;
    }
    false
}

/// What to answer where the list of a repository's files could not be had: nothing is an error as
/// long as there are models on disk.
pub fn without_list(local: &Vec<LocalModel>, message: String) -> (r: ApiResult<()>)
    ensures
        if local@.len() > 0 {
            r is Ok
        } else {
            r is Err && r->Err_0@ == (error::ApiErrorView { status: 502, detail: message@ })
        },
{
    if local.len() > 0 {
        Ok(())
    } else {
        Err(ApiError::new(502, message))
    }
}

/// The first model from `i` on that a file belongs to.
pub open spec fn owner_from(models: Seq<model_scan::ModelView>, path: Seq<char>, i: int) -> Option<
    int,
>
    decreases models.len() - i,
{
    if i < 0 || i >= models.len() {
        None
    } else if models[i].path == path || models[i].shard_paths.contains(path) {
        Some(i)
    } else {
        owner_from(models, path, i + 1)
    }
}

/// The model that a file belongs to. `path` is where the file was found, if it was.
pub fn model_of_file<'a>(models: &'a Vec<LocalModel>, path: &Option<String>, candidate: &str) -> (r:
    ApiResult<&'a LocalModel>)
    ensures
        ({
            let place = match *path {
                Some(p) => owner_from(model_scan::models_view(models@), p@, 0),
                None => None,
            };
            match place {
                Some(k) => 0 <= k < models@.len() && r is Ok && r->Ok_0@ == models@[k]@,
                None => r is Err && r->Err_0@ == (error::ApiErrorView {
                    status: 404,
                    detail: "Файл модели «"@ + candidate@ + "» не найден в папках моделей"@,
                }),
            }
        }),
{
    if let Some(p) = path {
        let ghost view = model_scan::models_view(models@);
        let mut i: usize = 0;
        while i < models.len()
            invariant
                i <= models@.len(),
                *path == Some(*p),
                view == model_scan::models_view(models@),
                owner_from(view, p@, 0) == owner_from(view, p@, i as int),
            decreases models@.len() - i,
        {
            assert(view[i as int] == models@[i as int]@);
            let m = &models[i];
            if text::same(m.path.as_str(), p.as_str()) || chat_store::holds(
                &m.shard_paths,
                p.as_str(),
            ) {
                return Ok(m);
            }
            i += 1;
        }
    }
    Err(
        ApiError::not_found(
            text::join3("Файл модели «", candidate, "» не найден в папках моделей"),
        ),
    )
}

/// Whether a path is that of an image projector.
pub fn is_projector_path(path: &str) -> (r: bool)
    ensures
        r == text::has_part(text::lower(path@), "mmproj"@),
{
    text::contains(text::to_lower(path).as_str(), "mmproj")
}

/// Whether a repository has an image projector.
pub fn has_projector_file(files: &Vec<RemoteFile>) -> (r: bool)
    ensures
        r == exists|i: int|
            0 <= i < files@.len() && text::has_part(
                text::lower((#[trigger] files@[i]).path@),
                "mmproj"@,
            ),
{
    let mut i: usize = 0;
    while i < files.len()
        invariant
            i <= files@.len(),
            forall|k: int|
                0 <= k < i ==> !text::has_part(
                    text::lower((#[trigger] files@[k]).path@),
                    "mmproj"@,
                ),
        decreases files@.len() - i,
    {
        if is_projector_path(files[i].path.as_str()) {
            return true;
        }
        i += 1;
    }
    false
}

/// The first variant from `i` on that lies on disk.
pub open spec fn copy_of_variants(s: Seq<VariantView>, i: int) -> Option<model_scan::ModelView>
    decreases s.len() - i,
{
    if i < 0 || i >= s.len() {
        None
    } else if s[i].local is Some {
        s[i].local
    } else {
        copy_of_variants(s, i + 1)
    }
}

/// The model whose header tells the length of the context: the first variant that lies on disk.
pub fn first_copy(variants: &Vec<Variant>) -> (r: Option<&LocalModel>)
    ensures
        copy_of_variants(variants_view(variants@), 0) == (match r {
            Some(m) => Some(m@),
            None => None,
        }),
{
    let ghost view = variants_view(variants@);
    let mut i: usize = 0;
    while i < variants.len()
        invariant
            i <= variants@.len(),
            view == variants_view(variants@),
            copy_of_variants(view, 0) == copy_of_variants(view, i as int),
        decreases variants@.len() - i,
    {
        assert(view[i as int] == variants@[i as int]@);
        if let Some(m) = &variants[i].local {
            return Some(m);
        }
        i += 1;
    }
    None
}

// ---------- laws ----------

proof fn lemma_with_models(
    variants: Seq<VariantView>,
    models: Seq<model_scan::ModelView>,
    n: int,
    k: int,
)
    requires
        0 <= k < n <= models.len(),
    ensures
        has_quant(with_models(variants, models, n), local_quant(models[k])),
    decreases n,
{
    let quant = local_quant(models[k]);
    let before = with_models(variants, models, n - 1);
    let after = with_models(variants, models, n);
    if k < n - 1 {
        lemma_with_models(variants, models, n - 1, k);
        lemma_quants_stay(before, after, quant);
    } else if !has_quant(before, quant) {
        assert(after[before.len() as int] == local_entry(models[k]));
        assert(hub::like(after[before.len() as int].quant, quant));
    }
}

proof fn lemma_quants_stay(a: Seq<VariantView>, b: Seq<VariantView>, quant: Seq<char>)
    requires
        has_quant(a, quant),
        a.len() <= b.len(),
        forall|i: int| 0 <= i < a.len() ==> #[trigger] b[i] == a[i],
    ensures
        has_quant(b, quant),
{
    let i = choose|i: int| 0 <= i < a.len() && hub::like((#[trigger] a[i]).quant, quant);
    assert(b[i] == a[i]);
}

proof fn lemma_variants_stay(
    variants: Seq<VariantView>,
    models: Seq<model_scan::ModelView>,
    n: int,
)
    ensures
        variants.len() <= with_models(variants, models, n).len(),
        forall|i: int|
            0 <= i < variants.len() ==> #[trigger] with_models(variants, models, n)[i]
                == variants[i],
    decreases n,
{
    if n > 0 {
        lemma_variants_stay(variants, models, n - 1);
    }
}

proof fn lemma_model_by_state(local: Seq<model_scan::ModelView>, n: int, k: int)
    requires
        0 <= k < n <= local.len(),
    ensures
        by_state(local, local[k].complete, n).contains(local[k]),
    decreases n,
{
    let state = local[k].complete;
    let before = by_state(local, state, n - 1);
    let after = by_state(local, state, n);
    if k < n - 1 {
        lemma_model_by_state(local, n - 1, k);
        let i = choose|i: int| 0 <= i < before.len() && before[i] == local[k];
        assert(after[i] == local[k]);
    } else {
        assert(after[after.len() - 1] == local[k]);
    }
}

/// What a repository offers stays in the list, and every quantization on disk is in it too.
pub proof fn law_nothing_on_disk_is_left_out(
    variants: Seq<VariantView>,
    local: Seq<model_scan::ModelView>,
    k: int,
)
    requires
        0 <= k < local.len(),
    ensures
        has_quant(with_local(variants, local), local_quant(local[k])),
        variants.len() <= with_local(variants, local).len(),
        forall|i: int|
            0 <= i < variants.len() ==> #[trigger] with_local(variants, local)[i] == variants[i],
{
    let whole = by_state(local, true, local.len() as int);
    let broken = by_state(local, false, local.len() as int);
    let first = with_models(variants, whole, whole.len() as int);
    let quant = local_quant(local[k]);
    lemma_variants_stay(variants, whole, whole.len() as int);
    lemma_variants_stay(first, broken, broken.len() as int);
    lemma_model_by_state(local, local.len() as int, k);
    if local[k].complete {
        let i = choose|i: int| 0 <= i < whole.len() && whole[i] == local[k];
        lemma_with_models(variants, whole, whole.len() as int, i);
        lemma_quants_stay(first, with_local(variants, local), quant);
    } else {
        let i = choose|i: int| 0 <= i < broken.len() && broken[i] == local[k];
        lemma_with_models(first, broken, broken.len() as int, i);
    }
}

proof fn lemma_downloaded_from(s: Seq<VariantView>, i: int, k: int)
    requires
        0 <= i <= k < s.len(),
        s[k].downloaded,
    ensures
        downloaded_from(s, i) is Some,
        i <= downloaded_from(s, i)->Some_0 <= k,
        s[downloaded_from(s, i)->Some_0].downloaded,
    decreases k - i,
{
    if i < k && !s[i].downloaded {
        lemma_downloaded_from(s, i + 1, k);
    }
}

/// Where anything is downloaded, the default variant is.
pub proof fn law_downloaded_variant_is_the_default(s: Seq<VariantView>, k: int)
    requires
        0 <= k < s.len(),
        s[k].downloaded,
    ensures
        default_place(s) is Some,
        0 <= default_place(s)->Some_0 <= k,
        s[default_place(s)->Some_0].downloaded,
{
    lemma_downloaded_from(s, 0, k);
}

/// A variant is never both downloaded and incomplete, and what is left of it is never more than it.
pub proof fn law_incomplete_variant_is_not_downloaded(
    own: Seq<downloads::RemoteView>,
    quant: Seq<char>,
    disk: Seq<DiskView>,
    local: Seq<model_scan::ModelView>,
)
    ensures
        ({
            let v = variant_of(own, quant, disk, local);
            &&& !(v.downloaded && v.partial)
            &&& v.partial <==> v.remaining_bytes is Some
            &&& v.partial ==> 0 <= v.remaining_bytes->Some_0 <= v.size_bytes
        }),
{
    let group = group_of(own, quant, own.len() as int);
    download_jobs::lemma_known_grows(group, 0, group.len() as int);
    lemma_present_grows(group, disk, 0, group.len() as int);
}

} // verus!
