//! Local models: which files of the models' folders make up models.
//!
//! A folder is handed in as what was found in it. A model may be split over several files; it is
//! then represented by the first of them.

use vstd::prelude::*;

use crate::names;
use crate::names::{extract_quant_from_path, infer_repo_id_from_gguf_filename};
use crate::order;
use crate::order::{sorted_places, SortKey};
use crate::paths;
use crate::text;

verus! {

/// How deep nested folders are searched.
pub const MAX_SCAN_DEPTH: usize = 4;

/// How many entries are looked at: a guard against a huge folder that was added by mistake.
pub const MAX_SCANNED_ENTRIES: usize = 20_000;

/// How many digits the number of a part has in a file's name.
pub const SHARD_NUMBER_DIGITS: usize = 5;

// ---------- names of parts ----------

/// The last place among the first `n` where a part stands.
pub open spec fn last_part(s: Seq<char>, part: Seq<char>, n: int) -> Option<int>
    decreases n,
{
    if n <= 0 {
        None
    } else if text::occurs_at(s, part, n - 1) {
        Some(n - 1)
    } else {
        last_part(s, part, n - 1)
    }
}

fn find_last_part(chars: &Vec<char>, part: &Vec<char>) -> (r: Option<usize>)
    requires
        part@.len() > 0,
    ensures
        last_part(chars@, part@, chars@.len() as int) == (match r {
            Some(i) => Some(i as int),
            None => None,
        }),
        r matches Some(i) ==> i + part@.len() <= chars@.len() && text::occurs_at(
            chars@,
            part@,
            i as int,
        ),
{
    let mut n: usize = chars.len();
    while n > 0
        invariant
            n <= chars@.len(),
            last_part(chars@, part@, n as int) == last_part(
                chars@,
                part@,
                chars@.len() as int,
            ),
        decreases n,
    {
        if text::matches_at(chars, part, n - 1) {
            return Some(n - 1);
        }
        n -= 1;
    }
    None
}

/// The name of a file without the ending of a model.
pub open spec fn model_stem(name: Seq<char>) -> Option<Seq<char>> {
    if text::has_suffix(name, ".gguf"@) {
        Some(text::without_suffix(name, ".gguf"@))
    } else if text::has_suffix(name, ".GGUF"@) {
        Some(text::without_suffix(name, ".GGUF"@))
    } else {
        None
    }
}

/// A name of the form `<base>-<number>-of-<total>`: base, number and total.
pub open spec fn shard_of_stem(stem: Seq<char>) -> Option<(Seq<char>, int, int)> {
    match last_part(stem, "-of-"@, stem.len() as int) {
        None => None,
        Some(at) => {
            let rest = stem.take(at);
            let total = stem.skip(at + 4);
            match text::last_index(rest, '-', rest.len() as int) {
                None => None,
                Some(dash) => {
                    let base = rest.take(dash);
                    let index = rest.skip(dash + 1);
                    if index.len() != SHARD_NUMBER_DIGITS || total.len() != SHARD_NUMBER_DIGITS {
                        None
                    } else {
                        match (
                            text::parsed_number(index, u32::MAX as int),
                            text::parsed_number(total, u32::MAX as int),
                        ) {
                            (Some(i), Some(t)) => if 1 <= i <= t {
                                Some((base, i, t))
                            } else {
                                None
                            },
                            _ => None,
                        }
                    }
                },
            }
        },
    }
}

pub open spec fn spec_shard(name: Seq<char>) -> Option<(Seq<char>, int, int)> {
    match model_stem(name) {
        Some(stem) => shard_of_stem(stem),
        None => None,
    }
}

/// Reads the name of a part, `<base>-00002-of-00005.gguf`: base, number and total.
pub fn split_shard_name(file_name: &str) -> (r: Option<(String, u32, u32)>)
    ensures
        spec_shard(file_name@) == (match r {
            Some((base, i, t)) => Some((base@, i as int, t as int)),
            None => None,
        }),
{
    let stem = match text::strip_suffix(file_name, ".gguf") {
        Some(s) => s,
        None => match text::strip_suffix(file_name, ".GGUF") {
            Some(s) => s,
            None => return None,
        },
    };
    proof {
        reveal_strlit("-of-");
        assert("-of-"@.len() == 4);
    }
    let chars = text::to_chars(stem.as_str());
    let part = text::to_chars("-of-");
    let at = match find_last_part(&chars, &part) {
        Some(at) => at,
        None => return None,
    };
    let rest = text::from_chars(&chars, 0, at);
    let total = text::from_chars(&chars, at + 4, chars.len());
    proof {
        assert(rest@ =~= stem@.take(at as int));
        assert(total@ =~= stem@.skip(at + 4));
    }
    let rest_chars = text::to_chars(rest.as_str());
    let dash = match text::rfind(&rest_chars, '-') {
        Some(dash) => dash,
        None => return None,
    };
    let base = text::from_chars(&rest_chars, 0, dash);
    let index = text::from_chars(&rest_chars, dash + 1, rest_chars.len());
    proof {
        assert(base@ =~= rest@.take(dash as int));
        assert(index@ =~= rest@.skip(dash + 1));
    }
    let index_len = rest_chars.len() - dash - 1;
    let total_len = chars.len() - at - 4;
    if index_len != SHARD_NUMBER_DIGITS || total_len != SHARD_NUMBER_DIGITS {
        return None;
    }
    let i = match text::parse_number(index.as_str(), u32::MAX as u64) {
        Some(n) => n,
        None => return None,
    };
    let t = match text::parse_number(total.as_str(), u32::MAX as u64) {
        Some(n) => n,
        None => return None,
    };
    if i >= 1 && i <= t {
        Some((base, i as u32, t as u32))
    } else {
        None
    }
}

/// A number with at least five digits.
pub open spec fn five_digits(n: int) -> Seq<char> {
    let d = text::decimal_of(n);
    if d.len() >= 5 {
        d
    } else if d.len() == 4 {
        "0"@ + d
    } else if d.len() == 3 {
        "00"@ + d
    } else if d.len() == 2 {
        "000"@ + d
    } else {
        "0000"@ + d
    }
}

/// The name of a part.
pub open spec fn shard_name(base: Seq<char>, i: int, total: int) -> Seq<char> {
    base + "-"@ + five_digits(i) + "-of-"@ + five_digits(total) + ".gguf"@
}

fn padded(n: u32) -> (r: String)
    ensures
        r@ == five_digits(n as int),
{
    let d = text::decimal(n as u64);
    let len = text::to_chars(d.as_str()).len();
    if len >= 5 {
        d
    } else if len == 4 {
        text::join2("0", d.as_str())
    } else if len == 3 {
        text::join2("00", d.as_str())
    } else if len == 2 {
        text::join2("000", d.as_str())
    } else {
        text::join2("0000", d.as_str())
    }
}

fn name_of_shard(base: &str, i: u32, total: u32) -> (r: String)
    ensures
        r@ == shard_name(base@, i as int, total as int),
{
    let a = text::join3(base, "-", padded(i).as_str());
    let b = text::join3(a.as_str(), "-of-", padded(total).as_str());
    text::join2(b.as_str(), ".gguf")
}

// ---------- folders ----------

/// What was found in a folder.
#[derive(Debug)]
pub struct Folder {
    pub path: String,
    pub entries: Vec<FolderEntry>,
}

/// An entry of a folder. Its kind is that of the entry itself, not of what a link points to.
#[derive(Debug)]
pub struct FolderEntry {
    pub name: String,
    pub kind: EntryKind,
    /// The full path without links, if there is one.
    pub canonical: Option<String>,
    /// Whether there is a file behind the name, links followed.
    pub opens_as_file: bool,
    /// The size of that file.
    pub size: Option<u64>,
    /// When the file was changed, in seconds since 1970.
    pub modified: Option<u64>,
}

#[derive(Debug)]
pub enum EntryKind {
    Folder(Folder),
    /// A folder that could not be read.
    Unreadable,
    File,
    /// A link, or something else.
    Other,
}

#[verifier::ext_equal]
pub struct FolderView {
    pub path: Seq<char>,
    pub entries: Seq<EntryView>,
}

#[verifier::ext_equal]
pub struct EntryView {
    pub name: Seq<char>,
    pub kind: KindView,
    pub canonical: Option<Seq<char>>,
    pub opens_as_file: bool,
    pub size: Option<u64>,
    pub modified: Option<u64>,
}

#[verifier::ext_equal]
pub enum KindView {
    Folder(FolderView),
    Unreadable,
    File,
    Other,
}

pub open spec fn opt_view(s: Option<String>) -> Option<Seq<char>> {
    match s {
        Some(t) => Some(t@),
        None => None,
    }
}

pub open spec fn folder_view(f: Folder) -> FolderView
    decreases f,
{
    FolderView { path: f.path@, entries: entries_view(f.entries@) }
}

pub open spec fn entry_view(e: FolderEntry) -> EntryView
    decreases e,
{
    EntryView {
        name: e.name@,
        kind: match e.kind {
            EntryKind::Folder(f) => KindView::Folder(folder_view(f)),
            EntryKind::Unreadable => KindView::Unreadable,
            EntryKind::File => KindView::File,
            EntryKind::Other => KindView::Other,
        },
        canonical: opt_view(e.canonical),
        opens_as_file: e.opens_as_file,
        size: e.size,
        modified: e.modified,
    }
}

pub open spec fn entries_view(s: Seq<FolderEntry>) -> Seq<EntryView>
    decreases s,
{
    if s.len() == 0 {
        Seq::empty()
    } else {
        entries_view(s.drop_last()).push(entry_view(s.last()))
    }
}

pub proof fn lemma_entries_view(s: Seq<FolderEntry>)
    ensures
        entries_view(s).len() == s.len(),
        forall|i: int| 0 <= i < s.len() ==> #[trigger] entries_view(s)[i] == entry_view(s[i]),
    decreases s.len(),
{
    if s.len() > 0 {
        lemma_entries_view(s.drop_last());
        assert forall|i: int| 0 <= i < s.len() implies #[trigger] entries_view(s)[i] == entry_view(
            s[i],
        ) by {
            if i < s.len() - 1 {
                assert(s.drop_last()[i] == s[i]);
            }
        }
    }
}

/// A model on disk.
#[derive(Debug)]
pub struct LocalModel {
    /// The full path of the first, or only, file.
    pub path: String,
    pub file_name: String,
    /// The name without the ending and without the number of the part.
    pub display_name: String,
    /// All files of the model, in order.
    pub shard_paths: Vec<String>,
    /// The size of all files that were found.
    pub size_bytes: u64,
    /// Whether all parts are there.
    pub complete: bool,
    pub modified_secs: Option<u64>,
    /// Which root the model lies in.
    pub root_index: usize,
    /// The path of the first file below the root.
    pub relative_path: String,
}

#[verifier::ext_equal]
pub struct ModelView {
    pub path: Seq<char>,
    pub file_name: Seq<char>,
    pub display_name: Seq<char>,
    pub shard_paths: Seq<Seq<char>>,
    pub size_bytes: u64,
    pub complete: bool,
    pub modified_secs: Option<u64>,
    pub root_index: int,
    pub relative_path: Seq<char>,
}

impl View for LocalModel {
    type V = ModelView;

    open spec fn view(&self) -> ModelView {
        ModelView {
            path: self.path@,
            file_name: self.file_name@,
            display_name: self.display_name@,
            shard_paths: text::views(self.shard_paths@),
            size_bytes: self.size_bytes,
            complete: self.complete,
            modified_secs: self.modified_secs,
            root_index: self.root_index as int,
            relative_path: self.relative_path@,
        }
    }
}

pub open spec fn models_view(s: Seq<LocalModel>) -> Seq<ModelView> {
    Seq::new(s.len(), |i: int| s[i]@)
}

/// Whether a name is that of a model's file.
pub open spec fn gguf_name(name: Seq<char>) -> bool {
    text::has_suffix(text::lower(name), ".gguf"@)
}

/// Whether a name is that of a projector of images, which is part of a model and not one.
pub open spec fn projector_name(name: Seq<char>) -> bool {
    text::has_part(text::lower(name), "mmproj"@)
}

pub fn is_gguf_name(name: &str) -> (r: bool)
    ensures
        r == gguf_name(name@),
{
    text::ends_with(text::to_lower(name).as_str(), ".gguf")
}

pub fn is_projector_name(name: &str) -> (r: bool)
    ensures
        r == projector_name(name@),
{
    text::contains(text::to_lower(name).as_str(), "mmproj")
}

/// Whether a projector of images is among the files of these names.
pub fn has_projector(names: &Vec<String>) -> (r: bool)
    ensures
        r == exists|i: int|
            0 <= i < names@.len() && gguf_name((#[trigger] names@[i])@) && projector_name(
                names@[i]@,
            ),
{
    let mut i: usize = 0;
    while i < names.len()
        invariant
            i <= names@.len(),
            forall|k: int|
                0 <= k < i ==> !(gguf_name((#[trigger] names@[k])@) && projector_name(
                    names@[k]@,
                )),
        decreases names@.len() - i,
    {
        if is_gguf_name(names[i].as_str()) && is_projector_name(names[i].as_str()) {
            return true;
        }
        i += 1;
    }
    false
}

pub open spec fn hidden_name(name: Seq<char>) -> bool {
    name.len() > 0 && name[0] == '.'
}

/// The entry with this name that is a file, from `i` on.
pub open spec fn file_from(entries: Seq<EntryView>, name: Seq<char>, i: int) -> Option<int>
    decreases entries.len() - i,
{
    if i < 0 || i >= entries.len() {
        None
    } else if entries[i].name == name && entries[i].opens_as_file {
        Some(i)
    } else {
        file_from(entries, name, i + 1)
    }
}

/// The entries of the first `n` parts that are there.
pub open spec fn shards_found(
    entries: Seq<EntryView>,
    base: Seq<char>,
    total: int,
    n: int,
) -> Seq<int>
    decreases n,
{
    if n <= 0 {
        Seq::empty()
    } else {
        let before = shards_found(entries, base, total, n - 1);
        match file_from(entries, shard_name(base, n, total), 0) {
            Some(k) => before.push(k),
            None => before,
        }
    }
}

pub open spec fn held(n: int) -> u64 {
    if n > u64::MAX {
        u64::MAX
    } else {
        n as u64
    }
}

pub open spec fn size_of(e: EntryView) -> int {
    match e.size {
        Some(n) => n as int,
        None => 0,
    }
}

/// The sizes of the first `n` of these entries.
pub open spec fn sizes(entries: Seq<EntryView>, which: Seq<int>, n: int) -> int
    decreases n,
{
    if n <= 0 {
        0
    } else {
        sizes(entries, which, n - 1) + size_of(entries[which[n - 1]])
    }
}

pub open spec fn paths_of(dir: Seq<char>, entries: Seq<EntryView>, which: Seq<int>) -> Seq<
    Seq<char>,
> {
    Seq::new(which.len(), |i: int| paths::joined(dir, entries[which[i]].name))
}

/// The path below a root; the name where the path lies elsewhere.
pub open spec fn relative_to(path: Seq<char>, root: Seq<char>, name: Seq<char>) -> Seq<char> {
    if !paths::within(path, root) {
        name
    } else if path.len() == root.len() {
        Seq::empty()
    } else if path[root.len() as int] == '/' {
        path.skip(root.len() as int + 1)
    } else {
        path.skip(root.len() as int)
    }
}

pub open spec fn single_name(name: Seq<char>) -> Seq<char> {
    text::without_suffixes(text::without_suffixes(name, ".gguf"@), ".GGUF"@)
}

/// The model that entry `k` of a folder stands for; none for a part that is not the first.
pub open spec fn model_at(f: FolderView, k: int, root: Seq<char>, root_index: int) -> Option<
    ModelView,
> {
    let e = f.entries[k];
    let (display_name, which, expected) = match spec_shard(e.name) {
        Some((base, i, total)) => (base, shards_found(f.entries, base, total, total), total),
        None => (single_name(e.name), seq![k], 1),
    };
    if spec_shard(e.name) is Some && spec_shard(e.name)->Some_0.1 != 1 {
        None
    } else {
        match e.canonical {
            None => None,
            Some(path) => Some(
                ModelView {
                    path,
                    file_name: e.name,
                    display_name,
                    shard_paths: paths_of(f.path, f.entries, which),
                    size_bytes: held(sizes(f.entries, which, which.len() as int)),
                    complete: which.len() == expected,
                    modified_secs: e.modified,
                    root_index,
                    relative_path: relative_to(path, root, e.name),
                },
            ),
        }
    }
}

/// What is left to look at, and what was found.
#[verifier::ext_equal]
pub struct ScanState {
    pub budget: int,
    pub models: Seq<ModelView>,
}

pub open spec fn is_known(models: Seq<ModelView>, path: Seq<char>) -> bool {
    exists|i: int| 0 <= i < models.len() && (#[trigger] models[i]).path == path
}

/// The models with those of the first `n` of these entries; a file counts once.
pub open spec fn files_added(
    f: FolderView,
    files: Seq<int>,
    root: Seq<char>,
    root_index: int,
    models: Seq<ModelView>,
    n: int,
) -> Seq<ModelView>
    decreases n,
{
    if n <= 0 {
        models
    } else {
        let before = files_added(f, files, root, root_index, models, n - 1);
        match model_at(f, files[n - 1], root, root_index) {
            Some(m) => if is_known(before, m.path) {
                before
            } else {
                before.push(m)
            },
            None => before,
        }
    }
}

/// What a folder adds to the search.
pub open spec fn folder_walked(
    f: FolderView,
    root: Seq<char>,
    root_index: int,
    depth: int,
    st: ScanState,
) -> ScanState
    decreases f, 0int,
{
    match entries_walked(f.entries, 0, root, root_index, depth, st, Seq::empty()) {
        (after, None) => after,
        (after, Some(files)) => ScanState {
            budget: after.budget,
            models: files_added(f, files, root, root_index, after.models, files.len() as int),
        },
    }
}

/// What the entries of a folder from `i` on add: nested folders at once, and the files of models,
/// which are dealt with at the end. Once the budget is used up the rest of the folder is dropped.
pub open spec fn entries_walked(
    entries: Seq<EntryView>,
    i: int,
    root: Seq<char>,
    root_index: int,
    depth: int,
    st: ScanState,
    files: Seq<int>,
) -> (ScanState, Option<Seq<int>>)
    decreases entries, entries.len() - i,
{
    if i < 0 || i >= entries.len() {
        (st, Some(files))
    } else if st.budget == 0 {
        (st, None)
    } else {
        let e = entries[i];
        let paid = ScanState { budget: st.budget - 1, models: st.models };
        if hidden_name(e.name) {
            entries_walked(entries, i + 1, root, root_index, depth, paid, files)
        } else {
            match e.kind {
                KindView::Folder(sub) => {
                    let after = if depth < MAX_SCAN_DEPTH {
                        folder_walked(sub, root, root_index, depth + 1, paid)
                    } else {
                        paid
                    };
                    entries_walked(entries, i + 1, root, root_index, depth, after, files)
                },
                KindView::File => if gguf_name(e.name) && !projector_name(e.name) {
                    entries_walked(entries, i + 1, root, root_index, depth, paid, files.push(i))
                } else {
                    entries_walked(entries, i + 1, root, root_index, depth, paid, files)
                },
                _ => entries_walked(entries, i + 1, root, root_index, depth, paid, files),
            }
        }
    }
}

/// Whether the search goes into a folder found at this depth; into a hidden one only if it is asked
/// to.
pub fn enters_folder(name: &str, depth: usize, hidden: bool) -> (r: bool)
    ensures
        r == (depth < MAX_SCAN_DEPTH && (hidden || !hidden_name(name@))),
{
    depth < MAX_SCAN_DEPTH && (hidden || !is_hidden(name))
}

fn is_hidden(name: &str) -> (r: bool)
    ensures
        r == hidden_name(name@),
{
    let chars = text::to_chars(name);
    chars.len() > 0 && chars[0] == '.'
}

fn find_file(entries: &Vec<FolderEntry>, name: &str) -> (r: Option<usize>)
    ensures
        file_from(entries_view(entries@), name@, 0) == (match r {
            Some(i) => Some(i as int),
            None => None,
        }),
        r matches Some(i) ==> i < entries@.len(),
{
    let ghost view = entries_view(entries@);
    proof {
        lemma_entries_view(entries@);
    }
    let mut i: usize = 0;
    while i < entries.len()
        invariant
            i <= entries@.len(),
            view == entries_view(entries@),
            view.len() == entries@.len(),
            forall|k: int| 0 <= k < view.len() ==> #[trigger] view[k] == entry_view(entries@[k]),
            file_from(view, name@, i as int) == file_from(view, name@, 0),
        decreases entries@.len() - i,
    {
        assert(view[i as int] == entry_view(entries@[i as int]));
        if entries[i].opens_as_file && text::same(entries[i].name.as_str(), name) {
            return Some(i);
        }
        i += 1;
    }
    None
}

spec fn places(s: Seq<usize>) -> Seq<int> {
    s.map_values(|p: usize| p as int)
}

fn find_shards(entries: &Vec<FolderEntry>, base: &str, total: u32) -> (r: Vec<usize>)
    ensures
        places(r@) == shards_found(entries_view(entries@), base@, total as int, total as int),
        forall|k: int| 0 <= k < r@.len() ==> #[trigger] r@[k] < entries@.len(),
{
    let ghost view = entries_view(entries@);
    let mut out: Vec<usize> = Vec::new();
    let mut n: u32 = 0;
    assert(places(out@) =~= Seq::empty());
    while n < total
        invariant
            n <= total,
            view == entries_view(entries@),
            places(out@) == shards_found(view, base@, total as int, n as int),
            forall|k: int| 0 <= k < out@.len() ==> #[trigger] out@[k] < entries@.len(),
        decreases total - n,
    {
        let ghost before = places(out@);
        let name = name_of_shard(base, n + 1, total);
        if let Some(k) = find_file(entries, name.as_str()) {
            out.push(k);
            assert(places(out@) =~= before.push(k as int));
        }
        n += 1;
    }
    out
}

/// The paths and the size of these entries.
fn gather(f: &Folder, which: &Vec<usize>) -> (r: (Vec<String>, u64))
    requires
        forall|k: int| 0 <= k < which@.len() ==> #[trigger] which@[k] < f.entries@.len(),
    ensures
        text::views(r.0@) == paths_of(f.path@, entries_view(f.entries@), places(which@)),
        r.1 == held(
            sizes(entries_view(f.entries@), places(which@), which@.len() as int),
        ),
{
    let ghost view = entries_view(f.entries@);
    let ghost at = places(which@);
    proof {
        lemma_entries_view(f.entries@);
    }
    let mut out: Vec<String> = Vec::new();
    let mut total: u64 = 0;
    let mut i: usize = 0;
    while i < which.len()
        invariant
            i <= which@.len(),
            view == entries_view(f.entries@),
            view.len() == f.entries@.len(),
            forall|k: int| 0 <= k < view.len() ==> #[trigger] view[k] == entry_view(f.entries@[k]),
            at == places(which@),
            forall|k: int| 0 <= k < which@.len() ==> #[trigger] which@[k] < f.entries@.len(),
            sizes(view, at, i as int) >= 0,
            total == held(sizes(view, at, i as int)),
            out@.len() == i,
            forall|k: int|
                0 <= k < i ==> (#[trigger] out@[k])@ == paths::joined(f.path@, view[at[k]].name),
        decreases which@.len() - i,
    {
        let k = which[i];
        assert(at[i as int] == k);
        assert(view[k as int] == entry_view(f.entries@[k as int]));
        let size: u64 = match f.entries[k].size {
            Some(n) => n,
            None => 0,
        };
        total = total.saturating_add(size);
        out.push(paths::join(f.path.as_str(), f.entries[k].name.as_str()));
        i += 1;
    }
    assert(text::views(out@) =~= paths_of(f.path@, view, at));
    (out, total)
}

fn relative(path: &str, root: &str, name: &str) -> (r: String)
    ensures
        r@ == relative_to(path@, root@, name@),
{
    if !paths::is_within(path, root) {
        return name.to_owned();
    }
    let chars = text::to_chars(path);
    let skip = text::to_chars(root).len();
    if chars.len() == skip {
        let r = String::new();
        assert(r@ =~= Seq::<char>::empty());
        return r;
    }
    let from = if chars[skip] == '/' {
        skip + 1
    } else {
        skip
    };
    let r = text::from_chars(&chars, from, chars.len());
    assert(r@ =~= path@.skip(from as int));
    r
}

/// The model that entry `k` of a folder stands for.
fn model_of(f: &Folder, k: usize, root: &str, root_index: usize) -> (r: Option<LocalModel>)
    requires
        k < f.entries@.len(),
    ensures
        model_at(folder_view(*f), k as int, root@, root_index as int) == (match r {
            Some(m) => Some(m@),
            None => None,
        }),
{
    proof {
        lemma_entries_view(f.entries@);
    }
    let e = &f.entries[k];
    let ghost view = folder_view(*f);
    assert(view.entries[k as int] == entry_view(*e));
    let (display_name, which, expected) = match split_shard_name(e.name.as_str()) {
        Some((base, index, total)) => {
            if index != 1 {
                return None;
            }
            let which = find_shards(&f.entries, base.as_str(), total);
            (base, which, total as usize)
        },
        None => {
            let mut which: Vec<usize> = Vec::new();
            which.push(k);
            proof {
                assert(places(which@) =~= seq![k as int]);
                reveal_strlit(".gguf");
                reveal_strlit(".GGUF");
            }
            let name = text::cut_suffixes(
                text::cut_suffixes(e.name.as_str(), ".gguf").as_str(),
                ".GGUF",
            );
            (name, which, 1)
        },
    };
    let path = match &e.canonical {
        Some(path) => path.clone(),
        None => return None,
    };
    let (shard_paths, size_bytes) = gather(f, &which);
    let relative_path = relative(path.as_str(), root, e.name.as_str());
    let m = LocalModel {
        complete: which.len() == expected,
        modified_secs: e.modified,
        path,
        file_name: e.name.clone(),
        display_name,
        shard_paths,
        size_bytes,
        root_index,
        relative_path,
    };
    assert(m@ =~= model_at(view, k as int, root@, root_index as int)->Some_0);
    Some(m)
}

fn knows(models: &Vec<LocalModel>, path: &str) -> (r: bool)
    ensures
        r == is_known(models_view(models@), path@),
{
    let ghost view = models_view(models@);
    let mut i: usize = 0;
    while i < models.len()
        invariant
            i <= models@.len(),
            view == models_view(models@),
            forall|k: int| 0 <= k < i ==> (#[trigger] view[k]).path != path@,
        decreases models@.len() - i,
    {
        assert(view[i as int].path == models@[i as int].path@);
        if text::same(models[i].path.as_str(), path) {
            return true;
        }
        i += 1;
    }
    false
}

fn add_files(
    f: &Folder,
    files: &Vec<usize>,
    root: &str,
    root_index: usize,
    models: &mut Vec<LocalModel>,
)
    requires
        forall|k: int| 0 <= k < files@.len() ==> #[trigger] files@[k] < f.entries@.len(),
    ensures
        models_view(final(models)@) == files_added(
            folder_view(*f),
            places(files@),
            root@,
            root_index as int,
            models_view(old(models)@),
            files@.len() as int,
        ),
{
    let ghost start = models_view(models@);
    let ghost view = folder_view(*f);
    let ghost which = places(files@);
    let mut i: usize = 0;
    while i < files.len()
        invariant
            i <= files@.len(),
            view == folder_view(*f),
            which == places(files@),
            forall|k: int| 0 <= k < files@.len() ==> #[trigger] files@[k] < f.entries@.len(),
            models_view(models@) == files_added(
                view,
                which,
                root@,
                root_index as int,
                start,
                i as int,
            ),
        decreases files@.len() - i,
    {
        assert(which[i as int] == files@[i as int]);
        let ghost before = models_view(models@);
        if let Some(m) = model_of(f, files[i], root, root_index) {
            if !knows(models, m.path.as_str()) {
                let ghost item = m@;
                models.push(m);
                assert(models_view(models@) =~= before.push(item));
            }
        }
        i += 1;
    }
}

/// Searches a folder.
fn walk(
    f: &Folder,
    root: &str,
    root_index: usize,
    depth: usize,
    models: &mut Vec<LocalModel>,
    budget: &mut usize,
)
    requires
        depth <= MAX_SCAN_DEPTH,
    ensures
        (ScanState { budget: *final(budget) as int, models: models_view(final(models)@) })
            == folder_walked(
            folder_view(*f),
            root@,
            root_index as int,
            depth as int,
            (ScanState { budget: *old(budget) as int, models: models_view(old(models)@) }),
        ),
    decreases f,
{
    let ghost view = folder_view(*f);
    let ghost start = ScanState { budget: *budget as int, models: models_view(models@) };
    proof {
        lemma_entries_view(f.entries@);
    }
    let mut files: Vec<usize> = Vec::new();
    let mut i: usize = 0;
    assert(places(files@) =~= Seq::empty());
    while i < f.entries.len()
        invariant
            i <= f.entries@.len(),
            depth <= MAX_SCAN_DEPTH,
            view == folder_view(*f),
            view.entries == entries_view(f.entries@),
            view.entries.len() == f.entries@.len(),
            forall|k: int|
                0 <= k < view.entries.len() ==> #[trigger] view.entries[k] == entry_view(
                    f.entries@[k],
                ),
            forall|k: int| 0 <= k < files@.len() ==> #[trigger] files@[k] < f.entries@.len(),
            entries_walked(
                view.entries,
                i as int,
                root@,
                root_index as int,
                depth as int,
                ScanState { budget: *budget as int, models: models_view(models@) },
                places(files@),
            ) == entries_walked(
                view.entries,
                0,
                root@,
                root_index as int,
                depth as int,
                start,
                Seq::empty(),
            ),
            start == (ScanState {
                budget: *old(budget) as int,
                models: models_view(old(models)@),
            }),
        decreases f.entries@.len() - i,
    {
        if *budget == 0 {
            return;
        }
        *budget = *budget - 1;
        let e = &f.entries[i];
        assert(view.entries[i as int] == entry_view(*e));
        if !is_hidden(e.name.as_str()) {
            match &e.kind {
                EntryKind::Folder(sub) => {
                    if depth < MAX_SCAN_DEPTH {
                        walk(sub, root, root_index, depth + 1, models, budget);
                    }
                },
                EntryKind::File => {
                    if is_gguf_name(e.name.as_str()) && !is_projector_name(e.name.as_str()) {
                        let ghost before = places(files@);
                        files.push(i);
                        assert(places(files@) =~= before.push(i as int));
                    }
                },
                _ => {},
            }
        }
        i += 1;
    }
    add_files(f, &files, root, root_index, models);
}

pub open spec fn roots_view(s: Seq<Option<Folder>>) -> Seq<Option<FolderView>> {
    Seq::new(
        s.len(),
        |i: int|
            match s[i] {
                Some(f) => Some(folder_view(f)),
                None => None,
            },
    )
}

/// The search after the first `n` roots; one that is not there is skipped.
pub open spec fn roots_walked(roots: Seq<Option<FolderView>>, n: int) -> ScanState
    decreases n,
{
    if n <= 0 {
        ScanState { budget: MAX_SCANNED_ENTRIES as int, models: Seq::empty() }
    } else {
        let before = roots_walked(roots, n - 1);
        match roots[n - 1] {
            Some(f) => folder_walked(f, f.path, n - 1, 0, before),
            None => before,
        }
    }
}

pub open spec fn every() -> spec_fn(int) -> bool {
    |i: int| true
}

/// By name, letters of either case; models of one name in the order in which they were found.
pub open spec fn model_key(s: Seq<ModelView>) -> spec_fn(int) -> order::KeyView {
    |i: int| order::KeyView { rank: 0, name: text::lowered(s[i].display_name), at: i }
}

pub open spec fn model_places(s: Seq<ModelView>, at: Seq<int>) -> bool {
    order::lists(at, s.len() as int, every(), model_key(s))
}

pub open spec fn models_at(s: Seq<ModelView>, at: Seq<int>) -> Seq<ModelView> {
    Seq::new(at.len(), |i: int| s[at[i]])
}

fn copy_texts(s: &Vec<String>) -> (r: Vec<String>)
    ensures
        text::views(r@) == text::views(s@),
{
    let mut out: Vec<String> = Vec::new();
    let mut i: usize = 0;
    while i < s.len()
        invariant
            i <= s@.len(),
            out@.len() == i,
            forall|k: int| 0 <= k < i ==> (#[trigger] out@[k])@ == s@[k]@,
        decreases s@.len() - i,
    {
        out.push(s[i].clone());
        i += 1;
    }
    assert(text::views(out@) =~= text::views(s@));
    out
}

impl LocalModel {
    /// A model with the same description.
    pub fn duplicate(&self) -> (r: Self)
        ensures
            r@ == self@,
    {
        LocalModel {
            path: self.path.clone(),
            file_name: self.file_name.clone(),
            display_name: self.display_name.clone(),
            shard_paths: copy_texts(&self.shard_paths),
            size_bytes: self.size_bytes,
            complete: self.complete,
            modified_secs: self.modified_secs,
            root_index: self.root_index,
            relative_path: self.relative_path.clone(),
        }
    }
}

/// All models of these folders by name. A folder that is given twice counts once.
pub fn scan_models(roots: &Vec<Option<Folder>>) -> (r: Vec<LocalModel>)
    ensures
        ({
            let found = roots_walked(roots_view(roots@), roots@.len() as int).models;
            exists|at: Seq<int>| #[trigger]
                model_places(found, at) && models_view(r@) == models_at(found, at)
        }),
{
    let ghost view = roots_view(roots@);
    let mut models: Vec<LocalModel> = Vec::new();
    let mut budget: usize = MAX_SCANNED_ENTRIES;
    let mut i: usize = 0;
    assert(models_view(models@) =~= Seq::empty());
    while i < roots.len()
        invariant
            i <= roots@.len(),
            view == roots_view(roots@),
            (ScanState { budget: budget as int, models: models_view(models@) }) == roots_walked(
                view,
                i as int,
            ),
        decreases roots@.len() - i,
    {
        assert(view[i as int] == (match roots@[i as int] {
            Some(f) => Some(folder_view(f)),
            None => None,
        }));
        if let Some(f) = &roots[i] {
            walk(f, f.path.as_str(), i, 0, &mut models, &mut budget);
        }
        i += 1;
    }
    let ghost found = models_view(models@);
    assert(found == roots_walked(view, roots@.len() as int).models);
    let ghost keep = every();
    let ghost key = model_key(found);
    let mut keys: Vec<SortKey> = Vec::new();
    let mut j: usize = 0;
    assert(order::keys_view(keys@) =~= Seq::empty());
    while j < models.len()
        invariant
            j <= models@.len(),
            found == models_view(models@),
            keep == every(),
            key == model_key(found),
            order::keys_of(order::keys_view(keys@), j as int, keep, key),
        decreases models@.len() - j,
    {
        assert(found[j as int] == models@[j as int]@);
        let ghost before = order::keys_view(keys@);
        proof {
            order::lemma_keys_grow(before, j as int, keep, key);
        }
        let name = text::to_lowercase(models[j].display_name.as_str());
        let item = SortKey { rank: 0, name, at: j };
        assert(item@ =~= key(j as int));
        keys.push(item);
        assert(order::keys_view(keys@) =~= before.push(key(j as int)));
        j += 1;
    }
    let sorted = sorted_places(keys, Ghost(j as int), Ghost(keep), Ghost(key));
    let ghost at = places(sorted@);
    let mut out: Vec<LocalModel> = Vec::new();
    let mut k: usize = 0;
    while k < sorted.len()
        invariant
            k <= sorted@.len(),
            found == models_view(models@),
            at == places(sorted@),
            model_places(found, at),
            out@.len() == k,
            forall|m: int| 0 <= m < k ==> (#[trigger] out@[m])@ == found[at[m]],
        decreases sorted@.len() - k,
    {
        assert(at[k as int] == sorted@[k as int]);
        assert(found[at[k as int]] == models@[sorted@[k as int] as int]@);
        out.push(models[sorted[k]].duplicate());
        k += 1;
    }
    assert(models_view(out@) =~= models_at(found, at));
    assert(model_places(found, at));
    out
}

// ---------- what a model's place says ----------

/// The names of a path, without `.` and `..`.
pub open spec fn name_parts(parts: Seq<Seq<char>>, n: int) -> Seq<Seq<char>>
    decreases n,
{
    if n <= 0 {
        Seq::empty()
    } else {
        let before = name_parts(parts, n - 1);
        let p = parts[n - 1];
        if p.len() == 0 || p == "."@ || p == ".."@ {
            before
        } else {
            before.push(p)
        }
    }
}

pub open spec fn parts_of(path: Seq<char>) -> Seq<Seq<char>> {
    let all = text::pieces(path, '/');
    name_parts(all, all.len() as int)
}

/// The parts from `from` up to `n`, with `/` between them.
pub open spec fn joined_from(parts: Seq<Seq<char>>, from: int, n: int) -> Seq<char>
    decreases n - from,
{
    if n <= from {
        Seq::empty()
    } else if n == from + 1 {
        parts[from]
    } else {
        joined_from(parts, from, n - 1) + "/"@ + parts[n - 1]
    }
}

pub open spec fn spec_repo_id(m: ModelView) -> Seq<char> {
    let parts = parts_of(m.relative_path);
    if parts.len() >= 3 {
        parts[0] + "/"@ + parts[1]
    } else {
        names::spec_infer_repo_id(m.file_name)
    }
}

pub open spec fn spec_path_in_repo(m: ModelView) -> Seq<char> {
    let parts = parts_of(m.relative_path);
    if parts.len() >= 3 {
        joined_from(parts, 2, parts.len() as int)
    } else {
        m.file_name
    }
}

impl LocalModel {
    /// The id for requests: the full path.
    pub fn id(&self) -> (r: String)
        ensures
            r@ == self@.path,
    {
        self.path.clone()
    }

    fn relative_parts(&self) -> (r: Vec<String>)
        ensures
            text::views(r@) == parts_of(self@.relative_path),
    {
        let all = text::split(self.relative_path.as_str(), '/');
        let ghost view = text::views(all@);
        let mut out: Vec<String> = Vec::new();
        let mut i: usize = 0;
        assert(text::views(out@) =~= Seq::empty());
        while i < all.len()
            invariant
                i <= all@.len(),
                view == text::views(all@),
                text::views(out@) == name_parts(view, i as int),
            decreases all@.len() - i,
        {
            assert(view[i as int] == all@[i as int]@);
            let p = &all[i];
            if !(p.as_str().is_empty() || text::same(p.as_str(), ".") || text::same(
                p.as_str(),
                "..",
            )) {
                let ghost before = text::views(out@);
                out.push(p.clone());
                assert(text::views(out@) =~= before.push(p@));
            }
            i += 1;
        }
        out
    }

    /// The repository: from the folders `<org>/<repo>/…`, else a guess from the name of the file.
    pub fn repo_id(&self) -> (r: String)
        ensures
            r@ == spec_repo_id(self@),
    {
        let parts = self.relative_parts();
        let ghost view = text::views(parts@);
        if parts.len() >= 3 {
            assert(view[0] == parts@[0]@ && view[1] == parts@[1]@);
            text::join3(parts[0].as_str(), "/", parts[1].as_str())
        } else {
            infer_repo_id_from_gguf_filename(self.file_name.as_str())
        }
    }

    /// The path of the first file inside the repository, or its name.
    pub fn path_in_repo(&self) -> (r: String)
        ensures
            r@ == spec_path_in_repo(self@),
    {
        let parts = self.relative_parts();
        let ghost view = text::views(parts@);
        if parts.len() < 3 {
            return self.file_name.clone();
        }
        assert(view[2] == parts@[2]@);
        let mut out = parts[2].clone();
        let mut i: usize = 3;
        while i < parts.len()
            invariant
                3 <= i <= parts@.len(),
                view == text::views(parts@),
                out@ == joined_from(view, 2, i as int),
            decreases parts@.len() - i,
        {
            assert(view[i as int] == parts@[i as int]@);
            out = text::join3(out.as_str(), "/", parts[i].as_str());
            i += 1;
        }
        out
    }

    /// The quantization, from the path inside the repository.
    pub fn quant(&self) -> (r: String)
        ensures
            r@ == names::spec_quant(spec_path_in_repo(self@)),
    {
        extract_quant_from_path(self.path_in_repo().as_str())
    }
}

/// No file stands for two models.
pub open spec fn paths_distinct(models: Seq<ModelView>) -> bool {
    forall|i: int, j: int|
        0 <= i < j < models.len() ==> (#[trigger] models[i]).path != (#[trigger] models[j]).path
}

proof fn lemma_files_added_distinct(
    f: FolderView,
    files: Seq<int>,
    root: Seq<char>,
    root_index: int,
    models: Seq<ModelView>,
    n: int,
)
    requires
        paths_distinct(models),
    ensures
        paths_distinct(files_added(f, files, root, root_index, models, n)),
    decreases n,
{
    if n > 0 {
        lemma_files_added_distinct(f, files, root, root_index, models, n - 1);
        let before = files_added(f, files, root, root_index, models, n - 1);
        let after = files_added(f, files, root, root_index, models, n);
        assert forall|i: int, j: int| 0 <= i < j < after.len() implies (#[trigger] after[i]).path
            != (#[trigger] after[j]).path by {
            assert(after[i] == before[i]);
            if j < before.len() {
                assert(after[j] == before[j]);
            }
        }
    }
}

proof fn lemma_folder_distinct(
    f: FolderView,
    root: Seq<char>,
    root_index: int,
    depth: int,
    st: ScanState,
)
    requires
        paths_distinct(st.models),
    ensures
        paths_distinct(folder_walked(f, root, root_index, depth, st).models),
    decreases f, 0int,
{
    lemma_entries_distinct(f.entries, 0, root, root_index, depth, st, Seq::empty());
    match entries_walked(f.entries, 0, root, root_index, depth, st, Seq::empty()) {
        (after, None) => {},
        (after, Some(files)) => {
            lemma_files_added_distinct(
                f,
                files,
                root,
                root_index,
                after.models,
                files.len() as int,
            );
        },
    }
}

proof fn lemma_entries_distinct(
    entries: Seq<EntryView>,
    i: int,
    root: Seq<char>,
    root_index: int,
    depth: int,
    st: ScanState,
    files: Seq<int>,
)
    requires
        paths_distinct(st.models),
    ensures
        paths_distinct(
            entries_walked(entries, i, root, root_index, depth, st, files).0.models,
        ),
    decreases entries, entries.len() - i,
{
    if 0 <= i < entries.len() && st.budget != 0 {
        let e = entries[i];
        let paid = ScanState { budget: st.budget - 1, models: st.models };
        if hidden_name(e.name) {
            lemma_entries_distinct(entries, i + 1, root, root_index, depth, paid, files);
        } else {
            match e.kind {
                KindView::Folder(sub) => {
                    let after = if depth < MAX_SCAN_DEPTH {
                        folder_walked(sub, root, root_index, depth + 1, paid)
                    } else {
                        paid
                    };
                    if depth < MAX_SCAN_DEPTH {
                        lemma_folder_distinct(sub, root, root_index, depth + 1, paid);
                    }
                    lemma_entries_distinct(entries, i + 1, root, root_index, depth, after, files);
                },
                KindView::File => {
                    lemma_entries_distinct(
                        entries,
                        i + 1,
                        root,
                        root_index,
                        depth,
                        paid,
                        files.push(i),
                    );
                    lemma_entries_distinct(entries, i + 1, root, root_index, depth, paid, files);
                },
                _ => {
                    lemma_entries_distinct(entries, i + 1, root, root_index, depth, paid, files);
                },
            }
        }
    }
}

/// Every model is found once, however often its folder is given.
pub proof fn law_models_are_found_once(roots: Seq<Option<FolderView>>, n: int)
    ensures
        paths_distinct(roots_walked(roots, n).models),
    decreases n,
{
    if n > 0 {
        law_models_are_found_once(roots, n - 1);
        match roots[n - 1] {
            Some(f) => {
                lemma_folder_distinct(f, f.path, n - 1, 0, roots_walked(roots, n - 1));
            },
            None => {},
        }
    }
}

// ---------- a root that is given again ----------

/// Whether everything that some models stand for is among others.
spec fn all_known(models: Seq<ModelView>, others: Seq<ModelView>) -> bool {
    forall|path: Seq<char>| #[trigger] is_known(models, path) ==> is_known(others, path)
}

proof fn lemma_known_in_longer(models: Seq<ModelView>, m: ModelView)
    ensures
        all_known(models, models.push(m)),
        is_known(models.push(m), m.path),
{
    let longer = models.push(m);
    assert(longer[models.len() as int].path == m.path);
    assert forall|path: Seq<char>| #[trigger] is_known(models, path) implies is_known(
        longer,
        path,
    ) by {
        let i = choose|i: int| 0 <= i < models.len() && (#[trigger] models[i]).path == path;
        assert(longer[i].path == path);
    }
}

proof fn lemma_files_stay_known(
    f: FolderView,
    files: Seq<int>,
    root: Seq<char>,
    root_index: int,
    models: Seq<ModelView>,
    n: int,
)
    ensures
        all_known(models, files_added(f, files, root, root_index, models, n)),
        forall|k: int|
            0 <= k < n && (#[trigger] model_at(f, files[k], root, root_index)) is Some
                ==> is_known(
                files_added(f, files, root, root_index, models, n),
                model_at(f, files[k], root, root_index)->0.path,
            ),
    decreases n,
{
    if n > 0 {
        lemma_files_stay_known(f, files, root, root_index, models, n - 1);
        let before = files_added(f, files, root, root_index, models, n - 1);
        match model_at(f, files[n - 1], root, root_index) {
            Some(m) => {
                lemma_known_in_longer(before, m);
            },
            None => {},
        }
    }
}

proof fn lemma_folder_stays_known(
    f: FolderView,
    root: Seq<char>,
    root_index: int,
    depth: int,
    st: ScanState,
)
    requires
        st.budget >= 0,
    ensures
        all_known(st.models, folder_walked(f, root, root_index, depth, st).models),
        0 <= folder_walked(f, root, root_index, depth, st).budget <= st.budget,
    decreases f, 0int,
{
    lemma_entries_stay_known(f.entries, 0, root, root_index, depth, st, Seq::empty());
    match entries_walked(f.entries, 0, root, root_index, depth, st, Seq::empty()) {
        (after, None) => {},
        (after, Some(files)) => {
            lemma_files_stay_known(f, files, root, root_index, after.models, files.len() as int);
        },
    }
}

proof fn lemma_entries_stay_known(
    entries: Seq<EntryView>,
    i: int,
    root: Seq<char>,
    root_index: int,
    depth: int,
    st: ScanState,
    files: Seq<int>,
)
    requires
        st.budget >= 0,
    ensures
        all_known(
            st.models,
            entries_walked(entries, i, root, root_index, depth, st, files).0.models,
        ),
        0 <= entries_walked(entries, i, root, root_index, depth, st, files).0.budget <= st.budget,
    decreases entries, entries.len() - i,
{
    if 0 <= i < entries.len() && st.budget != 0 {
        let e = entries[i];
        let paid = ScanState { budget: st.budget - 1, models: st.models };
        if hidden_name(e.name) {
            lemma_entries_stay_known(entries, i + 1, root, root_index, depth, paid, files);
        } else {
            match e.kind {
                KindView::Folder(sub) => {
                    let after = if depth < MAX_SCAN_DEPTH {
                        folder_walked(sub, root, root_index, depth + 1, paid)
                    } else {
                        paid
                    };
                    if depth < MAX_SCAN_DEPTH {
                        lemma_folder_stays_known(sub, root, root_index, depth + 1, paid);
                    }
                    lemma_entries_stay_known(entries, i + 1, root, root_index, depth, after, files);
                },
                KindView::File => {
                    lemma_entries_stay_known(
                        entries,
                        i + 1,
                        root,
                        root_index,
                        depth,
                        paid,
                        files.push(i),
                    );
                    lemma_entries_stay_known(entries, i + 1, root, root_index, depth, paid, files);
                },
                _ => {
                    lemma_entries_stay_known(entries, i + 1, root, root_index, depth, paid, files);
                },
            }
        }
    }
}

/// Files whose models are known already add nothing.
proof fn lemma_known_files_add_nothing(
    f: FolderView,
    files: Seq<int>,
    root: Seq<char>,
    root_index: int,
    models: Seq<ModelView>,
    n: int,
)
    requires
        forall|k: int|
            0 <= k < n && (#[trigger] model_at(f, files[k], root, root_index)) is Some
                ==> is_known(models, model_at(f, files[k], root, root_index)->0.path),
    ensures
        files_added(f, files, root, root_index, models, n) == models,
    decreases n,
{
    if n > 0 {
        lemma_known_files_add_nothing(f, files, root, root_index, models, n - 1);
        let m = model_at(f, files[n - 1], root, root_index);
    }
}

/// A folder that was walked once adds nothing when it is walked again with no more budget.
proof fn lemma_folder_again(
    f: FolderView,
    root: Seq<char>,
    first: int,
    second: int,
    depth: int,
    a: ScanState,
    b: ScanState,
)
    requires
        0 <= b.budget <= a.budget,
        all_known(folder_walked(f, root, first, depth, a).models, b.models),
    ensures
        folder_walked(f, root, second, depth, b).models == b.models,
        folder_walked(f, root, second, depth, b).budget <= folder_walked(
            f,
            root,
            first,
            depth,
            a,
        ).budget,
    decreases f, 0int,
{
    let none = Seq::<int>::empty();
    let one = entries_walked(f.entries, 0, root, first, depth, a, none);
    match one.1 {
        Some(files) => {
            lemma_files_stay_known(f, files, root, first, one.0.models, files.len() as int);
        },
        None => {},
    }
    lemma_entries_again(f.entries, 0, root, first, second, depth, a, b, none);
    let two = entries_walked(f.entries, 0, root, second, depth, b, none);
    match two.1 {
        Some(files) => {
            let n = files.len() as int;
            assert forall|k: int|
                0 <= k < n && (#[trigger] model_at(f, files[k], root, second)) is Some implies is_known(
                b.models,
                model_at(f, files[k], root, second)->0.path,
            ) by {
                assert(model_at(f, files[k], root, first) is Some);
                assert(model_at(f, files[k], root, first)->0.path == model_at(
                    f,
                    files[k],
                    root,
                    second,
                )->0.path);
            }
            lemma_known_files_add_nothing(f, files, root, second, b.models, n);
        },
        None => {},
    }
}

proof fn lemma_entries_again(
    entries: Seq<EntryView>,
    i: int,
    root: Seq<char>,
    first: int,
    second: int,
    depth: int,
    a: ScanState,
    b: ScanState,
    files: Seq<int>,
)
    requires
        0 <= b.budget <= a.budget,
        all_known(
            entries_walked(entries, i, root, first, depth, a, files).0.models,
            b.models,
        ),
    ensures
        ({
            let one = entries_walked(entries, i, root, first, depth, a, files);
            let two = entries_walked(entries, i, root, second, depth, b, files);
            &&& two.0.models == b.models
            &&& two.0.budget <= one.0.budget
            &&& two.1 is Some ==> one.1 == two.1
        }),
    decreases entries, entries.len() - i,
{
    if 0 <= i < entries.len() {
        if b.budget == 0 {
            lemma_entries_stay_known(entries, i, root, first, depth, a, files);
        } else {
            let e = entries[i];
            let paid_a = ScanState { budget: a.budget - 1, models: a.models };
            let paid_b = ScanState { budget: b.budget - 1, models: b.models };
            let next = i + 1;
            if hidden_name(e.name) {
                lemma_entries_again(
                    entries, next, root, first, second, depth, paid_a, paid_b, files,
                );
            } else {
                match e.kind {
                    KindView::Folder(sub) => {
                        if depth < MAX_SCAN_DEPTH {
                            let in_a = folder_walked(sub, root, first, depth + 1, paid_a);
                            let in_b = folder_walked(sub, root, second, depth + 1, paid_b);
                            lemma_folder_stays_known(sub, root, first, depth + 1, paid_a);
                            lemma_folder_stays_known(sub, root, second, depth + 1, paid_b);
                            lemma_entries_stay_known(
                                entries, next, root, first, depth, in_a, files,
                            );
                            lemma_folder_again(
                                sub, root, first, second, depth + 1, paid_a, paid_b,
                            );
                            lemma_entries_again(
                                entries, next, root, first, second, depth, in_a, in_b, files,
                            );
                        } else {
                            lemma_entries_again(
                                entries, next, root, first, second, depth, paid_a, paid_b, files,
                            );
                        }
                    },
                    KindView::File => {
                        let kept = if gguf_name(e.name) && !projector_name(e.name) {
                            files.push(i)
                        } else {
                            files
                        };
                        lemma_entries_again(
                            entries, next, root, first, second, depth, paid_a, paid_b, kept,
                        );
                    },
                    _ => {
                        lemma_entries_again(
                            entries, next, root, first, second, depth, paid_a, paid_b, files,
                        );
                    },
                }
            }
        }
    }
}

proof fn lemma_roots_stay_known(roots: Seq<Option<FolderView>>, k: int, n: int)
    requires
        0 <= k <= n,
    ensures
        all_known(roots_walked(roots, k).models, roots_walked(roots, n).models),
        0 <= roots_walked(roots, n).budget <= roots_walked(roots, k).budget,
    decreases n,
{
    if n > 0 {
        if k < n {
            lemma_roots_stay_known(roots, k, n - 1);
        } else {
            lemma_roots_stay_known(roots, n - 1, n - 1);
        }
        match roots[n - 1] {
            Some(f) => {
                lemma_folder_stays_known(f, f.path, n - 1, 0, roots_walked(roots, n - 1));
            },
            None => {},
        }
    }
}

/// A root that is listed again changes nothing in what was found.
pub proof fn law_root_listed_again_adds_nothing(roots: Seq<Option<FolderView>>, i: int, n: int)
    requires
        0 <= i < n < roots.len(),
        roots[i] == roots[n],
    ensures
        roots_walked(roots, n + 1).models == roots_walked(roots, n).models,
{
    match roots[n] {
        Some(f) => {
            let a = roots_walked(roots, i);
            let b = roots_walked(roots, n);
            lemma_roots_stay_known(roots, i, n);
            lemma_roots_stay_known(roots, i + 1, n);
            lemma_folder_again(f, f.path, i, n, 0, a, b);
        },
        None => {},
    }
}

/// A whole list of roots given once more finds what it finds once.
pub proof fn law_roots_listed_twice_find_the_same(
    roots: Seq<Option<FolderView>>,
    again: Seq<Option<FolderView>>,
    n: int,
)
    requires
        roots.len() <= n <= again.len(),
        forall|i: int| 0 <= i < roots.len() ==> again[i] == roots[i],
        forall|i: int|
            roots.len() <= i < again.len() ==> roots.contains(#[trigger] again[i]),
    ensures
        roots_walked(again, n).models == roots_walked(roots, roots.len() as int).models,
    decreases n,
{
    if n > roots.len() {
        law_roots_listed_twice_find_the_same(roots, again, n - 1);
        let i = choose|i: int| 0 <= i < roots.len() && roots[i] == again[n - 1];
        assert(roots.contains(again[n - 1]));
        law_root_listed_again_adds_nothing(again, i, n - 1);
    } else {
        lemma_same_roots(roots, again, n);
    }
}

proof fn lemma_same_roots(
    a: Seq<Option<FolderView>>,
    b: Seq<Option<FolderView>>,
    n: int,
)
    requires
        n <= a.len(),
        n <= b.len(),
        forall|i: int| 0 <= i < n ==> a[i] == b[i],
    ensures
        roots_walked(a, n) == roots_walked(b, n),
    decreases n,
{
    if n > 0 {
        lemma_same_roots(a, b, n - 1);
    }
}

} // verus!
