//! Models on disk and in repositories: what is found, and which variants there are.

use vstd::prelude::*;
use vstd::utf8::*;

use crate::model_scan;
use crate::names;
use crate::names::{
    extract_quant_from_path, file_matches_repo_and_quant, infer_repo_id_from_gguf_filename,
};
use crate::text;

verus! {

/// The context length that is shown where the file does not tell it.
pub const DEFAULT_CONTEXT_LENGTH: u64 = 131_072;

/// A variant is recommended if its weights take no more than this.
pub const RECOMMENDED_LIMIT_BYTES: u64 = 3_200_000_000;

#[derive(Debug)]
pub struct RepoVariantsQuery {
    pub repo_id: Option<String>,
    pub local_path: Option<String>,
    pub prefer_local_cache: Option<bool>,
}

/// A file that was found in a folder.
#[derive(Debug)]
pub struct FileEntry {
    pub path: String,
    pub filename: String,
    pub size_bytes: u64,
    pub mtime_epoch_secs: u64,
}

/// A model file with what its name tells.
#[derive(Debug)]
pub struct ScannedGgufFile {
    pub path: String,
    pub filename: String,
    pub size_bytes: u64,
    pub mtime_epoch_secs: u64,
    pub quant: String,
    pub repo_id: String,
    pub display_name: String,
}

#[verifier::ext_equal]
pub struct EntryView {
    pub path: Seq<char>,
    pub filename: Seq<char>,
    pub size_bytes: u64,
    pub mtime: u64,
}

#[verifier::ext_equal]
pub struct ScannedView {
    pub path: Seq<char>,
    pub filename: Seq<char>,
    pub size_bytes: u64,
    pub mtime: u64,
    pub quant: Seq<char>,
    pub repo_id: Seq<char>,
    pub display_name: Seq<char>,
}

impl View for FileEntry {
    type V = EntryView;

    open spec fn view(&self) -> EntryView {
        EntryView {
            path: self.path@,
            filename: self.filename@,
            size_bytes: self.size_bytes,
            mtime: self.mtime_epoch_secs,
        }
    }
}

impl View for ScannedGgufFile {
    type V = ScannedView;

    open spec fn view(&self) -> ScannedView {
        ScannedView {
            path: self.path@,
            filename: self.filename@,
            size_bytes: self.size_bytes,
            mtime: self.mtime_epoch_secs,
            quant: self.quant@,
            repo_id: self.repo_id@,
            display_name: self.display_name@,
        }
    }
}

pub open spec fn entries_view(s: Seq<FileEntry>) -> Seq<EntryView> {
    Seq::new(s.len(), |i: int| s[i]@)
}

pub open spec fn scanned_view(s: Seq<ScannedGgufFile>) -> Seq<ScannedView> {
    Seq::new(s.len(), |i: int| s[i]@)
}

/// What the name of a file tells.
pub open spec fn described(e: EntryView) -> ScannedView {
    ScannedView {
        path: e.path,
        filename: e.filename,
        size_bytes: e.size_bytes,
        mtime: e.mtime,
        quant: names::spec_quant(e.filename),
        repo_id: names::spec_infer_repo_id(e.filename),
        display_name: text::without_suffixes(e.filename, ".gguf"@),
    }
}

pub open spec fn is_gguf(filename: Seq<char>) -> bool {
    text::has_suffix(filename, ".gguf"@)
}

/// Whether no file before number `k` has its name.
pub open spec fn first_of_name(entries: Seq<EntryView>, k: int) -> bool {
    forall|j: int| 0 <= j < k ==> (#[trigger] entries[j]).filename != entries[k].filename
}

/// Whether a file of this name was found.
pub open spec fn has_file(files: Seq<ScannedView>, filename: Seq<char>) -> bool {
    exists|i: int| 0 <= i < files.len() && (#[trigger] files[i]).filename == filename
}

/// Whether a file comes from one of the first `n` entries, and from the first of its name.
pub open spec fn comes_from(f: ScannedView, entries: Seq<EntryView>, n: int) -> bool {
    exists|k: int|
        0 <= k < n && f == described(#[trigger] entries[k]) && is_gguf(entries[k].filename)
            && first_of_name(entries, k)
}

/// The model files among the first `n` entries, by name; of several of the same name the first.
pub open spec fn scan_ok(files: Seq<ScannedView>, entries: Seq<EntryView>, n: int) -> bool {
    &&& forall|i: int, j: int|
        0 <= i < j < files.len() ==> text::before(
            (#[trigger] files[i]).filename,
            (#[trigger] files[j]).filename,
        )
    &&& forall|i: int| 0 <= i < files.len() ==> comes_from(#[trigger] files[i], entries, n)
    &&& forall|k: int|
        0 <= k < n && is_gguf((#[trigger] entries[k]).filename) ==> has_file(
            files,
            entries[k].filename,
        )
}

fn describe(e: &FileEntry) -> (r: ScannedGgufFile)
    ensures
        r@ == described(e@),
{
    proof {
        reveal_strlit(".gguf");
    }
    let name = e.filename.as_str();
    ScannedGgufFile {
        path: e.path.clone(),
        filename: e.filename.clone(),
        size_bytes: e.size_bytes,
        mtime_epoch_secs: e.mtime_epoch_secs,
        quant: extract_quant_from_path(name),
        repo_id: infer_repo_id_from_gguf_filename(name),
        display_name: text::cut_suffixes(name, ".gguf"),
    }
}

/// Puts a file into a list that is sorted by name and does not hold the name.
fn insert_file(files: &mut Vec<ScannedGgufFile>, item: ScannedGgufFile)
    requires
        forall|i: int, j: int|
            0 <= i < j < old(files)@.len() ==> text::before(
                (#[trigger] old(files)@[i]).filename@,
                (#[trigger] old(files)@[j]).filename@,
            ),
        !has_file(scanned_view(old(files)@), item.filename@),
    ensures
        forall|i: int, j: int|
            0 <= i < j < final(files)@.len() ==> text::before(
                (#[trigger] final(files)@[i]).filename@,
                (#[trigger] final(files)@[j]).filename@,
            ),
        exists|at: int|
            0 <= at <= old(files)@.len() && final(files)@ == #[trigger] old(files)@.insert(
                at,
                item,
            ),
{
    let ghost before = files@;
    let ghost name = item.filename@;
    let mut at: usize = 0;
    while at < files.len() && text::comes_before(
        files[at].filename.as_str(),
        item.filename.as_str(),
    )
        invariant
            at <= files@.len(),
            files@ == before,
            name == item.filename@,
            forall|k: int| 0 <= k < at ==> text::before((#[trigger] before[k]).filename@, name),
        decreases files@.len() - at,
    {
        at += 1;
    }
    proof {
        let after = before.insert(at as int, item);
        if at < before.len() {
            text::lemma_before_is_total(before[at as int].filename@, name);
            assert(scanned_view(before)[at as int].filename == before[at as int].filename@);
        }
        assert forall|i: int, j: int| 0 <= i < j < after.len() implies text::before(
            (#[trigger] after[i]).filename@,
            (#[trigger] after[j]).filename@,
        ) by {
            let x = if i < at {
                i
            } else {
                i - 1
            };
            let y = if j < at {
                j
            } else {
                j - 1
            };
            if i != at && j != at {
                assert(text::before(before[x].filename@, before[y].filename@));
            } else if i == at {
                assert(after[j] == before[y]);
                if y > at {
                    assert(text::before(before[at as int].filename@, before[y].filename@));
                    text::lemma_before_is_transitive(
                        name,
                        before[at as int].filename@,
                        before[y].filename@,
                    );
                }
            } else {
                assert(after[i] == before[i]);
            }
        }
    }
    files.insert(at, item);
    assert(files@ == before.insert(at as int, item));
}

fn holds_file(files: &Vec<ScannedGgufFile>, filename: &String) -> (r: bool)
    ensures
        r == has_file(scanned_view(files@), filename@),
{
    let ghost view = scanned_view(files@);
    let mut i: usize = 0;
    while i < files.len()
        invariant
            i <= files@.len(),
            view == scanned_view(files@),
            forall|k: int| 0 <= k < i ==> (#[trigger] view[k]).filename != filename@,
        decreases files@.len() - i,
    {
        assert(view[i as int].filename == files@[i as int].filename@);
        if files[i].filename == *filename {
            return true;
        }
        i += 1;
    }
    false
}

/// The model files among the files of all folders, by name; of several of the same name the first.
pub fn scan_local_gguf_files(entries: &Vec<FileEntry>) -> (r: Vec<ScannedGgufFile>)
    ensures
        scan_ok(scanned_view(r@), entries_view(entries@), entries@.len() as int),
{
    let ghost all = entries_view(entries@);
    let mut files: Vec<ScannedGgufFile> = Vec::new();
    let mut k: usize = 0;
    while k < entries.len()
        invariant
            k <= entries@.len(),
            all == entries_view(entries@),
            scan_ok(scanned_view(files@), all, k as int),
        decreases entries@.len() - k,
    {
        let ghost before = files@;
        let ghost bv = scanned_view(before);
        assert(all[k as int] == entries@[k as int]@);
        proof {
            assert forall|i: int| 0 <= i < bv.len() implies comes_from(
                #[trigger] bv[i],
                all,
                k + 1,
            ) by {
                assert(comes_from(bv[i], all, k as int));
                let q = choose|q: int|
                    0 <= q < k && bv[i] == described(#[trigger] all[q]) && is_gguf(all[q].filename)
                        && first_of_name(all, q);
                assert(bv[i] == described(all[q]));
            }
            assert forall|i: int, j: int| 0 <= i < j < before.len() implies text::before(
                (#[trigger] before[i]).filename@,
                (#[trigger] before[j]).filename@,
            ) by {
                assert(bv[i].filename == before[i].filename@);
                assert(bv[j].filename == before[j].filename@);
            }
        }
        if text::ends_with(entries[k].filename.as_str(), ".gguf") {
            if !holds_file(&files, &entries[k].filename) {
                let item = describe(&entries[k]);
                let ghost seen = item@;
                insert_file(&mut files, item);
                proof {
                    let at = choose|at: int|
                        0 <= at <= before.len() && files@ == #[trigger] before.insert(at, item);
                    let av = scanned_view(files@);
                    assert(av =~= bv.insert(at, seen));
                    assert(first_of_name(all, k as int)) by {
                        assert forall|j: int| 0 <= j < k implies (#[trigger] all[j]).filename
                            != all[k as int].filename by {
                            if all[j].filename == all[k as int].filename {
                                assert(is_gguf(all[j].filename));
                                assert(has_file(bv, all[j].filename));
                            }
                        }
                    }
                    assert(comes_from(seen, all, k + 1)) by {
                        assert(seen == described(all[k as int]));
                    }
                    assert forall|i: int| 0 <= i < av.len() implies comes_from(
                        #[trigger] av[i],
                        all,
                        k + 1,
                    ) by {
                        if i < at {
                            assert(av[i] == bv[i]);
                        } else if i > at {
                            assert(av[i] == bv[i - 1]);
                        } else {
                            assert(av[i] == seen);
                        }
                    }
                    assert forall|j: int|
                        0 <= j < k + 1 && is_gguf((#[trigger] all[j]).filename) implies has_file(
                        av,
                        all[j].filename,
                    ) by {
                        if j == k {
                            assert(av[at].filename == all[j].filename);
                        } else {
                            let q = choose|q: int|
                                0 <= q < bv.len() && (#[trigger] bv[q]).filename
                                    == all[j].filename;
                            if q < at {
                                assert(av[q] == bv[q]);
                            } else {
                                assert(av[q + 1] == bv[q]);
                            }
                        }
                    }
                    assert forall|i: int, j: int| 0 <= i < j < av.len() implies text::before(
                        (#[trigger] av[i]).filename,
                        (#[trigger] av[j]).filename,
                    ) by {
                        assert(text::before(files@[i].filename@, files@[j].filename@));
                    }
                }
            }
        }
        k += 1;
    }
    files
}

/// The ways to look for a file that a request names: as it is, with the ending, and the same with the
/// file's name only.
pub open spec fn spec_attempts(candidate: Seq<char>) -> Seq<Seq<char>> {
    let s = text::trimmed(candidate);
    let has_ending = text::has_suffix(text::lower(s), ".gguf"@);
    let name = file_name(s);
    if s.len() == 0 {
        Seq::empty()
    } else {
        let first = if has_ending {
            seq![s]
        } else {
            seq![s, s + ".gguf"@]
        };
        if name is Some && name->0 != s {
            if has_ending {
                first.push(name->0)
            } else {
                first.push(name->0).push(name->0 + ".gguf"@)
            }
        } else {
            first
        }
    }
}

/// The last part of a path that is a name; a path without one, or one that ends in `..`, has none.
pub open spec fn file_name(path: Seq<char>) -> Option<Seq<char>> {
    last_name(text::pieces(path, '/'), text::pieces(path, '/').len() as int)
}

/// The last of the first `n` parts that counts: empty parts do not, nor does `.` behind the first.
pub open spec fn last_name(parts: Seq<Seq<char>>, n: int) -> Option<Seq<char>>
    decreases n,
{
    if n <= 0 {
        None
    } else if parts[n - 1].len() == 0 || (parts[n - 1] == "."@ && n > 1) {
        last_name(parts, n - 1)
    } else if parts[n - 1] == "."@ || parts[n - 1] == ".."@ {
        None
    } else {
        Some(parts[n - 1])
    }
}

/// The last part of a path that is a name.
pub fn name_of_path(path: &str) -> (r: Option<String>)
    ensures
        match r {
            Some(s) => file_name(path@) == Some(s@),
            None => file_name(path@) is None,
        },
{
    let parts = text::split(path, '/');
    let ghost all = text::pieces(path@, '/');
    let mut n: usize = parts.len();
    while n > 0
        invariant
            n <= parts@.len(),
            all == text::views(parts@),
            all == text::pieces(path@, '/'),
            last_name(all, n as int) == last_name(all, all.len() as int),
        decreases n,
    {
        let part = parts[n - 1].as_str();
        assert(all[n - 1] == parts@[n - 1]@);
        let dot = text::same(part, ".");
        if part.is_empty() || (dot && n > 1) {
            n -= 1;
        } else if dot || text::same(part, "..") {
            return None;
        } else {
            return Some(parts[n - 1].clone());
        }
    }
    None
}

/// The ways to look for a file that a request names.
pub fn local_attempts(candidate: &str) -> (r: Vec<String>)
    ensures
        text::views(r@) == spec_attempts(candidate@),
{
    let s = text::trim(candidate);
    let mut attempts: Vec<String> = Vec::new();
    if s.as_str().is_empty() {
        assert(text::views(attempts@) =~= Seq::<Seq<char>>::empty());
        return attempts;
    }
    let has_ending = text::ends_with(text::to_lower(s.as_str()).as_str(), ".gguf");
    attempts.push(s.clone());
    if !has_ending {
        attempts.push(text::join2(s.as_str(), ".gguf"));
    }
    if let Some(name) = name_of_path(s.as_str()) {
        if !text::same(name.as_str(), s.as_str()) {
            attempts.push(name.clone());
            if !has_ending {
                attempts.push(text::join2(name.as_str(), ".gguf"));
            }
        }
    }
    assert(text::views(attempts@) =~= spec_attempts(candidate@));
    attempts
}

/// One variant of a model.
#[derive(Debug)]
pub struct VariantEntry {
    pub filename: String,
    /// All files of the variant, where the repository lists them.
    pub files: Vec<String>,
    pub quant: String,
    pub display_label: String,
    pub size_bytes: u64,
    pub shard_count: Option<u64>,
    pub downloaded: bool,
}

#[derive(Debug)]
pub struct VariantsAnswer {
    pub repo_id: String,
    pub has_vision: bool,
    pub default_variant: String,
    pub context_length: u64,
    pub resolved_locally: bool,
    pub variants: Vec<VariantEntry>,
}

#[verifier::ext_equal]
pub struct VariantView {
    pub filename: Seq<char>,
    pub files: Seq<Seq<char>>,
    pub quant: Seq<char>,
    pub label: Seq<char>,
    pub size_bytes: u64,
    pub shard_count: Option<u64>,
    pub downloaded: bool,
}

impl View for VariantEntry {
    type V = VariantView;

    open spec fn view(&self) -> VariantView {
        VariantView {
            filename: self.filename@,
            files: text::views(self.files@),
            quant: self.quant@,
            label: self.display_label@,
            size_bytes: self.size_bytes,
            shard_count: self.shard_count,
            downloaded: self.downloaded,
        }
    }
}

#[verifier::ext_equal]
pub struct AnswerView {
    pub repo_id: Seq<char>,
    pub has_vision: bool,
    pub default_variant: Seq<char>,
    pub context_length: u64,
    pub resolved_locally: bool,
    pub variants: Seq<VariantView>,
}

pub open spec fn variants_view(s: Seq<VariantEntry>) -> Seq<VariantView> {
    Seq::new(s.len(), |i: int| s[i]@)
}

impl View for VariantsAnswer {
    type V = AnswerView;

    open spec fn view(&self) -> AnswerView {
        AnswerView {
            repo_id: self.repo_id@,
            has_vision: self.has_vision,
            default_variant: self.default_variant@,
            context_length: self.context_length,
            resolved_locally: self.resolved_locally,
            variants: variants_view(self.variants@),
        }
    }
}

/// The variant of a file that is on disk.
pub open spec fn disk_variant(filename: Seq<char>, quant: Seq<char>, size: u64) -> VariantView {
    VariantView {
        filename,
        files: Seq::empty(),
        quant,
        label: quant + " (Downloaded)"@,
        size_bytes: size,
        shard_count: Some(1),
        downloaded: true,
    }
}

fn on_disk(filename: &String, quant: &String, size_bytes: u64) -> (r: VariantEntry)
    ensures
        r@ == disk_variant(filename@, quant@, size_bytes),
{
    let r = VariantEntry {
        filename: filename.clone(),
        files: Vec::new(),
        quant: quant.clone(),
        display_label: text::join2(quant.as_str(), " (Downloaded)"),
        size_bytes,
        shard_count: Some(1),
        downloaded: true,
    };
    assert(r@ =~= disk_variant(filename@, quant@, size_bytes));
    r
}

/// The answer for a request that names a file on disk. `context_length` is what the file says of it.
pub open spec fn local_answer(
    repo_id: Seq<char>,
    filename: Seq<char>,
    size: u64,
    context_length: Option<u64>,
) -> AnswerView {
    let quant = names::spec_quant(filename);
    AnswerView {
        repo_id,
        has_vision: false,
        default_variant: quant,
        context_length: match context_length {
            Some(n) => n,
            None => DEFAULT_CONTEXT_LENGTH,
        },
        resolved_locally: true,
        variants: seq![disk_variant(filename, quant, size)],
    }
}

/// The answer for a request that names a file on disk.
pub fn local_file_variants(
    repo_id: &String,
    filename: &String,
    size_bytes: u64,
    context_length: Option<u64>,
) -> (r: VariantsAnswer)
    ensures
        r@ == local_answer(repo_id@, filename@, size_bytes, context_length),
{
    let quant = extract_quant_from_path(filename.as_str());
    let mut variants: Vec<VariantEntry> = Vec::new();
    variants.push(on_disk(filename, &quant, size_bytes));
    assert(variants_view(variants@) =~= seq![disk_variant(filename@, quant@, size_bytes)]);
    VariantsAnswer {
        repo_id: repo_id.clone(),
        has_vision: false,
        default_variant: quant,
        context_length: match context_length {
            Some(n) => n,
            None => DEFAULT_CONTEXT_LENGTH,
        },
        resolved_locally: true,
        variants,
    }
}

/// Whether two names are the same but for case.
pub open spec fn like(a: Seq<char>, b: Seq<char>) -> bool {
    text::lower(a) == text::lower(b)
}

/// Whether a file on disk belongs to a repository.
pub open spec fn belongs(f: ScannedView, repo_id: Seq<char>) -> bool {
    names::spec_file_matches(f.filename, repo_id, f.quant) || like(f.repo_id, repo_id)
}

fn belongs_to(f: &ScannedGgufFile, repo_id: &str) -> (r: bool)
    ensures
        r == belongs(f@, repo_id@),
{
    file_matches_repo_and_quant(f.filename.as_str(), repo_id, f.quant.as_str())
        || text::same_ignoring_case(f.repo_id.as_str(), repo_id)
}

/// The variants of the files that belong to a repository, among the first `n`.
pub open spec fn cached_variants(
    files: Seq<ScannedView>,
    repo_id: Seq<char>,
    n: int,
) -> Seq<VariantView>
    decreases n,
{
    if n <= 0 {
        Seq::empty()
    } else {
        let before = cached_variants(files, repo_id, n - 1);
        let f = files[n - 1];
        if belongs(f, repo_id) {
            before.push(disk_variant(f.filename, f.quant, f.size_bytes))
        } else {
            before
        }
    }
}

/// The answer from the files on disk alone, if any of them belongs to the repository: the last one is
/// the default.
pub open spec fn cached_answer(files: Seq<ScannedView>, repo_id: Seq<char>) -> Option<AnswerView> {
    let variants = cached_variants(files, repo_id, files.len() as int);
    if variants.len() == 0 {
        None
    } else {
        Some(
            AnswerView {
                repo_id,
                has_vision: false,
                default_variant: variants.last().quant,
                context_length: DEFAULT_CONTEXT_LENGTH,
                resolved_locally: true,
                variants,
            },
        )
    }
}

/// The answer from the files on disk alone.
pub fn cached_file_variants(files: &Vec<ScannedGgufFile>, repo_id: &String) -> (r: Option<
    VariantsAnswer,
>)
    ensures
        match r {
            Some(a) => cached_answer(scanned_view(files@), repo_id@) == Some(a@),
            None => cached_answer(scanned_view(files@), repo_id@) is None,
        },
{
    let ghost view = scanned_view(files@);
    let mut variants: Vec<VariantEntry> = Vec::new();
    let mut default_variant = "Q4_K_M".to_owned();
    let mut i: usize = 0;
    assert(variants_view(variants@) =~= Seq::<VariantView>::empty());
    while i < files.len()
        invariant
            i <= files@.len(),
            view == scanned_view(files@),
            variants_view(variants@) == cached_variants(view, repo_id@, i as int),
            variants@.len() > 0 ==> default_variant@ == variants_view(variants@).last().quant,
        decreases files@.len() - i,
    {
        assert(view[i as int] == files@[i as int]@);
        if belongs_to(&files[i], repo_id.as_str()) {
            let ghost before = variants_view(variants@);
            let item = on_disk(&files[i].filename, &files[i].quant, files[i].size_bytes);
            let ghost seen = item@;
            variants.push(item);
            default_variant = files[i].quant.clone();
            assert(variants_view(variants@) =~= before.push(seen));
        }
        i += 1;
    }
    if variants.len() == 0 {
        return None;
    }
    Some(
        VariantsAnswer {
            repo_id: repo_id.clone(),
            has_vision: false,
            default_variant,
            context_length: DEFAULT_CONTEXT_LENGTH,
            resolved_locally: true,
            variants,
        },
    )
}

/// What is known of the two usual variants of a repository without asking anybody: names, sizes, and
/// whether the smaller one is recommended.
#[verifier::ext_equal]
pub struct Guess {
    pub q4_name: Seq<char>,
    pub q8_name: Seq<char>,
    pub q4_size: u64,
    pub q8_size: u64,
    pub recommended: bool,
}

/// The name of a repository without its owner and its ending.
pub open spec fn bare_repo(repo_id: Seq<char>) -> Seq<char> {
    let part = text::last_piece(repo_id, '/');
    if text::has_suffix(part, "-GGUF"@) {
        part.take(part.len() - "-GGUF"@.len())
    } else {
        text::without_suffix(part, "_GGUF"@)
    }
}

/// The guess for a repository whose name in lower case is `lower`, and whose sizes are estimated so.
pub open spec fn guess_of(
    repo_id: Seq<char>,
    lower: Seq<char>,
    sizes: (u64, u64, bool),
) -> Guess {
    if text::has_part(lower, "llama-3.2-3b"@) || repo_id == "unsloth/Llama-3.2-3B-Instruct-GGUF"@ {
        Guess {
            q4_name: "model-Q4_K_M.gguf"@,
            q8_name: "model-Q8_0.gguf"@,
            q4_size: 2_023_751_680,
            q8_size: 3_800_000_000,
            recommended: true,
        }
    } else if text::has_part(lower, "llama-3.2-1b"@) || repo_id
        == "unsloth/Llama-3.2-1B-Instruct-GGUF"@ {
        Guess {
            q4_name: "Llama-3.2-1B-Instruct-Q4_K_M.gguf"@,
            q8_name: "Llama-3.2-1B-Instruct-Q8_0.gguf"@,
            q4_size: 807_694_368,
            q8_size: 1_500_000_000,
            recommended: true,
        }
    } else {
        Guess {
            q4_name: bare_repo(repo_id) + "-Q4_K_M.gguf"@,
            q8_name: bare_repo(repo_id) + "-Q8_0.gguf"@,
            q4_size: sizes.0,
            q8_size: sizes.1,
            recommended: sizes.2,
        }
    }
}

/// The two usual variants of a repository, as long as nobody can be asked.
#[derive(Debug)]
pub struct OfflineGuess {
    pub q4_name: String,
    pub q8_name: String,
    pub q4_size: u64,
    pub q8_size: u64,
    pub recommended: bool,
}

impl View for OfflineGuess {
    type V = Guess;

    open spec fn view(&self) -> Guess {
        Guess {
            q4_name: self.q4_name@,
            q8_name: self.q8_name@,
            q4_size: self.q4_size,
            q8_size: self.q8_size,
            recommended: self.recommended,
        }
    }
}

/// The two usual variants of a repository, as long as nobody can be asked. `lower` is the name of the
/// repository in lower case, `sizes` the estimate for it.
pub fn guess_from_name(repo_id: &str, lower: &str, sizes: (u64, u64, bool)) -> (r: OfflineGuess)
    ensures
        r@ == guess_of(repo_id@, lower@, sizes),
{
    if text::contains(lower, "llama-3.2-3b") || text::same(
        repo_id,
        "unsloth/Llama-3.2-3B-Instruct-GGUF",
    ) {
        OfflineGuess {
            q4_name: "model-Q4_K_M.gguf".to_owned(),
            q8_name: "model-Q8_0.gguf".to_owned(),
            q4_size: 2_023_751_680,
            q8_size: 3_800_000_000,
            recommended: true,
        }
    } else if text::contains(lower, "llama-3.2-1b") || text::same(
        repo_id,
        "unsloth/Llama-3.2-1B-Instruct-GGUF",
    ) {
        OfflineGuess {
            q4_name: "Llama-3.2-1B-Instruct-Q4_K_M.gguf".to_owned(),
            q8_name: "Llama-3.2-1B-Instruct-Q8_0.gguf".to_owned(),
            q4_size: 807_694_368,
            q8_size: 1_500_000_000,
            recommended: true,
        }
    } else {
        let part = text::after_last(repo_id, '/');
        let bare = match text::strip_suffix(part.as_str(), "-GGUF") {
            Some(s) => s,
            None => text::cut_suffix(part.as_str(), "_GGUF"),
        };
        OfflineGuess {
            q4_name: text::join2(bare.as_str(), "-Q4_K_M.gguf"),
            q8_name: text::join2(bare.as_str(), "-Q8_0.gguf"),
            q4_size: sizes.0,
            q8_size: sizes.1,
            recommended: sizes.2,
        }
    }
}

/// The two usual variants of a repository, as long as nobody can be asked.
pub fn offline_guess(repo_id: &str) -> (r: OfflineGuess)
    ensures
        r@ == guess_of(repo_id@, text::lowered(repo_id@), names::sizes_of_repo(repo_id@)),
        is_ascii_chars(repo_id@) ==> r@ == guess_of(
            repo_id@,
            text::lower(repo_id@),
            names::sizes_of(text::lower(text::last_piece(repo_id@, '/'))),
        ),
{
    let sizes = names::estimate_model_quant_sizes(repo_id);
    guess_from_name(repo_id, text::to_lowercase(repo_id).as_str(), sizes)
}

/// A file that was looked for under its guessed name: whether it exists, and its size where that could
/// be read.
#[derive(Debug, Clone, Copy, PartialEq, Eq, Structural)]
pub struct Probe {
    pub exists: bool,
    pub size_bytes: Option<u64>,
}

/// One of the two usual variants while the files on disk are gone through.
#[verifier::ext_equal]
pub struct Slot {
    pub name: Seq<char>,
    pub size: u64,
    pub downloaded: bool,
}

#[verifier::ext_equal]
pub struct OfflineState {
    pub q4: Slot,
    pub q8: Slot,
    pub others: Seq<VariantView>,
}

/// What one more file on disk changes.
pub open spec fn offline_step(s: OfflineState, f: ScannedView, repo_id: Seq<char>) -> OfflineState {
    if !(belongs(f, repo_id) || like(f.filename, s.q4.name) || like(f.filename, s.q8.name)) {
        s
    } else if f.quant == "Q4_K_M"@ || text::has_part(f.filename, "Q4_K_M"@) {
        OfflineState {
            q4: Slot { name: f.filename, size: f.size_bytes, downloaded: true },
            q8: s.q8,
            others: s.others,
        }
    } else if f.quant == "Q8_0"@ || text::has_part(f.filename, "Q8_0"@) {
        OfflineState {
            q4: s.q4,
            q8: Slot { name: f.filename, size: f.size_bytes, downloaded: true },
            others: s.others,
        }
    } else {
        OfflineState {
            q4: s.q4,
            q8: s.q8,
            others: s.others.push(disk_variant(f.filename, f.quant, f.size_bytes)),
        }
    }
}

/// What the first `n` files on disk make of a guess.
pub open spec fn offline_state(
    g: Guess,
    files: Seq<ScannedView>,
    repo_id: Seq<char>,
    n: int,
) -> OfflineState
    decreases n,
{
    if n <= 0 {
        OfflineState {
            q4: Slot { name: g.q4_name, size: g.q4_size, downloaded: false },
            q8: Slot { name: g.q8_name, size: g.q8_size, downloaded: false },
            others: Seq::empty(),
        }
    } else {
        offline_step(offline_state(g, files, repo_id, n - 1), files[n - 1], repo_id)
    }
}

/// A variant that was not among the files may still be there under its guessed name.
pub open spec fn probed(s: Slot, p: Probe) -> Slot {
    if s.downloaded || !p.exists {
        s
    } else {
        Slot {
            name: s.name,
            size: match p.size_bytes {
                Some(n) => n,
                None => s.size,
            },
            downloaded: true,
        }
    }
}

pub open spec fn slot_variant(s: Slot, quant: Seq<char>, label: Seq<char>) -> VariantView {
    VariantView {
        filename: s.name,
        files: Seq::empty(),
        quant,
        label,
        size_bytes: s.size,
        shard_count: None,
        downloaded: s.downloaded,
    }
}

/// The first variant from `i` on that is on disk.
pub open spec fn first_downloaded(variants: Seq<VariantView>, i: int) -> Option<int>
    decreases variants.len() - i,
{
    if i >= variants.len() {
        None
    } else if variants[i].downloaded {
        Some(i)
    } else {
        first_downloaded(variants, i + 1)
    }
}

/// The answer as long as nobody can be asked.
pub open spec fn offline_answer(
    repo_id: Seq<char>,
    g: Guess,
    files: Seq<ScannedView>,
    q4_probe: Probe,
    q8_probe: Probe,
) -> AnswerView {
    let s = offline_state(g, files, repo_id, files.len() as int);
    let q4 = probed(s.q4, q4_probe);
    let q8 = probed(s.q8, q8_probe);
    let variants = seq![
        slot_variant(
            q4,
            "Q4_K_M"@,
            if q4.downloaded {
                "Q4_K_M (Downloaded)"@
            } else if g.recommended {
                "Q4_K_M (Recommended)"@
            } else {
                "Q4_K_M"@
            },
        ),
        slot_variant(
            q8,
            "Q8_0"@,
            if q8.downloaded {
                "Q8_0 (Downloaded)"@
            } else {
                "Q8_0"@
            },
        ),
    ] + s.others;
    AnswerView {
        repo_id,
        has_vision: false,
        default_variant: match first_downloaded(variants, 0) {
            Some(i) => variants[i].quant,
            None => "Q4_K_M"@,
        },
        context_length: DEFAULT_CONTEXT_LENGTH,
        resolved_locally: first_downloaded(variants, 0) is Some,
        variants,
    }
}

/// The first variant that is on disk.
pub fn first_on_disk(variants: &Vec<VariantEntry>) -> (r: Option<usize>)
    ensures
        match r {
            Some(i) => i < variants@.len() && first_downloaded(variants_view(variants@), 0) == Some(
                i as int,
            ),
            None => first_downloaded(variants_view(variants@), 0) is None,
        },
{
    let ghost view = variants_view(variants@);
    let mut i: usize = 0;
    while i < variants.len()
        invariant
            i <= variants@.len(),
            view == variants_view(variants@),
            first_downloaded(view, i as int) == first_downloaded(view, 0),
        decreases variants@.len() - i,
    {
        assert(view[i as int] == variants@[i as int]@);
        if variants[i].downloaded {
            return Some(i);
        }
        i += 1;
    }
    None
}

/// The answer as long as nobody can be asked: the two usual variants by a guess, and what is on disk.
/// The probes tell whether the guessed names exist.
pub fn offline_variants(
    repo_id: &String,
    guess: OfflineGuess,
    files: &Vec<ScannedGgufFile>,
    q4_probe: Probe,
    q8_probe: Probe,
) -> (r: VariantsAnswer)
    ensures
        r@ == offline_answer(repo_id@, guess@, scanned_view(files@), q4_probe, q8_probe),
{
    let ghost g = guess@;
    let ghost view = scanned_view(files@);
    let recommended = guess.recommended;
    let mut q4_name = guess.q4_name;
    let mut q4_size = guess.q4_size;
    let mut q4_downloaded = false;
    let mut q8_name = guess.q8_name;
    let mut q8_size = guess.q8_size;
    let mut q8_downloaded = false;
    let mut others: Vec<VariantEntry> = Vec::new();
    let mut i: usize = 0;
    assert(variants_view(others@) =~= Seq::<VariantView>::empty());
    while i < files.len()
        invariant
            i <= files@.len(),
            view == scanned_view(files@),
            offline_state(g, view, repo_id@, i as int) == (OfflineState {
                q4: Slot { name: q4_name@, size: q4_size, downloaded: q4_downloaded },
                q8: Slot { name: q8_name@, size: q8_size, downloaded: q8_downloaded },
                others: variants_view(others@),
            }),
        decreases files@.len() - i,
    {
        let f = &files[i];
        assert(view[i as int] == f@);
        if belongs_to(f, repo_id.as_str()) || text::same_ignoring_case(
            f.filename.as_str(),
            q4_name.as_str(),
        ) || text::same_ignoring_case(f.filename.as_str(), q8_name.as_str()) {
            if text::same(f.quant.as_str(), "Q4_K_M") || text::contains(
                f.filename.as_str(),
                "Q4_K_M",
            ) {
                q4_downloaded = true;
                q4_name = f.filename.clone();
                q4_size = f.size_bytes;
            } else if text::same(f.quant.as_str(), "Q8_0") || text::contains(
                f.filename.as_str(),
                "Q8_0",
            ) {
                q8_downloaded = true;
                q8_name = f.filename.clone();
                q8_size = f.size_bytes;
            } else {
                let ghost before = variants_view(others@);
                let item = on_disk(&f.filename, &f.quant, f.size_bytes);
                let ghost seen = item@;
                others.push(item);
                assert(variants_view(others@) =~= before.push(seen));
            }
        }
        i += 1;
    }
    if !q4_downloaded && q4_probe.exists {
        q4_downloaded = true;
        if let Some(n) = q4_probe.size_bytes {
            q4_size = n;
        }
    }
    if !q8_downloaded && q8_probe.exists {
        q8_downloaded = true;
        if let Some(n) = q8_probe.size_bytes {
            q8_size = n;
        }
    }
    let q4_label = if q4_downloaded {
        "Q4_K_M (Downloaded)"
    } else if recommended {
        "Q4_K_M (Recommended)"
    } else {
        "Q4_K_M"
    };
    let q8_label = if q8_downloaded {
        "Q8_0 (Downloaded)"
    } else {
        "Q8_0"
    };
    let ghost rest = variants_view(others@);
    let mut variants: Vec<VariantEntry> = Vec::new();
    variants.push(
        VariantEntry {
            filename: q4_name,
            files: Vec::new(),
            quant: "Q4_K_M".to_owned(),
            display_label: q4_label.to_owned(),
            size_bytes: q4_size,
            shard_count: None,
            downloaded: q4_downloaded,
        },
    );
    variants.push(
        VariantEntry {
            filename: q8_name,
            files: Vec::new(),
            quant: "Q8_0".to_owned(),
            display_label: q8_label.to_owned(),
            size_bytes: q8_size,
            shard_count: None,
            downloaded: q8_downloaded,
        },
    );
    let ghost want = offline_answer(repo_id@, g, view, q4_probe, q8_probe);
    proof {
        assert(variants@[0]@.files =~= Seq::<Seq<char>>::empty());
        assert(variants@[1]@.files =~= Seq::<Seq<char>>::empty());
        assert(variants@[0]@ =~= want.variants[0]);
        assert(variants@[1]@ =~= want.variants[1]);
    }
    variants.append(&mut others);
    assert(variants_view(variants@) =~= want.variants);
    let found = first_on_disk(&variants);
    let default_variant = match found {
        Some(k) => variants[k].quant.clone(),
        None => "Q4_K_M".to_owned(),
    };
    proof {
        if let Some(k) = found {
            assert(want.variants[k as int].quant == variants@[k as int].quant@);
        }
    }
    VariantsAnswer {
        repo_id: repo_id.clone(),
        has_vision: false,
        default_variant,
        context_length: DEFAULT_CONTEXT_LENGTH,
        resolved_locally: found.is_some(),
        variants,
    }
}

// ---------- which answer is given ----------

/// The repository that is shown where a request names none.
pub const DEFAULT_REPO: &'static str = "unsloth/Llama-3.2-3B-Instruct-GGUF";

pub open spec fn repo_of(repo_id: Option<Seq<char>>) -> Seq<char> {
    match repo_id {
        Some(s) => s,
        None => DEFAULT_REPO@,
    }
}

/// The repository that a request asks for.
pub fn requested_repo(query: &RepoVariantsQuery) -> (r: String)
    ensures
        r@ == repo_of(model_scan::opt_view(query.repo_id)),
{
    match &query.repo_id {
        Some(s) => s.clone(),
        None => DEFAULT_REPO.to_owned(),
    }
}

/// What is looked for on disk first: the path of a request, else the name of its repository.
pub fn requested_file(query: &RepoVariantsQuery) -> (r: String)
    ensures
        r@ == (match query.local_path {
            Some(s) => s@,
            None => repo_of(model_scan::opt_view(query.repo_id)),
        }),
{
    match &query.local_path {
        Some(s) => s.clone(),
        None => requested_repo(query),
    }
}

/// A file on disk that a request names. Its size is zero where it could not be read.
#[derive(Debug)]
pub struct NamedFile {
    pub filename: String,
    pub size_bytes: u64,
    /// What the file says of it.
    pub context_length: Option<u64>,
}

/// The answer that needs no hub: of the file that the request names, else, where the request prefers
/// it, of the files on disk that belong to the repository.
pub open spec fn disk_answer(
    repo_id: Seq<char>,
    prefer_local: bool,
    file: Option<NamedFile>,
    files: Seq<ScannedView>,
) -> Option<AnswerView> {
    match file {
        Some(f) => Some(local_answer(repo_id, f.filename@, f.size_bytes, f.context_length)),
        None => if prefer_local {
            cached_answer(files, repo_id)
        } else {
            None
        },
    }
}

/// The answer that needs no hub. `file` is the file that the request names, if there is one.
pub fn answer_from_disk(
    query: &RepoVariantsQuery,
    file: Option<NamedFile>,
    files: &Vec<ScannedGgufFile>,
) -> (r: Option<VariantsAnswer>)
    ensures
        disk_answer(
            repo_of(model_scan::opt_view(query.repo_id)),
            query.prefer_local_cache == Some(true),
            file,
            scanned_view(files@),
        ) == (match r {
            Some(a) => Some(a@),
            None => None,
        }),
{
    let repo_id = requested_repo(query);
    match file {
        Some(f) => Some(
            local_file_variants(&repo_id, &f.filename, f.size_bytes, f.context_length),
        ),
        None => match query.prefer_local_cache {
            Some(true) => cached_file_variants(files, &repo_id),
            _ => None,
        },
    }
}

/// The answer of the hub, or else a guess. `listed` is what the hub's list of files gives.
pub fn answer_from_hub(
    query: &RepoVariantsQuery,
    listed: Option<VariantsAnswer>,
    files: &Vec<ScannedGgufFile>,
    q4_probe: Probe,
    q8_probe: Probe,
) -> (r: VariantsAnswer)
    ensures
        r@ == (match listed {
            Some(a) => a@,
            None => {
                let repo_id = repo_of(model_scan::opt_view(query.repo_id));
                offline_answer(
                    repo_id,
                    guess_of(repo_id, text::lowered(repo_id), names::sizes_of_repo(repo_id)),
                    scanned_view(files@),
                    q4_probe,
                    q8_probe,
                )
            },
        }),
        ({
            let repo_id = repo_of(model_scan::opt_view(query.repo_id));
            listed is None && is_ascii_chars(repo_id) ==> r@ == offline_answer(
                repo_id,
                guess_of(
                    repo_id,
                    text::lower(repo_id),
                    names::sizes_of(text::lower(text::last_piece(repo_id, '/'))),
                ),
                scanned_view(files@),
                q4_probe,
                q8_probe,
            )
        }),
{
    match listed {
        Some(a) => a,
        None => {
            let repo_id = requested_repo(query);
            let guess = offline_guess(repo_id.as_str());
            offline_variants(&repo_id, guess, files, q4_probe, q8_probe)
        },
    }
}

} // verus!
