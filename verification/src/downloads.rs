//! Downloads of models: which files belong to a variant, where they go, and how a broken download is
//! continued.

use vstd::prelude::*;

use crate::chat_store;
use crate::error;
use crate::error::{ApiError, ApiResult};
use crate::hub;
use crate::model_scan;
use crate::model_scan::{EntryKind, Folder};
use crate::names;
use crate::names::{extract_quant_from_path, is_auxiliary_gguf_file};
use crate::order;
use crate::order::{sorted_places, SortKey};
use crate::paths;
use crate::settings_api;
use crate::text;

verus! {

/// What is said where a repository is closed.
pub const ACCESS_DENIED_HINT: &'static str =
    "Нет доступа к репозиторию: для закрытых моделей укажите токен Hugging Face в настройках";

/// The ending of a file that is not complete yet.
pub const PART_SUFFIX: &'static str = ".part";

/// A file of a repository.
#[derive(Debug)]
pub struct RemoteFile {
    pub path: String,
    pub size: Option<u64>,
}

#[verifier::ext_equal]
pub struct RemoteView {
    pub path: Seq<char>,
    pub size: Option<u64>,
}

impl View for RemoteFile {
    type V = RemoteView;

    open spec fn view(&self) -> RemoteView {
        RemoteView { path: self.path@, size: self.size }
    }
}

pub open spec fn remotes_view(s: Seq<RemoteFile>) -> Seq<RemoteView> {
    Seq::new(s.len(), |i: int| s[i]@)
}

impl RemoteFile {
    pub fn duplicate(&self) -> (r: Self)
        ensures
            r@ == self@,
    {
        RemoteFile { path: self.path.clone(), size: self.size }
    }
}

// ---------- names and paths ----------

pub open spec fn lower_trimmed(s: Seq<char>) -> Seq<char> {
    text::lower(text::trimmed(s))
}

/// The key of a job.
pub open spec fn spec_job_key(repo_id: Seq<char>, variant: Option<Seq<char>>) -> Seq<char> {
    lower_trimmed(repo_id) + "::"@ + lower_trimmed(
        match variant {
            Some(v) => v,
            None => ""@,
        },
    )
}

/// The key of a job: repository and variant, letters of either case.
pub fn job_key(repo_id: &str, variant: Option<&str>) -> (r: String)
    ensures
        r@ == spec_job_key(
            repo_id@,
            match variant {
                Some(v) => Some(v@),
                None => None,
            },
        ),
{
    let repo = text::to_lower(text::trim(repo_id).as_str());
    let name = match variant {
        Some(v) => text::trim(v),
        None => text::trim(""),
    };
    text::join3(repo.as_str(), "::", text::to_lower(name.as_str()).as_str())
}

/// A character that the name of a repository may have.
pub open spec fn repo_char(c: char) -> bool {
    ('a' <= c && c <= 'z') || ('A' <= c && c <= 'Z') || ('0' <= c && c <= '9') || c == '-' || c
        == '_' || c == '.'
}

pub open spec fn repo_part(s: Seq<char>) -> bool {
    s.len() > 0 && s[0] != '.' && forall|i: int| 0 <= i < s.len() ==> repo_char(#[trigger] s[i])
}

/// Whether a name has the form `org/repo`, of safe characters only.
pub open spec fn repo_id_ok(s: Seq<char>) -> bool {
    let parts = text::pieces(s, '/');
    parts.len() == 2 && repo_part(parts[0]) && repo_part(parts[1])
}

fn is_repo_part(s: &str) -> (r: bool)
    ensures
        r == repo_part(s@),
{
    let chars = text::to_chars(s);
    if chars.len() == 0 || chars[0] == '.' {
        return false;
    }
    let mut i: usize = 0;
    while i < chars.len()
        invariant
            i <= chars@.len(),
            chars@ == s@,
            forall|k: int| 0 <= k < i ==> repo_char(#[trigger] s@[k]),
        decreases chars@.len() - i,
    {
        let c = chars[i];
        let ok = ('a' <= c && c <= 'z') || ('A' <= c && c <= 'Z') || ('0' <= c && c <= '9') || c
            == '-' || c == '_' || c == '.';
        if !ok {
            assert(!repo_char(s@[i as int]));
            return false;
        }
        i += 1;
    }
    true
}

/// The name of a repository, `org/repo`, without the blanks around it.
pub fn validate_repo_id(repo_id: &str) -> (r: ApiResult<String>)
    ensures
        ({
            let id = text::trimmed(repo_id@);
            if repo_id_ok(id) {
                r is Ok && r->Ok_0@ == id
            } else {
                r is Err && r->Err_0@ == (error::ApiErrorView {
                    status: 400,
                    detail: "Некорректный идентификатор репозитория: «"@ + id
                        + "» (ожидается org/repo)"@,
                })
            }
        }),
{
    let id = text::trim(repo_id);
    let parts = text::split(id.as_str(), '/');
    if parts.len() == 2 {
        assert(text::views(parts@)[0] == parts@[0]@ && text::views(parts@)[1] == parts@[1]@);
        if is_repo_part(parts[0].as_str()) && is_repo_part(parts[1].as_str()) {
            return Ok(id);
        }
    }
    Err(
        ApiError::bad_request(
            text::join3(
                "Некорректный идентификатор репозитория: «",
                id.as_str(),
                "» (ожидается org/repo)",
            ),
        ),
    )
}

/// The folder of a repository inside the folder of models; none for a name that is no repository's.
pub fn repo_dir(models_dir: &str, repo_id: &str) -> (r: Option<String>)
    ensures
        chat_store::opt_text(r) == (if repo_id_ok(text::trimmed(repo_id@)) {
            Some(paths::joined(models_dir@, text::trimmed(repo_id@)))
        } else {
            None
        }),
{
    match validate_repo_id(repo_id) {
        Ok(id) => Some(paths::join(models_dir, id.as_str())),
        Err(_) => None,
    }
}

/// The first `n` parts of a path inside a repository; none if one of them leads elsewhere.
pub open spec fn safe_parts(parts: Seq<Seq<char>>, n: int) -> Option<Seq<char>>
    decreases n,
{
    if n <= 0 {
        Some(Seq::empty())
    } else {
        match safe_parts(parts, n - 1) {
            None => None,
            Some(before) => {
                let p = parts[n - 1];
                if p.len() == 0 || (p == "."@ && n > 1) {
                    Some(before)
                } else if p[0] == '.' {
                    None
                } else if before.len() == 0 {
                    Some(p)
                } else {
                    Some(before + "/"@ + p)
                }
            },
        }
    }
}

/// A path inside a repository without `..`, absolute parts and hidden names.
pub open spec fn spec_safe_path(path: Seq<char>) -> Option<Seq<char>> {
    if path.len() > 0 && path[0] == '/' {
        None
    } else {
        let parts = text::pieces(path, '/');
        match safe_parts(parts, parts.len() as int) {
            Some(s) => if s.len() > 0 {
                Some(s)
            } else {
                None
            },
            None => None,
        }
    }
}

/// A path inside a repository without `..`, absolute parts and hidden names.
pub fn safe_relative_path(path: &str) -> (r: Option<String>)
    ensures
        spec_safe_path(path@) == chat_store::opt_text(r),
{
    let chars = text::to_chars(path);
    if chars.len() > 0 && chars[0] == '/' {
        return None;
    }
    let parts = text::split(path, '/');
    let ghost view = text::views(parts@);
    let mut out = String::new();
    let mut i: usize = 0;
    assert(out@ =~= Seq::<char>::empty());
    while i < parts.len()
        invariant
            i <= parts@.len(),
            view == text::views(parts@),
            view == text::pieces(path@, '/'),
            !(path@.len() > 0 && path@[0] == '/'),
            safe_parts(view, i as int) == Some(out@),
        decreases parts@.len() - i,
    {
        let p = &parts[i];
        assert(view[i as int] == p@);
        if p.as_str().is_empty() || (i > 0 && text::same(p.as_str(), ".")) {
            i += 1;
            continue;
        }
        let part = text::to_chars(p.as_str());
        if part[0] == '.' {
            proof {
                lemma_unsafe_stays(view, i + 1, view.len() as int);
            }
            return None;
        }
        if out.as_str().is_empty() {
            out = p.clone();
        } else {
            out = text::join3(out.as_str(), "/", p.as_str());
        }
        i += 1;
    }
    if out.as_str().is_empty() {
        None
    } else {
        Some(out)
    }
}

proof fn lemma_unsafe_stays(parts: Seq<Seq<char>>, k: int, n: int)
    requires
        0 <= k <= n,
        safe_parts(parts, k) is None,
    ensures
        safe_parts(parts, n) is None,
    decreases n,
{
    if k < n {
        lemma_unsafe_stays(parts, k, n - 1);
    }
}

/// Where a file is kept until it is complete.
pub fn part_path(target: &str) -> (r: String)
    requires
        hub::file_name(target@) == Some(text::last_piece(target@, '/')),
    ensures
        r@ == target@ + PART_SUFFIX@,
{
    text::join2(target, PART_SUFFIX)
}

// ---------- files of a repository ----------

/// An entry of the list of files of a repository.
#[derive(Debug)]
pub struct TreeEntry {
    pub kind: String,
    pub path: String,
    pub size: Option<u64>,
    /// The size of a large file, which is stored elsewhere.
    pub lfs_size: Option<u64>,
}

#[verifier::ext_equal]
pub struct TreeView {
    pub kind: Seq<char>,
    pub path: Seq<char>,
    pub size: Option<u64>,
    pub lfs_size: Option<u64>,
}

impl View for TreeEntry {
    type V = TreeView;

    open spec fn view(&self) -> TreeView {
        TreeView {
            kind: self.kind@,
            path: self.path@,
            size: self.size,
            lfs_size: self.lfs_size,
        }
    }
}

pub open spec fn tree_view(s: Seq<TreeEntry>) -> Seq<TreeView> {
    Seq::new(s.len(), |i: int| s[i]@)
}

pub open spec fn tree_file(s: Seq<TreeView>) -> spec_fn(int) -> bool {
    |i: int| s[i].kind == "file"@ && text::has_suffix(text::lower(s[i].path), ".gguf"@)
}

pub open spec fn tree_key(s: Seq<TreeView>) -> spec_fn(int) -> order::KeyView {
    |i: int| order::KeyView { rank: 0, name: s[i].path, at: i }
}

/// The places of the models' files, by their paths.
pub open spec fn tree_places(s: Seq<TreeView>, at: Seq<int>) -> bool {
    order::lists(at, s.len() as int, tree_file(s), tree_key(s))
}

/// A file with its exact size: that of the large file, where there is one.
pub open spec fn remote_of(e: TreeView) -> RemoteView {
    RemoteView {
        path: e.path,
        size: match e.lfs_size {
            Some(n) => Some(n),
            None => e.size,
        },
    }
}

pub open spec fn remotes_at(s: Seq<TreeView>, at: Seq<int>) -> Seq<RemoteView> {
    Seq::new(at.len(), |i: int| remote_of(s[at[i]]))
}

/// The files of models in the list of a repository, by their paths.
pub fn repo_gguf_files(entries: &Vec<TreeEntry>) -> (r: Vec<RemoteFile>)
    ensures
        exists|at: Seq<int>| #[trigger]
            tree_places(tree_view(entries@), at) && remotes_view(r@) == remotes_at(
                tree_view(entries@),
                at,
            ),
{
    let ghost s = tree_view(entries@);
    let ghost keep = tree_file(s);
    let ghost key = tree_key(s);
    let mut keys: Vec<SortKey> = Vec::new();
    let mut i: usize = 0;
    assert(order::keys_view(keys@) =~= Seq::empty());
    while i < entries.len()
        invariant
            i <= entries@.len(),
            s == tree_view(entries@),
            keep == tree_file(s),
            key == tree_key(s),
            order::keys_of(order::keys_view(keys@), i as int, keep, key),
        decreases entries@.len() - i,
    {
        let e = &entries[i];
        assert(s[i as int] == e@);
        let ghost before = order::keys_view(keys@);
        proof {
            order::lemma_keys_grow(before, i as int, keep, key);
        }
        if text::same(e.kind.as_str(), "file") && text::ends_with(
            text::to_lower(e.path.as_str()).as_str(),
            ".gguf",
        ) {
            let item = SortKey { rank: 0, name: e.path.clone(), at: i };
            assert(item@ =~= key(i as int));
            keys.push(item);
            assert(order::keys_view(keys@) =~= before.push(key(i as int)));
        }
        i += 1;
    }
    let places = sorted_places(keys, Ghost(i as int), Ghost(keep), Ghost(key));
    let ghost at = places@.map_values(|p: usize| p as int);
    let mut out: Vec<RemoteFile> = Vec::new();
    let mut j: usize = 0;
    while j < places.len()
        invariant
            j <= places@.len(),
            s == tree_view(entries@),
            at == places@.map_values(|p: usize| p as int),
            tree_places(s, at),
            out@.len() == j,
            forall|k: int| 0 <= k < j ==> (#[trigger] out@[k])@ == remote_of(s[at[k]]),
        decreases places@.len() - j,
    {
        assert(at[j as int] == places@[j as int]);
        let e = &entries[places[j]];
        assert(s[at[j as int]] == e@);
        let size = match e.lfs_size {
            Some(n) => Some(n),
            None => e.size,
        };
        out.push(RemoteFile { path: e.path.clone(), size });
        j += 1;
    }
    assert(remotes_view(out@) =~= remotes_at(s, at));
    out
}

/// What is said of an answer that is not a list of files; nothing if it is one.
pub open spec fn spec_tree_error(status: u16, shown: Seq<char>, repo_id: Seq<char>) -> Option<
    Seq<char>,
> {
    if 200 <= status < 300 {
        None
    } else if status == 401 || status == 403 {
        Some(ACCESS_DENIED_HINT@)
    } else if status == 404 {
        Some("Репозиторий "@ + repo_id + " не найден на Hugging Face"@)
    } else {
        Some("Hugging Face ответил HTTP "@ + shown + " на список файлов"@)
    }
}

/// The status of an answer in words, such as `404 Not Found`.
pub uninterp spec fn status_words(status: u16) -> Seq<char>;

/// `to_string` of the `reqwest::StatusCode` that `from_u16` makes of a number: a text that the number
/// alone decides. `from_u16` takes the numbers of three digits, and no others.
#[verifier::external_body]
fn status_text(status: u16) -> (r: String)
    requires
        100 <= status <= 999,
    ensures
        r@ == status_words(status),
{
    reqwest::StatusCode::from_u16(status).expect("a status of three digits").to_string()
}

/// What is said of an answer to the request for the list of files.
pub fn tree_failure(status: u16, repo_id: &str) -> (r: Option<String>)
    requires
        100 <= status <= 999,
    ensures
        chat_store::opt_text(r) == spec_tree_error(status, status_words(status), repo_id@),
{
    let shown = status_text(status);
    tree_error(status, shown.as_str(), repo_id)
}

/// What is said of an answer to the request for the list of files. `shown` is the status in words.
pub fn tree_error(status: u16, shown: &str, repo_id: &str) -> (r: Option<String>)
    ensures
        chat_store::opt_text(r) == spec_tree_error(status, shown@, repo_id@),
{
    if 200 <= status && status < 300 {
        None
    } else if status == 401 || status == 403 {
        Some(ACCESS_DENIED_HINT.to_owned())
    } else if status == 404 {
        Some(text::join3("Репозиторий ", repo_id, " не найден на Hugging Face"))
    } else {
        Some(text::join3("Hugging Face ответил HTTP ", shown, " на список файлов"))
    }
}

// ---------- files of a variant ----------

/// The files among the first `n` that are the model's own.
pub open spec fn own_files(files: Seq<RemoteView>, n: int) -> Seq<RemoteView>
    decreases n,
{
    if n <= 0 {
        Seq::empty()
    } else {
        let before = own_files(files, n - 1);
        if names::spec_auxiliary(files[n - 1].path) {
            before
        } else {
            before.push(files[n - 1])
        }
    }
}

/// The files among the first `n` of a quantization.
pub open spec fn files_of(files: Seq<RemoteView>, quant: Seq<char>, n: int) -> Seq<RemoteView>
    decreases n,
{
    if n <= 0 {
        Seq::empty()
    } else {
        let before = files_of(files, quant, n - 1);
        if hub::like(names::spec_quant(files[n - 1].path), quant) {
            before.push(files[n - 1])
        } else {
            before
        }
    }
}

/// Whether all files have the same quantization.
pub open spec fn one_quant(files: Seq<RemoteView>) -> bool {
    files.len() > 0 && forall|i: int|
        0 <= i < files.len() ==> names::spec_quant((#[trigger] files[i]).path)
            == names::spec_quant(files[0].path)
}

/// The variant that a request means: the one it names, or the only one there is.
pub open spec fn chosen_variant(own: Seq<RemoteView>, variant: Option<Seq<char>>) -> Option<
    Seq<char>,
> {
    match variant {
        Some(v) => if text::trimmed(v).len() > 0 {
            Some(text::trimmed(v))
        } else if one_quant(own) {
            Some(names::spec_quant(own[0].path))
        } else {
            None
        },
        None => if one_quant(own) {
            Some(names::spec_quant(own[0].path))
        } else {
            None
        },
    }
}

pub open spec fn spec_variant_files(files: Seq<RemoteView>, variant: Option<Seq<char>>) -> Result<
    (Seq<char>, Seq<RemoteView>),
    Seq<char>,
> {
    let own = own_files(files, files.len() as int);
    match chosen_variant(own, variant) {
        None => Err("В репозитории несколько вариантов модели: укажите gguf_variant"@),
        Some(v) => {
            let selected = files_of(own, v, own.len() as int);
            if selected.len() == 0 {
                Err("Вариант "@ + v + " не найден в репозитории"@)
            } else {
                Ok((v, selected))
            }
        },
    }
}

pub(crate) fn pick_own(files: &Vec<RemoteFile>) -> (r: Vec<RemoteFile>)
    ensures
        remotes_view(r@) == own_files(remotes_view(files@), files@.len() as int),
{
    let ghost view = remotes_view(files@);
    let mut out: Vec<RemoteFile> = Vec::new();
    let mut i: usize = 0;
    assert(remotes_view(out@) =~= Seq::empty());
    while i < files.len()
        invariant
            i <= files@.len(),
            view == remotes_view(files@),
            remotes_view(out@) == own_files(view, i as int),
        decreases files@.len() - i,
    {
        assert(view[i as int] == files@[i as int]@);
        if !is_auxiliary_gguf_file(files[i].path.as_str()) {
            let ghost before = remotes_view(out@);
            out.push(files[i].duplicate());
            assert(remotes_view(out@) =~= before.push(view[i as int]));
        }
        i += 1;
    }
    out
}

fn only_quant(own: &Vec<RemoteFile>) -> (r: Option<String>)
    ensures
        match r {
            Some(q) => one_quant(remotes_view(own@)) && q@ == names::spec_quant(
                remotes_view(own@)[0].path,
            ),
            None => !one_quant(remotes_view(own@)),
        },
{
    let ghost view = remotes_view(own@);
    if own.len() == 0 {
        return None;
    }
    assert(view[0] == own@[0]@);
    let first = extract_quant_from_path(own[0].path.as_str());
    let mut i: usize = 0;
    while i < own.len()
        invariant
            i <= own@.len(),
            own@.len() > 0,
            view == remotes_view(own@),
            first@ == names::spec_quant(view[0].path),
            forall|k: int|
                0 <= k < i ==> names::spec_quant((#[trigger] view[k]).path) == names::spec_quant(
                    view[0].path,
                ),
        decreases own@.len() - i,
    {
        assert(view[i as int] == own@[i as int]@);
        let quant = extract_quant_from_path(own[i].path.as_str());
        if quant != first {
            assert(names::spec_quant(view[i as int].path) != names::spec_quant(view[0].path));
            return None;
        }
        i += 1;
    }
    Some(first)
}

/// The files of a variant, without projectors and other auxiliary files. Without a name the
/// repository must have one variant only.
pub fn variant_files(files: &Vec<RemoteFile>, variant: &Option<String>) -> (r: Result<
    (String, Vec<RemoteFile>),
    String,
>)
    ensures
        match spec_variant_files(remotes_view(files@), chat_store::opt_text(*variant)) {
            Ok((v, selected)) => r is Ok && r->Ok_0.0@ == v && remotes_view(r->Ok_0.1@)
                == selected,
            Err(why) => r is Err && r->Err_0@ == why,
        },
{
    let own = pick_own(files);
    let ghost view = remotes_view(own@);
    let mut chosen: Option<String> = None;
    if let Some(v) = variant {
        let t = text::trim(v.as_str());
        if !t.as_str().is_empty() {
            chosen = Some(t);
        }
    }
    let quant = match chosen {
        Some(v) => v,
        None => match only_quant(&own) {
            Some(q) => q,
            None => return Err(
                "В репозитории несколько вариантов модели: укажите gguf_variant".to_owned(),
            ),
        },
    };
    let mut selected: Vec<RemoteFile> = Vec::new();
    let mut i: usize = 0;
    assert(remotes_view(selected@) =~= Seq::empty());
    while i < own.len()
        invariant
            i <= own@.len(),
            view == remotes_view(own@),
            remotes_view(selected@) == files_of(view, quant@, i as int),
        decreases own@.len() - i,
    {
        assert(view[i as int] == own@[i as int]@);
        let q = extract_quant_from_path(own[i].path.as_str());
        if text::same_ignoring_case(q.as_str(), quant.as_str()) {
            let ghost before = remotes_view(selected@);
            selected.push(own[i].duplicate());
            assert(remotes_view(selected@) =~= before.push(view[i as int]));
        }
        i += 1;
    }
    if selected.len() == 0 {
        return Err(text::join3("Вариант ", quant.as_str(), " не найден в репозитории"));
    }
    Ok((quant, selected))
}

/// The files among the first `n` whose paths are asked for.
pub open spec fn asked_for(files: Seq<RemoteView>, requested: Seq<Seq<char>>, n: int) -> Seq<
    RemoteView,
>
    decreases n,
{
    if n <= 0 {
        Seq::empty()
    } else {
        let before = asked_for(files, requested, n - 1);
        if requested.contains(files[n - 1].path) {
            before.push(files[n - 1])
        } else {
            before
        }
    }
}

/// The files of a variant that a request asks for: all of them, unless it lists some.
pub fn requested_files(files: Vec<RemoteFile>, requested: &Option<Vec<String>>) -> (r: ApiResult<
    Vec<RemoteFile>,
>)
    ensures
        match *requested {
            None => r is Ok && remotes_view(r->Ok_0@) == remotes_view(files@),
            Some(list) => if list@.len() == 0 {
                r is Ok && remotes_view(r->Ok_0@) == remotes_view(files@)
            } else {
                let left = asked_for(
                    remotes_view(files@),
                    text::views(list@),
                    files@.len() as int,
                );
                if left.len() == 0 {
                    r is Err && r->Err_0@ == settings_api::unprocessable(
                        "Запрошенные файлы не относятся к выбранному варианту"@,
                    )
                } else {
                    r is Ok && remotes_view(r->Ok_0@) == left
                }
            },
        },
{
    let list = match requested {
        Some(list) => list,
        None => return Ok(files),
    };
    if list.len() == 0 {
        return Ok(files);
    }
    let ghost view = remotes_view(files@);
    let mut left: Vec<RemoteFile> = Vec::new();
    let mut i: usize = 0;
    assert(remotes_view(left@) =~= Seq::empty());
    while i < files.len()
        invariant
            i <= files@.len(),
            view == remotes_view(files@),
            remotes_view(left@) == asked_for(view, text::views(list@), i as int),
        decreases files@.len() - i,
    {
        assert(view[i as int] == files@[i as int]@);
        if chat_store::holds(list, files[i].path.as_str()) {
            let ghost before = remotes_view(left@);
            left.push(files[i].duplicate());
            assert(remotes_view(left@) =~= before.push(view[i as int]));
        }
        i += 1;
    }
    if left.len() == 0 {
        return Err(
            ApiError::unprocessable(
                "Запрошенные файлы не относятся к выбранному варианту".to_owned(),
            ),
        );
    }
    Ok(left)
}

// ---------- one file ----------

/// Whether a file on disk is the whole one. `present` is its size, if there is a file.
pub open spec fn spec_complete(present: Option<u64>, size: Option<u64>) -> bool {
    present is Some && (size is Some ==> present == size)
}

pub fn file_is_complete(present: Option<u64>, size: Option<u64>) -> (r: bool)
    ensures
        r == spec_complete(present, size),
{
    match present {
        None => false,
        Some(len) => match size {
            None => true,
            Some(n) => len == n,
        },
    }
}

/// Whether all files lie where they belong. `present` holds the size of each, if there is a file.
pub fn files_complete(files: &Vec<RemoteFile>, present: &Vec<Option<u64>>) -> (r: bool)
    requires
        present@.len() == files@.len(),
    ensures
        r == (files@.len() > 0 && forall|i: int|
            0 <= i < files@.len() ==> spec_safe_path((#[trigger] files@[i]).path@) is Some
                && spec_complete(present@[i], files@[i].size)),
{
    if files.len() == 0 {
        return false;
    }
    let mut i: usize = 0;
    while i < files.len()
        invariant
            i <= files@.len(),
            present@.len() == files@.len(),
            forall|k: int|
                0 <= k < i ==> spec_safe_path((#[trigger] files@[k]).path@) is Some
                    && spec_complete(present@[k], files@[k].size),
        decreases files@.len() - i,
    {
        if safe_relative_path(files[i].path.as_str()).is_none() {
            assert(spec_safe_path(files@[i as int].path@) is None);
            return false;
        }
        if !file_is_complete(present[i], files[i].size) {
            return false;
        }
        i += 1;
    }
    true
}

/// What to do about the next file of a job.
#[derive(Debug)]
pub enum FileStep {
    Cancelled,
    /// The path leads out of the repository; what is said of it.
    Invalid(String),
    /// The file is there already; its size.
    Skip(u64),
    /// Where the file goes inside the repository's folder.
    Download(String),
}

#[verifier::ext_equal]
pub enum StepView {
    Cancelled,
    Invalid(Seq<char>),
    Skip(u64),
    Download(Seq<char>),
}

impl View for FileStep {
    type V = StepView;

    open spec fn view(&self) -> StepView {
        match self {
            FileStep::Cancelled => StepView::Cancelled,
            FileStep::Invalid(s) => StepView::Invalid(s@),
            FileStep::Skip(n) => StepView::Skip(*n),
            FileStep::Download(s) => StepView::Download(s@),
        }
    }
}

pub open spec fn spec_step(file: RemoteView, cancelled: bool, present: Option<u64>) -> StepView {
    if cancelled {
        StepView::Cancelled
    } else {
        match spec_safe_path(file.path) {
            None => StepView::Invalid(
                "Недопустимый путь файла в репозитории: "@ + file.path,
            ),
            Some(relative) => if spec_complete(present, file.size) {
                StepView::Skip(present->Some_0)
            } else {
                StepView::Download(relative)
            },
        }
    }
}

/// What to do about the next file of a job. `present` is the size of the file on disk, if there is
/// one.
pub fn next_step(file: &RemoteFile, cancelled: bool, present: Option<u64>) -> (r: FileStep)
    ensures
        r@ == spec_step(file@, cancelled, present),
{
    if cancelled {
        return FileStep::Cancelled;
    }
    let relative = match safe_relative_path(file.path.as_str()) {
        Some(relative) => relative,
        None => return FileStep::Invalid(
            text::join2("Недопустимый путь файла в репозитории: ", file.path.as_str()),
        ),
    };
    if file_is_complete(present, file.size) {
        if let Some(len) = present {
            return FileStep::Skip(len);
        }
    }
    FileStep::Download(relative)
}

/// Where a broken download goes on, and whether what is there is of another version and goes.
pub fn resume_offset(part_len: u64, size: Option<u64>) -> (r: (u64, bool))
    ensures
        r.1 == (size is Some && part_len > size->Some_0),
        r.0 == (if r.1 {
            0
        } else {
            part_len
        }),
        size is Some ==> r.0 <= size->Some_0,
{
    match size {
        Some(n) => if part_len > n {
            (0, true)
        } else {
            (part_len, false)
        },
        None => (part_len, false),
    }
}

/// What to do with the answer to a request for a file.
#[derive(Debug)]
pub enum ResponseAction {
    /// Write what comes: behind what is there, or in its place. `from` bytes are there before.
    Write { append: bool, from: u64 },
    /// What is there is the whole file.
    AlreadyWhole,
    /// Give up; what is said of it.
    Fail(String),
}

#[verifier::ext_equal]
pub enum ActionView {
    Write { append: bool, from: u64 },
    AlreadyWhole,
    Fail(Seq<char>),
}

impl View for ResponseAction {
    type V = ActionView;

    open spec fn view(&self) -> ActionView {
        match self {
            ResponseAction::Write { append, from } => ActionView::Write {
                append: *append,
                from: *from,
            },
            ResponseAction::AlreadyWhole => ActionView::AlreadyWhole,
            ResponseAction::Fail(s) => ActionView::Fail(s@),
        }
    }
}

pub open spec fn spec_action(
    status: u16,
    shown: Seq<char>,
    size: Option<u64>,
    offset: u64,
    path: Seq<char>,
) -> ActionView {
    if status == 206 {
        ActionView::Write { append: true, from: offset }
    } else if 200 <= status < 300 {
        ActionView::Write { append: false, from: 0 }
    } else if status == 416 && size == Some(offset) {
        ActionView::AlreadyWhole
    } else if status == 401 || status == 403 {
        ActionView::Fail(ACCESS_DENIED_HINT@)
    } else {
        ActionView::Fail("Hugging Face ответил HTTP "@ + shown + " на файл "@ + path)
    }
}

/// What to do with the answer to a request for a file from `offset` on. A server that does not
/// continue sends the whole file. `shown` is the status in words.
pub fn response_action(status: u16, shown: &str, file: &RemoteFile, offset: u64) -> (r:
    ResponseAction)
    ensures
        r@ == spec_action(status, shown@, file.size, offset, file.path@),
{
    if status == 206 {
        return ResponseAction::Write { append: true, from: offset };
    }
    if 200 <= status && status < 300 {
        return ResponseAction::Write { append: false, from: 0 };
    }
    if status == 416 {
        if let Some(n) = file.size {
            if n == offset {
                return ResponseAction::AlreadyWhole;
            }
        }
    }
    if status == 401 || status == 403 {
        return ResponseAction::Fail(ACCESS_DENIED_HINT.to_owned());
    }
    let start = text::join3("Hugging Face ответил HTTP ", shown, " на файл ");
    ResponseAction::Fail(text::join2(start.as_str(), file.path.as_str()))
}

/// What to do with the answer to a request for a file from `offset` on.
pub fn answer_action(status: u16, file: &RemoteFile, offset: u64) -> (r: ResponseAction)
    requires
        100 <= status <= 999,
    ensures
        r@ == spec_action(status, status_words(status), file.size, offset, file.path@),
{
    let shown = status_text(status);
    response_action(status, shown.as_str(), file, offset)
}

/// Whether a file that was written is the whole one; else what is said of it.
pub fn check_written(file: &RemoteFile, written: u64) -> (r: Result<(), String>)
    ensures
        if file.size is Some && written != file.size->Some_0 {
            r is Err && r->Err_0@ == "Файл "@ + file.path@ + " скачан не полностью: "@
                + text::decimal_of(written as int) + " из "@ + text::decimal_of(
                file.size->Some_0 as int,
            ) + " байт. Повторите загрузку — она продолжится"@
        } else {
            r is Ok
        },
{
    if let Some(size) = file.size {
        if written != size {
            let a = text::join3("Файл ", file.path.as_str(), " скачан не полностью: ");
            let b = text::join3(a.as_str(), text::decimal(written).as_str(), " из ");
            let c = text::join2(b.as_str(), text::decimal(size).as_str());
            return Err(
                text::join2(c.as_str(), " байт. Повторите загрузку — она продолжится"),
            );
        }
    }
    Ok(())
}

// ---------- what is left of broken downloads ----------

/// How deep a repository's folder is searched for incomplete files.
pub const MAX_PARTIAL_SCAN_DEPTH: usize = 3;

/// Whether a path is that of an incomplete file of a variant, or of any without one.
pub open spec fn part_of_variant(path: Seq<char>, variant: Option<Seq<char>>) -> bool {
    text::has_suffix(path, PART_SUFFIX@) && match variant {
        Some(v) => hub::like(names::spec_quant(text::without_suffix(path, PART_SUFFIX@)), v),
        None => true,
    }
}

/// The size of a variant's incomplete files among a folder's entries from `i` on. `prefix` leads
/// from the repository's folder to this one.
pub open spec fn partial_in(
    entries: Seq<model_scan::EntryView>,
    i: int,
    prefix: Seq<char>,
    depth: int,
    variant: Option<Seq<char>>,
) -> int
    decreases entries, entries.len() - i,
{
    if i < 0 || i >= entries.len() {
        0
    } else {
        let e = entries[i];
        let rest = partial_in(entries, i + 1, prefix, depth, variant);
        match e.kind {
            model_scan::KindView::Folder(sub) => if depth < MAX_PARTIAL_SCAN_DEPTH {
                partial_in(sub.entries, 0, prefix + e.name + "/"@, depth + 1, variant) + rest
            } else {
                rest
            },
            model_scan::KindView::File => if part_of_variant(prefix + e.name, variant) {
                model_scan::size_of(e) + rest
            } else {
                rest
            },
            _ => rest,
        }
    }
}

proof fn lemma_partial_not_negative(
    entries: Seq<model_scan::EntryView>,
    i: int,
    prefix: Seq<char>,
    depth: int,
    variant: Option<Seq<char>>,
)
    ensures
        partial_in(entries, i, prefix, depth, variant) >= 0,
    decreases entries, entries.len() - i,
{
    if 0 <= i < entries.len() {
        let e = entries[i];
        lemma_partial_not_negative(entries, i + 1, prefix, depth, variant);
        if let model_scan::KindView::Folder(sub) = e.kind {
            if depth < MAX_PARTIAL_SCAN_DEPTH {
                lemma_partial_not_negative(
                    sub.entries,
                    0,
                    prefix + e.name + "/"@,
                    depth + 1,
                    variant,
                );
            }
        }
    }
}

fn is_part_of(path: &str, variant: Option<&str>) -> (r: bool)
    ensures
        r == part_of_variant(
            path@,
            match variant {
                Some(v) => Some(v@),
                None => None,
            },
        ),
{
    let model = match text::strip_suffix(path, PART_SUFFIX) {
        Some(model) => model,
        None => return false,
    };
    match variant {
        None => true,
        Some(v) => {
            let quant = extract_quant_from_path(model.as_str());
            text::same_ignoring_case(quant.as_str(), v)
        },
    }
}

fn partial_walk(folder: &Folder, prefix: &str, depth: usize, variant: Option<&str>) -> (r: u64)
    requires
        depth <= MAX_PARTIAL_SCAN_DEPTH,
        partial_in(
            model_scan::folder_view(*folder).entries,
            0,
            prefix@,
            depth as int,
            match variant {
                Some(v) => Some(v@),
                None => None,
            },
        ) <= u64::MAX,
    ensures
        r == partial_in(
            model_scan::folder_view(*folder).entries,
            0,
            prefix@,
            depth as int,
            match variant {
                Some(v) => Some(v@),
                None => None,
            },
        ),
    decreases folder,
{
    let ghost view = model_scan::folder_view(*folder).entries;
    let ghost v: Option<Seq<char>> = match variant {
        Some(v) => Some(v@),
        None => None,
    };
    let ghost whole = partial_in(view, 0, prefix@, depth as int, v);
    proof {
        model_scan::lemma_entries_view(folder.entries@);
    }
    let mut total: u64 = 0;
    let mut i: usize = 0;
    while i < folder.entries.len()
        invariant
            i <= folder.entries@.len(),
            depth <= MAX_PARTIAL_SCAN_DEPTH,
            view == model_scan::folder_view(*folder).entries,
            view.len() == folder.entries@.len(),
            forall|k: int|
                0 <= k < view.len() ==> #[trigger] view[k] == model_scan::entry_view(
                    folder.entries@[k],
                ),
            v == (match variant {
                Some(v) => Some(v@),
                None => None,
            }),
            whole <= u64::MAX,
            total + partial_in(view, i as int, prefix@, depth as int, v) == whole,
        decreases folder.entries@.len() - i,
    {
        let e = &folder.entries[i];
        assert(view[i as int] == model_scan::entry_view(*e));
        proof {
            lemma_partial_not_negative(view, i + 1, prefix@, depth as int, v);
        }
        match &e.kind {
            EntryKind::Folder(sub) => {
                if depth < MAX_PARTIAL_SCAN_DEPTH {
                    let inner = text::join3(prefix, e.name.as_str(), "/");
                    let part = partial_walk(sub, inner.as_str(), depth + 1, variant);
                    total = total + part;
                }
            },
            EntryKind::File => {
                let path = text::join2(prefix, e.name.as_str());
                if is_part_of(path.as_str(), variant) {
                    if let Some(size) = e.size {
                        total = total + size;
                    }
                }
            },
            _ => {},
        }
        i += 1;
    }
    total
}

/// The size of a variant's incomplete files in a repository's folder; nothing where there is no
/// such folder.
pub open spec fn spec_partial(folder: Option<Folder>, variant: Option<Seq<char>>) -> int {
    match folder {
        Some(f) => partial_in(model_scan::folder_view(f).entries, 0, Seq::empty(), 0, variant),
        None => 0,
    }
}

/// The size of a variant's incomplete files in a repository's folder, as it was read.
pub fn partial_bytes(folder: &Option<Folder>, variant: Option<&str>) -> (r: u64)
    requires
        spec_partial(
            *folder,
            match variant {
                Some(v) => Some(v@),
                None => None,
            },
        ) <= u64::MAX,
    ensures
        r == spec_partial(
            *folder,
            match variant {
                Some(v) => Some(v@),
                None => None,
            },
        ),
{
    match folder {
        Some(f) => {
            proof {
                reveal_strlit("");
            }
            assert(""@ =~= Seq::<char>::empty());
            partial_walk(f, "", 0, variant)
        },
        None => 0,
    }
}

// ---------- laws ----------

/// No piece holds the separator.
proof fn lemma_pieces_without_separator(s: Seq<char>, sep: char)
    ensures
        text::pieces(s, sep).len() > 0,
        forall|k: int, j: int|
            0 <= k < text::pieces(s, sep).len() && 0 <= j < text::pieces(s, sep)[k].len()
                ==> #[trigger] text::pieces(s, sep)[k][j] != sep,
    decreases s.len(),
{
    if s.len() > 0 {
        lemma_pieces_without_separator(s.drop_last(), sep);
        let before = text::pieces(s.drop_last(), sep);
        let now = text::pieces(s, sep);
        assert forall|k: int, j: int|
            0 <= k < now.len() && 0 <= j < now[k].len() implies #[trigger] now[k][j] != sep by {
            if k < before.len() - 1 {
                assert(now[k] == before[k]);
            } else if s.last() == sep {
                if k == before.len() - 1 {
                    assert(now[k] == before[k]);
                }
            } else {
                assert(now[k] == before.last().push(s.last()));
                if j < before.last().len() {
                    assert(before[k][j] != sep);
                }
            }
        }
    }
}

/// What is put behind a path is its last piece.
proof fn lemma_pieces_of_longer(path: Seq<char>, name: Seq<char>)
    requires
        forall|j: int| 0 <= j < name.len() ==> #[trigger] name[j] != '/',
    ensures
        text::pieces(path + "/"@ + name, '/') == text::pieces(path, '/').push(name),
    decreases name.len(),
{
    reveal_strlit("/");
    let whole = path + "/"@ + name;
    if name.len() == 0 {
        assert(whole.drop_last() =~= path);
        assert(whole.last() == '/');
        assert(name =~= Seq::<char>::empty());
        assert(text::pieces(whole, '/') =~= text::pieces(path, '/').push(name));
    } else {
        lemma_pieces_of_longer(path, name.drop_last());
        assert(whole.drop_last() =~= path + "/"@ + name.drop_last());
        assert(whole.last() == name.last());
        assert(name[name.len() - 1] != '/');
        assert(name.drop_last().push(name.last()) =~= name);
        assert(text::pieces(whole, '/') =~= text::pieces(path, '/').push(name));
    }
}

proof fn lemma_pieces_of_name(name: Seq<char>)
    requires
        forall|j: int| 0 <= j < name.len() ==> #[trigger] name[j] != '/',
    ensures
        text::pieces(name, '/') == seq![name],
    decreases name.len(),
{
    if name.len() > 0 {
        lemma_pieces_of_name(name.drop_last());
        assert(name[name.len() - 1] != '/');
        assert(name.drop_last().push(name.last()) =~= name);
        assert(text::pieces(name, '/') =~= seq![name]);
    }
}

/// A name that leads neither up nor to something hidden.
pub open spec fn plain_part(part: Seq<char>) -> bool {
    part.len() > 0 && part[0] != '.'
}

proof fn lemma_safe_parts(path: Seq<char>, n: int)
    requires
        0 <= n <= text::pieces(path, '/').len(),
    ensures
        match safe_parts(text::pieces(path, '/'), n) {
            None => true,
            Some(p) => p.len() > 0 ==> forall|k: int|
                0 <= k < text::pieces(p, '/').len() ==> plain_part(
                    #[trigger] text::pieces(p, '/')[k],
                ),
        },
    decreases n,
{
    if n > 0 {
        let parts = text::pieces(path, '/');
        lemma_safe_parts(path, n - 1);
        lemma_pieces_without_separator(path, '/');
        if let Some(before) = safe_parts(parts, n - 1) {
            let p = parts[n - 1];
            assert forall|j: int| 0 <= j < p.len() implies #[trigger] p[j] != '/' by {
                assert(parts[n - 1][j] != '/');
            }
            if !(p.len() == 0 || (p == "."@ && n > 1)) && p[0] != '.' {
                if before.len() == 0 {
                    lemma_pieces_of_name(p);
                } else {
                    lemma_pieces_of_longer(before, p);
                }
            }
        }
    }
}

/// A path that is accepted stays inside the repository's folder: none of its parts is empty, leads
/// up or is hidden.
pub proof fn law_accepted_path_stays_inside(path: Seq<char>)
    requires
        spec_safe_path(path) is Some,
    ensures
        ({
            let parts = text::pieces(spec_safe_path(path)->Some_0, '/');
            forall|k: int| 0 <= k < parts.len() ==> plain_part(#[trigger] parts[k])
        }),
{
    let parts = text::pieces(path, '/');
    lemma_safe_parts(path, parts.len() as int);
}

/// A download goes on where it stopped or starts anew, never behind the end of the file; only a file
/// of the full size is taken as whole.
pub proof fn law_download_is_continued_or_restarted(
    status: u16,
    shown: Seq<char>,
    size: u64,
    offset: u64,
    path: Seq<char>,
)
    requires
        offset <= size,
    ensures
        match spec_action(status, shown, Some(size), offset, path) {
            ActionView::Write { append, from } => from <= size && (append ==> from == offset) && (
            !append ==> from == 0),
            ActionView::AlreadyWhole => offset == size,
            ActionView::Fail(_) => true,
        },
{
}

} // verus!
