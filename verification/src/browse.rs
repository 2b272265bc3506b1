//! Browsing folders to choose one: which folder is shown, and what is listed of it.

use vstd::prelude::*;
use vstd::utf8::*;

use crate::chat_store;
use crate::error;
use crate::error::{ApiError, ApiResult};
use crate::json;
use crate::json::Json;
use crate::order;
use crate::order::{sorted_places, SortKey};
use crate::paths;
use crate::text;

verus! {

/// How many folders an answer holds at most.
pub const MAX_BROWSE_ENTRIES: usize = 2000;

/// What an entry of a folder is; links are not followed.
#[derive(Debug, Clone, Copy, PartialEq, Eq, Structural)]
pub enum DirKind {
    File,
    Folder,
    Other,
}

/// An entry of a folder, in the order in which the folder was read.
#[derive(Debug)]
pub struct DirEntry {
    pub name: String,
    pub kind: DirKind,
    /// The names inside, for a folder that can be read.
    pub names: Vec<String>,
}

#[verifier::ext_equal]
pub struct DirView {
    pub name: Seq<char>,
    pub kind: DirKind,
    pub names: Seq<Seq<char>>,
}

impl View for DirEntry {
    type V = DirView;

    open spec fn view(&self) -> DirView {
        DirView { name: self.name@, kind: self.kind, names: text::views(self.names@) }
    }
}

pub open spec fn dir_view(s: Seq<DirEntry>) -> Seq<DirView> {
    Seq::new(s.len(), |i: int| s[i]@)
}

/// A folder in the answer.
#[derive(Debug)]
pub struct BrowseEntry {
    pub name: String,
    pub has_models: bool,
    pub hidden: bool,
}

#[verifier::ext_equal]
pub struct BrowseView {
    pub name: Seq<char>,
    pub has_models: bool,
    pub hidden: bool,
}

impl View for BrowseEntry {
    type V = BrowseView;

    open spec fn view(&self) -> BrowseView {
        BrowseView { name: self.name@, has_models: self.has_models, hidden: self.hidden }
    }
}

pub open spec fn browse_view(s: Seq<BrowseEntry>) -> Seq<BrowseView> {
    Seq::new(s.len(), |i: int| s[i]@)
}

/// The folder that is shown.
#[derive(Debug)]
pub struct BrowseListing {
    pub current: String,
    /// The folder above, if it may be shown too.
    pub parent: Option<String>,
    pub entries: Vec<BrowseEntry>,
    /// Whether there are more folders than the answer holds.
    pub truncated: bool,
    /// How many files of models lie in the folder itself.
    pub model_files_here: usize,
}

// ---------- which folder ----------

/// Whether hidden folders are shown: a flag, or the text `true`.
pub open spec fn spec_show_hidden(query: json::JsonView) -> bool {
    let v = json::member(query, "show_hidden"@);
    match json::bool_of(v) {
        Some(b) => b,
        None => json::text_of(v) == Some("true"@),
    }
}

/// Whether a request asks for hidden folders.
pub fn show_hidden(query: &Json) -> (r: bool)
    ensures
        r == spec_show_hidden(query@),
{
    match query.get("show_hidden") {
        Some(v) => match v.as_bool() {
            Some(b) => b,
            None => match v.as_str() {
                Some(s) => text::same(s, "true"),
                None => false,
            },
        },
        None => false,
    }
}

pub open spec fn asked_path(query: json::JsonView) -> Seq<char> {
    text::trimmed(
        match json::text_of(json::member(query, "path"@)) {
            Some(s) => s,
            None => ""@,
        },
    )
}

pub open spec fn spec_requested(
    query: json::JsonView,
    models_dir: Seq<char>,
    models_dir_is_there: bool,
    home: Option<Seq<char>>,
) -> Result<Seq<char>, error::ApiErrorView> {
    let path = asked_path(query);
    if path.len() == 0 || path == "/"@ {
        if models_dir_is_there {
            Ok(models_dir)
        } else {
            match home {
                Some(h) => Ok(h),
                None => Err(
                    error::ApiErrorView {
                        status: 404,
                        detail: "Не найдены ни папка моделей, ни домашняя папка"@,
                    },
                ),
            }
        }
    } else {
        Ok(path)
    }
}

/// The folder that a request asks for; without a name, that of the models or the home folder.
pub fn requested_dir(
    query: &Json,
    models_dir: &str,
    models_dir_is_there: bool,
    home: &Option<String>,
) -> (r: ApiResult<String>)
    ensures
        match spec_requested(
            query@,
            models_dir@,
            models_dir_is_there,
            chat_store::opt_text(*home),
        ) {
            Ok(p) => r is Ok && r->Ok_0@ == p,
            Err(e) => r is Err && r->Err_0@ == e,
        },
{
    let raw = match query.get("path") {
        Some(v) => match v.as_str() {
            Some(s) => s,
            None => "",
        },
        None => "",
    };
    let path = text::trim(raw);
    if path.as_str().is_empty() || text::same(path.as_str(), "/") {
        if models_dir_is_there {
            return Ok(models_dir.to_owned());
        }
        return match home {
            Some(h) => Ok(h.clone()),
            None => Err(
                ApiError::not_found(
                    "Не найдены ни папка моделей, ни домашняя папка".to_owned(),
                ),
            ),
        };
    }
    Ok(path)
}

/// The folder above, if it lies inside one of the roots.
pub open spec fn shown_parent(
    above: Option<Seq<char>>,
    roots: Seq<Seq<char>>,
) -> Option<Seq<char>> {
    match above {
        Some(p) => if paths::within_any(p, roots) {
            Some(p)
        } else {
            None
        },
        None => None,
    }
}

// ---------- what is listed ----------

pub open spec fn model_ending(lower: Seq<char>) -> bool {
    text::has_suffix(lower, ".gguf"@)
}

/// Whether a name in small letters is that of a model's file.
pub fn has_model_ending(lower: &str) -> (r: bool)
    ensures
        r == model_ending(lower@),
{
    text::ends_with(lower, ".gguf")
}

pub open spec fn is_model_name(name: Seq<char>) -> bool {
    model_ending(text::lowered(name))
}

fn is_model(name: &str) -> (r: bool)
    ensures
        r == is_model_name(name@),
{
    let lower = text::to_lowercase(name);
    has_model_ending(lower.as_str())
}

/// Whether one of these names is that of a model's file.
pub open spec fn any_model(names: Seq<Seq<char>>) -> bool {
    exists|i: int| 0 <= i < names.len() && is_model_name(#[trigger] names[i])
}

/// Whether one of these names is that of a model's file.
pub fn contains_gguf(names: &Vec<String>) -> (r: bool)
    ensures
        r == any_model(text::views(names@)),
{
    let ghost view = text::views(names@);
    let mut i: usize = 0;
    while i < names.len()
        invariant
            i <= names@.len(),
            view == text::views(names@),
            forall|k: int| 0 <= k < i ==> !is_model_name(#[trigger] view[k]),
        decreases names@.len() - i,
    {
        assert(view[i as int] == names@[i as int]@);
        if is_model(names[i].as_str()) {
            return true;
        }
        i += 1;
    }
    false
}

pub open spec fn hidden_name(name: Seq<char>) -> bool {
    name.len() > 0 && name[0] == '.'
}

/// Whether an entry is a folder to be shown.
pub open spec fn is_shown(e: DirView, hidden: bool) -> bool {
    e.kind == DirKind::Folder && (hidden || !hidden_name(e.name))
}

/// How many of the first `n` entries are folders to be shown.
pub open spec fn shown_count(s: Seq<DirView>, hidden: bool, n: int) -> int
    decreases n,
{
    if n <= 0 {
        0
    } else {
        shown_count(s, hidden, n - 1) + if is_shown(s[n - 1], hidden) {
            1int
        } else {
            0
        }
    }
}

/// How many of the first `n` entries are files of models.
pub open spec fn model_count(s: Seq<DirView>, n: int) -> int
    decreases n,
{
    if n <= 0 {
        0
    } else {
        model_count(s, n - 1) + if s[n - 1].kind == DirKind::File && is_model_name(s[n - 1].name) {
            1int
        } else {
            0
        }
    }
}

/// The folders in the answer: the first ones to be shown, as many as it holds.
pub open spec fn listed(s: Seq<DirView>, hidden: bool) -> spec_fn(int) -> bool {
    |i: int| is_shown(s[i], hidden) && shown_count(s, hidden, i) < MAX_BROWSE_ENTRIES
}

pub open spec fn dir_key(s: Seq<DirView>) -> spec_fn(int) -> order::KeyView {
    |i: int| order::KeyView { rank: 0, name: s[i].name, at: i }
}

/// The places of the folders in the answer, by name.
pub open spec fn dir_places(s: Seq<DirView>, hidden: bool, at: Seq<int>) -> bool {
    order::lists(at, s.len() as int, listed(s, hidden), dir_key(s))
}

pub open spec fn entry_of(e: DirView) -> BrowseView {
    BrowseView { name: e.name, has_models: any_model(e.names), hidden: hidden_name(e.name) }
}

pub open spec fn entries_at(s: Seq<DirView>, at: Seq<int>) -> Seq<BrowseView> {
    Seq::new(at.len(), |i: int| entry_of(s[at[i]]))
}

fn starts_with_dot(name: &str) -> (r: bool)
    ensures
        r == hidden_name(name@),
{
    let chars = text::to_chars(name);
    chars.len() > 0 && chars[0] == '.'
}

/// The folders of a folder by name, and how many files of models it has. `target` is its canonical
/// path, `above` that of the folder above it; the root of a disk has none.
pub fn list_browse_entries(
    target: &str,
    above: &Option<String>,
    roots: &Vec<String>,
    hidden: bool,
    entries: &Vec<DirEntry>,
) -> (r: BrowseListing)
    ensures
        r.current@ == target@,
        chat_store::opt_text(r.parent) == shown_parent(
            chat_store::opt_text(*above),
            text::views(roots@),
        ),
        exists|at: Seq<int>| #[trigger]
            dir_places(dir_view(entries@), hidden, at) && browse_view(r.entries@) == entries_at(
                dir_view(entries@),
                at,
            ),
        r.truncated == (shown_count(dir_view(entries@), hidden, entries@.len() as int)
            > MAX_BROWSE_ENTRIES),
        r.model_files_here == model_count(dir_view(entries@), entries@.len() as int),
{
    let parent = match above {
        Some(p) => if paths::is_within_any(p.as_str(), roots) {
            Some(p.clone())
        } else {
            None
        },
        None => None,
    };
    let ghost s = dir_view(entries@);
    let ghost keep = listed(s, hidden);
    let ghost key = dir_key(s);
    let mut keys: Vec<SortKey> = Vec::new();
    let mut shown: usize = 0;
    let mut models: usize = 0;
    let mut i: usize = 0;
    assert(order::keys_view(keys@) =~= Seq::empty());
    while i < entries.len()
        invariant
            i <= entries@.len(),
            s == dir_view(entries@),
            keep == listed(s, hidden),
            key == dir_key(s),
            shown <= i,
            models <= i,
            shown == shown_count(s, hidden, i as int),
            models == model_count(s, i as int),
            order::keys_of(order::keys_view(keys@), i as int, keep, key),
        decreases entries@.len() - i,
    {
        let e = &entries[i];
        assert(s[i as int] == e@);
        let ghost before = order::keys_view(keys@);
        proof {
            order::lemma_keys_grow(before, i as int, keep, key);
        }
        if e.kind == DirKind::File {
            if is_model(e.name.as_str()) {
                models += 1;
            }
        } else if e.kind == DirKind::Folder {
            if hidden || !starts_with_dot(e.name.as_str()) {
                if shown < MAX_BROWSE_ENTRIES {
                    let item = SortKey { rank: 0, name: e.name.clone(), at: i };
                    assert(item@ =~= key(i as int));
                    keys.push(item);
                    assert(order::keys_view(keys@) =~= before.push(key(i as int)));
                }
                shown += 1;
            }
        }
        i += 1;
    }
    let places = sorted_places(keys, Ghost(i as int), Ghost(keep), Ghost(key));
    let ghost at = places@.map_values(|p: usize| p as int);
    let mut out: Vec<BrowseEntry> = Vec::new();
    let mut j: usize = 0;
    while j < places.len()
        invariant
            j <= places@.len(),
            s == dir_view(entries@),
            at == places@.map_values(|p: usize| p as int),
            dir_places(s, hidden, at),
            out@.len() == j,
            forall|k: int| 0 <= k < j ==> (#[trigger] out@[k])@ == entry_of(s[at[k]]),
        decreases places@.len() - j,
    {
        assert(at[j as int] == places@[j as int]);
        let e = &entries[places[j]];
        assert(s[at[j as int]] == e@);
        out.push(
            BrowseEntry {
                name: e.name.clone(),
                has_models: contains_gguf(&e.names),
                hidden: starts_with_dot(e.name.as_str()),
            },
        );
        j += 1;
    }
    assert(browse_view(out@) =~= entries_at(s, at));
    assert(dir_places(s, hidden, at));
    BrowseListing {
        current: target.to_owned(),
        parent,
        entries: out,
        truncated: shown > MAX_BROWSE_ENTRIES,
        model_files_here: models,
    }
}

/// The folder above is shown only where it may be browsed itself.
pub proof fn law_way_up_stays_inside_the_roots(
    above: Option<Seq<char>>,
    roots: Seq<Seq<char>>,
)
    requires
        shown_parent(above, roots) is Some,
    ensures
        paths::within_any(shown_parent(above, roots)->Some_0, roots),
{
}

/// An ASCII name is that of a model's file if it ends in `.gguf`, letters of either case.
pub proof fn law_ascii_model_names(name: Seq<char>)
    requires
        is_ascii_chars(name),
    ensures
        is_model_name(name) == text::has_suffix(text::lower(name), ".gguf"@),
{
}

} // verus!
