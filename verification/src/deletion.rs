//! Deleting files of models: which files a request means, and what deleting them frees.

use vstd::prelude::*;
use vstd::utf8::*;

use crate::error;
use crate::error::{ApiError, ApiResult};
use crate::hub;
use crate::hub::{name_of_path, ScannedGgufFile};
use crate::json;
use crate::json::Json;
use crate::names;
use crate::names::file_matches_repo_and_quant;
use crate::paths;
use crate::paths::{resolve_existing_file_within, Found};
use crate::scan_folders;
use crate::text;

verus! {

/// A request to delete files of a model.
#[derive(Debug)]
pub struct DeleteRequest {
    pub repo_id: Option<String>,
    pub variant: Option<String>,
    pub cache_path: Option<String>,
}

/// The first of two fields that a request has.
pub open spec fn either(body: json::JsonView, a: Seq<char>, b: Seq<char>) -> Option<json::JsonView> {
    match json::member(body, a) {
        Some(v) => Some(v),
        None => json::member(body, b),
    }
}

pub open spec fn any_of(body: json::JsonView, a: Seq<char>, b: Seq<char>, c: Seq<char>) -> Option<
    json::JsonView,
> {
    match either(body, a, b) {
        Some(v) => Some(v),
        None => json::member(body, c),
    }
}

pub open spec fn opt_text(s: Option<String>) -> Option<Seq<char>> {
    match s {
        Some(t) => Some(t@),
        None => None,
    }
}

fn text_value(v: Option<&Json>) -> (r: Option<String>)
    ensures
        opt_text(r) == json::text_of(
            match v {
                Some(j) => Some(j@),
                None => None,
            },
        ),
{
    match v {
        Some(j) => match j.as_str() {
            Some(s) => Some(s.to_owned()),
            None => None,
        },
        None => None,
    }
}

fn either_field<'a>(body: &'a Json, a: &str, b: &str) -> (r: Option<&'a Json>)
    ensures
        either(body@, a@, b@) == (match r {
            Some(j) => Some(j@),
            None => None,
        }),
{
    match body.get(a) {
        Some(v) => Some(v),
        None => body.get(b),
    }
}

/// What a request asks to delete; each field has more than one name.
pub fn delete_request(body: &Json) -> (r: DeleteRequest)
    ensures
        opt_text(r.repo_id) == json::text_of(either(body@, "repo_id"@, "repoId"@)),
        opt_text(r.variant) == json::text_of(
            any_of(body@, "variant"@, "gguf_variant"@, "quant"@),
        ),
        opt_text(r.cache_path) == json::text_of(either(body@, "cache_path"@, "cachePath"@)),
{
    let variant = match either_field(body, "variant", "gguf_variant") {
        Some(v) => Some(v),
        None => body.get("quant"),
    };
    DeleteRequest {
        repo_id: text_value(either_field(body, "repo_id", "repoId")),
        variant: text_value(variant),
        cache_path: text_value(either_field(body, "cache_path", "cachePath")),
    }
}

pub open spec fn lookups_view(s: Seq<Vec<Option<Found>>>) -> Seq<Seq<Option<paths::FoundView>>> {
    Seq::new(s.len(), |i: int| paths::founds_view(s[i]@))
}

/// The files among the first `n` of a variant that lie inside a root.
pub open spec fn variant_targets(
    roots: Seq<Seq<char>>,
    files: Seq<hub::ScannedView>,
    lookups: Seq<Seq<Option<paths::FoundView>>>,
    repo_id: Seq<char>,
    variant: Seq<char>,
    n: int,
) -> Seq<Seq<char>>
    decreases n,
{
    if n <= 0 {
        Seq::empty()
    } else {
        let before = variant_targets(roots, files, lookups, repo_id, variant, n - 1);
        let f = files[n - 1];
        if hub::like(f.quant, variant) && hub::like(f.repo_id, repo_id) {
            match paths::spec_resolve_kind(roots, f.path, lookups[n - 1], paths::PathKind::File) {
                Ok(found) => before.push(found.path),
                Err(_) => before,
            }
        } else {
            before
        }
    }
}

/// The ending of a name: what stands behind its last dot, if that is not its first character.
pub open spec fn extension(path: Seq<char>) -> Option<Seq<char>> {
    match hub::file_name(path) {
        None => None,
        Some(name) => match text::last_index(name, '.', name.len() as int) {
            None => None,
            Some(k) => if k == 0 {
                None
            } else {
                Some(name.skip(k + 1))
            },
        },
    }
}

pub open spec fn is_model_file(path: Seq<char>) -> bool {
    extension(path) is Some && hub::like(extension(path)->Some_0, "gguf"@)
}

pub open spec fn all_model_files(targets: Seq<Seq<char>>) -> bool {
    forall|i: int| 0 <= i < targets.len() ==> is_model_file(#[trigger] targets[i])
}

/// The files that a request means, before they are looked at.
pub open spec fn meant(
    roots: Seq<Seq<char>>,
    repo_id: Option<Seq<char>>,
    variant: Option<Seq<char>>,
    cache_path: Option<Seq<char>>,
    files: Seq<hub::ScannedView>,
    cache_found: Seq<Option<paths::FoundView>>,
    lookups: Seq<Seq<Option<paths::FoundView>>>,
) -> Result<Seq<Seq<char>>, error::ApiErrorView> {
    match (cache_path, variant) {
        (Some(path), _) => match paths::spec_resolve_kind(
            roots,
            path,
            cache_found,
            paths::PathKind::File,
        ) {
            Ok(found) => Ok(seq![found.path]),
            Err(rejection) => Err(error::path_error(rejection, "cache_path"@)),
        },
        (None, Some(v)) => if repo_id is Some && text::trimmed(repo_id->Some_0).len() > 0 {
            Ok(
                variant_targets(
                    roots,
                    files,
                    lookups,
                    repo_id->Some_0,
                    v,
                    files.len() as int,
                ),
            )
        } else {
            Err(scan_folders::bad_request("Для удаления по варианту нужен repo_id"@))
        },
        (None, None) => Err(scan_folders::bad_request("Укажите cache_path или variant"@)),
    }
}

/// The files that a request deletes.
pub open spec fn spec_targets(targets: Result<Seq<Seq<char>>, error::ApiErrorView>) -> Result<
    Seq<Seq<char>>,
    error::ApiErrorView,
> {
    match targets {
        Err(e) => Err(e),
        Ok(list) => if list.len() == 0 {
            Err(
                error::ApiErrorView {
                    status: 404,
                    detail: "Локальные файлы этой модели не найдены"@,
                },
            )
        } else if !all_model_files(list) {
            Err(scan_folders::forbidden("Удалять можно только файлы моделей .gguf"@))
        } else {
            Ok(list)
        },
    }
}

fn model_file(path: &str) -> (r: bool)
    ensures
        r == is_model_file(path@),
{
    let name = match name_of_path(path) {
        Some(name) => name,
        None => return false,
    };
    let chars = text::to_chars(name.as_str());
    let dot = match text::rfind(&chars, '.') {
        Some(k) => k,
        None => return false,
    };
    if dot == 0 {
        return false;
    }
    let total = chars.len();
    let ending = text::from_chars(&chars, dot + 1, total);
    assert(ending@ =~= name@.skip(dot + 1));
    text::same_ignoring_case(ending.as_str(), "gguf")
}

fn only_model_files(targets: &Vec<String>) -> (r: bool)
    ensures
        r == all_model_files(text::views(targets@)),
{
    let ghost view = text::views(targets@);
    let mut i: usize = 0;
    while i < targets.len()
        invariant
            i <= targets@.len(),
            view == text::views(targets@),
            forall|k: int| 0 <= k < i ==> is_model_file(#[trigger] view[k]),
        decreases targets@.len() - i,
    {
        assert(view[i as int] == targets@[i as int]@);
        if !model_file(targets[i].as_str()) {
            return false;
        }
        i += 1;
    }
    true
}

fn targets_of_variant(
    roots: &Vec<String>,
    files: &Vec<ScannedGgufFile>,
    lookups: &Vec<Vec<Option<Found>>>,
    repo_id: &str,
    variant: &str,
) -> (r: Vec<String>)
    requires
        lookups@.len() == files@.len(),
    ensures
        text::views(r@) == variant_targets(
            text::views(roots@),
            hub::scanned_view(files@),
            lookups_view(lookups@),
            repo_id@,
            variant@,
            files@.len() as int,
        ),
{
    let ghost rv = text::views(roots@);
    let ghost fv = hub::scanned_view(files@);
    let ghost lv = lookups_view(lookups@);
    let mut out: Vec<String> = Vec::new();
    let mut i: usize = 0;
    assert(text::views(out@) =~= Seq::empty());
    while i < files.len()
        invariant
            i <= files@.len(),
            lookups@.len() == files@.len(),
            rv == text::views(roots@),
            fv == hub::scanned_view(files@),
            lv == lookups_view(lookups@),
            text::views(out@) == variant_targets(rv, fv, lv, repo_id@, variant@, i as int),
        decreases files@.len() - i,
    {
        let f = &files[i];
        assert(fv[i as int] == f@);
        assert(lv[i as int] == paths::founds_view(lookups@[i as int]@));
        let ghost before = text::views(out@);
        if text::same_ignoring_case(f.quant.as_str(), variant) && text::same_ignoring_case(
            f.repo_id.as_str(),
            repo_id,
        ) {
            if let Ok(found) = resolve_existing_file_within(roots, f.path.as_str(), &lookups[i]) {
                let ghost path = found.path@;
                out.push(found.path);
                assert(text::views(out@) =~= before.push(path));
            }
        }
        i += 1;
    }
    out
}

/// The files that a request deletes. `cache_found` says what there is at the candidates of the
/// request's path, `lookups` at those of each file.
pub fn delete_targets(
    roots: &Vec<String>,
    request: &DeleteRequest,
    files: &Vec<ScannedGgufFile>,
    cache_found: &Vec<Option<Found>>,
    lookups: &Vec<Vec<Option<Found>>>,
) -> (r: ApiResult<Vec<String>>)
    requires
        lookups@.len() == files@.len(),
    ensures
        match spec_targets(
            meant(
                text::views(roots@),
                opt_text(request.repo_id),
                opt_text(request.variant),
                opt_text(request.cache_path),
                hub::scanned_view(files@),
                paths::founds_view(cache_found@),
                lookups_view(lookups@),
            ),
        ) {
            Ok(list) => r is Ok && text::views(r->Ok_0@) == list,
            Err(e) => r is Err && r->Err_0@ == e,
        },
{
    let mut targets: Vec<String> = Vec::new();
    if let Some(path) = &request.cache_path {
        match resolve_existing_file_within(roots, path.as_str(), cache_found) {
            Ok(found) => {
                let ghost p = found.path@;
                targets.push(found.path);
                assert(text::views(targets@) =~= seq![p]);
            },
            Err(rejection) => return Err(ApiError::from_path_rejection(rejection, "cache_path")),
        }
    } else if let Some(variant) = &request.variant {
        let repo_id = match &request.repo_id {
            Some(repo_id) => repo_id,
            None => return Err(
                ApiError::bad_request("Для удаления по варианту нужен repo_id".to_owned()),
            ),
        };
        if text::trim(repo_id.as_str()).as_str().is_empty() {
            return Err(ApiError::bad_request("Для удаления по варианту нужен repo_id".to_owned()));
        }
        targets =
        targets_of_variant(roots, files, lookups, repo_id.as_str(), variant.as_str());
    } else {
        return Err(ApiError::bad_request("Укажите cache_path или variant".to_owned()));
    }
    if targets.len() == 0 {
        return Err(ApiError::not_found("Локальные файлы этой модели не найдены".to_owned()));
    }
    if !only_model_files(&targets) {
        return Err(ApiError::forbidden("Удалять можно только файлы моделей .gguf".to_owned()));
    }
    Ok(targets)
}

proof fn lemma_variant_targets_inside(
    roots: Seq<Seq<char>>,
    files: Seq<hub::ScannedView>,
    lookups: Seq<Seq<Option<paths::FoundView>>>,
    repo_id: Seq<char>,
    variant: Seq<char>,
    n: int,
)
    requires
        n <= files.len(),
    ensures
        forall|i: int|
            0 <= i < variant_targets(roots, files, lookups, repo_id, variant, n).len()
                ==> paths::within_any(
                #[trigger] variant_targets(roots, files, lookups, repo_id, variant, n)[i],
                roots,
            ),
    decreases n,
{
    if n > 0 {
        lemma_variant_targets_inside(roots, files, lookups, repo_id, variant, n - 1);
        let before = variant_targets(roots, files, lookups, repo_id, variant, n - 1);
        let after = variant_targets(roots, files, lookups, repo_id, variant, n);
        if paths::spec_resolve(roots, files[n - 1].path, lookups[n - 1]) is Ok {
            paths::law_resolved_path_is_inside_a_root(roots, files[n - 1].path, lookups[n - 1]);
        }
        assert forall|i: int| 0 <= i < after.len() implies paths::within_any(
            #[trigger] after[i],
            roots,
        ) by {
            if i < before.len() {
                assert(after[i] == before[i]);
            }
        }
    }
}

/// Nothing outside the roots is deleted, and only files of models.
pub proof fn law_only_models_inside_the_roots_are_deleted(
    roots: Seq<Seq<char>>,
    repo_id: Option<Seq<char>>,
    variant: Option<Seq<char>>,
    cache_path: Option<Seq<char>>,
    files: Seq<hub::ScannedView>,
    cache_found: Seq<Option<paths::FoundView>>,
    lookups: Seq<Seq<Option<paths::FoundView>>>,
    i: int,
)
    requires
        spec_targets(
            meant(roots, repo_id, variant, cache_path, files, cache_found, lookups),
        ) is Ok,
        0 <= i < spec_targets(
            meant(roots, repo_id, variant, cache_path, files, cache_found, lookups),
        )->Ok_0.len(),
    ensures
        ({
            let target = spec_targets(
                meant(roots, repo_id, variant, cache_path, files, cache_found, lookups),
            )->Ok_0[i];
            paths::within_any(target, roots) && is_model_file(target)
        }),
{
    let list = meant(roots, repo_id, variant, cache_path, files, cache_found, lookups)->Ok_0;
    assert(is_model_file(list[i]));
    match (cache_path, variant) {
        (Some(path), _) => {
            paths::law_resolved_path_is_inside_a_root(roots, path, cache_found);
        },
        (None, Some(v)) => {
            lemma_variant_targets_inside(
                roots,
                files,
                lookups,
                repo_id->Some_0,
                v,
                files.len() as int,
            );
        },
        _ => {},
    }
}

// ---------- what deleting frees ----------

/// Whether a file goes when a model, or a variant of it, is deleted.
pub open spec fn goes(f: hub::ScannedView, repo_id: Seq<char>, variant: Option<Seq<char>>) -> bool {
    match variant {
        Some(v) => names::spec_file_matches(f.filename, repo_id, v) || (hub::like(
            f.repo_id,
            repo_id,
        ) && hub::like(f.quant, v)) || (hub::like(f.filename, repo_id) && hub::like(f.quant, v)),
        None => hub::like(f.repo_id, repo_id) || hub::like(f.filename, repo_id) || (repo_id.len()
            > 0 && (text::has_part(repo_id, f.filename) || text::has_part(
            text::lowered(f.filename),
            text::lowered(repo_id),
        ))),
    }
}

/// The bytes of those of the first `n` files that go.
pub open spec fn freed(
    files: Seq<hub::ScannedView>,
    repo_id: Seq<char>,
    variant: Option<Seq<char>>,
    n: int,
) -> int
    decreases n,
{
    if n <= 0 {
        0
    } else {
        freed(files, repo_id, variant, n - 1) + if goes(files[n - 1], repo_id, variant) {
            files[n - 1].size_bytes as int
        } else {
            0
        }
    }
}

/// What deleting frees: the sizes of the files, or a guess by the name where no file is known.
pub open spec fn spec_impact(
    files: Seq<hub::ScannedView>,
    repo_id: Seq<char>,
    variant: Option<Seq<char>>,
) -> int {
    let bytes = freed(files, repo_id, variant, files.len() as int);
    if bytes == 0 && repo_id.len() > 0 {
        guessed_size(text::lowered(repo_id))
    } else {
        bytes
    }
}

pub open spec fn guessed_size(lower: Seq<char>) -> int {
    if text::has_part(lower, "1b"@) {
        807_694_368
    } else if text::has_part(lower, "3b"@) {
        2_100_000_000
    } else {
        0
    }
}

proof fn lemma_freed_grows(
    files: Seq<hub::ScannedView>,
    repo_id: Seq<char>,
    variant: Option<Seq<char>>,
    k: int,
    n: int,
)
    requires
        0 <= k <= n,
    ensures
        0 <= freed(files, repo_id, variant, k) <= freed(files, repo_id, variant, n),
    decreases n,
{
    if n > 0 {
        if k < n {
            lemma_freed_grows(files, repo_id, variant, k, n - 1);
        } else {
            lemma_freed_grows(files, repo_id, variant, k - 1, n - 1);
        }
    }
}

fn file_goes(f: &ScannedGgufFile, repo_id: &str, variant: &Option<String>) -> (r: bool)
    ensures
        r == goes(f@, repo_id@, opt_text(*variant)),
{
    match variant {
        Some(v) => file_matches_repo_and_quant(f.filename.as_str(), repo_id, v.as_str()) || (
        text::same_ignoring_case(f.repo_id.as_str(), repo_id) && text::same_ignoring_case(
            f.quant.as_str(),
            v.as_str(),
        )) || (text::same_ignoring_case(f.filename.as_str(), repo_id) && text::same_ignoring_case(
            f.quant.as_str(),
            v.as_str(),
        )),
        None => text::same_ignoring_case(f.repo_id.as_str(), repo_id) || text::same_ignoring_case(
            f.filename.as_str(),
            repo_id,
        ) || (!repo_id.is_empty() && (text::contains(repo_id, f.filename.as_str())
            || text::contains(
            text::to_lowercase(f.filename.as_str()).as_str(),
            text::to_lowercase(repo_id).as_str(),
        ))),
    }
}

/// A guess of a model's size by its lower-case name.
pub fn guess_size(lower: &str) -> (r: u64)
    ensures
        r == guessed_size(lower@),
{
    if text::contains(lower, "1b") {
        807_694_368
    } else if text::contains(lower, "3b") {
        2_100_000_000
    } else {
        0
    }
}

/// The bytes that deleting a model, or a variant of it, frees.
pub fn calculate_delete_impact(
    files: &Vec<ScannedGgufFile>,
    repo_id: &str,
    variant: &Option<String>,
) -> (r: u64)
    requires
        freed(
            hub::scanned_view(files@),
            repo_id@,
            opt_text(*variant),
            files@.len() as int,
        ) <= u64::MAX,
    ensures
        r == spec_impact(hub::scanned_view(files@), repo_id@, opt_text(*variant)),
        is_ascii_chars(repo_id@) && repo_id@.len() > 0 && freed(
            hub::scanned_view(files@),
            repo_id@,
            opt_text(*variant),
            files@.len() as int,
        ) == 0 ==> r == guessed_size(text::lower(repo_id@)),
{
    let ghost view = hub::scanned_view(files@);
    let ghost v = opt_text(*variant);
    let mut bytes: u64 = 0;
    let mut i: usize = 0;
    while i < files.len()
        invariant
            i <= files@.len(),
            view == hub::scanned_view(files@),
            v == opt_text(*variant),
            freed(view, repo_id@, v, view.len() as int) <= u64::MAX,
            bytes == freed(view, repo_id@, v, i as int),
        decreases files@.len() - i,
    {
        assert(view[i as int] == files@[i as int]@);
        proof {
            lemma_freed_grows(view, repo_id@, v, i + 1, view.len() as int);
        }
        if file_goes(&files[i], repo_id, variant) {
            bytes = bytes + files[i].size_bytes;
        }
        i += 1;
    }
    if bytes == 0 && !repo_id.is_empty() {
        bytes = guess_size(text::to_lowercase(repo_id).as_str());
    }
    bytes
}

/// Whether a file with an ASCII name goes with a repository or a variant of ASCII names is decided
/// by the names with their letters in lower case.
pub proof fn law_ascii_names_in_lower_case(
    f: hub::ScannedView,
    repo_id: Seq<char>,
    variant: Option<Seq<char>>,
)
    requires
        is_ascii_chars(f.filename),
        is_ascii_chars(repo_id),
        variant matches Some(v) ==> is_ascii_chars(v),
    ensures
        goes(f, repo_id, variant) == (match variant {
            Some(v) => names::names_match(
                text::lower(f.filename),
                text::lower(repo_id),
                text::lower(v),
            ) || (hub::like(f.quant, v) && (hub::like(f.repo_id, repo_id) || hub::like(
                f.filename,
                repo_id,
            ))),
            None => hub::like(f.repo_id, repo_id) || hub::like(f.filename, repo_id) || (
            repo_id.len() > 0 && (text::has_part(repo_id, f.filename) || text::has_part(
                text::lower(f.filename),
                text::lower(repo_id),
            ))),
        }),
{
}

} // verus!
