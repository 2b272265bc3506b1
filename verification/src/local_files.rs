//! Models on disk as requests name them: by path, by file name or by repository.

use vstd::prelude::*;

use crate::chat_store;
use crate::deletion;
use crate::download_jobs;
use crate::download_jobs::local_variant;
use crate::error;
use crate::error::{ApiError, ApiResult};
use crate::hub;
use crate::hub::{local_attempts, ScannedGgufFile};
use crate::json;
use crate::json::Json;
use crate::model_scan;
use crate::model_scan::LocalModel;
use crate::paths;
use crate::paths::{resolve_existing_file_within, resolve_existing_within, Found};
use crate::scan_folders;
use crate::scan_folders::ScanFolderEntry;
use crate::text;

verus! {

// ---------- where models may lie ----------

/// The folders where models are looked for, opened and deleted: that of the models, and those that
/// the user added.
pub open spec fn spec_roots(models_dir: Seq<char>, folders: Seq<scan_folders::EntryView>) -> Seq<
    Seq<char>,
> {
    seq![models_dir] + Seq::new(folders.len(), |i: int| folders[i].path)
}

/// The folders where models are looked for, opened and deleted.
pub fn model_roots(models_dir: &str, folders: &Vec<ScanFolderEntry>) -> (r: Vec<String>)
    ensures
        text::views(r@) == spec_roots(models_dir@, scan_folders::entries_view(folders@)),
{
    let ghost view = scan_folders::entries_view(folders@);
    let ghost all = spec_roots(models_dir@, view);
    let mut roots: Vec<String> = Vec::new();
    roots.push(models_dir.to_owned());
    let mut i: usize = 0;
    while i < folders.len()
        invariant
            i <= folders@.len(),
            view == scan_folders::entries_view(folders@),
            all == spec_roots(models_dir@, view),
            roots@.len() == i + 1,
            forall|k: int| 0 <= k <= i ==> (#[trigger] roots@[k])@ == all[k],
        decreases folders@.len() - i,
    {
        assert(view[i as int] == folders@[i as int]@);
        assert(all[i + 1] == view[i as int].path);
        roots.push(folders[i].path.clone());
        i += 1;
    }
    assert(text::views(roots@) =~= all);
    roots
}

// ---------- a file by its name ----------

/// The first attempt from `i` on that leads to a file inside the roots.
pub open spec fn attempt_from(
    roots: Seq<Seq<char>>,
    attempts: Seq<Seq<char>>,
    lookups: Seq<Seq<Option<paths::FoundView>>>,
    i: int,
) -> Option<Seq<char>>
    decreases attempts.len() - i,
{
    if i < 0 || i >= attempts.len() {
        None
    } else {
        match paths::spec_resolve_kind(roots, attempts[i], lookups[i], paths::PathKind::File) {
            Ok(found) => Some(found.path),
            Err(_) => attempt_from(roots, attempts, lookups, i + 1),
        }
    }
}

/// The file that a request names, inside the roots. `lookups` holds for each attempt what was found
/// at its candidates.
pub fn resolve_local_gguf_file(
    roots: &Vec<String>,
    candidate: &str,
    lookups: &Vec<Vec<Option<Found>>>,
) -> (r: Option<String>)
    requires
        lookups@.len() == hub::spec_attempts(candidate@).len(),
    ensures
        chat_store::opt_text(r) == attempt_from(
            text::views(roots@),
            hub::spec_attempts(candidate@),
            deletion::lookups_view(lookups@),
            0,
        ),
{
    let attempts = local_attempts(candidate);
    let ghost all = text::views(attempts@);
    let ghost view = deletion::lookups_view(lookups@);
    let ghost inside = text::views(roots@);
    let mut i: usize = 0;
    while i < attempts.len()
        invariant
            i <= attempts@.len(),
            all == text::views(attempts@),
            all == hub::spec_attempts(candidate@),
            view == deletion::lookups_view(lookups@),
            inside == text::views(roots@),
            lookups@.len() == all.len(),
            attempt_from(inside, all, view, 0) == attempt_from(inside, all, view, i as int),
        decreases attempts@.len() - i,
    {
        assert(all[i as int] == attempts@[i as int]@);
        assert(view[i as int] == paths::founds_view(lookups@[i as int]@));
        match resolve_existing_file_within(roots, attempts[i].as_str(), &lookups[i]) {
            Ok(found) => {
                return Some(found.path);
            },
            Err(_) => {},
        }
        i += 1;
    }
    None
}

/// A file that is found by its name lies inside one of the roots.
pub proof fn law_named_file_is_inside_a_root(
    roots: Seq<Seq<char>>,
    attempts: Seq<Seq<char>>,
    lookups: Seq<Seq<Option<paths::FoundView>>>,
    i: int,
)
    requires
        0 <= i <= attempts.len(),
        attempt_from(roots, attempts, lookups, i) is Some,
    ensures
        paths::within_any(attempt_from(roots, attempts, lookups, i)->Some_0, roots),
    decreases attempts.len() - i,
{
    if i < attempts.len() {
        match paths::spec_resolve_kind(roots, attempts[i], lookups[i], paths::PathKind::File) {
            Ok(found) => {
                paths::law_resolved_path_is_inside_a_root(roots, attempts[i], lookups[i]);
            },
            Err(_) => {
                law_named_file_is_inside_a_root(roots, attempts, lookups, i + 1);
            },
        }
    }
}

// ---------- a model by its repository ----------

pub open spec fn first_of(
    a: Option<json::JsonView>,
    b: Option<json::JsonView>,
) -> Option<json::JsonView> {
    match a {
        Some(v) => Some(v),
        None => b,
    }
}

/// The name in a request for a model on disk; it has four names of its own.
pub open spec fn requested_model(params: json::JsonView) -> Seq<char> {
    let value = first_of(
        first_of(
            first_of(json::member(params, "model_id"@), json::member(params, "repo_id"@)),
            json::member(params, "repoId"@),
        ),
        json::member(params, "model"@),
    );
    text::trimmed(
        match json::text_of(value) {
            Some(s) => s,
            None => ""@,
        },
    )
}

pub open spec fn requested_variant(params: json::JsonView) -> Option<Seq<char>> {
    download_jobs::filled(
        json::text_of(
            first_of(json::member(params, "variant"@), json::member(params, "gguf_variant"@)),
        ),
    )
}

fn field_of<'a>(params: &'a Json, a: &str, b: &str) -> (r: Option<&'a Json>)
    ensures
        first_of(json::member(params@, a@), json::member(params@, b@)) == (match r {
            Some(v) => Some(v@),
            None => None,
        }),
{
    match params.get(a) {
        Some(v) => Some(v),
        None => params.get(b),
    }
}

/// The model and the variant that a request for a model on disk names.
pub fn cached_model_request(params: &Json) -> (r: ApiResult<(String, Option<String>)>)
    ensures
        if requested_model(params@).len() == 0 {
            r is Err && r->Err_0@ == scan_folders::bad_request("Не указан repo_id"@)
        } else {
            r is Ok && r->Ok_0.0@ == requested_model(params@) && chat_store::opt_text(r->Ok_0.1)
                == requested_variant(params@)
        },
{
    let first = field_of(params, "model_id", "repo_id");
    let value = match first {
        Some(v) => Some(v),
        None => field_of(params, "repoId", "model"),
    };
    let name = match value {
        Some(v) => match v.as_str() {
            Some(s) => s,
            None => "",
        },
        None => "",
    };
    let model = text::trim(name);
    if model.as_str().is_empty() {
        return Err(ApiError::bad_request("Не указан repo_id".to_owned()));
    }
    let variant = match field_of(params, "variant", "gguf_variant") {
        Some(v) => match v.as_str() {
            Some(s) => {
                let t = text::trim(s);
                if t.as_str().is_empty() {
                    None
                } else {
                    Some(t)
                }
            },
            None => None,
        },
        None => None,
    };
    Ok((model, variant))
}

/// Where a model lies: the complete one of the repository and variant, else the file of that name.
pub open spec fn cached_place(
    models: Seq<model_scan::ModelView>,
    model_id: Seq<char>,
    variant: Option<Seq<char>>,
    by_name: Option<Seq<char>>,
) -> Option<Seq<char>> {
    match download_jobs::model_from(models, model_id, variant, 0) {
        Some(k) => Some(models[k].path),
        None => by_name,
    }
}

/// Where a model lies. `by_name` is the file of that name, if there is one.
pub fn cached_model_place(
    models: &Vec<LocalModel>,
    model_id: &str,
    variant: &Option<String>,
    by_name: Option<String>,
) -> (r: ApiResult<String>)
    ensures
        match cached_place(
            model_scan::models_view(models@),
            model_id@,
            chat_store::opt_text(*variant),
            chat_store::opt_text(by_name),
        ) {
            Some(p) => r is Ok && r->Ok_0@ == p,
            None => r is Err && r->Err_0@ == (error::ApiErrorView {
                status: 404,
                detail: "Модель "@ + model_id@ + " не найдена на диске"@,
            }),
        },
{
    if let Some(m) = local_variant(models, model_id, variant) {
        return Ok(m.path.clone());
    }
    match by_name {
        Some(p) => Ok(p),
        None => Err(
            ApiError::not_found(text::join3("Модель ", model_id, " не найдена на диске")),
        ),
    }
}

/// The place of a model, if it lies inside the roots. `found` holds what stands at its candidates.
pub fn cached_model_path(roots: &Vec<String>, place: &str, found: &Vec<Option<Found>>) -> (r:
    ApiResult<Found>)
    ensures
        match paths::spec_resolve(text::views(roots@), place@, paths::founds_view(found@)) {
            Ok(v) => r is Ok && r->Ok_0@ == v,
            Err(e) => r is Err && r->Err_0@ == error::path_error(e, "модель"@),
        },
{
    match resolve_existing_within(roots, place, found) {
        Ok(v) => Ok(v),
        Err(e) => Err(ApiError::from_path_rejection(e, "модель")),
    }
}

/// The first model from `i` on that a request for its description means.
pub open spec fn described_from(
    models: Seq<model_scan::ModelView>,
    identifier: Seq<char>,
    resolved: Option<Seq<char>>,
    i: int,
) -> Option<int>
    decreases models.len() - i,
{
    if i < 0 || i >= models.len() {
        None
    } else {
        let m = models[i];
        let by_path = match resolved {
            Some(p) => m.path == p || m.shard_paths.contains(p),
            None => false,
        };
        if by_path || (m.complete && hub::like(model_scan::spec_repo_id(m), identifier)) {
            Some(i)
        } else {
            described_from(models, identifier, resolved, i + 1)
        }
    }
}

/// The model that a request for its description means: the one of the file of that name, or a
/// complete one of that repository. `resolved` is the file of that name, if there is one.
pub fn described_model<'a>(
    models: &'a Vec<LocalModel>,
    identifier: &str,
    resolved: &Option<String>,
) -> (r: Option<&'a LocalModel>)
    ensures
        match described_from(
            model_scan::models_view(models@),
            text::trimmed(identifier@),
            chat_store::opt_text(*resolved),
            0,
        ) {
            Some(k) => 0 <= k < models@.len() && r is Some && r->Some_0@ == models@[k]@,
            None => r is None,
        },
{
    let name = text::trim(identifier);
    let ghost view = model_scan::models_view(models@);
    let ghost place = chat_store::opt_text(*resolved);
    let mut i: usize = 0;
    while i < models.len()
        invariant
            i <= models@.len(),
            view == model_scan::models_view(models@),
            place == chat_store::opt_text(*resolved),
            name@ == text::trimmed(identifier@),
            described_from(view, name@, place, 0) == described_from(view, name@, place, i as int),
        decreases models@.len() - i,
    {
        assert(view[i as int] == models@[i as int]@);
        let m = &models[i];
        let by_path = match resolved {
            Some(p) => text::same(m.path.as_str(), p.as_str()) || chat_store::holds(
                &m.shard_paths,
                p.as_str(),
            ),
            None => false,
        };
        if by_path || (m.complete && text::same_ignoring_case(
            m.repo_id().as_str(),
            name.as_str(),
        )) {
            return Some(m);
        }
        i += 1;
    }
    None
}

// ---------- lists ----------

/// The sizes of the first `n` files.
pub open spec fn size_sum(files: Seq<hub::ScannedView>, n: int) -> int
    decreases n,
{
    if n <= 0 {
        0
    } else {
        size_sum(files, n - 1) + files[n - 1].size_bytes
    }
}

proof fn lemma_size_sum_grows(files: Seq<hub::ScannedView>, k: int, n: int)
    requires
        0 <= k <= n,
    ensures
        0 <= size_sum(files, k) <= size_sum(files, n),
    decreases n,
{
    if k < n {
        lemma_size_sum_grows(files, k, n - 1);
    } else if n > 0 {
        lemma_size_sum_grows(files, n - 1, n - 1);
    }
}

/// The size of all files of a list.
pub fn total_size(files: &Vec<ScannedGgufFile>) -> (r: u64)
    requires
        size_sum(hub::scanned_view(files@), files@.len() as int) <= u64::MAX,
    ensures
        r == size_sum(hub::scanned_view(files@), files@.len() as int),
{
    let ghost view = hub::scanned_view(files@);
    let mut total: u64 = 0;
    let mut i: usize = 0;
    while i < files.len()
        invariant
            i <= files@.len(),
            view == hub::scanned_view(files@),
            size_sum(view, files@.len() as int) <= u64::MAX,
            total == size_sum(view, i as int),
        decreases files@.len() - i,
    {
        assert(view[i as int] == files@[i as int]@);
        proof {
            lemma_size_sum_grows(view, i + 1, files@.len() as int);
        }
        total = total + files[i].size_bytes;
        i += 1;
    }
    total
}

} // verus!
