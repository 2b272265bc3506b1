//! Further folders with models.
//!
//! A folder that is added widens what requests may open and delete, so only an existing, readable
//! folder is taken, and never the root of the disk. The number of a deleted folder is not given
//! again.

use vstd::prelude::*;

use crate::error;
use crate::error::{ApiError, ApiResult};
use crate::paths;
use crate::text;

verus! {

/// A folder with models.
#[derive(Debug)]
pub struct ScanFolderEntry {
    pub id: u64,
    pub path: String,
    pub created_at: String,
    pub status: Option<String>,
}

/// The folders, and the last number that was given.
#[derive(Debug)]
pub struct StoredFolders {
    pub next_id: u64,
    pub folders: Vec<ScanFolderEntry>,
}

/// A request to add a folder.
#[derive(Debug)]
pub struct AddFolderRequest {
    pub path: Option<String>,
}

#[verifier::ext_equal]
pub struct EntryView {
    pub id: u64,
    pub path: Seq<char>,
    pub created_at: Seq<char>,
    pub status: Option<Seq<char>>,
}

#[verifier::ext_equal]
pub struct StoredView {
    pub next_id: u64,
    pub folders: Seq<EntryView>,
}

impl View for ScanFolderEntry {
    type V = EntryView;

    open spec fn view(&self) -> EntryView {
        EntryView {
            id: self.id,
            path: self.path@,
            created_at: self.created_at@,
            status: match self.status {
                Some(s) => Some(s@),
                None => None,
            },
        }
    }
}

pub open spec fn entries_view(s: Seq<ScanFolderEntry>) -> Seq<EntryView> {
    Seq::new(s.len(), |i: int| s[i]@)
}

impl View for StoredFolders {
    type V = StoredView;

    open spec fn view(&self) -> StoredView {
        StoredView { next_id: self.next_id, folders: entries_view(self.folders@) }
    }
}

/// What was found where a folder should be.
#[derive(Debug)]
pub enum FolderProbe {
    NotFound,
    PermissionDenied,
    /// Something else went wrong; the words of the system.
    Failed(String),
    Found {
        /// The full path without links.
        canonical: String,
        is_folder: bool,
        /// Whether no folder lies above it.
        is_root: bool,
        /// Why the folder could not be read, if it could not.
        unreadable: Option<String>,
    },
}

#[verifier::ext_equal]
pub enum ProbeView {
    NotFound,
    PermissionDenied,
    Failed(Seq<char>),
    Found { canonical: Seq<char>, is_folder: bool, is_root: bool, unreadable: Option<Seq<char>> },
}

impl View for FolderProbe {
    type V = ProbeView;

    open spec fn view(&self) -> ProbeView {
        match self {
            FolderProbe::NotFound => ProbeView::NotFound,
            FolderProbe::PermissionDenied => ProbeView::PermissionDenied,
            FolderProbe::Failed(s) => ProbeView::Failed(s@),
            FolderProbe::Found { canonical, is_folder, is_root, unreadable } => ProbeView::Found {
                canonical: canonical@,
                is_folder: *is_folder,
                is_root: *is_root,
                unreadable: match unreadable {
                    Some(s) => Some(s@),
                    None => None,
                },
            },
        }
    }
}

pub open spec fn bad_request(detail: Seq<char>) -> error::ApiErrorView {
    error::ApiErrorView { status: 400, detail }
}

pub open spec fn forbidden(detail: Seq<char>) -> error::ApiErrorView {
    error::ApiErrorView { status: 403, detail }
}

pub open spec fn spec_requested(path: Option<Seq<char>>, is_full: bool) -> Result<
    Seq<char>,
    error::ApiErrorView,
> {
    let raw = match path {
        Some(s) => text::trimmed(s),
        None => Seq::empty(),
    };
    if raw.len() == 0 {
        Err(bad_request("Укажите путь к папке"@))
    } else if !is_full {
        Err(bad_request("Нужен полный путь к папке, а не «"@ + raw + "»"@))
    } else {
        Ok(raw)
    }
}

/// The folder that a request names: a full path. `is_full` says whether the system takes the path,
/// without the white space at its ends, as a full one.
pub fn requested_folder(request: &AddFolderRequest, is_full: bool) -> (r: ApiResult<String>)
    ensures
        match spec_requested(
            match request.path {
                Some(s) => Some(s@),
                None => None,
            },
            is_full,
        ) {
            Ok(path) => r is Ok && r->Ok_0@ == path,
            Err(e) => r is Err && r->Err_0@ == e,
        },
{
    let raw = match &request.path {
        Some(s) => text::trim(s.as_str()),
        None => return Err(ApiError::bad_request("Укажите путь к папке".to_owned())),
    };
    if raw.as_str().is_empty() {
        return Err(ApiError::bad_request("Укажите путь к папке".to_owned()));
    }
    if !is_full {
        return Err(
            ApiError::bad_request(
                text::join3("Нужен полный путь к папке, а не «", raw.as_str(), "»"),
            ),
        );
    }
    Ok(raw)
}

pub open spec fn spec_validate(path: Seq<char>, probe: ProbeView) -> Result<
    Seq<char>,
    error::ApiErrorView,
> {
    match probe {
        ProbeView::NotFound => Err(bad_request("Папка "@ + path + " не найдена"@)),
        ProbeView::PermissionDenied => Err(forbidden("Нет доступа к папке "@ + path)),
        ProbeView::Failed(why) => Err(bad_request("Не удалось открыть "@ + path + ": "@ + why)),
        ProbeView::Found { canonical, is_folder, is_root, unreadable } => if !is_folder {
            Err(bad_request(canonical + " — это файл, а не папка"@))
        } else if is_root {
            Err(
                bad_request(
                    "Корень диска добавить нельзя: укажите папку, в которой лежат модели"@,
                ),
            )
        } else {
            match unreadable {
                Some(why) => Err(
                    forbidden("Папку "@ + canonical + " не удалось прочитать: "@ + why),
                ),
                None => Ok(canonical),
            }
        },
    }
}

/// Whether a path can be added: an existing, readable folder that is not the root of the disk.
/// Returns its full path.
pub fn validate_folder(path: &str, probe: &FolderProbe) -> (r: ApiResult<String>)
    ensures
        match spec_validate(path@, probe@) {
            Ok(canonical) => r is Ok && r->Ok_0@ == canonical,
            Err(e) => r is Err && r->Err_0@ == e,
        },
{
    match probe {
        FolderProbe::NotFound => Err(
            ApiError::bad_request(text::join3("Папка ", path, " не найдена")),
        ),
        FolderProbe::PermissionDenied => Err(
            ApiError::forbidden(text::join2("Нет доступа к папке ", path)),
        ),
        FolderProbe::Failed(why) => {
            let start = text::join3("Не удалось открыть ", path, ": ");
            Err(ApiError::bad_request(text::join2(start.as_str(), why.as_str())))
        },
        FolderProbe::Found { canonical, is_folder, is_root, unreadable } => {
            if !*is_folder {
                return Err(
                    ApiError::bad_request(
                        text::join2(canonical.as_str(), " — это файл, а не папка"),
                    ),
                );
            }
            if *is_root {
                return Err(
                    ApiError::bad_request(
                        "Корень диска добавить нельзя: укажите папку, в которой лежат модели".to_owned(),
                    ),
                );
            }
            match unreadable {
                Some(why) => {
                    let start = text::join3(
                        "Папку ",
                        canonical.as_str(),
                        " не удалось прочитать: ",
                    );
                    Err(ApiError::forbidden(text::join2(start.as_str(), why.as_str())))
                },
                None => Ok(canonical.clone()),
            }
        },
    }
}

/// The largest number among the first `n` folders; zero if there is none.
pub open spec fn largest_id(s: Seq<EntryView>, n: int) -> u64
    decreases n,
{
    if n <= 0 {
        0
    } else {
        let before = largest_id(s, n - 1);
        if s[n - 1].id > before {
            s[n - 1].id
        } else {
            before
        }
    }
}

/// The last number that was given, or is in use.
pub open spec fn last_id(s: StoredView) -> u64 {
    let largest = largest_id(s.folders, s.folders.len() as int);
    if s.next_id >= largest {
        s.next_id
    } else {
        largest
    }
}

/// Whether a folder is listed, by the names that its path goes through.
pub open spec fn has_path(s: Seq<EntryView>, path: Seq<char>) -> bool {
    exists|i: int| 0 <= i < s.len() && paths::same_path((#[trigger] s[i]).path, path)
}

pub open spec fn has_id(s: Seq<EntryView>, id: u64) -> bool {
    exists|i: int| 0 <= i < s.len() && (#[trigger] s[i]).id == id
}

fn last_number(stored: &StoredFolders) -> (r: u64)
    ensures
        r == last_id(stored@),
{
    let ghost view = stored@.folders;
    let mut largest: u64 = 0;
    let mut i: usize = 0;
    while i < stored.folders.len()
        invariant
            i <= stored.folders@.len(),
            view == stored@.folders,
            largest == largest_id(view, i as int),
        decreases stored.folders@.len() - i,
    {
        assert(view[i as int].id == stored.folders@[i as int].id);
        if stored.folders[i].id > largest {
            largest = stored.folders[i].id;
        }
        i += 1;
    }
    if stored.next_id >= largest {
        stored.next_id
    } else {
        largest
    }
}

fn is_listed(folders: &Vec<ScanFolderEntry>, path: &str) -> (r: bool)
    ensures
        r == has_path(entries_view(folders@), path@),
{
    let ghost view = entries_view(folders@);
    let mut i: usize = 0;
    while i < folders.len()
        invariant
            i <= folders@.len(),
            view == entries_view(folders@),
            forall|k: int| 0 <= k < i ==> !paths::same_path((#[trigger] view[k]).path, path@),
        decreases folders@.len() - i,
    {
        assert(view[i as int].path == folders@[i as int].path@);
        if paths::is_same_path(folders[i].path.as_str(), path) {
            return true;
        }
        i += 1;
    }
    false
}

/// The folder that is added, and the folders with it.
pub open spec fn spec_add(
    s: StoredView,
    models_dir: Option<Seq<char>>,
    canonical: Seq<char>,
    created_at: Seq<char>,
) -> Result<(EntryView, StoredView), error::ApiErrorView> {
    if (models_dir is Some && paths::same_path(models_dir->0, canonical)) || has_path(
        s.folders,
        canonical,
    ) {
        Err(
            error::ApiErrorView {
                status: 409,
                detail: "Папка "@ + canonical + " уже просматривается"@,
            },
        )
    } else {
        let id = (last_id(s) + 1) as u64;
        let entry = EntryView { id, path: canonical, created_at, status: None };
        Ok((entry, StoredView { next_id: id, folders: s.folders.push(entry) }))
    }
}

/// Adds a folder under a new number. Returns the number.
pub fn add_folder(
    stored: &mut StoredFolders,
    models_dir: &Option<String>,
    canonical: &String,
    created_at: &String,
) -> (r: ApiResult<u64>)
    requires
        last_id(old(stored)@) < u64::MAX,
    ensures
        match spec_add(
            old(stored)@,
            match *models_dir {
                Some(s) => Some(s@),
                None => None,
            },
            canonical@,
            created_at@,
        ) {
            Ok((entry, after)) => r is Ok && r->Ok_0 == entry.id && final(stored)@ == after,
            Err(e) => r is Err && r->Err_0@ == e && final(stored)@ == old(stored)@,
        },
{
    let is_main = match models_dir {
        Some(dir) => paths::is_same_path(dir.as_str(), canonical.as_str()),
        None => false,
    };
    if is_main || is_listed(&stored.folders, canonical.as_str()) {
        return Err(
            ApiError::conflict(
                text::join3("Папка ", canonical.as_str(), " уже просматривается"),
            ),
        );
    }
    let ghost before = stored@;
    let id = last_number(stored) + 1;
    let entry = ScanFolderEntry {
        id,
        path: canonical.clone(),
        created_at: created_at.clone(),
        status: None,
    };
    let ghost item = entry@;
    stored.folders.push(entry);
    stored.next_id = id;
    assert(stored@.folders =~= before.folders.push(item));
    Ok(id)
}

/// Puts a folder at the end of a list that is numbered by its length.
pub fn append_folder(folders: &mut Vec<ScanFolderEntry>, path: String, created_at: String)
    requires
        old(folders)@.len() < u64::MAX,
    ensures
        entries_view(final(folders)@) == entries_view(old(folders)@).push(
            EntryView {
                id: (old(folders)@.len() + 1) as u64,
                path: path@,
                created_at: created_at@,
                status: Some("ok"@),
            },
        ),
{
    let ghost before = entries_view(folders@);
    let id: u64 = folders.len() as u64 + 1;
    let entry = ScanFolderEntry { id, path, created_at, status: Some("ok".to_owned()) };
    let ghost item = entry@;
    folders.push(entry);
    assert(entries_view(folders@) =~= before.push(item));
}

/// The folders among the first `n` with another number.
pub open spec fn folders_without(s: Seq<EntryView>, id: u64, n: int) -> Seq<EntryView>
    decreases n,
{
    if n <= 0 {
        Seq::empty()
    } else {
        let before = folders_without(s, id, n - 1);
        if s[n - 1].id == id {
            before
        } else {
            before.push(s[n - 1])
        }
    }
}

fn number_listed(folders: &Vec<ScanFolderEntry>, id: u64) -> (r: bool)
    ensures
        r == has_id(entries_view(folders@), id),
{
    let ghost view = entries_view(folders@);
    let mut i: usize = 0;
    while i < folders.len()
        invariant
            i <= folders@.len(),
            view == entries_view(folders@),
            forall|k: int| 0 <= k < i ==> (#[trigger] view[k]).id != id,
        decreases folders@.len() - i,
    {
        assert(view[i as int].id == folders@[i as int].id);
        if folders[i].id == id {
            return true;
        }
        i += 1;
    }
    false
}

/// Takes the folders of a number off a list.
pub fn drop_folder(folders: &mut Vec<ScanFolderEntry>, id: u64)
    ensures
        entries_view(final(folders)@) == folders_without(
            entries_view(old(folders)@),
            id,
            old(folders)@.len() as int,
        ),
{
    let ghost before = entries_view(folders@);
    let mut i: usize = 0;
    let ghost mut done: int = 0;
    proof {
        assert(folders_without(before, id, 0) + before.skip(0) =~= before);
    }
    while i < folders.len()
        invariant
            0 <= done <= before.len(),
            i == folders_without(before, id, done).len(),
            entries_view(folders@) == folders_without(before, id, done) + before.skip(done),
        decreases folders@.len() - i,
    {
        let ghost now = entries_view(folders@);
        proof {
            assert(now.len() == folders@.len());
            assert(done < before.len());
            assert(now[i as int] == before.skip(done)[0]);
            assert(now[i as int] == folders@[i as int]@);
        }
        if folders[i].id == id {
            folders.remove(i);
            proof {
                assert(entries_view(folders@) =~= now.remove(i as int));
                assert(now.remove(i as int) =~= folders_without(before, id, done + 1)
                    + before.skip(done + 1));
            }
        } else {
            i += 1;
            proof {
                assert(now =~= folders_without(before, id, done + 1) + before.skip(done + 1));
            }
        }
        proof {
            done = done + 1;
        }
    }
    proof {
        assert(done == before.len());
        assert(before.skip(done) =~= Seq::empty());
        assert(folders_without(before, id, done) + before.skip(done) =~= folders_without(
            before,
            id,
            done,
        ));
    }
}

/// Takes a folder off the list; its files are not touched.
pub fn remove_folder(stored: &mut StoredFolders, id: u64) -> (r: ApiResult<()>)
    ensures
        if has_id(old(stored)@.folders, id) {
            r is Ok && final(stored)@ == (StoredView {
                next_id: last_id(old(stored)@),
                folders: folders_without(
                    old(stored)@.folders,
                    id,
                    old(stored)@.folders.len() as int,
                ),
            })
        } else {
            r is Err && r->Err_0@ == (error::ApiErrorView {
                status: 404,
                detail: "Папка с номером "@ + text::decimal_of(id as int) + " не найдена"@,
            }) && final(stored)@ == old(stored)@
        },
{
    if !number_listed(&stored.folders, id) {
        return Err(
            ApiError::not_found(
                text::join3("Папка с номером ", text::decimal(id).as_str(), " не найдена"),
            ),
        );
    }
    let next_id = last_number(stored);
    drop_folder(&mut stored.folders, id);
    stored.next_id = next_id;
    Ok(())
}

proof fn lemma_largest(s: Seq<EntryView>, n: int, i: int)
    requires
        0 <= i < n <= s.len(),
    ensures
        s[i].id <= largest_id(s, n),
    decreases n,
{
    if i < n - 1 {
        lemma_largest(s, n - 1, i);
    }
}

/// A new folder gets a number that no folder has and that was never given before.
pub proof fn law_numbers_are_not_given_again(
    s: StoredView,
    models_dir: Option<Seq<char>>,
    canonical: Seq<char>,
    created_at: Seq<char>,
    i: int,
)
    requires
        last_id(s) < u64::MAX,
        spec_add(s, models_dir, canonical, created_at) is Ok,
        0 <= i < s.folders.len(),
    ensures
        ({
            let (entry, after) = spec_add(s, models_dir, canonical, created_at)->Ok_0;
            &&& entry.id > s.next_id
            &&& entry.id > s.folders[i].id
            &&& after.next_id == entry.id
        }),
{
    lemma_largest(s.folders, s.folders.len() as int, i);
}

/// Taking a folder off the list does not free its number.
pub proof fn law_removed_number_stays_used(s: StoredView, id: u64)
    requires
        has_id(s.folders, id),
    ensures
        last_id(
            StoredView {
                next_id: last_id(s),
                folders: folders_without(s.folders, id, s.folders.len() as int),
            },
        ) >= id,
{
    let i = choose|i: int| 0 <= i < s.folders.len() && (#[trigger] s.folders[i]).id == id;
    lemma_largest(s.folders, s.folders.len() as int, i);
}

/// Why a folder cannot be read, as far as the system tells.
#[derive(Debug, Clone, Copy, PartialEq, Eq, Structural)]
pub enum ReadOutcome {
    Read,
    NotFound,
    PermissionDenied,
    Other,
}

/// The status of a folder as the interface knows it.
pub fn folder_status(outcome: ReadOutcome) -> (r: &'static str)
    ensures
        r@ == (match outcome {
            ReadOutcome::Read => "ok"@,
            ReadOutcome::NotFound => "missing"@,
            ReadOutcome::PermissionDenied => "permission_denied"@,
            ReadOutcome::Other => "unreadable"@,
        }),
{
    match outcome {
        ReadOutcome::Read => "ok",
        ReadOutcome::NotFound => "missing",
        ReadOutcome::PermissionDenied => "permission_denied",
        ReadOutcome::Other => "unreadable",
    }
}

} // verus!
