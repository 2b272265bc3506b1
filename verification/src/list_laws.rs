//! Lists and sums: what one element more changes, and which element a search finds.

use vstd::prelude::*;

use crate::browse;
use crate::browse::DirKind;
use crate::chat_forks;
use crate::chat_store;
use crate::cluster;
use crate::download_answers;
use crate::download_jobs;
use crate::download_jobs::JobState;
use crate::downloads;
use crate::error;
use crate::gguf;
use crate::gguf_variants;
use crate::hub;
use crate::hub::NamedFile;
use crate::hub_tree;
use crate::inventory;
use crate::json;
use crate::local_files;
use crate::model_scan;
use crate::models;
use crate::names;
use crate::paths;
use crate::profile_stats;
use crate::profile_stats::{ModelStat, RunView};
use crate::security;
use crate::server;
use crate::server::DiskSpace;
use crate::settings_api;
use crate::settings_store;
use crate::text;

verus! {

proof fn lemma_models_of_a_folder_are_counted_before(s: Seq<browse::DirView>, x: browse::DirView, n: int)
    requires
        0 <= n <= s.len(),
    ensures
        browse::model_count(s.push(x), n) == browse::model_count(s, n),
    decreases n,
{
    if n > 0 {
        lemma_models_of_a_folder_are_counted_before(s, x, n - 1);
    }
}

/// The files of models in a folder are counted; folders and other files are not.
pub proof fn law_models_of_a_folder_are_counted(s: Seq<browse::DirView>, x: browse::DirView)
    ensures
        ({
            let before = browse::model_count(s, s.len() as int);
            let after = browse::model_count(s.push(x), (s.len() + 1) as int);
            &&& x.kind == DirKind::File && browse::is_model_name(x.name) ==> after == before + 1int
            &&& !(x.kind == DirKind::File && browse::is_model_name(x.name)) ==> after == before
            &&& browse::model_count(Seq::empty(), 0) == 0
        }),
{
    lemma_models_of_a_folder_are_counted_before(s, x, s.len() as int);
}

proof fn lemma_running_downloads_are_listed_before(s: Seq<download_jobs::JobView>, x: download_jobs::JobView, repo: Seq<char>, n: int)
    requires
        0 <= n <= s.len(),
    ensures
        download_jobs::working(s.push(x), repo, n) == download_jobs::working(s, repo, n),
    decreases n,
{
    if n > 0 {
        lemma_running_downloads_are_listed_before(s, x, repo, n - 1);
    }
}

/// The running and the stopping downloads are listed, of one repository or of all.
pub proof fn law_running_downloads_are_listed(s: Seq<download_jobs::JobView>, x: download_jobs::JobView, repo: Seq<char>)
    ensures
        ({
            let before = download_jobs::working(s, repo, s.len() as int);
            let after = download_jobs::working(s.push(x), repo, (s.len() + 1) as int);
            &&& (x.state == JobState::Running || x.state == JobState::Cancelling) && (repo.len() == 0
                || text::lower(x.repo_id) == text::lower(repo)) ==> after == before.push(s.len() as int)
            &&& !((x.state == JobState::Running || x.state == JobState::Cancelling) && (repo.len() == 0
                || text::lower(x.repo_id) == text::lower(repo))) ==> after == before
        }),
{
    lemma_running_downloads_are_listed_before(s, x, repo, s.len() as int);
}

proof fn lemma_requested_files_are_taken_before(s: Seq<downloads::RemoteView>, x: downloads::RemoteView, requested: Seq<Seq<char>>, n: int)
    requires
        0 <= n <= s.len(),
    ensures
        downloads::asked_for(s.push(x), requested, n) == downloads::asked_for(s, requested, n),
    decreases n,
{
    if n > 0 {
        lemma_requested_files_are_taken_before(s, x, requested, n - 1);
    }
}

/// Of the files those are taken whose paths are requested.
pub proof fn law_requested_files_are_taken(s: Seq<downloads::RemoteView>, x: downloads::RemoteView, requested: Seq<Seq<char>>)
    ensures
        ({
            let before = downloads::asked_for(s, requested, s.len() as int);
            let after = downloads::asked_for(s.push(x), requested, (s.len() + 1) as int);
            &&& requested.contains(x.path) ==> after == before.push(x)
            &&& !(requested.contains(x.path)) ==> after == before
        }),
{
    lemma_requested_files_are_taken_before(s, x, requested, s.len() as int);
}

proof fn lemma_models_of_a_repository_are_taken_before(s: Seq<model_scan::ModelView>, x: model_scan::ModelView, repo: Seq<char>, n: int)
    requires
        0 <= n <= s.len(),
    ensures
        gguf_variants::of_repo(s.push(x), repo, n) == gguf_variants::of_repo(s, repo, n),
    decreases n,
{
    if n > 0 {
        lemma_models_of_a_repository_are_taken_before(s, x, repo, n - 1);
    }
}

/// Of the models those of the repository are taken, letters of either case.
pub proof fn law_models_of_a_repository_are_taken(s: Seq<model_scan::ModelView>, x: model_scan::ModelView, repo: Seq<char>)
    ensures
        ({
            let before = gguf_variants::of_repo(s, repo, s.len() as int);
            let after = gguf_variants::of_repo(s.push(x), repo, (s.len() + 1) as int);
            &&& text::lower(model_scan::spec_repo_id(x)) == text::lower(repo) ==> after == before.push(x)
            &&& !(text::lower(model_scan::spec_repo_id(x)) == text::lower(repo)) ==> after == before
        }),
{
    lemma_models_of_a_repository_are_taken_before(s, x, repo, s.len() as int);
}

proof fn lemma_weights_of_a_tree_are_taken_before(s: Seq<hub_tree::ItemView>, x: hub_tree::ItemView, n: int)
    requires
        0 <= n <= s.len(),
    ensures
        hub_tree::shards(s.push(x), n) == hub_tree::shards(s, n),
    decreases n,
{
    if n > 0 {
        lemma_weights_of_a_tree_are_taken_before(s, x, n - 1);
    }
}

/// Of the entries of a tree the files of weights are taken, with their sizes.
pub proof fn law_weights_of_a_tree_are_taken(s: Seq<hub_tree::ItemView>, x: hub_tree::ItemView)
    ensures
        ({
            let before = hub_tree::shards(s, s.len() as int);
            let after = hub_tree::shards(s.push(x), (s.len() + 1) as int);
            &&& hub_tree::is_shard(x) ==> after == before.push(hub_tree::Shard {
                path: x.path,
                size: hub_tree::item_size(x),
                on_disk: x.on_disk,
            })
            &&& !(hub_tree::is_shard(x)) ==> after == before
        }),
{
    lemma_weights_of_a_tree_are_taken_before(s, x, s.len() as int);
}

proof fn lemma_tensors_of_more_files_add_up_before(s: Seq<gguf::ParsedView>, x: gguf::ParsedView, n: int)
    requires
        0 <= n <= s.len(),
    ensures
        inventory::more_tensors(s.push(x), n) == inventory::more_tensors(s, n),
    decreases n,
{
    if n > 0 {
        lemma_tensors_of_more_files_add_up_before(s, x, n - 1);
    }
}

/// The tensors of more files add up.
pub proof fn law_tensors_of_more_files_add_up(s: Seq<gguf::ParsedView>, x: gguf::ParsedView)
    ensures
        ({
            let before = inventory::more_tensors(s, s.len() as int);
            let after = inventory::more_tensors(s.push(x), (s.len() + 1) as int);
            &&& after == before + x.tensor_count
            &&& inventory::more_tensors(Seq::empty(), 0) == 0
        }),
{
    lemma_tensors_of_more_files_add_up_before(s, x, s.len() as int);
}

proof fn lemma_weights_of_more_files_add_up_before(s: Seq<gguf::ParsedView>, x: gguf::ParsedView, n: int)
    requires
        0 <= n <= s.len(),
    ensures
        inventory::more_weights(s.push(x), n) == inventory::more_weights(s, n),
    decreases n,
{
    if n > 0 {
        lemma_weights_of_more_files_add_up_before(s, x, n - 1);
    }
}

/// The weights of more files add up, each file held at the largest number.
pub proof fn law_weights_of_more_files_add_up(s: Seq<gguf::ParsedView>, x: gguf::ParsedView)
    ensures
        ({
            let before = inventory::more_weights(s, s.len() as int);
            let after = inventory::more_weights(s.push(x), (s.len() + 1) as int);
            &&& 0 <= inventory::weights_of(x) <= u64::MAX ==> after == before + inventory::weights_of(x)
            &&& inventory::weights_of(x) > u64::MAX ==> after == before + u64::MAX
            &&& inventory::more_weights(Seq::empty(), 0) == 0
        }),
{
    lemma_weights_of_more_files_add_up_before(s, x, s.len() as int);
}

proof fn lemma_sizes_of_files_add_up_before(s: Seq<hub::ScannedView>, x: hub::ScannedView, n: int)
    requires
        0 <= n <= s.len(),
    ensures
        local_files::size_sum(s.push(x), n) == local_files::size_sum(s, n),
    decreases n,
{
    if n > 0 {
        lemma_sizes_of_files_add_up_before(s, x, n - 1);
    }
}

/// The sizes of files add up.
pub proof fn law_sizes_of_files_add_up(s: Seq<hub::ScannedView>, x: hub::ScannedView)
    ensures
        ({
            let before = local_files::size_sum(s, s.len() as int);
            let after = local_files::size_sum(s.push(x), (s.len() + 1) as int);
            &&& after == before + x.size_bytes
            &&& local_files::size_sum(Seq::empty(), 0) == 0
        }),
{
    lemma_sizes_of_files_add_up_before(s, x, s.len() as int);
}

proof fn lemma_cards_of_files_before(s: Seq<models::FileView>, x: models::FileView, n: int)
    requires
        0 <= n <= s.len(),
    ensures
        models::file_cards(s.push(x), n) == models::file_cards(s, n),
    decreases n,
{
    if n > 0 {
        lemma_cards_of_files_before(s, x, n - 1);
    }
}

/// Each file whose name ends in `.gguf` has its card.
pub proof fn law_cards_of_files(s: Seq<models::FileView>, x: models::FileView)
    ensures
        ({
            let before = models::file_cards(s, s.len() as int);
            let after = models::file_cards(s.push(x), (s.len() + 1) as int);
            &&& text::has_suffix(x.filename, ".gguf"@) ==> after == before.push(models::file_card(x))
            &&& !(text::has_suffix(x.filename, ".gguf"@)) ==> after == before
        }),
{
    lemma_cards_of_files_before(s, x, s.len() as int);
}

proof fn lemma_hosts_are_listed_before(s: Seq<Seq<char>>, x: Seq<char>, n: int)
    requires
        0 <= n <= s.len(),
    ensures
        security::listed_hosts(s.push(x), n) == security::listed_hosts(s, n),
    decreases n,
{
    if n > 0 {
        lemma_hosts_are_listed_before(s, x, n - 1);
    }
}

/// Hosts are listed without blanks and in small letters; empty ones are left out.
pub proof fn law_hosts_are_listed(s: Seq<Seq<char>>, x: Seq<char>)
    ensures
        ({
            let before = security::listed_hosts(s, s.len() as int);
            let after = security::listed_hosts(s.push(x), (s.len() + 1) as int);
            &&& text::trimmed(x).len() > 0 ==> after == before.push(text::lower(text::trimmed(x)))
            &&& !(text::trimmed(x).len() > 0) ==> after == before
        }),
{
    lemma_hosts_are_listed_before(s, x, s.len() as int);
}

proof fn lemma_space_before(disks: Seq<DiskSpace>, x: DiskSpace, n: int)
    requires
        0 <= n <= disks.len(),
    ensures
        server::space_sum(disks.push(x), n) == server::space_sum(disks, n),
    decreases n,
{
    if n > 0 {
        lemma_space_before(disks, x, n - 1);
    }
}

/// The space of the disks adds up, the whole and the free space apart.
pub proof fn law_space_adds_up(disks: Seq<DiskSpace>, x: DiskSpace)
    ensures
        server::space_sum(Seq::empty(), 0) == (0int, 0int),
        server::space_sum(disks.push(x), (disks.len() + 1) as int).0 == server::space_sum(
            disks,
            disks.len() as int,
        ).0 + x.total_bytes,
        server::space_sum(disks.push(x), (disks.len() + 1) as int).1 == server::space_sum(
            disks,
            disks.len() as int,
        ).1 + x.free_bytes,
{
    lemma_space_before(disks, x, disks.len() as int);
}

proof fn lemma_root_from(disks: Seq<DiskSpace>, i: int)
    requires
        0 <= i,
    ensures
        match server::root_from(disks, i) {
            Some(k) => i <= k < disks.len() && disks[k].mount@ == "/"@,
            None => forall|k: int| i <= k < disks.len() ==> (#[trigger] disks[k]).mount@ != "/"@,
        },
    decreases disks.len() - i,
{
    if i < disks.len() && disks[i].mount@ != "/"@ {
        lemma_root_from(disks, i + 1);
    }
}

/// The disk of the system is the one at `/`; it is found if there is one.
pub proof fn law_disk_of_the_system(disks: Seq<DiskSpace>, k: int)
    requires
        0 <= k < disks.len(),
    ensures
        server::root_from(disks, 0) matches Some(i) ==> 0 <= i < disks.len() && disks[i].mount@ == "/"@,
        disks[k].mount@ == "/"@ ==> server::root_from(disks, 0) is Some,
{
    lemma_root_from(disks, 0);
}

/// A path lies on the disk whose mount is the longest of those that hold the path; of two such the last.
pub proof fn law_disk_of_a_path(path: Seq<char>, mounts: Seq<Seq<char>>, k: int, i: int)
    requires
        server::is_disk_of(path, mounts, k),
        0 <= i < mounts.len(),
        paths::within(path, mounts[i]),
    ensures
        0 <= k < mounts.len(),
        paths::within(path, mounts[k]),
        mounts[i].len() <= mounts[k].len(),
        mounts[i].len() == mounts[k].len() ==> i <= k,
{
}

proof fn lemma_owner_from(models: Seq<model_scan::ModelView>, path: Seq<char>, i: int)
    requires
        0 <= i,
    ensures
        match gguf_variants::owner_from(models, path, i) {
            Some(k) => i <= k < models.len() && (models[k].path == path
                || models[k].shard_paths.contains(path)),
            None => forall|k: int|
                i <= k < models.len() ==> (#[trigger] models[k]).path != path
                    && !models[k].shard_paths.contains(path),
        },
    decreases models.len() - i,
{
    if i < models.len() && !(models[i].path == path || models[i].shard_paths.contains(path)) {
        lemma_owner_from(models, path, i + 1);
    }
}

/// The owner of a file is a model that has it, as its own or as one of its parts; it is found if there is one.
pub proof fn law_owner_of_a_file(models: Seq<model_scan::ModelView>, path: Seq<char>, k: int)
    requires
        0 <= k < models.len(),
    ensures
        gguf_variants::owner_from(models, path, 0) matches Some(i) ==> 0 <= i < models.len() && (
        models[i].path == path || models[i].shard_paths.contains(path)),
        models[k].path == path || models[k].shard_paths.contains(path) ==> gguf_variants::owner_from(
            models,
            path,
            0,
        ) is Some,
{
    lemma_owner_from(models, path, 0);
}

proof fn lemma_described_from(
    models: Seq<model_scan::ModelView>,
    identifier: Seq<char>,
    resolved: Option<Seq<char>>,
    i: int,
)
    requires
        0 <= i,
    ensures
        match local_files::described_from(models, identifier, resolved, i) {
            Some(k) => i <= k < models.len() && (by_path(models[k], resolved) || by_repository(
                models[k],
                identifier,
            )) && forall|j: int|
                i <= j < k ==> !by_path(#[trigger] models[j], resolved) && !by_repository(
                    models[j],
                    identifier,
                ),
            None => forall|j: int|
                i <= j < models.len() ==> !by_path(#[trigger] models[j], resolved) && !by_repository(
                    models[j],
                    identifier,
                ),
        },
    decreases models.len() - i,
{
    if i < models.len() && !by_path(models[i], resolved) && !by_repository(models[i], identifier) {
        lemma_described_from(models, identifier, resolved, i + 1);
    }
}

/// Whether the model has the file that a name led to.
pub open spec fn by_path(m: model_scan::ModelView, resolved: Option<Seq<char>>) -> bool {
    resolved matches Some(p) && (m.path == p || m.shard_paths.contains(p))
}

/// Whether the model is a complete one of the named repository.
pub open spec fn by_repository(m: model_scan::ModelView, identifier: Seq<char>) -> bool {
    m.complete && text::lower(model_scan::spec_repo_id(m)) == text::lower(identifier)
}

/// The model that a name describes is the first that has the file or is a complete one of the repository.
pub proof fn law_described_model(
    models: Seq<model_scan::ModelView>,
    identifier: Seq<char>,
    resolved: Option<Seq<char>>,
    k: int,
)
    requires
        0 <= k < models.len(),
    ensures
        match local_files::described_from(models, identifier, resolved, 0) {
            Some(i) => 0 <= i < models.len() && (by_path(models[i], resolved) || by_repository(
                models[i],
                identifier,
            )) && (k < i ==> !by_path(models[k], resolved) && !by_repository(models[k], identifier)),
            None => !by_path(models[k], resolved) && !by_repository(models[k], identifier),
        },
{
    lemma_described_from(models, identifier, resolved, 0);
}

/// A named file on disk is answered as it is; without one the files of the repository are, where the disk is
/// preferred.
pub proof fn law_answer_from_disk(
    repo_id: Seq<char>,
    file: NamedFile,
    files: Seq<hub::ScannedView>,
    prefer_local: bool,
)
    ensures
        hub::disk_answer(repo_id, prefer_local, Some(file), files) matches Some(a) && a.repo_id == repo_id
            && a.resolved_locally && a.variants.len() == 1 && a.default_variant == names::spec_quant(
            file.filename@,
        ) && (file.context_length matches Some(n) ==> a.context_length == n),
        hub::disk_answer(repo_id, false, None, files) is None,
        hub::disk_answer(repo_id, true, None, files) == hub::cached_answer(files, repo_id),
{
}

/// A scan of a folder shows every file of weights once, by name, as one of the entries describes it.
pub proof fn law_scan_of_a_folder(
    files: Seq<hub::ScannedView>,
    entries: Seq<hub::EntryView>,
    i: int,
    j: int,
    k: int,
)
    requires
        hub::scan_ok(files, entries, entries.len() as int),
    ensures
        0 <= k < entries.len() && text::has_suffix(entries[k].filename, ".gguf"@) ==> exists|m: int|
            0 <= m < files.len() && (#[trigger] files[m]).filename == entries[k].filename,
        0 <= i < files.len() ==> text::has_suffix(files[i].filename, ".gguf"@) && exists|m: int|
            0 <= m < entries.len() && (#[trigger] entries[m]).filename == files[i].filename
                && entries[m].path == files[i].path && entries[m].size_bytes == files[i].size_bytes
                && entries[m].mtime == files[i].mtime,
        0 <= i < j < files.len() ==> text::before(files[i].filename, files[j].filename),
{
    if 0 <= k < entries.len() && text::has_suffix(entries[k].filename, ".gguf"@) {
        assert(hub::has_file(files, entries[k].filename));
    }
    if 0 <= i < files.len() {
        assert(hub::comes_from(files[i], entries, entries.len() as int));
    }
}

/// A file is looked for by the name as it is given, and by the name with `.gguf` where that is missing.
pub proof fn law_attempts_for_a_name(candidate: Seq<char>)
    requires
        text::trimmed(candidate) == candidate,
        candidate.len() > 0,
    ensures
        hub::spec_attempts(candidate).len() > 0,
        hub::spec_attempts(candidate)[0] == candidate,
        !text::has_suffix(text::lower(candidate), ".gguf"@) ==> hub::spec_attempts(candidate).len() >= 2
            && hub::spec_attempts(candidate)[1] == candidate + ".gguf"@,
        hub::file_name(candidate) matches Some(name) ==> hub::spec_attempts(candidate).contains(name),
{
    let all = hub::spec_attempts(candidate);
    if let Some(name) = hub::file_name(candidate) {
        let ending = text::has_suffix(text::lower(candidate), ".gguf"@);
        if name == candidate {
            assert(all[0] == name);
        } else if ending {
            assert(all[1] == name);
        } else {
            assert(all[2] == name);
        }
    }
}

/// What a tree offers: a variant for each quantization of its weights, in order, and vision where there is a
/// projector.
pub proof fn law_offer_of_a_tree(
    answer: hub::AnswerView,
    repo_id: Seq<char>,
    items: Seq<hub_tree::ItemView>,
    files: Seq<hub::ScannedView>,
    k: int,
    i: int,
    j: int,
)
    requires
        hub_tree::tree_ok(Some(answer), repo_id, items, files),
    ensures
        answer.repo_id == repo_id,
        answer.has_vision <==> exists|m: int|
            0 <= m < items.len() && hub_tree::is_projector(#[trigger] items[m]),
        ({
            let all = hub_tree::shards(items, items.len() as int);
            0 <= k < all.len() ==> exists|m: int|
                0 <= m < answer.variants.len() && (#[trigger] answer.variants[m]).quant
                    == names::spec_quant(all[k].path)
        }),
        0 <= i < j < answer.variants.len() ==> hub_tree::quant_before(
            answer.variants[i].quant,
            answer.variants[j].quant,
        ),
{
    let all = hub_tree::shards(items, items.len() as int);
    let quants = choose|quants: Seq<Seq<char>>|
        #![trigger hub_tree::quants_ok(quants, all, all.len() as int)]
        {
            &&& hub_tree::quants_ok(quants, all, all.len() as int)
            &&& answer.default_variant == hub_tree::tree_default(quants, 0)
            &&& answer.variants.len() == quants.len()
            &&& forall|m: int|
                0 <= m < quants.len() ==> #[trigger] answer.variants[m] == hub_tree::tree_variant(
                    quants[m],
                    all,
                    files,
                    repo_id,
                )
        };
    assert(hub_tree::quants_ok(quants, all, all.len() as int));
    if 0 <= k < all.len() {
        let quant = names::spec_quant(all[k].path);
        assert(quants.contains(quant));
        let m = choose|m: int| 0 <= m < quants.len() && quants[m] == quant;
        assert(answer.variants[m].quant == quant);
    }
    if 0 <= i < j < answer.variants.len() {
        assert(hub_tree::quant_before(quants[i], quants[j]));
        assert(answer.variants[i].quant == quants[i] && answer.variants[j].quant == quants[j]);
    }
}

/// A full path is looked for as it is, another one below each root in turn; an empty one is
/// refused.
pub proof fn law_places_of_a_path(roots: Seq<Seq<char>>, path: Seq<char>, i: int)
    requires
        roots.len() > 0,
        text::trimmed(path) == path,
        path.len() > 0,
        !path.contains('\0'),
        0 <= i < roots.len(),
        roots[i].len() > 0,
        roots[i].last() != '/',
    ensures
        paths::spec_candidates(roots, path, true) == Ok::<Seq<Seq<char>>, paths::PathRejection>(
            seq![path],
        ),
        paths::spec_candidates(roots, path, false) matches Ok(all) && all.len() == roots.len() && all[i]
            == roots[i] + seq!['/'] + path,
        paths::spec_candidates(roots, Seq::empty(), false) is Err,
{
    lemma_nothing_is_left();
}

proof fn lemma_nothing_is_left()
    ensures
        text::trimmed(Seq::empty()).len() == 0,
{
}

/// The best loss is the least of those that runs have, as a number, and one of them.
pub proof fn law_best_loss_is_the_least(best: Option<u32>, runs: Seq<RunView>, i: int)
    requires
        profile_stats::best_loss_ok(best, runs, runs.len() as int),
        0 <= i < runs.len(),
        runs[i].final_loss is Some,
        cluster::finite_bits(runs[i].final_loss->0),
    ensures
        best matches Some(b) && profile_stats::float_rank(b) <= profile_stats::float_rank(
            runs[i].final_loss->0,
        ) && exists|k: int| 0 <= k < runs.len() && (#[trigger] runs[k]).final_loss == Some(b),
{
    assert(profile_stats::has_loss(runs[i]));
}

/// Models come by the number of their messages, the most first; where the numbers are the same, by name.
pub proof fn law_models_come_by_messages(models: Seq<ModelStat>, i: int, j: int)
    requires
        profile_stats::models_sorted(models),
        0 <= i < j < models.len(),
    ensures
        models[i].messages >= models[j].messages,
        models[i].messages == models[j].messages ==> text::before(models[i].id@, models[j].id@),
{
    assert(profile_stats::model_before(models[i], models[j]));
}

/// Presets are kept for images and for videos, each kind under a key of its own; there are no others.
pub proof fn law_kinds_of_presets(kind: Seq<char>)
    ensures
        settings_api::spec_preset_key(kind) is Ok <==> kind == "image"@ || kind == "video"@,
        settings_api::spec_preset_key(kind) matches Ok(key) ==> key == "settings.generation_presets."@
            + kind,
        settings_api::spec_preset_key(kind) matches Err(e) ==> e.status == 404,
{
}

/// A write of settings that expects a value is taken only where the value is there, and one that expects
/// nothing only where nothing is.
pub proof fn law_expected_settings(
    current: json::Fields,
    expected: json::Fields,
    absent: Seq<Seq<char>>,
    absent_paths: Seq<Seq<Seq<char>>>,
    i: int,
)
    requires
        settings_store::met(current, expected, absent, absent_paths),
    ensures
        0 <= i < expected.len() ==> (json::field(current, expected[i].0) matches Some(v)
            && json::same_value(v, expected[i].1)),
        0 <= i < absent.len() ==> json::field(current, absent[i]) is None,
{
    if 0 <= i < expected.len() {
        let e = expected[i];
    }
}

/// Without names all files of a variant are taken; with names, those that are named, and one at least.
pub proof fn law_named_files(files: Seq<downloads::RemoteView>, list: Seq<Seq<char>>)
    ensures
        download_answers::named_files(files, None) == Ok::<
            Seq<downloads::RemoteView>,
            error::ApiErrorView,
        >(files),
        download_answers::named_files(files, Some(Seq::empty())) == Ok::<
            Seq<downloads::RemoteView>,
            error::ApiErrorView,
        >(files),
        list.len() > 0 ==> (download_answers::named_files(files, Some(list)) matches Ok(left)
            ==> left.len() > 0 && left == downloads::asked_for(files, list, files.len() as int)),
        download_answers::named_files(files, Some(list)) matches Err(e) ==> e.status == 422,
{
}

/// Every message from which a thread was forked is counted, with the number of its forks.
pub proof fn law_every_fork_is_counted(
    counts: Seq<(Seq<char>, u64)>,
    threads: Seq<chat_store::ThreadView>,
    thread_id: Seq<char>,
    message_id: Seq<char>,
    k: int,
)
    requires
        chat_forks::counts_ok(counts, threads, thread_id, threads.len() as int),
        0 <= k < threads.len(),
        json::text_of(json::field(threads[k].record, "forkedFromThreadId"@)) == Some(thread_id),
        json::text_of(json::field(threads[k].record, "forkedFromMessageId"@)) == Some(message_id),
    ensures
        exists|i: int|
            0 <= i < counts.len() && (#[trigger] counts[i]).0 == message_id && counts[i].1 > 0,
{
    lemma_fork_counts(threads, thread_id, message_id, k, threads.len() as int);
    assert(chat_forks::is_counted(counts, message_id));
}

proof fn lemma_fork_counts(
    threads: Seq<chat_store::ThreadView>,
    thread_id: Seq<char>,
    message_id: Seq<char>,
    k: int,
    n: int,
)
    requires
        0 <= n <= threads.len(),
    ensures
        chat_forks::fork_count(threads, thread_id, message_id, n) >= 0,
        0 <= k < n && chat_forks::fork_point(threads[k], thread_id) == Some(
            json::JsonView::Text(message_id),
        ) ==> chat_forks::fork_count(threads, thread_id, message_id, n) > 0,
    decreases n,
{
    if n > 0 {
        lemma_fork_counts(threads, thread_id, message_id, k, n - 1);
    }
}

proof fn lemma_shown_folders_are_counted_before(s: Seq<browse::DirView>, x: browse::DirView, hidden: bool, n: int)
    requires
        0 <= n <= s.len(),
    ensures
        browse::shown_count(s.push(x), hidden, n) == browse::shown_count(s, hidden, n),
    decreases n,
{
    if n > 0 {
        lemma_shown_folders_are_counted_before(s, x, hidden, n - 1);
    }
}

/// The folders that are shown are counted: those that are not hidden, and the hidden ones on demand.
pub proof fn law_shown_folders_are_counted(s: Seq<browse::DirView>, x: browse::DirView, hidden: bool)
    ensures
        ({
            let before = browse::shown_count(s, hidden, s.len() as int);
            let after = browse::shown_count(s.push(x), hidden, (s.len() + 1) as int);
            &&& x.kind == DirKind::Folder && (hidden || !(x.name.len() > 0 && x.name[0] == '.')) ==> after == before + 1int
            &&& !(x.kind == DirKind::Folder && (hidden || !(x.name.len() > 0 && x.name[0] == '.'))) ==> after == before
            &&& browse::shown_count(Seq::empty(), hidden, 0) == 0
        }),
{
    lemma_shown_folders_are_counted_before(s, x, hidden, s.len() as int);
}


} // verus!
