//! Which files are meant: to be deleted, to be shown, to be offered and to be loaded.

use vstd::prelude::*;

use crate::browse;
use crate::browse::DirKind;
use crate::deletion;
use crate::error;
use crate::ggml;
use crate::ggml::GGMLType;
use crate::hub;
use crate::hub_tree;
use crate::inference;
use crate::inventory;
use crate::json;
use crate::local_files;
use crate::model_scan;
use crate::names;
use crate::order;
use crate::paths;
use crate::scan_folders;
use crate::text;

verus! {

// ---------- deletion ----------

proof fn lemma_last_dot(name: Seq<char>, at: int, n: int)
    requires
        0 <= at < n <= name.len(),
        name[at] == '.',
        forall|k: int| at < k < n ==> #[trigger] name[k] != '.',
    ensures
        text::last_index(name, '.', n) == Some(at),
    decreases n,
{
    if n - 1 > at {
        assert(name[n - 1] != '.');
        lemma_last_dot(name, at, n - 1);
    }
}

proof fn lemma_last_piece_of_path(dir: Seq<char>, name: Seq<char>)
    requires
        !name.contains('/'),
    ensures
        text::pieces(dir + seq!['/'] + name, '/') == text::pieces(dir, '/').push(name),
    decreases name.len(),
{
    let whole = dir + seq!['/'] + name;
    if name.len() == 0 {
        assert(whole.drop_last() =~= dir);
        assert(whole.last() == '/');
        assert(name =~= Seq::empty());
    } else {
        let short = name.drop_last();
        assert forall|i: int| 0 <= i < short.len() implies short[i] != '/' by {
            assert(name.contains(name[i]));
        }
        assert(name.contains(name.last()));
        lemma_last_piece_of_path(dir, short);
        assert(whole.drop_last() =~= dir + seq!['/'] + short);
        assert(whole.last() == name.last());
        assert(short.push(name.last()) =~= name);
        assert(text::pieces(whole, '/') =~= text::pieces(dir, '/').push(name));
    }
}

/// A file is one of a model by the ending `.gguf` of its name, wherever it lies.
pub proof fn law_model_files_end_in_gguf(dir: Seq<char>, stem: Seq<char>, ending: Seq<char>)
    requires
        stem.len() > 0,
        !stem.contains('/'),
        ending.len() > 0,
        forall|i: int| 0 <= i < ending.len() ==> #[trigger] ending[i] != '.' && ending[i] != '/',
    ensures
        deletion::is_model_file(dir + seq!['/'] + (stem + seq!['.'] + ending)) <==> text::lower(ending)
            == text::lower("gguf"@),
{
    let name = stem + seq!['.'] + ending;
    let path = dir + seq!['/'] + name;
    let at = stem.len() as int;
    assert forall|i: int| 0 <= i < name.len() implies name[i] != '/' by {
        if i < stem.len() {
            assert(stem.contains(stem[i]));
        } else if i > at {
            assert(name[i] == ending[i - at - 1]);
        }
    }
    lemma_last_piece_of_path(dir, name);
    assert forall|k: int| at < k < name.len() implies #[trigger] name[k] != '.' by {
        assert(name[k] == ending[k - at - 1]);
    }
    lemma_last_dot(name, at, name.len() as int);
    assert(name.skip(at + 1) =~= ending);
    reveal_strlit(".");
    reveal_strlit("..");
    if name == "."@ {
        assert(name.len() == 1);
    }
    if name == ".."@ {
        assert(name[1] == '.');
        assert(name[name.len() - 1] == ending[ending.len() - 1]);
    }
    let parts = text::pieces(path, '/');
    assert(parts.last() == name);
    assert(hub::file_name(path) == Some(name));
}

/// A path is deleted as it is; without one, a variant of a repository is, and both have to be named.
pub proof fn law_what_is_to_be_deleted(
    roots: Seq<Seq<char>>,
    repo_id: Option<Seq<char>>,
    variant: Option<Seq<char>>,
    path: Seq<char>,
    files: Seq<hub::ScannedView>,
    cache_found: Seq<Option<paths::FoundView>>,
    lookups: Seq<Seq<Option<paths::FoundView>>>,
)
    ensures
        deletion::meant(roots, repo_id, variant, Some(path), files, cache_found, lookups) matches Ok(
            list,
        ) ==> list.len() == 1 && paths::within_any(list[0], roots),
        deletion::meant(roots, repo_id, None, None, files, cache_found, lookups) matches Err(e)
            && e.status == 400,
        variant is Some && repo_id is None ==> (deletion::meant(
            roots,
            repo_id,
            variant,
            None,
            files,
            cache_found,
            lookups,
        ) matches Err(e) && e.status == 400),
        deletion::spec_targets(
            Ok::<Seq<Seq<char>>, error::ApiErrorView>(Seq::empty()),
        ) matches Err(e) && e.status == 404,
{
    if paths::spec_resolve_kind(roots, path, cache_found, paths::PathKind::File) is Ok {
        paths::law_resolved_path_is_inside_a_root(roots, path, cache_found);
    }
}

proof fn lemma_targets_before(
    roots: Seq<Seq<char>>,
    files: Seq<hub::ScannedView>,
    f: hub::ScannedView,
    lookups: Seq<Seq<Option<paths::FoundView>>>,
    found: Seq<Option<paths::FoundView>>,
    repo_id: Seq<char>,
    variant: Seq<char>,
    n: int,
)
    requires
        0 <= n <= files.len(),
        lookups.len() == files.len(),
    ensures
        deletion::variant_targets(
            roots,
            files.push(f),
            lookups.push(found),
            repo_id,
            variant,
            n,
        ) == deletion::variant_targets(roots, files, lookups, repo_id, variant, n),
    decreases n,
{
    if n > 0 {
        lemma_targets_before(roots, files, f, lookups, found, repo_id, variant, n - 1);
    }
}

/// Of the files on disk those of the repository and of the variant are deleted, where they are found
/// inside the roots: of one file more, itself or nothing.
pub proof fn law_files_of_the_variant_are_deleted(
    roots: Seq<Seq<char>>,
    files: Seq<hub::ScannedView>,
    f: hub::ScannedView,
    lookups: Seq<Seq<Option<paths::FoundView>>>,
    found: Seq<Option<paths::FoundView>>,
    repo_id: Seq<char>,
    variant: Seq<char>,
)
    requires
        lookups.len() == files.len(),
    ensures
        ({
            let before = deletion::variant_targets(
                roots,
                files,
                lookups,
                repo_id,
                variant,
                files.len() as int,
            );
            let after = deletion::variant_targets(
                roots,
                files.push(f),
                lookups.push(found),
                repo_id,
                variant,
                (files.len() + 1) as int,
            );
            let mine = text::lower(f.quant) == text::lower(variant) && text::lower(f.repo_id)
                == text::lower(repo_id);
            &&& !mine ==> after == before
            &&& mine ==> match paths::spec_resolve_kind(roots, f.path, found, paths::PathKind::File) {
                Ok(file) => after == before.push(file.path),
                Err(_) => after == before,
            }
        }),
{
    lemma_targets_before(
        roots,
        files,
        f,
        lookups,
        found,
        repo_id,
        variant,
        files.len() as int,
    );
}

proof fn lemma_freed_before(
    files: Seq<hub::ScannedView>,
    f: hub::ScannedView,
    repo_id: Seq<char>,
    variant: Option<Seq<char>>,
    n: int,
)
    requires
        0 <= n <= files.len(),
    ensures
        deletion::freed(files.push(f), repo_id, variant, n) == deletion::freed(
            files,
            repo_id,
            variant,
            n,
        ),
    decreases n,
{
    if n > 0 {
        lemma_freed_before(files, f, repo_id, variant, n - 1);
    }
}

/// What a deletion frees is the size of the files that go; only where that is nothing it is guessed from
/// the name.
pub proof fn law_freed_bytes_add_up(
    files: Seq<hub::ScannedView>,
    f: hub::ScannedView,
    repo_id: Seq<char>,
    variant: Option<Seq<char>>,
)
    ensures
        deletion::freed(Seq::empty(), repo_id, variant, 0) == 0,
        deletion::freed(files.push(f), repo_id, variant, (files.len() + 1) as int) == deletion::freed(
            files,
            repo_id,
            variant,
            files.len() as int,
        ) + if deletion::goes(f, repo_id, variant) {
            f.size_bytes as int
        } else {
            0int
        },
        deletion::freed(files, repo_id, variant, files.len() as int) > 0 ==> deletion::spec_impact(
            files,
            repo_id,
            variant,
        ) == deletion::freed(files, repo_id, variant, files.len() as int),
        text::lower(f.repo_id) == text::lower(repo_id) ==> deletion::goes(f, repo_id, None),
        text::lower(f.repo_id) == text::lower(repo_id) ==> deletion::goes(f, repo_id, Some(f.quant)),
{
    lemma_freed_before(files, f, repo_id, variant, files.len() as int);
}

// ---------- browsing ----------

/// A list of a folder shows the folders in it by name, hidden ones only on demand, and tells which hold
/// models.
pub proof fn law_folders_that_are_shown(
    s: Seq<browse::DirView>,
    hidden: bool,
    at: Seq<int>,
    i: int,
    j: int,
    k: int,
)
    requires
        browse::dir_places(s, hidden, at),
        s.len() <= 2000,
    ensures
        0 <= i < at.len() ==> {
            &&& 0 <= at[i] < s.len()
            &&& s[at[i]].kind == DirKind::Folder
            &&& s[at[i]].name.len() > 0 && s[at[i]].name[0] == '.' ==> hidden
            &&& browse::entries_at(s, at)[i].name == s[at[i]].name
            &&& browse::entries_at(s, at)[i].hidden <==> s[at[i]].name.len() > 0 && s[at[i]].name[0]
                == '.'
            &&& browse::entries_at(s, at)[i].has_models <==> exists|m: int|
                0 <= m < s[at[i]].names.len() && browse::is_model_name(#[trigger] s[at[i]].names[m])
        },
        0 <= k < s.len() && s[k].kind == DirKind::Folder && (hidden || !(s[k].name.len() > 0
            && s[k].name[0] == '.')) ==> at.contains(k),
        0 <= i < j < at.len() ==> text::before(s[at[i]].name, s[at[j]].name) || s[at[i]].name
            == s[at[j]].name,
{
    let listed = browse::listed(s, hidden);
    let key = browse::dir_key(s);
    if 0 <= i < at.len() {
        assert(listed(at[i]));
    }
    if 0 <= k < s.len() {
        lemma_shown_count(s, hidden, k);
        assert(listed(k) == (browse::is_shown(s[k], hidden) && browse::shown_count(s, hidden, k)
            < browse::MAX_BROWSE_ENTRIES));
    }
    if 0 <= i < j < at.len() {
        assert(order::key_before(key(at[i]), key(at[j])));
    }
}

proof fn lemma_shown_count(s: Seq<browse::DirView>, hidden: bool, n: int)
    requires
        0 <= n,
    ensures
        0 <= browse::shown_count(s, hidden, n) <= n,
    decreases n,
{
    if n > 0 {
        lemma_shown_count(s, hidden, n - 1);
    }
}

/// Without a path the folder of the models is shown, else the user's own.
pub proof fn law_folder_that_is_shown_first(
    query: json::JsonView,
    models_dir: Seq<char>,
    home: Seq<char>,
)
    requires
        browse::asked_path(query).len() == 0,
    ensures
        browse::spec_requested(query, models_dir, true, Some(home)) == Ok::<
            Seq<char>,
            error::ApiErrorView,
        >(models_dir),
        browse::spec_requested(query, models_dir, false, Some(home)) == Ok::<
            Seq<char>,
            error::ApiErrorView,
        >(home),
        browse::spec_requested(query, models_dir, false, None) matches Err(e) && e.status == 404,
{
}

/// The roots are the folder of the models and the folders of the list, in this order.
pub proof fn law_roots(models_dir: Seq<char>, folders: Seq<scan_folders::EntryView>, i: int)
    ensures
        local_files::spec_roots(models_dir, folders).len() == folders.len() + 1,
        local_files::spec_roots(models_dir, folders)[0] == models_dir,
        0 <= i < folders.len() ==> local_files::spec_roots(models_dir, folders)[i + 1]
            == folders[i].path,
{
}

// ---------- trees of repositories ----------

/// The size of an entry is that of its large storage, else its own, else nothing.
pub proof fn law_size_of_an_entry(i: hub_tree::ItemView)
    ensures
        i.lfs_size matches Some(n) ==> hub_tree::item_size(i) == n,
        i.lfs_size is None ==> (i.size matches Some(n) ==> hub_tree::item_size(i) == n),
        i.lfs_size is None && i.size is None ==> hub_tree::item_size(i) == 0,
{
}

/// The usual quantizations with four bits come first, then the smaller ones, those with five bits and those
/// with eight; within a group and among the rest the names decide.
pub proof fn law_order_of_quantizations(a: Seq<char>, b: Seq<char>)
    ensures
        (a == "Q4_K_M"@ || a == "UD-Q4_K_XL"@) && (b == "UD-IQ4_XS"@ || b == "Q4_K_S"@ || b == "Q4_0"@ || b == "IQ4_NL"@ || b == "IQ4_XS"@) ==> hub_tree::quant_before(a, b) && !hub_tree::quant_before(b, a),
        (a == "UD-IQ4_XS"@ || a == "Q4_K_S"@ || a == "Q4_0"@ || a == "IQ4_NL"@ || a == "IQ4_XS"@) && (b == "Q5_K_M"@ || b == "UD-Q5_K_XL"@ || b == "Q5_K_S"@ || b == "Q5_0"@) ==> hub_tree::quant_before(a, b) && !hub_tree::quant_before(b, a),
        (a == "Q5_K_M"@ || a == "UD-Q5_K_XL"@ || a == "Q5_K_S"@ || a == "Q5_0"@) && (b == "Q8_0"@ || b == "UD-Q8_K_XL"@) ==> hub_tree::quant_before(a, b) && !hub_tree::quant_before(b, a),
        (a == "Q4_K_M"@ || a == "UD-Q4_K_XL"@) && (b == "Q4_K_M"@ || b == "UD-Q4_K_XL"@) ==> (hub_tree::quant_before(a, b) <==> text::before(a, b)),
        (a == "UD-IQ4_XS"@ || a == "Q4_K_S"@ || a == "Q4_0"@ || a == "IQ4_NL"@ || a == "IQ4_XS"@) && (b == "UD-IQ4_XS"@ || b == "Q4_K_S"@ || b == "Q4_0"@ || b == "IQ4_NL"@ || b == "IQ4_XS"@) ==> (hub_tree::quant_before(a, b) <==> text::before(a, b)),
        (a == "Q5_K_M"@ || a == "UD-Q5_K_XL"@ || a == "Q5_K_S"@ || a == "Q5_0"@) && (b == "Q5_K_M"@ || b == "UD-Q5_K_XL"@ || b == "Q5_K_S"@ || b == "Q5_0"@) ==> (hub_tree::quant_before(a, b) <==> text::before(a, b)),
        (a == "Q8_0"@ || a == "UD-Q8_K_XL"@) && (b == "Q8_0"@ || b == "UD-Q8_K_XL"@) ==> (hub_tree::quant_before(a, b) <==> text::before(a, b)),
{
    lemma_names_of_quantizations();
}

proof fn lemma_names_of_quantizations()
    ensures
        hub_tree::score("Q4_K_M"@) == 0,
        hub_tree::score("UD-Q4_K_XL"@) == 0,
        hub_tree::score("UD-IQ4_XS"@) == 1,
        hub_tree::score("Q4_K_S"@) == 1,
        hub_tree::score("Q4_0"@) == 1,
        hub_tree::score("IQ4_NL"@) == 1,
        hub_tree::score("IQ4_XS"@) == 1,
        hub_tree::score("Q5_K_M"@) == 2,
        hub_tree::score("UD-Q5_K_XL"@) == 2,
        hub_tree::score("Q5_K_S"@) == 2,
        hub_tree::score("Q5_0"@) == 2,
        hub_tree::score("Q8_0"@) == 3,
        hub_tree::score("UD-Q8_K_XL"@) == 3,
{
    reveal_strlit("Q4_K_M");
    reveal_strlit("UD-Q4_K_XL");
    reveal_strlit("UD-IQ4_XS");
    reveal_strlit("Q4_K_S");
    reveal_strlit("Q4_0");
    reveal_strlit("IQ4_NL");
    reveal_strlit("IQ4_XS");
    reveal_strlit("Q5_K_M");
    reveal_strlit("UD-Q5_K_XL");
    reveal_strlit("Q5_K_S");
    reveal_strlit("Q5_0");
    reveal_strlit("Q8_0");
    reveal_strlit("UD-Q8_K_XL");
    assert("Q4_0"@.len() == 4 && "Q5_0"@.len() == 4 && "Q8_0"@.len() == 4);
    assert("Q4_K_M"@.len() == 6 && "Q4_K_S"@.len() == 6 && "Q5_K_M"@.len() == 6);
    assert("IQ4_NL"@.len() == 6 && "IQ4_XS"@.len() == 6 && "Q5_K_S"@.len() == 6);
    assert("UD-IQ4_XS"@.len() == 9);
    assert("Q4_K_S"@[5] != "Q4_K_M"@[5]);
    assert("IQ4_NL"@[0] != "Q4_K_M"@[0]);
    assert("IQ4_NL"@[0] != "Q4_K_S"@[0]);
    assert("IQ4_XS"@[0] != "Q4_K_M"@[0]);
    assert("IQ4_XS"@[0] != "Q4_K_S"@[0]);
    assert("IQ4_XS"@[4] != "IQ4_NL"@[4]);
    assert("Q5_K_M"@[1] != "Q4_K_M"@[1]);
    assert("Q5_K_M"@[1] != "Q4_K_S"@[1]);
    assert("Q5_K_M"@[0] != "IQ4_NL"@[0]);
    assert("Q5_K_M"@[0] != "IQ4_XS"@[0]);
    assert("UD-Q5_K_XL"@[4] != "UD-Q4_K_XL"@[4]);
    assert("Q5_K_S"@[1] != "Q4_K_M"@[1]);
    assert("Q5_K_S"@[1] != "Q4_K_S"@[1]);
    assert("Q5_K_S"@[0] != "IQ4_NL"@[0]);
    assert("Q5_K_S"@[0] != "IQ4_XS"@[0]);
    assert("Q5_K_S"@[5] != "Q5_K_M"@[5]);
    assert("Q5_0"@[1] != "Q4_0"@[1]);
    assert("Q8_0"@[1] != "Q4_0"@[1]);
    assert("Q8_0"@[1] != "Q5_0"@[1]);
    assert("UD-Q8_K_XL"@[4] != "UD-Q4_K_XL"@[4]);
    assert("UD-Q8_K_XL"@[4] != "UD-Q5_K_XL"@[4]);
}

/// A variant of a tree is made of its files; its label says whether it is downloaded or small enough to be
/// recommended.
pub proof fn law_variant_of_a_tree(
    quant: Seq<char>,
    all: Seq<hub_tree::Shard>,
    files: Seq<hub::ScannedView>,
    repo_id: Seq<char>,
    k: int,
)
    ensures
        ({
            let v = hub_tree::tree_variant(quant, all, files, repo_id);
            let group = hub_tree::shards_of(all, quant, all.len() as int);
            let total = hub_tree::size_sum(group, group.len() as int);
            &&& v.quant == quant
            &&& v.files.len() == group.len()
            &&& v.shard_count == Some(group.len() as u64)
            &&& v.size_bytes == total as u64
            &&& 0 <= k < group.len() ==> v.files[k] == group[k].path && names::spec_quant(
                group[k].path,
            ) == quant
            &&& v.downloaded ==> v.label == quant + " (Downloaded)"@
            &&& !v.downloaded && 0 < total <= 3_200_000_000 ==> v.label == quant + " (Recommended)"@
            &&& !v.downloaded && !(0 < total <= 3_200_000_000) ==> v.label == quant
        }),
{
    lemma_shards_of(all, quant, all.len() as int);
}

proof fn lemma_shards_of(all: Seq<hub_tree::Shard>, quant: Seq<char>, n: int)
    requires
        0 <= n <= all.len(),
    ensures
        forall|k: int|
            0 <= k < hub_tree::shards_of(all, quant, n).len() ==> names::spec_quant(
                (#[trigger] hub_tree::shards_of(all, quant, n)[k]).path,
            ) == quant,
    decreases n,
{
    if n > 0 {
        lemma_shards_of(all, quant, n - 1);
        let before = hub_tree::shards_of(all, quant, n - 1);
        let after = hub_tree::shards_of(all, quant, n);
        assert forall|k: int| 0 <= k < after.len() implies names::spec_quant(
            (#[trigger] after[k]).path,
        ) == quant by {
            if k < before.len() {
                assert(after[k] == before[k]);
            }
        }
    }
}

proof fn lemma_shards_before(all: Seq<hub_tree::Shard>, s: hub_tree::Shard, quant: Seq<char>, n: int)
    requires
        0 <= n <= all.len(),
    ensures
        hub_tree::shards_of(all.push(s), quant, n) == hub_tree::shards_of(all, quant, n),
        hub_tree::size_sum(all.push(s), n) == hub_tree::size_sum(all, n),
    decreases n,
{
    if n > 0 {
        lemma_shards_before(all, s, quant, n - 1);
    }
}

/// A file more of a tree belongs to the variant of its quantization and adds its size.
pub proof fn law_files_of_a_tree_add_up(
    all: Seq<hub_tree::Shard>,
    s: hub_tree::Shard,
    quant: Seq<char>,
)
    ensures
        ({
            let before = hub_tree::shards_of(all, quant, all.len() as int);
            let after = hub_tree::shards_of(all.push(s), quant, (all.len() + 1) as int);
            &&& names::spec_quant(s.path) == quant ==> after == before.push(s)
            &&& names::spec_quant(s.path) != quant ==> after == before
        }),
        hub_tree::size_sum(all.push(s), (all.len() + 1) as int) == hub_tree::size_sum(
            all,
            all.len() as int,
        ) + s.size,
{
    lemma_shards_before(all, s, quant, all.len() as int);
}

/// The default of a tree is the first of these that it has: Q4_K_M, UD-Q4_K_XL, UD-IQ4_XS, Q4_K_S, Q4_0,
/// Q5_K_M, UD-Q5_K_XL and Q8_0; else the first in order.
pub proof fn law_default_of_a_tree(quants: Seq<Seq<char>>)
    ensures
        hub_tree::tree_default(quants, 0) == (if quants.contains("Q4_K_M"@) {
            "Q4_K_M"@
        } else if quants.contains("UD-Q4_K_XL"@) {
            "UD-Q4_K_XL"@
        } else if quants.contains("UD-IQ4_XS"@) {
            "UD-IQ4_XS"@
        } else if quants.contains("Q4_K_S"@) {
            "Q4_K_S"@
        } else if quants.contains("Q4_0"@) {
            "Q4_0"@
        } else if quants.contains("Q5_K_M"@) {
            "Q5_K_M"@
        } else if quants.contains("UD-Q5_K_XL"@) {
            "UD-Q5_K_XL"@
        } else if quants.contains("Q8_0"@) {
            "Q8_0"@
        } else {
            quants[0]
        }),
{
    reveal_with_fuel(hub_tree::tree_default, 9);
}

// ---------- the model that is meant ----------

proof fn lemma_model_with_file(s: Seq<model_scan::ModelView>, path: Seq<char>, i: int)
    requires
        0 <= i,
    ensures
        match inference::model_with_file(s, path, i) {
            Some(k) => i <= k < s.len() && (s[k].path == path || s[k].shard_paths.contains(path)),
            None => forall|k: int|
                i <= k < s.len() ==> (#[trigger] s[k]).path != path && !s[k].shard_paths.contains(path),
        },
    decreases s.len() - i,
{
    if i < s.len() && !(s[i].path == path || s[i].shard_paths.contains(path)) {
        lemma_model_with_file(s, path, i + 1);
    }
}

proof fn lemma_model_of_repo(
    s: Seq<model_scan::ModelView>,
    repo_id: Seq<char>,
    variant: Option<Seq<char>>,
    i: int,
)
    requires
        0 <= i,
    ensures
        match inference::model_of_repo(s, repo_id, variant, i) {
            Some(k) => i <= k < s.len() && inference::of_repo(s[k], repo_id, variant),
            None => forall|k: int|
                i <= k < s.len() ==> !inference::of_repo(#[trigger] s[k], repo_id, variant),
        },
    decreases s.len() - i,
{
    if i < s.len() && !inference::of_repo(s[i], repo_id, variant) {
        lemma_model_of_repo(s, repo_id, variant, i + 1);
    }
}

/// A name that leads to a file means the model that has the file, as its own or as one of its parts.
pub proof fn law_file_means_its_model(
    models: Seq<model_scan::ModelView>,
    identifier: Seq<char>,
    is_full: bool,
    variant: Option<Seq<char>>,
    path: Seq<char>,
    k: int,
)
    requires
        text::trimmed(identifier).len() > 0,
        0 <= k < models.len(),
        models[k].path == path || models[k].shard_paths.contains(path),
    ensures
        inference::spec_resolve_model(models, identifier, is_full, variant, Some(path)) matches Ok(
            inference::RefView::Local(i),
        ) && 0 <= i < models.len() && (models[i].path == path || models[i].shard_paths.contains(path)),
{
    lemma_model_with_file(models, path, 0);
}

/// The name of a repository means a model of it on disk, of the variant that is named; without one the
/// repository is not downloaded.
pub proof fn law_repository_means_its_model(
    models: Seq<model_scan::ModelView>,
    repo: Seq<char>,
    variant: Seq<char>,
    k: int,
)
    requires
        text::trimmed(repo) == repo,
        repo.len() > 0,
        repo.contains('/'),
        !text::has_suffix(text::lower(repo), ".gguf"@),
        text::trimmed(variant).len() > 0,
        0 <= k < models.len(),
    ensures
        ({
            let fits = |m: model_scan::ModelView|
                text::lower(model_scan::spec_repo_id(m)) == text::lower(repo) && text::lower(
                    names::spec_quant(model_scan::spec_path_in_repo(m)),
                ) == text::lower(text::trimmed(variant));
            match inference::spec_resolve_model(models, repo, false, Some(variant), None) {
                Ok(inference::RefView::Local(i)) => 0 <= i < models.len() && fits(models[i]),
                Ok(inference::RefView::NotDownloaded(id)) => id == repo && !fits(models[k]),
                _ => false,
            }
        }),
        match inference::spec_resolve_model(models, repo, false, None, None) {
            Ok(inference::RefView::Local(i)) => 0 <= i < models.len() && text::lower(
                model_scan::spec_repo_id(models[i]),
            ) == text::lower(repo),
            Ok(inference::RefView::NotDownloaded(id)) => id == repo && text::lower(
                model_scan::spec_repo_id(models[k]),
            ) != text::lower(repo),
            _ => false,
        },
{
    lemma_model_of_repo(models, repo, Some(text::trimmed(variant)), 0);
    lemma_model_of_repo(models, repo, None, 0);
    assert(!inference::of_repo(models[k], repo, None) || text::lower(
        model_scan::spec_repo_id(models[k]),
    ) == text::lower(repo));
}

/// A request without a name of a model is bad; a name that is neither a file's nor a repository's means
/// nothing that is there.
pub proof fn law_nameless_request(
    models: Seq<model_scan::ModelView>,
    identifier: Seq<char>,
    is_full: bool,
    variant: Option<Seq<char>>,
)
    ensures
        text::trimmed(identifier).len() == 0 ==> (inference::spec_resolve_model(
            models,
            identifier,
            is_full,
            variant,
            None,
        ) matches Err(e) && e.status == 400),
        text::trimmed(identifier).len() > 0 && (is_full || !text::trimmed(identifier).contains('/'))
            ==> inference::spec_resolve_model(models, identifier, is_full, variant, None) == Ok::<
            inference::RefView,
            error::ApiErrorView,
        >(inference::RefView::Missing),
{
}

/// Loading a model is refused for what is missing: parts of it, the download, the model, or else the engine
/// that could take it.
pub proof fn law_loading_is_refused(
    models: Seq<model_scan::ModelView>,
    i: int,
    identifier: Seq<char>,
    summary: inventory::SummaryView,
    why: error::ApiErrorView,
)
    requires
        0 <= i < models.len(),
    ensures
        !models[i].complete ==> inference::spec_load(
            models,
            inference::RefView::Local(i),
            identifier,
            Ok(summary),
        ).status == 422,
        models[i].complete ==> inference::spec_load(
            models,
            inference::RefView::Local(i),
            identifier,
            Ok(summary),
        ).status == 503,
        models[i].complete ==> inference::spec_load(
            models,
            inference::RefView::Local(i),
            identifier,
            Err(why),
        ) == why,
        inference::spec_load(models, inference::RefView::Missing, identifier, Ok(summary)).status
            == 404,
        inference::spec_load(
            models,
            inference::RefView::NotDownloaded(identifier),
            identifier,
            Ok(summary),
        ).status == 404,
{
}

/// Checking a model tells what its headers say: the context, the layers, those with experts, and the
/// template of the chat on demand.
pub proof fn law_check_tells_what_the_headers_say(
    models: Seq<model_scan::ModelView>,
    i: int,
    identifier: Seq<char>,
    s: inventory::SummaryView,
    has_projector: bool,
    include_chat_template: bool,
)
    requires
        0 <= i < models.len(),
    ensures
        ({
            let c = inference::spec_check(
                models,
                inference::RefView::Local(i),
                identifier,
                Ok(s),
                has_projector,
                include_chat_template,
            );
            &&& c.valid == models[i].complete
            &&& c.identifier == models[i].path
            &&& c.display_name == Some(models[i].display_name)
            &&& c.is_gguf
            &&& c.is_vision == has_projector
            &&& c.context_length == s.context_length
            &&& c.layer_count == s.block_count
            &&& include_chat_template ==> c.chat_template == s.chat_template
            &&& !include_chat_template ==> c.chat_template is None
            &&& s.expert_count is None || s.expert_count == Some(0u64) ==> c.moe_layer_count == Some(
                0u64,
            )
            &&& s.expert_count is Some && s.expert_count != Some(0u64) ==> c.moe_layer_count
                == s.block_count
        }),
{
}

/// An estimate is given of a complete model whose headers were read, with the type of the cache that was
/// asked for, or 16 bits.
pub proof fn law_estimate_of_a_complete_model(
    m: model_scan::ModelView,
    s: inventory::SummaryView,
    n_ctx: Option<u64>,
    n_parallel: Option<u64>,
)
    ensures
        !m.complete ==> inference::spec_estimate(Some(m), Some(s), n_ctx, None, n_parallel) == Ok::<
            inference::EstimateView,
            error::ApiErrorView,
        >(inference::EstimateView::Unavailable("not_downloaded"@)),
        inference::spec_estimate(None, Some(s), n_ctx, None, n_parallel) == Ok::<
            inference::EstimateView,
            error::ApiErrorView,
        >(inference::EstimateView::Unavailable("not_downloaded"@)),
        m.complete ==> inference::spec_estimate(Some(m), None, n_ctx, None, n_parallel) == Ok::<
            inference::EstimateView,
            error::ApiErrorView,
        >(inference::EstimateView::Unavailable("unsizable"@)),
        m.complete ==> (inference::spec_estimate(Some(m), Some(s), n_ctx, None, n_parallel) matches Ok(
            inference::EstimateView::Sized { size, cache_type_kv, n_parallel: p, layer_count },
        ) && size.weights_bytes == m.size_bytes && layer_count == s.block_count && p == (
        match n_parallel {
            Some(n) => if n > 0 {
                n
            } else {
                1
            },
            None => 1u64,
        }) && size.kv_bytes == inventory::spec_kv_cache(s, size.n_ctx, GGMLType::F16)),
{
    ggml::law_type_is_found_by_its_name("f16"@, GGMLType::F16);
    lemma_f16();
}

proof fn lemma_f16()
    ensures
        ggml::type_of_name("f16"@, 0) == Some(GGMLType::F16),
{
    reveal_with_fuel(ggml::type_of_name, 3);
    reveal_strlit("f16");
    reveal_strlit("F32");
    reveal_strlit("F16");
    assert(text::lower("F16"@) =~= text::lower("f16"@));
    assert(text::lower("F32"@)[1] == '3' && text::lower("f16"@)[1] == '1');
}

/// A list of a folder shows two thousand folders at most.
pub proof fn law_lists_of_folders_end(s: Seq<browse::DirView>, hidden: bool, at: Seq<int>, i: int)
    requires
        browse::dir_places(s, hidden, at),
        0 <= i < at.len(),
    ensures
        browse::shown_count(s, hidden, at[i]) < 2000,
{
    let listed = browse::listed(s, hidden);
    assert(listed(at[i]));
}

/// A variant of a named repository is deleted with all its files that are found.
pub proof fn law_variant_of_a_repository_is_deleted(
    roots: Seq<Seq<char>>,
    repo_id: Seq<char>,
    variant: Seq<char>,
    files: Seq<hub::ScannedView>,
    cache_found: Seq<Option<paths::FoundView>>,
    lookups: Seq<Seq<Option<paths::FoundView>>>,
)
    requires
        text::trimmed(repo_id).len() > 0,
    ensures
        deletion::meant(
            roots,
            Some(repo_id),
            Some(variant),
            None,
            files,
            cache_found,
            lookups,
        ) == Ok::<Seq<Seq<char>>, error::ApiErrorView>(
            deletion::variant_targets(roots, files, lookups, repo_id, variant, files.len() as int),
        ),
{
}

/// Where no file that goes is known, the size is guessed from the billions in the name: one or three.
pub proof fn law_size_is_guessed_from_the_name(
    files: Seq<hub::ScannedView>,
    repo_id: Seq<char>,
    variant: Option<Seq<char>>,
)
    requires
        repo_id.len() > 0,
        deletion::freed(files, repo_id, variant, files.len() as int) == 0,
    ensures
        text::has_part(text::lowered(repo_id), "1b"@) ==> deletion::spec_impact(files, repo_id, variant)
            == 807_694_368,
        !text::has_part(text::lowered(repo_id), "1b"@) && text::has_part(text::lowered(repo_id), "3b"@)
            ==> deletion::spec_impact(files, repo_id, variant) == 2_100_000_000,
        !text::has_part(text::lowered(repo_id), "1b"@) && !text::has_part(text::lowered(repo_id), "3b"@)
            ==> deletion::spec_impact(files, repo_id, variant) == 0,
{
}

/// Behind the usual quantizations come those with three bits, with six and with two, by their first letters.
pub proof fn law_order_by_bits(a: Seq<char>, b: Seq<char>)
    ensures
        a == "Q8_0"@ && text::has_prefix(b, "Q3_"@) ==> hub_tree::quant_before(a, b),
        text::has_prefix(a, "Q3_"@) && text::has_prefix(b, "Q6_"@) ==> hub_tree::quant_before(a, b),
        text::has_prefix(a, "Q6_"@) && text::has_prefix(b, "Q2_"@) ==> hub_tree::quant_before(a, b),
        text::has_prefix(a, "Q2_"@) && b == "F16"@ ==> hub_tree::quant_before(a, b),
{
    lemma_names_of_quantizations();
    if text::has_prefix(a, "Q3_"@) || text::has_prefix(a, "Q6_"@) || text::has_prefix(a, "Q2_"@) {
        lemma_score_by_bits(a);
    }
    if text::has_prefix(b, "Q3_"@) || text::has_prefix(b, "Q6_"@) || text::has_prefix(b, "Q2_"@) {
        lemma_score_by_bits(b);
    }
    lemma_score_of_full_precision();
}

proof fn lemma_score_of_full_precision()
    ensures
        hub_tree::score("F16"@) >= 8,
{
    lemma_letters_of_quantizations();
    reveal_strlit("F16");
    reveal_strlit("Q3_");
    reveal_strlit("UD-Q3_");
    reveal_strlit("IQ3_");
    reveal_strlit("Q6_");
    reveal_strlit("UD-Q6_");
    reveal_strlit("Q2_");
    reveal_strlit("UD-Q2_");
    reveal_strlit("IQ2_");
    reveal_strlit("IQ1_");
    reveal_strlit("UD-IQ1_");
    let f = "F16"@;
    assert(f[0] == 'F');
    assert forall|p: Seq<char>| p.len() > 0 && p[0] != 'F' implies !#[trigger] text::has_prefix(f, p) by {
        if text::has_prefix(f, p) {
            assert(f.subrange(0, p.len() as int)[0] == p[0]);
        }
    }
    assert("Q3_"@[0] == 'Q' && "UD-Q3_"@[0] == 'U' && "IQ3_"@[0] == 'I' && "Q6_"@[0] == 'Q');
    assert("UD-Q6_"@[0] == 'U' && "Q2_"@[0] == 'Q' && "UD-Q2_"@[0] == 'U' && "IQ2_"@[0] == 'I');
    assert("IQ1_"@[0] == 'I' && "UD-IQ1_"@[0] == 'U');
}

proof fn lemma_letters_of_quantizations()
    ensures
        "Q4_K_M"@[1] == '4' && "Q4_K_S"@[1] == '4' && "Q4_0"@[1] == '4' && "Q5_K_M"@[1] == '5'
            && "Q5_K_S"@[1] == '5' && "Q5_0"@[1] == '5' && "Q8_0"@[1] == '8',
        "Q4_K_M"@[0] == 'Q' && "Q4_K_S"@[0] == 'Q' && "Q4_0"@[0] == 'Q' && "Q5_K_M"@[0] == 'Q'
            && "Q5_K_S"@[0] == 'Q' && "Q5_0"@[0] == 'Q' && "Q8_0"@[0] == 'Q',
        "UD-Q4_K_XL"@[0] == 'U' && "UD-IQ4_XS"@[0] == 'U' && "UD-Q5_K_XL"@[0] == 'U' && "UD-Q8_K_XL"@[0]
            == 'U' && "IQ4_NL"@[0] == 'I' && "IQ4_XS"@[0] == 'I',
{
    reveal_strlit("Q4_K_M");
    reveal_strlit("UD-Q4_K_XL");
    reveal_strlit("UD-IQ4_XS");
    reveal_strlit("Q4_K_S");
    reveal_strlit("Q4_0");
    reveal_strlit("IQ4_NL");
    reveal_strlit("IQ4_XS");
    reveal_strlit("Q5_K_M");
    reveal_strlit("UD-Q5_K_XL");
    reveal_strlit("Q5_K_S");
    reveal_strlit("Q5_0");
    reveal_strlit("Q8_0");
    reveal_strlit("UD-Q8_K_XL");
}

proof fn lemma_score_by_bits(k: Seq<char>)
    requires
        text::has_prefix(k, "Q3_"@) || text::has_prefix(k, "Q6_"@) || text::has_prefix(k, "Q2_"@),
    ensures
        text::has_prefix(k, "Q3_"@) ==> hub_tree::score(k) == 4,
        text::has_prefix(k, "Q6_"@) ==> hub_tree::score(k) == 5,
        text::has_prefix(k, "Q2_"@) ==> hub_tree::score(k) == 6,
{
    lemma_letters_of_quantizations();
    reveal_strlit("Q3_");
    reveal_strlit("UD-Q3_");
    reveal_strlit("IQ3_");
    reveal_strlit("Q6_");
    reveal_strlit("UD-Q6_");
    reveal_strlit("Q2_");
    reveal_strlit("UD-Q2_");
    reveal_strlit("IQ2_");
    assert forall|p: Seq<char>| p.len() >= 2 && #[trigger] text::has_prefix(k, p) implies k[0] == p[0]
        && k[1] == p[1] by {
        assert(k.subrange(0, p.len() as int)[0] == p[0]);
        assert(k.subrange(0, p.len() as int)[1] == p[1]);
    }
    assert("Q3_"@[0] == 'Q' && "Q3_"@[1] == '3' && "Q6_"@[0] == 'Q' && "Q6_"@[1] == '6');
    assert("Q2_"@[0] == 'Q' && "Q2_"@[1] == '2');
    assert("UD-Q3_"@[0] == 'U' && "IQ3_"@[0] == 'I' && "UD-Q6_"@[0] == 'U');
    assert("UD-Q2_"@[0] == 'U' && "IQ2_"@[0] == 'I');
}

} // verus!
