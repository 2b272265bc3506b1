//! What holds of every search for models: what is found, what a model in parts is, and in which order
//! the models come.

use vstd::prelude::*;
use vstd::utf8::*;

use crate::model_scan;
use crate::order;
use crate::text;

verus! {

// ---------- where a model comes from ----------

/// Whether a folder is another one or lies below it.
pub open spec fn in_tree(top: model_scan::FolderView, f: model_scan::FolderView) -> bool
    decreases top,
{
    f == top || exists|i: int|
        0 <= i < top.entries.len() && (#[trigger] top.entries[i]).kind is Folder && in_tree(
            top.entries[i].kind->Folder_0,
            f,
        )
}

/// Whether an entry can stand for a model: a file of one, neither hidden nor a projector.
pub open spec fn is_weights(e: model_scan::EntryView) -> bool {
    &&& e.kind == model_scan::KindView::File
    &&& !model_scan::hidden_name(e.name)
    &&& model_scan::gguf_name(e.name)
    &&& !model_scan::projector_name(e.name)
}

/// Whether a model is what an entry of a folder stands for.
pub open spec fn stands_for(
    f: model_scan::FolderView,
    k: int,
    root: Seq<char>,
    root_index: int,
    m: model_scan::ModelView,
) -> bool {
    &&& 0 <= k < f.entries.len()
    &&& is_weights(f.entries[k])
    &&& model_scan::model_at(f, k, root, root_index) == Some(m)
}

/// Whether a model comes from a folder below one of the first `n` roots.
pub open spec fn comes_from(
    roots: Seq<Option<model_scan::FolderView>>,
    n: int,
    m: model_scan::ModelView,
) -> bool {
    exists|r: int, f: model_scan::FolderView, k: int|
        0 <= r < n && roots[r] is Some && in_tree(roots[r]->0, f) && #[trigger] stands_for(
            f,
            k,
            roots[r]->0.path,
            r,
            m,
        )
}

spec fn all_come_from(
    roots: Seq<Option<model_scan::FolderView>>,
    n: int,
    models: Seq<model_scan::ModelView>,
) -> bool {
    forall|i: int| 0 <= i < models.len() ==> comes_from(roots, n, #[trigger] models[i])
}

proof fn lemma_folder_below(
    top: model_scan::FolderView,
    f: model_scan::FolderView,
    i: int,
)
    requires
        in_tree(top, f),
        0 <= i < f.entries.len(),
        f.entries[i].kind is Folder,
    ensures
        in_tree(top, f.entries[i].kind->Folder_0),
    decreases top,
{
    let g = f.entries[i].kind->Folder_0;
    if f == top {
        assert(in_tree(g, g));
        assert(top.entries[i].kind is Folder);
    } else {
        let j = choose|j: int|
            0 <= j < top.entries.len() && (#[trigger] top.entries[j]).kind is Folder && in_tree(
                top.entries[j].kind->Folder_0,
                f,
            );
        lemma_folder_below(top.entries[j].kind->Folder_0, f, i);
        assert(in_tree(top.entries[j].kind->Folder_0, g));
    }
}

spec fn are_weights(f: model_scan::FolderView, files: Seq<int>) -> bool {
    forall|j: int|
        0 <= j < files.len() ==> 0 <= #[trigger] files[j] < f.entries.len() && is_weights(
            f.entries[files[j]],
        )
}

proof fn lemma_files_come_from(
    roots: Seq<Option<model_scan::FolderView>>,
    r: int,
    f: model_scan::FolderView,
    files: Seq<int>,
    models: Seq<model_scan::ModelView>,
    n: int,
)
    requires
        0 <= r < roots.len(),
        roots[r] is Some,
        in_tree(roots[r]->0, f),
        are_weights(f, files),
        all_come_from(roots, r + 1, models),
        n <= files.len(),
    ensures
        all_come_from(
            roots,
            r + 1,
            model_scan::files_added(f, files, roots[r]->0.path, r, models, n),
        ),
    decreases n,
{
    if n > 0 {
        lemma_files_come_from(roots, r, f, files, models, n - 1);
        let root = roots[r]->0.path;
        let before = model_scan::files_added(f, files, root, r, models, n - 1);
        let after = model_scan::files_added(f, files, root, r, models, n);
        assert forall|i: int| 0 <= i < after.len() implies comes_from(
            roots,
            r + 1,
            #[trigger] after[i],
        ) by {
            if i < before.len() {
                assert(after[i] == before[i]);
            } else {
                assert(stands_for(f, files[n - 1], root, r, after[i]));
            }
        }
    }
}

proof fn lemma_folder_comes_from(
    roots: Seq<Option<model_scan::FolderView>>,
    r: int,
    f: model_scan::FolderView,
    depth: int,
    st: model_scan::ScanState,
)
    requires
        0 <= r < roots.len(),
        roots[r] is Some,
        in_tree(roots[r]->0, f),
        all_come_from(roots, r + 1, st.models),
    ensures
        all_come_from(
            roots,
            r + 1,
            model_scan::folder_walked(f, roots[r]->0.path, r, depth, st).models,
        ),
    decreases f, 0int,
{
    let root = roots[r]->0.path;
    lemma_entries_come_from(roots, r, f, f.entries, 0, depth, st, Seq::empty());
    match model_scan::entries_walked(f.entries, 0, root, r, depth, st, Seq::empty()) {
        (after, None) => {},
        (after, Some(files)) => {
            lemma_files_come_from(roots, r, f, files, after.models, files.len() as int);
        },
    }
}

proof fn lemma_entries_come_from(
    roots: Seq<Option<model_scan::FolderView>>,
    r: int,
    f: model_scan::FolderView,
    entries: Seq<model_scan::EntryView>,
    i: int,
    depth: int,
    st: model_scan::ScanState,
    files: Seq<int>,
)
    requires
        0 <= r < roots.len(),
        roots[r] is Some,
        in_tree(roots[r]->0, f),
        entries == f.entries,
        are_weights(f, files),
        all_come_from(roots, r + 1, st.models),
    ensures
        ({
            let (after, kept) = model_scan::entries_walked(
                entries,
                i,
                roots[r]->0.path,
                r,
                depth,
                st,
                files,
            );
            &&& all_come_from(roots, r + 1, after.models)
            &&& kept matches Some(list) ==> are_weights(f, list)
        }),
    decreases entries, entries.len() - i,
{
    let root = roots[r]->0.path;
    if 0 <= i < entries.len() && st.budget != 0 {
        let e = entries[i];
        let paid = model_scan::ScanState { budget: st.budget - 1, models: st.models };
        if model_scan::hidden_name(e.name) {
            lemma_entries_come_from(roots, r, f, entries, i + 1, depth, paid, files);
        } else {
            match e.kind {
                model_scan::KindView::Folder(sub) => {
                    let after = if depth < model_scan::MAX_SCAN_DEPTH {
                        model_scan::folder_walked(sub, root, r, depth + 1, paid)
                    } else {
                        paid
                    };
                    if depth < model_scan::MAX_SCAN_DEPTH {
                        lemma_folder_below(roots[r]->0, f, i);
                        lemma_folder_comes_from(roots, r, sub, depth + 1, paid);
                    }
                    lemma_entries_come_from(roots, r, f, entries, i + 1, depth, after, files);
                },
                model_scan::KindView::File => {
                    if model_scan::gguf_name(e.name) && !model_scan::projector_name(e.name) {
                        let more = files.push(i);
                        assert(is_weights(f.entries[i]));
                        lemma_entries_come_from(roots, r, f, entries, i + 1, depth, paid, more);
                    } else {
                        lemma_entries_come_from(roots, r, f, entries, i + 1, depth, paid, files);
                    }
                },
                _ => {
                    lemma_entries_come_from(roots, r, f, entries, i + 1, depth, paid, files);
                },
            }
        }
    }
}

proof fn lemma_roots_come_from(roots: Seq<Option<model_scan::FolderView>>, n: int)
    requires
        0 <= n <= roots.len(),
    ensures
        all_come_from(roots, n, model_scan::roots_walked(roots, n).models),
    decreases n,
{
    if n > 0 {
        lemma_roots_come_from(roots, n - 1);
        let before = model_scan::roots_walked(roots, n - 1);
        assert(all_come_from(roots, n, before.models)) by {
            assert forall|i: int| 0 <= i < before.models.len() implies comes_from(
                roots,
                n,
                #[trigger] before.models[i],
            ) by {
                assert(comes_from(roots, n - 1, before.models[i]));
                let (r, f, k) = choose|r: int, f: model_scan::FolderView, k: int|
                    0 <= r < n - 1 && roots[r] is Some && in_tree(roots[r]->0, f)
                        && #[trigger] stands_for(f, k, roots[r]->0.path, r, before.models[i]);
                assert(stands_for(f, k, roots[r]->0.path, r, before.models[i]));
            }
        }
        match roots[n - 1] {
            Some(f) => {
                lemma_folder_comes_from(roots, n - 1, f, 0, before);
            },
            None => {},
        }
    }
}

/// Every model that is found is the file of one in a folder below a root, and neither hidden nor a
/// projector: a file with `mmproj` in its name is never a model.
pub proof fn law_projector_is_no_model(
    roots: Seq<Option<model_scan::FolderView>>,
    n: int,
    i: int,
)
    requires
        0 <= n <= roots.len(),
        0 <= i < model_scan::roots_walked(roots, n).models.len(),
    ensures
        ({
            let m = model_scan::roots_walked(roots, n).models[i];
            &&& comes_from(roots, n, m)
            &&& model_scan::gguf_name(m.file_name)
            &&& !model_scan::projector_name(m.file_name)
            &&& !text::has_part(text::lower(m.file_name), "mmproj"@)
            &&& !model_scan::hidden_name(m.file_name)
        }),
{
    lemma_roots_come_from(roots, n);
    let m = model_scan::roots_walked(roots, n).models[i];
    assert(comes_from(roots, n, m));
}

// ---------- models in parts ----------

/// Whether a file of this name is in a folder.
pub open spec fn has_file(entries: Seq<model_scan::EntryView>, name: Seq<char>) -> bool {
    exists|i: int|
        0 <= i < entries.len() && (#[trigger] entries[i]).name == name && entries[i].opens_as_file
}

/// Whether part `j` of a model is in a folder.
pub open spec fn has_part_file(
    entries: Seq<model_scan::EntryView>,
    base: Seq<char>,
    total: int,
    j: int,
) -> bool {
    has_file(entries, model_scan::shard_name(base, j, total))
}

/// How many of the first `n` parts are in a folder.
pub open spec fn part_count(
    entries: Seq<model_scan::EntryView>,
    base: Seq<char>,
    total: int,
    n: int,
) -> int
    decreases n,
{
    if n <= 0 {
        0
    } else {
        part_count(entries, base, total, n - 1) + if has_part_file(entries, base, total, n) {
            1int
        } else {
            0
        }
    }
}

/// The bytes of those of the first `n` parts that are in a folder.
pub open spec fn part_bytes(
    entries: Seq<model_scan::EntryView>,
    base: Seq<char>,
    total: int,
    n: int,
) -> int
    decreases n,
{
    if n <= 0 {
        0
    } else {
        part_bytes(entries, base, total, n - 1) + match model_scan::file_from(
            entries,
            model_scan::shard_name(base, n, total),
            0,
        ) {
            Some(k) => model_scan::size_of(entries[k]),
            None => 0,
        }
    }
}

proof fn lemma_file_from(entries: Seq<model_scan::EntryView>, name: Seq<char>, i: int)
    requires
        0 <= i <= entries.len(),
    ensures
        match model_scan::file_from(entries, name, i) {
            Some(k) => i <= k < entries.len() && entries[k].name == name
                && entries[k].opens_as_file,
            None => forall|k: int|
                i <= k < entries.len() ==> (#[trigger] entries[k]).name != name
                    || !entries[k].opens_as_file,
        },
    decreases entries.len() - i,
{
    if i < entries.len() {
        lemma_file_from(entries, name, i + 1);
    }
}

proof fn lemma_sizes_of_longer(
    entries: Seq<model_scan::EntryView>,
    which: Seq<int>,
    more: int,
    n: int,
)
    requires
        n <= which.len(),
    ensures
        model_scan::sizes(entries, which.push(more), n) == model_scan::sizes(entries, which, n),
    decreases n,
{
    if n > 0 {
        lemma_sizes_of_longer(entries, which, more, n - 1);
        assert(which.push(more)[n - 1] == which[n - 1]);
    }
}

proof fn lemma_parts(
    entries: Seq<model_scan::EntryView>,
    base: Seq<char>,
    total: int,
    n: int,
)
    requires
        n >= 0,
    ensures
        ({
            let which = model_scan::shards_found(entries, base, total, n);
            &&& which.len() == part_count(entries, base, total, n)
            &&& 0 <= part_count(entries, base, total, n) <= n
            &&& part_count(entries, base, total, n) == n <==> forall|j: int|
                1 <= j <= n ==> #[trigger] has_part_file(entries, base, total, j)
            &&& model_scan::sizes(entries, which, which.len() as int) == part_bytes(
                entries,
                base,
                total,
                n,
            )
        }),
    decreases n,
{
    if n > 0 {
        lemma_parts(entries, base, total, n - 1);
        let before = model_scan::shards_found(entries, base, total, n - 1);
        let name = model_scan::shard_name(base, n, total);
        lemma_file_from(entries, name, 0);
        match model_scan::file_from(entries, name, 0) {
            Some(k) => {
                lemma_sizes_of_longer(entries, before, k, before.len() as int);
                assert(has_part_file(entries, base, total, n));
            },
            None => {
                assert(!has_part_file(entries, base, total, n));
            },
        }
    }
}

/// A model in parts is one model, that of its first part: it is complete exactly if every part is
/// in its folder, it has as many paths as there are parts, and its size is that of the parts that
/// are there, held at the largest number of 64 bits.
pub proof fn law_model_in_parts(
    f: model_scan::FolderView,
    k: int,
    root: Seq<char>,
    root_index: int,
    base: Seq<char>,
    number: int,
    total: int,
)
    requires
        model_scan::spec_shard(f.entries[k].name) == Some((base, number, total)),
    ensures
        match model_scan::model_at(f, k, root, root_index) {
            None => number != 1 || f.entries[k].canonical is None,
            Some(m) => {
                &&& number == 1
                &&& m.display_name == base
                &&& m.complete <==> forall|j: int|
                    1 <= j <= total ==> #[trigger] has_part_file(f.entries, base, total, j)
                &&& m.shard_paths.len() == part_count(f.entries, base, total, total)
                &&& m.size_bytes == model_scan::held(part_bytes(f.entries, base, total, total))
            },
        },
{
    if total >= 0 {
        lemma_parts(f.entries, base, total, total);
    }
}

/// A model in one file is complete and as large as the file.
pub proof fn law_model_in_one_file(
    f: model_scan::FolderView,
    k: int,
    root: Seq<char>,
    root_index: int,
)
    requires
        model_scan::spec_shard(f.entries[k].name) is None,
    ensures
        match model_scan::model_at(f, k, root, root_index) {
            None => f.entries[k].canonical is None,
            Some(m) => m.complete && m.shard_paths.len() == 1 && m.size_bytes
                == model_scan::size_of(f.entries[k]),
        },
{
    reveal_with_fuel(model_scan::sizes, 2);
}

// ---------- order ----------

/// The models come by their names in lower case, each once; models of one name in the order in which
/// they were found. ASCII names are compared letter by letter.
pub proof fn law_models_come_by_name(found: Seq<model_scan::ModelView>, at: Seq<int>, i: int, j: int)
    requires
        model_scan::model_places(found, at),
        0 <= i < j < at.len(),
    ensures
        ({
            let a = model_scan::models_at(found, at)[i].display_name;
            let b = model_scan::models_at(found, at)[j].display_name;
            &&& text::before(text::lowered(a), text::lowered(b)) || (text::lowered(a)
                == text::lowered(b) && at[i] < at[j])
            &&& is_ascii_chars(a) && is_ascii_chars(b) ==> text::before(
                text::lower(a),
                text::lower(b),
            ) || text::lower(a) == text::lower(b)
            &&& at[i] != at[j]
        }),
{
    let key = model_scan::model_key(found);
    assert(order::key_before(key(at[i]), key(at[j])));
    text::lemma_before_is_total(key(at[i]).name, key(at[j]).name);
}

/// What is found and in which order it comes is decided: a list of roots given once more, in any
/// order, behind itself gives the same list of models.
pub proof fn law_roots_listed_twice_give_the_same_list(
    roots: Seq<Option<model_scan::FolderView>>,
    again: Seq<Option<model_scan::FolderView>>,
    a: Seq<int>,
    b: Seq<int>,
)
    requires
        roots.len() <= again.len(),
        forall|i: int| 0 <= i < roots.len() ==> again[i] == roots[i],
        forall|i: int| roots.len() <= i < again.len() ==> roots.contains(#[trigger] again[i]),
        model_scan::model_places(
            model_scan::roots_walked(roots, roots.len() as int).models,
            a,
        ),
        model_scan::model_places(
            model_scan::roots_walked(again, again.len() as int).models,
            b,
        ),
    ensures
        model_scan::models_at(model_scan::roots_walked(roots, roots.len() as int).models, a)
            == model_scan::models_at(
            model_scan::roots_walked(again, again.len() as int).models,
            b,
        ),
{
    model_scan::law_roots_listed_twice_find_the_same(roots, again, again.len() as int);
    let found = model_scan::roots_walked(roots, roots.len() as int).models;
    order::law_sorted_list_is_unique(
        a,
        b,
        found.len() as int,
        model_scan::every(),
        model_scan::model_key(found),
    );
}

} // verus!
