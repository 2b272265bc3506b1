//! What a scan of folders finds: how the names of parts are read, where a model belongs, and how far the
//! scan goes.

use vstd::prelude::*;

use crate::model_scan;
use crate::names;
use crate::paths;
use crate::text;

verus! {

// ---------- names of parts ----------

proof fn lemma_decimal(n: int)
    requires
        n >= 0,
    ensures
        text::all_digits(text::decimal_of(n)),
        text::number_of(text::decimal_of(n)) == n,
        text::decimal_of(n).len() >= 1,
        n < 10 ==> text::decimal_of(n).len() == 1,
        10 <= n < 100 ==> text::decimal_of(n).len() == 2,
        100 <= n < 1000 ==> text::decimal_of(n).len() == 3,
        1000 <= n < 10000 ==> text::decimal_of(n).len() == 4,
        10000 <= n < 100000 ==> text::decimal_of(n).len() == 5,
    decreases n,
{
    let s = text::decimal_of(n);
    if n >= 10 {
        lemma_decimal(n / 10);
        assert(s.drop_last() =~= text::decimal_of(n / 10));
    } else {
        reveal_with_fuel(text::number_of, 2);
        assert(s.drop_last() =~= Seq::empty());
    }
}

proof fn lemma_zero_before(s: Seq<char>)
    ensures
        text::number_of(seq!['0'] + s) == text::number_of(s),
        text::all_digits(s) ==> text::all_digits(seq!['0'] + s),
    decreases s.len(),
{
    let t = seq!['0'] + s;
    if s.len() == 0 {
        assert(t =~= seq!['0']);
        reveal_with_fuel(text::number_of, 2);
    } else {
        lemma_zero_before(s.drop_last());
        assert(t.drop_last() =~= seq!['0'] + s.drop_last());
        assert(t.last() == s.last());
    }
    if text::all_digits(s) {
        assert forall|i: int| 0 <= i < t.len() implies text::is_digit(#[trigger] t[i]) by {
            if i > 0 {
                assert(text::is_digit(s[i - 1]));
            }
        }
    }
}

/// Numbers up to 99999 have five digits in the name of a part, and are read back from them.
pub proof fn law_five_digits(n: int)
    requires
        0 <= n <= 99_999,
    ensures
        model_scan::five_digits(n).len() == 5,
        text::all_digits(model_scan::five_digits(n)),
        text::number_of(model_scan::five_digits(n)) == n,
{
    let d = text::decimal_of(n);
    lemma_decimal(n);
    reveal_strlit("0");
    reveal_strlit("00");
    reveal_strlit("000");
    reveal_strlit("0000");
    let z = seq!['0'];
    lemma_zero_before(d);
    lemma_zero_before(z + d);
    lemma_zero_before(z + (z + d));
    lemma_zero_before(z + (z + (z + d)));
    assert("0"@ + d =~= z + d);
    assert("00"@ + d =~= z + (z + d));
    assert("000"@ + d =~= z + (z + (z + d)));
    assert("0000"@ + d =~= z + (z + (z + (z + d))));
}

proof fn lemma_last_part(s: Seq<char>, part: Seq<char>, at: int, n: int)
    requires
        0 <= at < n <= s.len(),
        text::occurs_at(s, part, at),
        forall|k: int| at < k < n ==> !#[trigger] text::occurs_at(s, part, k),
    ensures
        model_scan::last_part(s, part, n) == Some(at),
    decreases n,
{
    if n - 1 > at {
        assert(!text::occurs_at(s, part, n - 1));
        lemma_last_part(s, part, at, n - 1);
    }
}

proof fn lemma_last_index(s: Seq<char>, c: char, at: int, n: int)
    requires
        0 <= at < n <= s.len(),
        s[at] == c,
        forall|k: int| at < k < n ==> #[trigger] s[k] != c,
    ensures
        text::last_index(s, c, n) == Some(at),
    decreases n,
{
    if n - 1 > at {
        assert(s[n - 1] != c);
        lemma_last_index(s, c, at, n - 1);
    }
}

/// The name of a part is read back: its model, its number and how many parts there are.
pub proof fn law_part_name_is_read_back(base: Seq<char>, number: int, total: int)
    requires
        1 <= number <= total <= 99_999,
    ensures
        model_scan::spec_shard(model_scan::shard_name(base, number, total)) == Some(
            (base, number, total),
        ),
{
    law_five_digits(number);
    law_five_digits(total);
    reveal_strlit("-");
    reveal_strlit("-of-");
    reveal_strlit(".gguf");
    reveal_strlit(".GGUF");
    let a = model_scan::five_digits(number);
    let b = model_scan::five_digits(total);
    let stem = base + "-"@ + a + "-of-"@ + b;
    let name = model_scan::shard_name(base, number, total);
    assert(name =~= stem + ".gguf"@);
    assert(name.subrange(name.len() - 5, name.len() as int) =~= ".gguf"@);
    assert(name.take(name.len() - 5) =~= stem);
    let at = (base.len() + 6) as int;
    assert(stem.len() == base.len() + 15);
    assert(stem.subrange(at, at + 4) =~= "-of-"@);
    assert forall|k: int| at < k < stem.len() implies !#[trigger] text::occurs_at(stem, "-of-"@, k) by {
        if text::occurs_at(stem, "-of-"@, k) {
            assert(stem.subrange(k, k + 4)[0] == stem[k]);
            assert(stem.subrange(k, k + 4)[3] == stem[k + 3]);
            assert(stem[k] == '-' && stem[k + 3] == '-');
            assert(stem[k + 3] == b[k + 3 - at - 4]);
            assert(text::is_digit(b[k + 3 - at - 4]));
        }
    }
    lemma_last_part(stem, "-of-"@, at, stem.len() as int);
    let rest = stem.take(at);
    assert(rest =~= base + "-"@ + a);
    assert(stem.skip(at + 4) =~= b);
    let dash = base.len() as int;
    assert forall|k: int| dash < k < rest.len() implies #[trigger] rest[k] != '-' by {
        assert(rest[k] == a[k - dash - 1]);
        assert(text::is_digit(a[k - dash - 1]));
    }
    lemma_last_index(rest, '-', dash, rest.len() as int);
    assert(rest.take(dash) =~= base);
    assert(rest.skip(dash + 1) =~= a);
    assert(text::is_digit(a[0]) && text::is_digit(b[0]));
}

/// The ending of a model's name is `.gguf` or `.GGUF`; a name with neither is no part.
pub proof fn law_parts_end_as_models(name: Seq<char>)
    ensures
        !text::has_suffix(name, ".gguf"@) && !text::has_suffix(name, ".GGUF"@)
            ==> model_scan::spec_shard(name) is None,
        model_scan::spec_shard(name) matches Some((base, number, total)) ==> 1 <= number <= total,
{
}

// ---------- where a model belongs ----------

/// The path of a file below a root is what follows the root and its `/`.
pub proof fn law_path_below_the_root(root: Seq<char>, rest: Seq<char>, name: Seq<char>)
    requires
        root.len() > 0,
        root.last() != '/',
    ensures
        model_scan::relative_to(root + seq!['/'] + rest, root, name) == rest,
{
    let path = root + seq!['/'] + rest;
    assert(path.subrange(0, root.len() as int) =~= root);
    assert(path[root.len() as int] == '/');
    assert(path.skip(root.len() as int + 1) =~= rest);
}

/// A file that lies outside a root is known by its name.
pub proof fn law_path_outside_the_root(path: Seq<char>, root: Seq<char>, name: Seq<char>)
    requires
        !paths::within(path, root),
    ensures
        model_scan::relative_to(path, root, name) == name,
{
}

/// Whether a part of a path names an entry: it is neither empty nor a dot or two.
pub open spec fn names_an_entry(s: Seq<char>) -> bool {
    s.len() > 0 && s != "."@ && s != ".."@ && !s.contains('/')
}

proof fn lemma_pieces_with_more(a: Seq<char>, b: Seq<char>)
    requires
        !b.contains('/'),
    ensures
        text::pieces(a + seq!['/'] + b, '/') == text::pieces(a, '/').push(b),
    decreases b.len(),
{
    let whole = a + seq!['/'] + b;
    if b.len() == 0 {
        assert(whole.drop_last() =~= a);
        assert(whole.last() == '/');
        assert(b =~= Seq::empty());
    } else {
        let short = b.drop_last();
        assert forall|i: int| 0 <= i < short.len() implies short[i] != '/' by {
            assert(b.contains(b[i]));
        }
        assert(b.contains(b.last()));
        lemma_pieces_with_more(a, short);
        assert(whole.drop_last() =~= a + seq!['/'] + short);
        assert(whole.last() == b.last());
        assert(short.push(b.last()) =~= b);
        assert(text::pieces(whole, '/') =~= text::pieces(a, '/').push(b));
    }
}

proof fn lemma_single_piece(s: Seq<char>)
    requires
        !s.contains('/'),
    ensures
        text::pieces(s, '/') == seq![s],
    decreases s.len(),
{
    if s.len() > 0 {
        let short = s.drop_last();
        assert forall|i: int| 0 <= i < short.len() implies short[i] != '/' by {
            assert(s.contains(s[i]));
        }
        assert(s.contains(s.last()));
        lemma_single_piece(short);
        assert(short.push(s.last()) =~= s);
        assert(text::pieces(s, '/') =~= seq![s]);
    }
}

/// A model two folders below its root belongs to the repository that the folders name, under the rest of
/// its path; one nearer to the root is placed by its name.
pub proof fn law_folders_name_the_repository(
    m: model_scan::ModelView,
    owner: Seq<char>,
    name: Seq<char>,
    file: Seq<char>,
)
    requires
        names_an_entry(owner),
        names_an_entry(name),
        names_an_entry(file),
    ensures
        m.relative_path == owner + seq!['/'] + name + seq!['/'] + file ==> model_scan::spec_repo_id(m)
            == owner + seq!['/'] + name && model_scan::spec_path_in_repo(m) == file,
        m.relative_path == name + seq!['/'] + file ==> model_scan::spec_repo_id(m)
            == names::spec_infer_repo_id(m.file_name) && model_scan::spec_path_in_repo(m)
            == m.file_name,
        m.relative_path == file ==> model_scan::spec_repo_id(m) == names::spec_infer_repo_id(
            m.file_name,
        ) && model_scan::spec_path_in_repo(m) == m.file_name,
{
    reveal_strlit("/");
    assert("/"@ =~= seq!['/']);
    reveal_with_fuel(model_scan::name_parts, 4);
    lemma_single_piece(owner);
    lemma_single_piece(name);
    lemma_single_piece(file);
    lemma_pieces_with_more(owner, name);
    lemma_pieces_with_more(owner + seq!['/'] + name, file);
    lemma_pieces_with_more(name, file);
    let three = seq![owner, name, file];
    assert(text::pieces(owner + seq!['/'] + name + seq!['/'] + file, '/') =~= three);
    assert(model_scan::name_parts(three, 3) =~= three);
    let two = seq![name, file];
    assert(text::pieces(name + seq!['/'] + file, '/') =~= two);
    assert(model_scan::name_parts(two, 2) =~= two);
    assert(model_scan::name_parts(seq![file], 1) =~= seq![file]);
}

// ---------- the way of the scan ----------

/// Whether an entry is a file that is taken as a model: one with the ending `.gguf`, neither hidden nor
/// a projector.
pub open spec fn model_file(e: model_scan::EntryView) -> bool {
    &&& e.kind is File
    &&& text::has_suffix(text::lower(e.name), ".gguf"@)
    &&& !text::has_part(text::lower(e.name), "mmproj"@)
    &&& !(e.name.len() > 0 && e.name[0] == '.')
}

proof fn lemma_files_collected(
    entries: Seq<model_scan::EntryView>,
    i: int,
    root: Seq<char>,
    root_index: int,
    depth: int,
    st: model_scan::ScanState,
    files: Seq<int>,
    k: int,
)
    requires
        0 <= i <= entries.len(),
        entries.len() - i <= st.budget,
        forall|j: int| 0 <= j < entries.len() ==> !((#[trigger] entries[j]).kind is Folder),
    ensures
        ({
            let (after, found) = model_scan::entries_walked(
                entries,
                i,
                root,
                root_index,
                depth,
                st,
                files,
            );
            &&& after.models == st.models
            &&& found is Some
            &&& found->0.contains(k) <==> files.contains(k) || (i <= k < entries.len() && model_file(
                entries[k],
            ))
        }),
    decreases entries.len() - i,
{
    if i < entries.len() {
        let e = entries[i];
        assert(!(e.kind is Folder));
        let paid = model_scan::ScanState { budget: st.budget - 1, models: st.models };
        let more = if model_file(e) {
            files.push(i)
        } else {
            files
        };
        lemma_files_collected(entries, i + 1, root, root_index, depth, paid, more, k);
        vstd::seq_lib::lemma_seq_contains_after_push(files, i, k);
    }
}

proof fn lemma_files_known(
    f: model_scan::FolderView,
    files: Seq<int>,
    root: Seq<char>,
    root_index: int,
    models: Seq<model_scan::ModelView>,
    n: int,
    k: int,
)
    requires
        0 <= k < n <= files.len(),
        model_scan::model_at(f, files[k], root, root_index) is Some,
    ensures
        model_scan::is_known(
            model_scan::files_added(f, files, root, root_index, models, n),
            model_scan::model_at(f, files[k], root, root_index)->0.path,
        ),
    decreases n,
{
    let before = model_scan::files_added(f, files, root, root_index, models, n - 1);
    let after = model_scan::files_added(f, files, root, root_index, models, n);
    let path = model_scan::model_at(f, files[k], root, root_index)->0.path;
    if k < n - 1 {
        lemma_files_known(f, files, root, root_index, models, n - 1, k);
        let i = choose|i: int| 0 <= i < before.len() && (#[trigger] before[i]).path == path;
        assert(after[i].path == path);
    } else if model_scan::is_known(before, path) {
        assert(after == before);
    } else {
        assert(after[before.len() as int].path == path);
    }
}

/// Every model in a folder of files is found: each file that is a model and can be reached is known after
/// the scan, up to twenty thousand entries.
pub proof fn law_every_model_of_a_folder_is_found(f: model_scan::FolderView, k: int)
    requires
        f.entries.len() <= 20_000,
        forall|j: int| 0 <= j < f.entries.len() ==> !((#[trigger] f.entries[j]).kind is Folder),
        0 <= k < f.entries.len(),
        model_file(f.entries[k]),
        f.entries[k].canonical is Some,
        model_scan::spec_shard(f.entries[k].name) matches Some((base, number, total)) ==> number
            == 1,
    ensures
        model_scan::is_known(
            model_scan::roots_walked(seq![Some(f)], 1).models,
            f.entries[k].canonical->0,
        ),
{
    reveal_with_fuel(model_scan::roots_walked, 2);
    let st = model_scan::ScanState {
        budget: model_scan::MAX_SCANNED_ENTRIES as int,
        models: Seq::empty(),
    };
    lemma_files_collected(f.entries, 0, f.path, 0, 0, st, Seq::empty(), k);
    let (after, found) = model_scan::entries_walked(f.entries, 0, f.path, 0, 0, st, Seq::empty());
    let files = found->0;
    let at = choose|at: int| 0 <= at < files.len() && files[at] == k;
    lemma_files_known(f, files, f.path, 0, after.models, files.len() as int, at);
    assert(model_scan::roots_walked(seq![Some(f)], 1) == model_scan::folder_walked(
        f,
        f.path,
        0,
        0,
        st,
    ));
}

/// Folders are searched four levels deep, hidden ones not at all, and everything that is looked at counts
/// towards the limit.
pub proof fn law_folders_are_searched_four_levels_deep(
    e: model_scan::EntryView,
    sub: model_scan::FolderView,
    root: Seq<char>,
    root_index: int,
    depth: int,
    st: model_scan::ScanState,
)
    requires
        e.kind == model_scan::KindView::Folder(sub),
        st.budget > 0,
    ensures
        ({
            let paid = model_scan::ScanState { budget: st.budget - 1, models: st.models };
            let after = model_scan::entries_walked(
                seq![e],
                0,
                root,
                root_index,
                depth,
                st,
                Seq::empty(),
            ).0;
            &&& e.name.len() > 0 && e.name[0] == '.' ==> after == paid
            &&& !(e.name.len() > 0 && e.name[0] == '.') && depth < 4 ==> after
                == model_scan::folder_walked(sub, root, root_index, depth + 1, paid)
            &&& !(e.name.len() > 0 && e.name[0] == '.') && depth >= 4 ==> after == paid
        }),
{
    reveal_with_fuel(model_scan::entries_walked, 3);
}

/// What a model is known by: the file it was found as, its folder and its root.
pub proof fn law_model_is_what_its_file_is(
    f: model_scan::FolderView,
    k: int,
    root: Seq<char>,
    root_index: int,
)
    ensures
        model_scan::model_at(f, k, root, root_index) matches Some(m) ==> {
            &&& f.entries[k].canonical == Some(m.path)
            &&& m.file_name == f.entries[k].name
            &&& m.modified_secs == f.entries[k].modified
            &&& m.root_index == root_index
            &&& m.relative_path == model_scan::relative_to(m.path, root, m.file_name)
            &&& model_scan::spec_shard(m.file_name) is None ==> m.display_name
                == text::without_suffixes(text::without_suffixes(m.file_name, ".gguf"@), ".GGUF"@)
                && m.shard_paths == seq![paths::joined(f.path, m.file_name)]
        },
{
    if let Some(m) = model_scan::model_at(f, k, root, root_index) {
        if model_scan::spec_shard(m.file_name) is None {
            assert(m.shard_paths =~= seq![paths::joined(f.path, m.file_name)]);
        }
    }
}

} // verus!
