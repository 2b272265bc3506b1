//! What is offered of a repository: its variants with their sizes, which of them is the default, and what
//! is known of a model by its name alone.

use vstd::prelude::*;

use crate::download_jobs;
use crate::downloads;
use crate::error;
use crate::gguf_variants;
use crate::hub;
use crate::model_scan;
use crate::models;
use crate::names;
use crate::order;
use crate::text;

verus! {

// ---------- variants of a repository ----------

/// A file on disk is complete in its full size, or in any where none is known; of one that is not, what
/// was fetched of it counts.
pub proof fn law_file_on_disk(length: Option<u64>, part: Option<u64>, size: Option<u64>)
    ensures
        ({
            let f = gguf_variants::spec_disk_file(length, part, size);
            &&& f.complete <==> length is Some && (size is None || length == size)
            &&& f.complete ==> length == Some(f.bytes)
            &&& !f.complete && part is Some ==> part == Some(f.bytes)
            &&& !f.complete && part is None ==> f.bytes == 0
        }),
{
}

proof fn lemma_group(own: Seq<downloads::RemoteView>, quant: Seq<char>, n: int)
    requires
        0 <= n <= own.len(),
    ensures
        forall|f: downloads::RemoteView| #[trigger]
            gguf_variants::group_of(own, quant, n).contains(f) <==> own.take(n).contains(f)
                && names::spec_quant(f.path) == quant,
    decreases n,
{
    let group = gguf_variants::group_of(own, quant, n);
    if n > 0 {
        lemma_group(own, quant, n - 1);
        let before = gguf_variants::group_of(own, quant, n - 1);
        let last = own[n - 1];
        assert(own.take(n) =~= own.take(n - 1).push(last));
        assert forall|f: downloads::RemoteView| #[trigger]
            group.contains(f) <==> own.take(n).contains(f) && names::spec_quant(f.path) == quant by {
            vstd::seq_lib::lemma_seq_contains_after_push(own.take(n - 1), last, f);
            vstd::seq_lib::lemma_seq_contains_after_push(before, last, f);
        }
    } else {
        assert(own.take(0) =~= Seq::empty());
    }
}

/// A variant is made of the repository's files of its quantization. It is downloaded where each of them
/// is complete on disk, or where a complete model of that quantization is there; what is left of one
/// that was begun is its size without what is there.
pub proof fn law_variant_of_a_repository(
    own: Seq<downloads::RemoteView>,
    quant: Seq<char>,
    disk: Seq<gguf_variants::DiskView>,
    local: Seq<model_scan::ModelView>,
    f: downloads::RemoteView,
)
    ensures
        ({
            let v = gguf_variants::variant_of(own, quant, disk, local);
            let group = gguf_variants::group_of(own, quant, own.len() as int);
            let present = gguf_variants::present_of(group, disk, group.len() as int);
            &&& group.contains(f) <==> own.contains(f) && names::spec_quant(f.path) == quant
            &&& v.quant == quant
            &&& v.shard_count == group.len()
            &&& v.size_bytes == download_jobs::known_bytes(group, group.len() as int)
            &&& group.contains(f) && !gguf_variants::on_disk(disk, f.path, disk.len() as int).complete
                && v.local is None ==> !v.downloaded
            &&& (forall|i: int|
                0 <= i < group.len() ==> gguf_variants::on_disk(
                    disk,
                    (#[trigger] group[i]).path,
                    disk.len() as int,
                ).complete) ==> v.downloaded
            &&& v.local is Some ==> v.downloaded
            &&& !v.downloaded && present > 0 ==> v.partial
            &&& v.partial && present <= v.size_bytes ==> (v.remaining_bytes matches Some(left)
                && left + present == v.size_bytes)
        }),
{
    lemma_group(own, quant, own.len() as int);
    assert(own.take(own.len() as int) =~= own);
    let group = gguf_variants::group_of(own, quant, own.len() as int);
    if group.contains(f) {
        let i = choose|i: int| 0 <= i < group.len() && group[i] == f;
        assert(group[i].path == f.path);
    }
}

/// A local copy of a variant is a complete model of its quantization, the first one of the list.
pub proof fn law_local_copy_is_complete(
    local: Seq<model_scan::ModelView>,
    quant: Seq<char>,
    i: int,
)
    requires
        0 <= i,
    ensures
        match gguf_variants::copy_from(local, quant, i) {
            Some(m) => m.complete && text::lower(
                names::spec_quant(model_scan::spec_path_in_repo(m)),
            ) == text::lower(quant) && exists|k: int| i <= k < local.len() && #[trigger] local[k] == m,
            None => forall|k: int|
                i <= k < local.len() ==> !((#[trigger] local[k]).complete && text::lower(
                    names::spec_quant(model_scan::spec_path_in_repo(local[k])),
                ) == text::lower(quant)),
        },
    decreases local.len() - i,
{
    if i < local.len() {
        if local[i].complete && hub::like(gguf_variants::local_quant(local[i]), quant) {
            assert(local[i] == gguf_variants::copy_from(local, quant, i)->0);
        } else {
            law_local_copy_is_complete(local, quant, i + 1);
            if let Some(m) = gguf_variants::copy_from(local, quant, i + 1) {
                let k = choose|k: int| i + 1 <= k < local.len() && #[trigger] local[k] == m;
                assert(local[k] == m);
            }
        }
    }
}

/// Every quantization of a repository's files is offered once.
pub proof fn law_quantizations_are_offered_once(own: Seq<downloads::RemoteView>, n: int)
    requires
        0 <= n <= own.len(),
    ensures
        forall|k: int|
            0 <= k < n ==> gguf_variants::quants_of(own, n).contains(
                names::spec_quant((#[trigger] own[k]).path),
            ),
        forall|i: int, j: int|
            0 <= i < j < gguf_variants::quants_of(own, n).len() ==> gguf_variants::quants_of(own, n)[i]
                != gguf_variants::quants_of(own, n)[j],
    decreases n,
{
    if n > 0 {
        law_quantizations_are_offered_once(own, n - 1);
        let before = gguf_variants::quants_of(own, n - 1);
        let after = gguf_variants::quants_of(own, n);
        let last = names::spec_quant(own[n - 1].path);
        assert forall|k: int| 0 <= k < n implies after.contains(
            names::spec_quant((#[trigger] own[k]).path),
        ) by {
            vstd::seq_lib::lemma_seq_contains_after_push(
                before,
                last,
                names::spec_quant(own[k].path),
            );
        }
        assert forall|i: int, j: int| 0 <= i < j < after.len() implies after[i] != after[j] by {
            if j == before.len() && after.len() > before.len() {
                assert(before.contains(before[i]));
            }
        }
    }
}

/// The variants are listed by size, the smallest first, those of one size by name.
pub proof fn law_variants_are_listed_by_size(
    s: Seq<gguf_variants::VariantView>,
    at: Seq<int>,
    i: int,
    j: int,
)
    requires
        gguf_variants::variant_places(s, at),
        0 <= i < j < at.len(),
    ensures
        s[at[i]].size_bytes < s[at[j]].size_bytes || (s[at[i]].size_bytes == s[at[j]].size_bytes && (
        text::before(s[at[i]].quant, s[at[j]].quant) || s[at[i]].quant == s[at[j]].quant)),
{
    let key = gguf_variants::variant_key(s);
    assert(order::key_before(key(at[i]), key(at[j])));
}

/// Whether a variant of this quantization is offered, letters of either case.
pub open spec fn offers(s: Seq<gguf_variants::VariantView>, quant: Seq<char>) -> bool {
    exists|i: int| 0 <= i < s.len() && text::lower((#[trigger] s[i]).quant) == text::lower(quant)
}

proof fn lemma_quant_from(s: Seq<gguf_variants::VariantView>, quant: Seq<char>, i: int)
    requires
        0 <= i,
    ensures
        match gguf_variants::quant_from(s, quant, i) {
            Some(k) => i <= k < s.len() && text::lower(s[k].quant) == text::lower(quant),
            None => forall|k: int|
                i <= k < s.len() ==> text::lower((#[trigger] s[k]).quant) != text::lower(quant),
        },
    decreases s.len() - i,
{
    if i < s.len() && !hub::like(s[i].quant, quant) {
        lemma_quant_from(s, quant, i + 1);
    }
}

proof fn lemma_none_downloaded(s: Seq<gguf_variants::VariantView>, i: int)
    requires
        forall|k: int| 0 <= k < s.len() ==> !(#[trigger] s[k]).downloaded,
    ensures
        gguf_variants::downloaded_from(s, i) is None,
    decreases s.len() - i,
{
    if 0 <= i < s.len() {
        lemma_none_downloaded(s, i + 1);
    }
}

/// Where nothing is downloaded the default is the first of these that is offered: UD-Q4_K_XL, Q4_K_M,
/// Q4_K_S, IQ4_XS, IQ4_NL, Q4_0, Q5_K_M and Q8_0; else the first variant of all.
pub proof fn law_default_variant(s: Seq<gguf_variants::VariantView>)
    requires
        s.len() > 0,
        forall|k: int| 0 <= k < s.len() ==> !(#[trigger] s[k]).downloaded,
    ensures
        ({
            let at = gguf_variants::default_place(s);
            let quant = text::lower(s[at->0].quant);
            &&& at is Some
            &&& 0 <= at->0 < s.len()
            &&& if offers(s, "UD-Q4_K_XL"@) {
                quant == text::lower("UD-Q4_K_XL"@)
            } else if offers(s, "Q4_K_M"@) {
                quant == text::lower("Q4_K_M"@)
            } else if offers(s, "Q4_K_S"@) {
                quant == text::lower("Q4_K_S"@)
            } else if offers(s, "IQ4_XS"@) {
                quant == text::lower("IQ4_XS"@)
            } else if offers(s, "IQ4_NL"@) {
                quant == text::lower("IQ4_NL"@)
            } else if offers(s, "Q4_0"@) {
                quant == text::lower("Q4_0"@)
            } else if offers(s, "Q5_K_M"@) {
                quant == text::lower("Q5_K_M"@)
            } else if offers(s, "Q8_0"@) {
                quant == text::lower("Q8_0"@)
            } else {
                at == Some(0int)
            }
        }),
{
    lemma_none_downloaded(s, 0);
    reveal_with_fuel(gguf_variants::preferred_from, 9);
    lemma_quant_from(s, "UD-Q4_K_XL"@, 0);
    lemma_quant_from(s, "Q4_K_M"@, 0);
    lemma_quant_from(s, "Q4_K_S"@, 0);
    lemma_quant_from(s, "IQ4_XS"@, 0);
    lemma_quant_from(s, "IQ4_NL"@, 0);
    lemma_quant_from(s, "Q4_0"@, 0);
    lemma_quant_from(s, "Q5_K_M"@, 0);
    lemma_quant_from(s, "Q8_0"@, 0);
}

/// A file that is named is looked at before a repository; a name that is no repository's is taken as a
/// file, and one of the two has to be given.
pub proof fn law_file_comes_before_the_repository(repo: Seq<char>, path: Seq<char>)
    ensures
        text::trimmed(path).len() > 0 ==> (gguf_variants::spec_route(Some(repo), Some(path)) matches Ok(
            gguf_variants::RouteView::File { candidate, repo_id },
        ) && candidate == text::trimmed(path)),
        text::trimmed(path).len() == 0 ==> gguf_variants::spec_route(Some(repo), Some(path))
            == gguf_variants::spec_route(Some(repo), None),
        text::trimmed(repo).len() > 0 && downloads::repo_id_ok(text::trimmed(text::trimmed(repo)))
            ==> gguf_variants::spec_route(Some(repo), None) == Ok::<
            gguf_variants::RouteView,
            error::ApiErrorView,
        >(gguf_variants::RouteView::Repo(text::trimmed(repo))),
        text::trimmed(repo).len() > 0 && !downloads::repo_id_ok(text::trimmed(text::trimmed(repo)))
            ==> (gguf_variants::spec_route(Some(repo), None) matches Ok(
            gguf_variants::RouteView::File { candidate, repo_id },
        ) && candidate == text::trimmed(repo)),
        text::trimmed(repo).len() == 0 ==> (gguf_variants::spec_route(Some(repo), None) matches Err(e)
            && e.status == 400),
        gguf_variants::spec_route(None, None) matches Err(e) && e.status == 400,
{
}

// ---------- answers without the network ----------

/// A file that is named is all that is offered: downloaded, of its own quantization.
pub proof fn law_named_file_is_offered(
    repo_id: Seq<char>,
    filename: Seq<char>,
    size: u64,
    context_length: Option<u64>,
)
    ensures
        ({
            let a = hub::local_answer(repo_id, filename, size, context_length);
            &&& a.repo_id == repo_id
            &&& a.resolved_locally
            &&& a.variants.len() == 1
            &&& a.variants[0].filename == filename
            &&& a.variants[0].size_bytes == size
            &&& a.variants[0].downloaded
            &&& a.variants[0].quant == names::spec_quant(filename)
            &&& a.variants[0].label == names::spec_quant(filename) + " (Downloaded)"@
            &&& a.default_variant == names::spec_quant(filename)
            &&& context_length matches Some(n) ==> a.context_length == n
            &&& context_length is None ==> a.context_length == 131_072
        }),
{
}

proof fn lemma_cached(files: Seq<hub::ScannedView>, repo_id: Seq<char>, n: int)
    requires
        0 <= n <= files.len(),
    ensures
        forall|k: int|
            0 <= k < hub::cached_variants(files, repo_id, n).len() ==> (
            #[trigger] hub::cached_variants(files, repo_id, n)[k]).downloaded,
        forall|i: int|
            0 <= i < n && hub::belongs(#[trigger] files[i], repo_id) ==> exists|k: int|
                0 <= k < hub::cached_variants(files, repo_id, n).len() && (
                #[trigger] hub::cached_variants(files, repo_id, n)[k]).filename
                    == files[i].filename && hub::cached_variants(files, repo_id, n)[k].size_bytes
                    == files[i].size_bytes && hub::cached_variants(files, repo_id, n)[k].quant
                    == files[i].quant,
        hub::cached_variants(files, repo_id, n).len() > 0 ==> exists|i: int|
            0 <= i < n && hub::belongs(#[trigger] files[i], repo_id),
    decreases n,
{
    if n > 0 {
        lemma_cached(files, repo_id, n - 1);
        let before = hub::cached_variants(files, repo_id, n - 1);
        let after = hub::cached_variants(files, repo_id, n);
        assert forall|i: int| 0 <= i < n && hub::belongs(#[trigger] files[i], repo_id) implies exists|
            k: int,
        |
            0 <= k < after.len() && (#[trigger] after[k]).filename == files[i].filename
                && after[k].size_bytes == files[i].size_bytes && after[k].quant == files[i].quant by {
            if i < n - 1 {
                let k = choose|k: int|
                    0 <= k < before.len() && (#[trigger] before[k]).filename == files[i].filename
                        && before[k].size_bytes == files[i].size_bytes && before[k].quant
                        == files[i].quant;
                assert(after[k] == before[k]);
            } else {
                assert(after[before.len() as int].filename == files[i].filename);
            }
        }
        if after.len() > 0 && !hub::belongs(files[n - 1], repo_id) {
            let i = choose|i: int| 0 <= i < n - 1 && hub::belongs(#[trigger] files[i], repo_id);
            assert(hub::belongs(files[i], repo_id));
        }
    }
}

/// The files on disk that belong to a repository are all offered, as downloaded; without one there is no
/// answer from disk.
pub proof fn law_files_on_disk_are_offered(
    files: Seq<hub::ScannedView>,
    repo_id: Seq<char>,
    i: int,
)
    requires
        0 <= i < files.len(),
        hub::belongs(files[i], repo_id),
    ensures
        match hub::cached_answer(files, repo_id) {
            Some(a) => {
                &&& a.repo_id == repo_id
                &&& a.resolved_locally
                &&& a.context_length == 131_072
                &&& exists|k: int|
                    0 <= k < a.variants.len() && (#[trigger] a.variants[k]).filename
                        == files[i].filename && a.variants[k].size_bytes == files[i].size_bytes
                        && a.variants[k].quant == files[i].quant
                &&& forall|k: int|
                    0 <= k < a.variants.len() ==> (#[trigger] a.variants[k]).downloaded
                &&& a.default_variant == a.variants.last().quant
            },
            None => false,
        },
{
    let n = files.len() as int;
    lemma_cached(files, repo_id, n);
    let all = hub::cached_variants(files, repo_id, n);
    let k = choose|k: int|
        0 <= k < all.len() && (#[trigger] all[k]).filename == files[i].filename && all[k].size_bytes
            == files[i].size_bytes && all[k].quant == files[i].quant;
    assert(all[k].filename == files[i].filename);
}

proof fn lemma_first_downloaded(variants: Seq<hub::VariantView>, i: int)
    requires
        0 <= i,
    ensures
        match hub::first_downloaded(variants, i) {
            Some(k) => i <= k < variants.len() && variants[k].downloaded && forall|j: int|
                i <= j < k ==> !(#[trigger] variants[j]).downloaded,
            None => forall|j: int| i <= j < variants.len() ==> !(#[trigger] variants[j]).downloaded,
        },
    decreases variants.len() - i,
{
    if i < variants.len() && !variants[i].downloaded {
        lemma_first_downloaded(variants, i + 1);
    }
}

/// Without the network a repository is offered with four and with eight bits, under the names and sizes
/// that are guessed unless a file is there; the default is the first that is downloaded, else the one
/// with four bits.
pub proof fn law_repository_without_the_network(
    repo_id: Seq<char>,
    g: hub::Guess,
    files: Seq<hub::ScannedView>,
    q4_probe: hub::Probe,
    q8_probe: hub::Probe,
    k: int,
)
    ensures
        ({
            let a = hub::offline_answer(repo_id, g, files, q4_probe, q8_probe);
            &&& a.repo_id == repo_id
            &&& a.context_length == 131_072
            &&& !a.has_vision
            &&& a.variants.len() >= 2
            &&& a.variants[0].quant == "Q4_K_M"@
            &&& a.variants[1].quant == "Q8_0"@
            &&& a.variants[0].downloaded ==> a.variants[0].label == "Q4_K_M (Downloaded)"@
            &&& !a.variants[0].downloaded && g.recommended ==> a.variants[0].label
                == "Q4_K_M (Recommended)"@
            &&& !a.variants[0].downloaded && !g.recommended ==> a.variants[0].label == "Q4_K_M"@
            &&& a.variants[1].downloaded ==> a.variants[1].label == "Q8_0 (Downloaded)"@
            &&& !a.variants[1].downloaded ==> a.variants[1].label == "Q8_0"@
            &&& a.resolved_locally <==> exists|j: int|
                0 <= j < a.variants.len() && (#[trigger] a.variants[j]).downloaded
            &&& !a.resolved_locally ==> a.default_variant == "Q4_K_M"@
            &&& 0 <= k < a.variants.len() && a.variants[k].downloaded && (forall|j: int|
                0 <= j < k ==> !(#[trigger] a.variants[j]).downloaded) ==> a.default_variant
                == a.variants[k].quant
            &&& files.len() == 0 && !q4_probe.exists ==> a.variants[0].filename == g.q4_name
                && a.variants[0].size_bytes == g.q4_size && !a.variants[0].downloaded
            &&& files.len() == 0 && !q8_probe.exists ==> a.variants[1].filename == g.q8_name
                && a.variants[1].size_bytes == g.q8_size && !a.variants[1].downloaded
            &&& files.len() == 0 && q4_probe.exists ==> a.variants[0].downloaded && (
            q4_probe.size_bytes matches Some(n) ==> a.variants[0].size_bytes == n)
        }),
{
    let a = hub::offline_answer(repo_id, g, files, q4_probe, q8_probe);
    lemma_first_downloaded(a.variants, 0);
}

/// A file of the repository takes the place of the guess of its quantization, or is offered besides.
pub proof fn law_file_replaces_the_guess(
    s: hub::OfflineState,
    f: hub::ScannedView,
    repo_id: Seq<char>,
)
    ensures
        ({
            let after = hub::offline_step(s, f, repo_id);
            let mine = hub::belongs(f, repo_id) || text::lower(f.filename) == text::lower(s.q4.name)
                || text::lower(f.filename) == text::lower(s.q8.name);
            let four = f.quant == "Q4_K_M"@ || text::has_part(f.filename, "Q4_K_M"@);
            let eight = f.quant == "Q8_0"@ || text::has_part(f.filename, "Q8_0"@);
            &&& !mine ==> after == s
            &&& mine && four ==> after.q4.name == f.filename && after.q4.size == f.size_bytes
                && after.q4.downloaded && after.q8 == s.q8 && after.others == s.others
            &&& mine && !four && eight ==> after.q8.name == f.filename && after.q8.size
                == f.size_bytes && after.q8.downloaded && after.q4 == s.q4 && after.others == s.others
            &&& mine && !four && !eight ==> after.q4 == s.q4 && after.q8 == s.q8 && after.others.len()
                == s.others.len() + 1 && after.others.last().filename == f.filename
                && after.others.last().downloaded && after.others.last().size_bytes == f.size_bytes
                && after.others.last().quant == f.quant
        }),
{
}

/// The names that are guessed follow that of the repository, without its owner and its ending.
pub proof fn law_guessed_names_follow_the_repository(
    owner: Seq<char>,
    name: Seq<char>,
    lower: Seq<char>,
    sizes: (u64, u64, bool),
)
    requires
        !name.contains('/'),
        !text::has_suffix(name, "-GGUF"@),
        !text::has_suffix(name, "_GGUF"@),
        !text::has_part(lower, "llama-3.2-3b"@),
        !text::has_part(lower, "llama-3.2-1b"@),
        owner + seq!['/'] + name + "-GGUF"@ != "unsloth/Llama-3.2-3B-Instruct-GGUF"@,
        owner + seq!['/'] + name + "-GGUF"@ != "unsloth/Llama-3.2-1B-Instruct-GGUF"@,
    ensures
        ({
            let g = hub::guess_of(owner + seq!['/'] + name + "-GGUF"@, lower, sizes);
            &&& g.q4_name == name + "-Q4_K_M.gguf"@
            &&& g.q8_name == name + "-Q8_0.gguf"@
            &&& g.q4_size == sizes.0
            &&& g.q8_size == sizes.1
            &&& g.recommended == sizes.2
        }),
{
    let repo = owner + seq!['/'] + name + "-GGUF"@;
    let part = name + "-GGUF"@;
    reveal_strlit("-GGUF");
    assert(repo =~= owner.push('/') + part);
    text::law_last_piece_ignores_the_front(owner, part, '/');
    assert forall|i: int| 0 <= i < part.len() implies part[i] != '/' by {
        if i < name.len() {
            assert(name.contains(name[i]));
        }
    }
    lemma_whole_piece(part);
    assert(part.subrange(part.len() - 5, part.len() as int) =~= "-GGUF"@);
    assert(part.take(part.len() - 5) =~= name);
}

proof fn lemma_whole_piece(s: Seq<char>)
    requires
        forall|i: int| 0 <= i < s.len() ==> #[trigger] s[i] != '/',
    ensures
        text::pieces(s, '/') == seq![s],
    decreases s.len(),
{
    if s.len() > 0 {
        let short = s.drop_last();
        lemma_whole_piece(short);
        assert(short.push(s.last()) =~= s);
        assert(text::pieces(s, '/') =~= seq![s]);
    }
}

// ---------- names ----------

/// The quantizations that are known, in the order in which they are looked for.
pub proof fn law_known_quantizations()
    ensures
        names::KNOWN_QUANT_COUNT == 56,
        names::quant_name(0) == "UD-Q8_K_XL"@,
        names::quant_name(1) == "UD-Q6_K_XL"@,
        names::quant_name(2) == "UD-Q5_K_XL"@,
        names::quant_name(3) == "UD-Q4_K_XL"@,
        names::quant_name(4) == "UD-Q3_K_XL"@,
        names::quant_name(5) == "UD-Q2_K_XL"@,
        names::quant_name(6) == "UD-IQ4_XS"@,
        names::quant_name(7) == "UD-IQ4_NL"@,
        names::quant_name(8) == "UD-IQ3_XXS"@,
        names::quant_name(9) == "UD-IQ3_S"@,
        names::quant_name(10) == "UD-IQ2_XXS"@,
        names::quant_name(11) == "UD-IQ2_M"@,
        names::quant_name(12) == "UD-IQ1_S"@,
        names::quant_name(13) == "UD-IQ1_M"@,
        names::quant_name(14) == "Q8_K_XL"@,
        names::quant_name(15) == "Q6_K_XL"@,
        names::quant_name(16) == "Q5_K_XL"@,
        names::quant_name(17) == "Q4_K_XL"@,
        names::quant_name(18) == "Q3_K_XL"@,
        names::quant_name(19) == "Q2_K_XL"@,
        names::quant_name(20) == "Q8_0"@,
        names::quant_name(21) == "Q8_1"@,
        names::quant_name(22) == "Q6_K_L"@,
        names::quant_name(23) == "Q6_K_M"@,
        names::quant_name(24) == "Q6_K"@,
        names::quant_name(25) == "Q5_K_M"@,
        names::quant_name(26) == "Q5_K_S"@,
        names::quant_name(27) == "Q5_1"@,
        names::quant_name(28) == "Q5_0"@,
        names::quant_name(29) == "Q4_K_M"@,
        names::quant_name(30) == "Q4_K_S"@,
        names::quant_name(31) == "Q4_1"@,
        names::quant_name(32) == "Q4_0"@,
        names::quant_name(33) == "Q3_K_L"@,
        names::quant_name(34) == "Q3_K_M"@,
        names::quant_name(35) == "Q3_K_S"@,
        names::quant_name(36) == "Q3_1"@,
        names::quant_name(37) == "Q3_0"@,
        names::quant_name(38) == "Q2_K_L"@,
        names::quant_name(39) == "Q2_K"@,
        names::quant_name(40) == "Q2_0"@,
        names::quant_name(41) == "IQ4_NL"@,
        names::quant_name(42) == "IQ4_XS"@,
        names::quant_name(43) == "IQ3_M"@,
        names::quant_name(44) == "IQ3_S"@,
        names::quant_name(45) == "IQ3_XXS"@,
        names::quant_name(46) == "IQ2_M"@,
        names::quant_name(47) == "IQ2_S"@,
        names::quant_name(48) == "IQ2_XXS"@,
        names::quant_name(49) == "IQ1_M"@,
        names::quant_name(50) == "IQ1_S"@,
        names::quant_name(51) == "BF16"@,
        names::quant_name(52) == "FP16"@,
        names::quant_name(53) == "F16"@,
        names::quant_name(54) == "FP32"@,
        names::quant_name(55) == "F32"@,
{
}

proof fn lemma_within(s: Seq<char>, i: int)
    requires
        0 <= i <= 56,
    ensures
        match names::quant_within(s, i) {
            Some(q) => text::has_part(s, q) && exists|k: int|
                i <= k < 56 && #[trigger] names::quant_name(k) == q && forall|j: int|
                    i <= j < k ==> !text::has_part(s, #[trigger] names::quant_name(j)),
            None => forall|j: int| i <= j < 56 ==> !text::has_part(s, #[trigger] names::quant_name(j)),
        },
    decreases 56 - i,
{
    if i < 56 {
        if text::has_part(s, names::quant_name(i)) {
            assert(names::quant_name(i) == names::quant_within(s, i)->0);
        } else {
            lemma_within(s, i + 1);
            if let Some(q) = names::quant_within(s, i + 1) {
                let k = choose|k: int|
                    i + 1 <= k < 56 && #[trigger] names::quant_name(k) == q && forall|j: int|
                        i + 1 <= j < k ==> !text::has_part(s, #[trigger] names::quant_name(j));
                assert(names::quant_name(k) == q);
            }
        }
    }
}

/// The quantization of a file in no folder is the first known one in its name; where none is in it, the
/// name itself without its ending stands for it.
pub proof fn law_quantization_is_in_the_name(filename: Seq<char>, j: int)
    requires
        !filename.contains('/'),
    ensures
        0 <= j < 56 && text::has_part(filename, names::quant_name(j)) ==> text::has_part(
            filename,
            names::spec_quant(filename),
        ) && exists|k: int| 0 <= k <= j && #[trigger] names::quant_name(k) == names::spec_quant(
            filename,
        ),
        (forall|k: int| 0 <= k < 56 ==> !text::has_part(filename, #[trigger] names::quant_name(k)))
            ==> names::spec_quant(filename) == text::without_suffixes(filename, ".gguf"@),
{
    assert forall|i: int| 0 <= i < filename.len() implies #[trigger] filename[i] != '/' by {
        assert(filename.contains(filename[i]));
    }
    lemma_whole_piece(filename);
    lemma_within(filename, 0);
    if let Some(q) = names::quant_within(filename, 0) {
        let k = choose|k: int|
            0 <= k < 56 && #[trigger] names::quant_name(k) == q && forall|i: int|
                0 <= i < k ==> !text::has_part(filename, #[trigger] names::quant_name(i));
        if 0 <= j < 56 && text::has_part(filename, names::quant_name(j)) {
            assert(k <= j);
            assert(names::quant_name(k) == q);
        }
    }
}

/// Projectors, drafts, encoders, adapters and the files of prediction by several tokens are auxiliary.
pub proof fn law_auxiliary_files(path: Seq<char>, filename: Seq<char>)
    ensures
        names::auxiliary(path, filename) <==> (text::has_part(path, "mmproj"@) || text::has_part(
            path,
            "draft"@,
        ) || text::has_part(path, "vae"@) || text::has_part(path, "text_encoder"@)
            || text::has_part(path, "adapter"@) || text::has_prefix(path, "mtp/"@)
            || text::has_part(path, "/mtp/"@) || text::has_part(path, "/mtp-"@) || text::has_part(
            path,
            "/mtp_"@,
        ) || text::has_prefix(filename, "mtp-"@) || text::has_prefix(filename, "mtp_"@)
            || text::has_part(filename, "-mtp-"@) || text::has_part(filename, "_mtp_"@)),
{
}

/// A repository whose name is not known by heart is that of the file without its quantization, under the
/// usual owner and with the usual ending.
pub proof fn law_repository_follows_the_file(name: Seq<char>, lower: Seq<char>, quant: Seq<char>)
    requires
        !text::has_part(lower, "llama-3.2-1b-instruct"@),
        !text::has_part(lower, "llama-3.2-3b-instruct"@),
        !text::has_part(lower, "qwen2.5-1.5b-instruct"@),
        !text::has_part(lower, "mistral-7b-instruct"@),
        quant.len() > 0,
        !name.contains('/'),
        !text::has_suffix(name, "-GGUF"@),
        !text::has_suffix(name, "_GGUF"@),
    ensures
        names::repo_of(name + "-"@ + quant, lower, quant) == "unsloth/"@ + name + "-GGUF"@,
{
    let stem = name + "-"@ + quant;
    let tail = "-"@ + quant;
    reveal_strlit("-");
    assert(stem =~= name + tail);
    assert(stem.subrange(stem.len() - tail.len(), stem.len() as int) =~= tail);
    assert(stem.take(stem.len() - tail.len()) =~= name);
}

/// Some models are known by heart.
pub proof fn law_repositories_known_by_heart(stem: Seq<char>, lower: Seq<char>, quant: Seq<char>)
    ensures
        text::has_part(lower, "llama-3.2-1b-instruct"@) ==> names::repo_of(stem, lower, quant)
            == "unsloth/Llama-3.2-1B-Instruct-GGUF"@,
        !text::has_part(lower, "llama-3.2-1b-instruct"@) && text::has_part(
            lower,
            "llama-3.2-3b-instruct"@,
        ) ==> names::repo_of(stem, lower, quant) == "unsloth/Llama-3.2-3B-Instruct-GGUF"@,
        !text::has_part(lower, "llama-3.2-1b-instruct"@) && !text::has_part(
            lower,
            "llama-3.2-3b-instruct"@,
        ) && text::has_part(lower, "qwen2.5-1.5b-instruct"@) ==> names::repo_of(stem, lower, quant)
            == "unsloth/Qwen2.5-1.5B-Instruct-GGUF"@,
        !text::has_part(lower, "llama-3.2-1b-instruct"@) && !text::has_part(
            lower,
            "llama-3.2-3b-instruct"@,
        ) && !text::has_part(lower, "qwen2.5-1.5b-instruct"@) && text::has_part(
            lower,
            "mistral-7b-instruct"@,
        ) ==> names::repo_of(stem, lower, quant) == "unsloth/Mistral-7B-Instruct-v0.3-GGUF"@,
{
}

/// The estimate of a model's size goes by the billions of weights in its name, the largest first.
pub proof fn law_estimate_goes_by_the_billions(name: Seq<char>)
    requires
        !text::has_part(name, "deepseek"@),
        !text::has_part(name, "r1"@),
        !text::has_part(name, "v3"@),
    ensures
        ({
            let s = names::sizes_of(name);
            let giant = text::has_part(name, "405b"@);
            let huge = text::has_part(name, "284b"@) || text::has_part(name, "deepseek-v4"@);
            let large = text::has_part(name, "120b"@) || text::has_part(name, "128b"@)
                || text::has_part(name, "110b"@);
            let seventy = text::has_part(name, "70b"@) || text::has_part(name, "72b"@);
            let thirty = text::has_part(name, "32b"@) || text::has_part(name, "34b"@)
                || text::has_part(name, "30b"@) || text::has_part(name, "35b"@) || text::has_part(
                name,
                "glm-5"@,
            );
            let fourteen = text::has_part(name, "14b"@) || text::has_part(name, "13b"@)
                || text::has_part(name, "12b"@);
            let eight = text::has_part(name, "8b"@) || text::has_part(name, "9b"@)
                || text::has_part(name, "7b"@) || text::has_part(name, "6.7b"@);
            &&& giant ==> s.0 == 240_000_000_000 && s.1 == 430_000_000_000
            &&& !giant && huge ==> s.0 == 155_000_000_000 && s.1 == 280_000_000_000
            &&& !giant && !huge && large ==> s.0 == 70_000_000_000 && s.1 == 130_000_000_000
            &&& !giant && !huge && !large && seventy ==> s.0 == 40_000_000_000 && s.1
                == 75_000_000_000
            &&& !giant && !huge && !large && !seventy && thirty ==> s.0 == 19_500_000_000 && s.1
                == 35_000_000_000
            &&& !giant && !huge && !large && !seventy && !thirty && fourteen ==> s.0 == 8_500_000_000
                && s.1 == 15_000_000_000
            &&& !giant && !huge && !large && !seventy && !thirty && !fourteen && eight ==> s.0
                == 4_800_000_000 && s.1 == 8_500_000_000
        }),
{
}

// ---------- cards ----------

/// The card of a model file gives its size and, from its header, its context and its architecture; what is
/// guessed goes by the size and the name.
pub proof fn law_card_of_a_file(f: models::FileView)
    ensures
        ({
            let card = models::file_card(f);
            &&& card.filename == f.filename
            &&& card.path == f.path
            &&& card.size_bytes == f.size_bytes
            &&& card.is_present
            &&& card.name == text::without_suffixes(f.filename, ".gguf"@)
            &&& f.header matches Some(h) ==> {
                &&& card.context_length == h.context_length
                &&& h.architecture matches Some(a) ==> card.architecture == a
                &&& h.architecture is None ==> card.architecture == "llama"@
                &&& f.size_bytes > 3_000_000_000 ==> card.parameters == "7B"@
                    && card.recommended_vram_mb == 3800
                &&& 1_500_000_000 < f.size_bytes <= 3_000_000_000 ==> card.parameters == "3.2B"@
                    && card.recommended_vram_mb == 2600
                &&& f.size_bytes <= 1_500_000_000 ==> card.parameters == "1.5B"@
                    && card.recommended_vram_mb == 2600
                &&& text::has_part(f.filename, "Q4_K"@) ==> card.quantization == "Q4_K_M"@
                &&& !text::has_part(f.filename, "Q4_K"@) && text::has_part(f.filename, "Q8_0"@)
                    ==> card.quantization == "Q8_0"@
                &&& !text::has_part(f.filename, "Q4_K"@) && !text::has_part(f.filename, "Q8_0"@)
                    ==> card.quantization == "Q4_0"@
            }
            &&& f.header is None ==> card.parameters == "Unknown"@ && card.quantization == "Q4_K_M"@
                && card.context_length == 8192 && card.architecture == "llama"@
                && card.recommended_vram_mb == 2600
        }),
{
}

} // verus!
