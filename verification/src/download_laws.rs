//! What a download does: which files it takes, where it goes on, and how its progress is counted.

use vstd::prelude::*;

use crate::download_jobs;
use crate::download_jobs::JobState;
use crate::downloads;
use crate::model_scan;
use crate::names;
use crate::text;
use crate::text_laws;

verus! {

// ---------- requests ----------

/// A repository is named by its owner and its name with one `/` between; each begins with no dot and is
/// made of letters, digits, dashes, underscores and dots.
pub proof fn law_repository_names(owner: Seq<char>, name: Seq<char>)
    requires
        !owner.contains('/'),
        !name.contains('/'),
    ensures
        downloads::repo_id_ok(owner + seq!['/'] + name) <==> downloads::repo_part(owner)
            && downloads::repo_part(name),
        !downloads::repo_id_ok(name),
{
    lemma_two_pieces(owner, name);
    lemma_one_piece(name);
}

proof fn lemma_one_piece(s: Seq<char>)
    requires
        !s.contains('/'),
    ensures
        text::pieces(s, '/') == seq![s],
    decreases s.len(),
{
    if s.len() > 0 {
        let short = s.drop_last();
        assert forall|i: int| 0 <= i < short.len() implies short[i] != '/' by {
            assert(s.contains(s[i]));
        }
        assert(s.contains(s.last()));
        lemma_one_piece(short);
        assert(short.push(s.last()) =~= s);
        assert(text::pieces(s, '/') =~= seq![s]);
    }
}

proof fn lemma_two_pieces(a: Seq<char>, b: Seq<char>)
    requires
        !a.contains('/'),
        !b.contains('/'),
    ensures
        text::pieces(a + seq!['/'] + b, '/') == seq![a, b],
    decreases b.len(),
{
    let whole = a + seq!['/'] + b;
    if b.len() == 0 {
        lemma_one_piece(a);
        assert(whole.drop_last() =~= a);
        assert(whole.last() == '/');
        assert(b =~= Seq::empty());
        assert(text::pieces(whole, '/') =~= seq![a, b]);
    } else {
        let short = b.drop_last();
        assert forall|i: int| 0 <= i < short.len() implies short[i] != '/' by {
            assert(b.contains(b[i]));
        }
        assert(b.contains(b.last()));
        lemma_two_pieces(a, short);
        assert(whole.drop_last() =~= a + seq!['/'] + short);
        assert(whole.last() == b.last());
        assert(short.push(b.last()) =~= b);
        assert(text::pieces(whole, '/') =~= seq![a, b]);
    }
}

/// The characters of a repository's name, and what it may begin with.
pub proof fn law_characters_of_repository_names(s: Seq<char>, i: int)
    requires
        0 <= i < s.len(),
    ensures
        downloads::repo_part(s) ==> s[0] != '.' && (('a' <= s[i] && s[i] <= 'z') || ('A' <= s[i]
            && s[i] <= 'Z') || ('0' <= s[i] && s[i] <= '9') || s[i] == '-' || s[i] == '_' || s[i]
            == '.'),
        s[0] == '.' ==> !downloads::repo_part(s),
        s[i] == '/' || s[i] == '\\' || s[i] == ' ' || s[i] == '%' || s[i] == ':' || s[i] == '?'
            || s[i] == '#' || s[i] == '@' ==> !downloads::repo_part(s),
{
    if downloads::repo_part(s) {
        assert(downloads::repo_char(s[i]));
    }
}

/// A download is known by its repository and its variant, whatever case they are written in and
/// whatever blanks stand around them.
pub proof fn law_download_is_known_by_repository_and_variant(
    repo: Seq<char>,
    variant: Seq<char>,
    other_repo: Seq<char>,
    other_variant: Seq<char>,
)
    ensures
        text::lower(text::trimmed(repo)) == text::lower(text::trimmed(other_repo)) && text::lower(
            text::trimmed(variant),
        ) == text::lower(text::trimmed(other_variant)) ==> downloads::spec_job_key(
            repo,
            Some(variant),
        ) == downloads::spec_job_key(other_repo, Some(other_variant)),
        downloads::spec_job_key(repo, None) == downloads::spec_job_key(repo, Some(Seq::empty())),
        downloads::spec_job_key(repo, Some(variant)) == text::lower(text::trimmed(repo)) + "::"@
            + text::lower(text::trimmed(variant)),
{
    reveal_strlit("");
    assert(""@ =~= Seq::empty());
}

// ---------- files of a variant ----------

proof fn lemma_own_files(files: Seq<downloads::RemoteView>, n: int)
    requires
        0 <= n <= files.len(),
    ensures
        forall|f: downloads::RemoteView| #[trigger]
            downloads::own_files(files, n).contains(f) <==> files.take(n).contains(f)
                && !names::spec_auxiliary(f.path),
    decreases n,
{
    let own = downloads::own_files(files, n);
    if n > 0 {
        lemma_own_files(files, n - 1);
        let before = downloads::own_files(files, n - 1);
        let last = files[n - 1];
        assert(files.take(n) =~= files.take(n - 1).push(last));
        assert forall|f: downloads::RemoteView| #[trigger]
            own.contains(f) <==> files.take(n).contains(f) && !names::spec_auxiliary(f.path) by {
            vstd::seq_lib::lemma_seq_contains_after_push(files.take(n - 1), last, f);
            vstd::seq_lib::lemma_seq_contains_after_push(before, last, f);
        }
    } else {
        assert(files.take(0) =~= Seq::empty());
    }
}

proof fn lemma_files_of(files: Seq<downloads::RemoteView>, quant: Seq<char>, n: int)
    requires
        0 <= n <= files.len(),
    ensures
        forall|f: downloads::RemoteView| #[trigger]
            downloads::files_of(files, quant, n).contains(f) <==> files.take(n).contains(f)
                && text::lower(names::spec_quant(f.path)) == text::lower(quant),
    decreases n,
{
    let own = downloads::files_of(files, quant, n);
    if n > 0 {
        lemma_files_of(files, quant, n - 1);
        let before = downloads::files_of(files, quant, n - 1);
        let last = files[n - 1];
        assert(files.take(n) =~= files.take(n - 1).push(last));
        assert forall|f: downloads::RemoteView| #[trigger]
            own.contains(f) <==> files.take(n).contains(f) && text::lower(names::spec_quant(f.path))
                == text::lower(quant) by {
            vstd::seq_lib::lemma_seq_contains_after_push(files.take(n - 1), last, f);
            vstd::seq_lib::lemma_seq_contains_after_push(before, last, f);
        }
    } else {
        assert(files.take(0) =~= Seq::empty());
    }
}

/// The files of a variant are those of the repository whose quantization is the variant, letters of
/// either case, but for auxiliary ones: all of them and no others.
pub proof fn law_files_of_a_variant(
    files: Seq<downloads::RemoteView>,
    variant: Seq<char>,
    f: downloads::RemoteView,
)
    requires
        text::trimmed(variant).len() > 0,
    ensures
        match downloads::spec_variant_files(files, Some(variant)) {
            Ok((name, selected)) => name == text::trimmed(variant) && selected.len() > 0 && (
            selected.contains(f) <==> files.contains(f) && !names::spec_auxiliary(f.path)
                && text::lower(names::spec_quant(f.path)) == text::lower(text::trimmed(variant))),
            Err(_) => !(files.contains(f) && !names::spec_auxiliary(f.path) && text::lower(
                names::spec_quant(f.path),
            ) == text::lower(text::trimmed(variant))),
        },
{
    let own = downloads::own_files(files, files.len() as int);
    let v = text::trimmed(variant);
    lemma_own_files(files, files.len() as int);
    lemma_files_of(own, v, own.len() as int);
    assert(files.take(files.len() as int) =~= files);
    assert(own.take(own.len() as int) =~= own);
    let selected = downloads::files_of(own, v, own.len() as int);
    assert(own.contains(f) <==> files.contains(f) && !names::spec_auxiliary(f.path));
    assert(selected.contains(f) <==> own.contains(f) && text::lower(names::spec_quant(f.path))
        == text::lower(v));
}

/// Without a variant the files are those of the only quantization there is; where there are several, one
/// has to be named.
pub proof fn law_only_variant_needs_no_name(
    files: Seq<downloads::RemoteView>,
    a: downloads::RemoteView,
    b: downloads::RemoteView,
)
    requires
        files.contains(a),
        !names::spec_auxiliary(a.path),
    ensures
        files.contains(b) && !names::spec_auxiliary(b.path) && names::spec_quant(a.path)
            != names::spec_quant(b.path) ==> downloads::spec_variant_files(files, None) is Err,
        downloads::spec_variant_files(files, None) matches Ok((name, selected)) ==> name
            == names::spec_quant(a.path) && selected.contains(a),
{
    let own = downloads::own_files(files, files.len() as int);
    lemma_own_files(files, files.len() as int);
    assert(files.take(files.len() as int) =~= files);
    assert(own.contains(a));
    let i = choose|i: int| 0 <= i < own.len() && own[i] == a;
    if downloads::one_quant(own) {
        assert(names::spec_quant(own[i].path) == names::spec_quant(own[0].path));
        if files.contains(b) && !names::spec_auxiliary(b.path) {
            assert(own.contains(b));
            let j = choose|j: int| 0 <= j < own.len() && own[j] == b;
            assert(names::spec_quant(own[j].path) == names::spec_quant(own[0].path));
        }
        let v = names::spec_quant(own[0].path);
        lemma_files_of(own, v, own.len() as int);
        assert(own.take(own.len() as int) =~= own);
        assert(downloads::files_of(own, v, own.len() as int).contains(a));
    }
}

/// The size of a remote file is that of its large storage, where it has one.
pub proof fn law_size_of_a_remote_file(e: downloads::TreeView)
    ensures
        downloads::remote_of(e).path == e.path,
        e.lfs_size matches Some(n) ==> downloads::remote_of(e).size == Some(n),
        e.lfs_size is None ==> downloads::remote_of(e).size == e.size,
{
}

/// Of a repository's entries the files with the ending `.gguf`, in letters of either case, are listed.
pub proof fn law_listed_files(s: Seq<downloads::TreeView>, i: int)
    requires
        0 <= i < s.len(),
    ensures
        (downloads::tree_file(s))(i) <==> s[i].kind == "file"@ && text::has_suffix(
            text::lower(s[i].path),
            ".gguf"@,
        ),
{
}

/// What the host answers to the request for the files decides what the user is told.
pub proof fn law_answer_to_the_list_of_files(status: u16, shown: Seq<char>, repo_id: Seq<char>)
    ensures
        200 <= status <= 299 <==> downloads::spec_tree_error(status, shown, repo_id) is None,
        status == 401 || status == 403 ==> downloads::spec_tree_error(status, shown, repo_id) == Some(
            "Нет доступа к репозиторию: для закрытых моделей укажите токен Hugging Face в настройках"@,
        ),
        status == 404 ==> downloads::spec_tree_error(status, shown, repo_id) == Some(
            "Репозиторий "@ + repo_id + " не найден на Hugging Face"@,
        ),
        status == 500 ==> downloads::spec_tree_error(status, shown, repo_id) == Some(
            "Hugging Face ответил HTTP "@ + shown + " на список файлов"@,
        ),
{
}

// ---------- the way of a file ----------

proof fn lemma_plain_parts(parts: Seq<Seq<char>>, n: int)
    requires
        0 <= n <= parts.len(),
        forall|i: int| 0 <= i < parts.len() ==> downloads::plain_part(#[trigger] parts[i]),
    ensures
        downloads::safe_parts(parts, n) == Some(text_laws::put_together(parts.take(n), '/')),
        n > 0 ==> text_laws::put_together(parts.take(n), '/').len() > 0,
    decreases n,
{
    reveal_strlit("/");
    assert("/"@ =~= seq!['/']);
    reveal_strlit(".");
    if n > 0 {
        lemma_plain_parts(parts, n - 1);
        let p = parts[n - 1];
        assert(downloads::plain_part(p));
        assert(parts.take(n).drop_last() =~= parts.take(n - 1));
        assert("."@[0] == '.');
        if n == 1 {
            assert(parts.take(1).len() == 1);
        }
    }
}

/// A path of plain parts is taken as it is.
pub proof fn law_plain_path_is_taken(path: Seq<char>)
    requires
        path.len() > 0,
        forall|i: int|
            0 <= i < text::pieces(path, '/').len() ==> downloads::plain_part(
                #[trigger] text::pieces(path, '/')[i],
            ),
    ensures
        downloads::spec_safe_path(path) == Some(path),
{
    let parts = text::pieces(path, '/');
    text_laws::law_pieces_make_the_text(path, '/');
    lemma_plain_parts(parts, parts.len() as int);
    assert(parts.take(parts.len() as int) =~= parts);
    if path[0] == '/' {
        lemma_leading_slash(path);
        assert(downloads::plain_part(parts[0]));
    }
}

proof fn lemma_leading_slash(path: Seq<char>)
    requires
        path.len() > 0,
        path[0] == '/',
    ensures
        text::pieces(path, '/').len() > 1,
        text::pieces(path, '/')[0].len() == 0,
    decreases path.len(),
{
    if path.len() > 1 {
        lemma_leading_slash(path.drop_last());
    } else {
        let empty = path.drop_last();
        assert(empty =~= Seq::empty());
        assert(text::pieces(empty, '/') =~= seq![empty]);
    }
}

proof fn lemma_refused_part(parts: Seq<Seq<char>>, k: int, n: int)
    requires
        0 <= k < n <= parts.len(),
        parts[k].len() > 0,
        parts[k][0] == '.',
        parts[k] != "."@ || k == 0,
    ensures
        downloads::safe_parts(parts, n) is None,
    decreases n,
{
    if k < n - 1 {
        lemma_refused_part(parts, k, n - 1);
    }
}

/// A path from the root, a path that leads up and a hidden file or folder are refused.
pub proof fn law_path_that_leads_away_is_refused(path: Seq<char>, k: int)
    ensures
        path.len() > 0 && path[0] == '/' ==> downloads::spec_safe_path(path) is None,
        path.len() == 0 ==> downloads::spec_safe_path(path) is None,
        0 <= k < text::pieces(path, '/').len() && text::pieces(path, '/')[k].len() > 1
            && text::pieces(path, '/')[k][0] == '.' ==> downloads::spec_safe_path(path) is None,
{
    let parts = text::pieces(path, '/');
    reveal_strlit(".");
    if 0 <= k < parts.len() && parts[k].len() > 1 && parts[k][0] == '.' {
        lemma_refused_part(parts, k, parts.len() as int);
    }
    if path.len() == 0 {
        assert(parts =~= seq![path]);
        reveal_with_fuel(downloads::safe_parts, 2);
    }
}

/// A file that is there in its full size, or of any size where none is known, is not fetched again;
/// every other one is fetched under its path, and nothing is once the download is cancelled.
pub proof fn law_whole_file_is_skipped(
    file: downloads::RemoteView,
    present: Option<u64>,
    relative: Seq<char>,
)
    requires
        downloads::spec_safe_path(file.path) == Some(relative),
    ensures
        downloads::spec_step(file, true, present) == downloads::StepView::Cancelled,
        present matches Some(n) ==> (file.size is None || file.size == Some(n))
            ==> downloads::spec_step(file, false, present) == downloads::StepView::Skip(n),
        present matches Some(n) ==> file.size is Some && file.size != Some(n)
            ==> downloads::spec_step(file, false, present) == downloads::StepView::Download(relative),
        present is None ==> downloads::spec_step(file, false, present)
            == downloads::StepView::Download(relative),
{
}

/// The answer to a request from an offset on decides how a file is written: a part is appended, the whole
/// replaces what there was, nothing is left of a file that is whole, and everything else fails.
pub proof fn law_answer_decides_how_a_file_is_written(
    status: u16,
    shown: Seq<char>,
    size: Option<u64>,
    offset: u64,
    path: Seq<char>,
)
    ensures
        status == 206 ==> downloads::spec_action(status, shown, size, offset, path) == (
        downloads::ActionView::Write { append: true, from: offset }),
        200 <= status <= 299 && status != 206 ==> downloads::spec_action(
            status,
            shown,
            size,
            offset,
            path,
        ) == (downloads::ActionView::Write { append: false, from: 0 }),
        status == 416 && size == Some(offset) <==> downloads::spec_action(
            status,
            shown,
            size,
            offset,
            path,
        ) == downloads::ActionView::AlreadyWhole,
        !(200 <= status <= 299) && !(status == 416 && size == Some(offset)) ==> (
        downloads::spec_action(status, shown, size, offset, path) is Fail),
        status == 404 ==> downloads::spec_action(status, shown, size, offset, path)
            == downloads::ActionView::Fail(
            "Hugging Face ответил HTTP "@ + shown + " на файл "@ + path,
        ),
{
}

/// What is left of a download is in files with `.part` behind their names.
pub proof fn law_parts_of_downloads(name: Seq<char>)
    ensures
        downloads::part_of_variant(name + ".part"@, None),
        !text::has_suffix(name, ".part"@) ==> !downloads::part_of_variant(name, None),
        downloads::part_of_variant(name + ".part"@, Some(names::spec_quant(name))),
{
    let path = name + ".part"@;
    let n = ".part"@.len() as int;
    reveal_strlit(".part");
    assert(path.subrange(path.len() - n, path.len() as int) =~= ".part"@);
    assert(path.take(path.len() - n) =~= name);
}

// ---------- progress ----------

/// What a task reports changes what it names of its download and nothing else.
pub proof fn law_report_changes_what_it_names(job: download_jobs::JobView, n: u64, why: Seq<char>)
    ensures
        ({
            let got = download_jobs::changed(job, download_jobs::ChangeView::Downloaded(n));
            &&& got.downloaded_bytes == n
            &&& got.completed_bytes == job.completed_bytes
            &&& got.state == job.state
            &&& got.total_bytes == job.total_bytes
        }),
        ({
            let got = download_jobs::changed(job, download_jobs::ChangeView::Completed(n));
            &&& got.downloaded_bytes == n
            &&& got.completed_bytes == n
            &&& got.state == job.state
            &&& got.total_bytes == job.total_bytes
        }),
        ({
            let got = download_jobs::changed(job, download_jobs::ChangeView::Cancelled);
            &&& got.state == JobState::Cancelled
            &&& got.downloaded_bytes == job.downloaded_bytes
            &&& got.completed_bytes == job.completed_bytes
            &&& got.error == job.error
        }),
        ({
            let got = download_jobs::changed(job, download_jobs::ChangeView::Failed(why));
            &&& got.state == JobState::Error
            &&& got.error == Some(why)
            &&& got.downloaded_bytes == job.downloaded_bytes
            &&& got.completed_bytes == job.completed_bytes
        }),
        ({
            let got = download_jobs::changed(job, download_jobs::ChangeView::Finished);
            &&& job.completed_bytes <= job.total_bytes ==> got.downloaded_bytes == job.total_bytes
            &&& job.completed_bytes > job.total_bytes ==> got.downloaded_bytes
                == job.completed_bytes
            &&& got.error == job.error
            &&& got.files == job.files
        }),
        forall|change: download_jobs::ChangeView|
            (#[trigger] download_jobs::changed(job, change)).key == job.key && download_jobs::changed(
                job,
                change,
            ).generation == job.generation && download_jobs::changed(job, change).repo_id
                == job.repo_id && download_jobs::changed(job, change).variant == job.variant,
{
}

/// The bytes that a download expects are those of its files whose sizes are known.
pub proof fn law_expected_bytes_add_up(
    files: Seq<downloads::RemoteView>,
    f: downloads::RemoteView,
)
    ensures
        download_jobs::known_bytes(Seq::empty(), 0) == 0,
        f.size matches Some(n) ==> download_jobs::known_bytes(files.push(f), (files.len() + 1) as int)
            == download_jobs::known_bytes(files, files.len() as int) + n,
        f.size is None ==> download_jobs::known_bytes(files.push(f), (files.len() + 1) as int)
            == download_jobs::known_bytes(files, files.len() as int),
{
    lemma_known_before(files, f, files.len() as int);
}

proof fn lemma_known_before(files: Seq<downloads::RemoteView>, f: downloads::RemoteView, n: int)
    requires
        0 <= n <= files.len(),
    ensures
        download_jobs::known_bytes(files.push(f), n) == download_jobs::known_bytes(files, n),
    decreases n,
{
    if n > 0 {
        lemma_known_before(files, f, n - 1);
    }
}

/// A download that starts has received nothing yet, has no error and expects the bytes of its files.
pub proof fn law_new_download_starts_from_nothing(
    s: download_jobs::RegistryView,
    key: Seq<char>,
    repo_id: Seq<char>,
    variant: Seq<char>,
    files: Seq<downloads::RemoteView>,
)
    ensures
        ({
            let job = download_jobs::new_job(s, key, repo_id, variant, files);
            &&& job.state == JobState::Running
            &&& job.downloaded_bytes == 0
            &&& job.completed_bytes == 0
            &&& job.error is None
            &&& job.key == key
            &&& job.repo_id == repo_id
            &&& job.variant == variant
            &&& job.files == files
            &&& job.total_bytes == download_jobs::known_bytes(files, files.len() as int) as u64
        }),
{
}

proof fn lemma_job_found(jobs: Seq<download_jobs::JobView>, key: Seq<char>, i: int)
    requires
        0 <= i,
    ensures
        match download_jobs::job_from(jobs, key, i) {
            Some(k) => i <= k < jobs.len() && jobs[k].key == key,
            None => forall|j: int| i <= j < jobs.len() ==> (#[trigger] jobs[j]).key != key,
        },
    decreases jobs.len() - i,
{
    if i < jobs.len() && jobs[i].key != key {
        lemma_job_found(jobs, key, i + 1);
    }
}

proof fn lemma_job_stays(
    a: Seq<download_jobs::JobView>,
    b: Seq<download_jobs::JobView>,
    key: Seq<char>,
    i: int,
)
    requires
        0 <= i,
        a.len() == b.len(),
        forall|k: int| 0 <= k < a.len() ==> (#[trigger] a[k]).key == b[k].key,
    ensures
        download_jobs::job_from(a, key, i) == download_jobs::job_from(b, key, i),
    decreases a.len() - i,
{
    if i < a.len() {
        assert(a[i].key == b[i].key);
        lemma_job_stays(a, b, key, i + 1);
    }
}

/// Cancelling a working download lets its task end where somebody listens, and else ends it at once; what
/// it has received stays counted.
pub proof fn law_cancelled_download(
    s: download_jobs::RegistryView,
    key: Seq<char>,
    listening: bool,
    job: download_jobs::JobView,
)
    requires
        download_jobs::job_of(s, key) == Some(job),
        job.state == JobState::Running || job.state == JobState::Cancelling,
    ensures
        ({
            let after = download_jobs::cancelled(s, key, None, listening);
            &&& download_jobs::job_of(after, key) matches Some(ended) && ended.downloaded_bytes
                == job.downloaded_bytes && ended.completed_bytes == job.completed_bytes
                && ended.generation == job.generation && ended.files == job.files && ended.state == (
            if listening {
                JobState::Cancelling
            } else {
                JobState::Cancelled
            })
            &&& download_jobs::cancelled(s, key, Some(job.generation), listening) == after
        }),
{
    lemma_job_found(s.jobs, key, 0);
    let after = download_jobs::cancelled(s, key, None, listening);
    lemma_job_stays(s.jobs, after.jobs, key, 0);
}

/// A report of the current task of a download is taken.
pub proof fn law_current_report_is_taken(
    s: download_jobs::RegistryView,
    key: Seq<char>,
    change: download_jobs::ChangeView,
    job: download_jobs::JobView,
)
    requires
        download_jobs::job_of(s, key) == Some(job),
    ensures
        download_jobs::job_of(
            download_jobs::updated(s, key, job.generation, change),
            key,
        ) == Some(download_jobs::changed(job, change)),
{
    lemma_job_found(s.jobs, key, 0);
    let after = download_jobs::updated(s, key, job.generation, change);
    lemma_job_stays(s.jobs, after.jobs, key, 0);
}

/// A download works while it runs or is being cancelled.
pub proof fn law_working_downloads(s: JobState)
    ensures
        download_jobs::active(s) <==> s == JobState::Running || s == JobState::Cancelling,
        s == JobState::Running ==> download_jobs::state_name(s) == "running"@,
        s == JobState::Cancelling ==> download_jobs::state_name(s) == "cancelling"@,
        s == JobState::Complete ==> download_jobs::state_name(s) == "complete"@,
        s == JobState::Error ==> download_jobs::state_name(s) == "error"@,
        s == JobState::Cancelled ==> download_jobs::state_name(s) == "cancelled"@,
{
}

proof fn lemma_sums_before(
    jobs: Seq<download_jobs::JobView>,
    job: download_jobs::JobView,
    repo: Seq<char>,
    variant: Option<Seq<char>>,
    n: int,
)
    requires
        0 <= n <= jobs.len(),
    ensures
        download_jobs::sums(jobs.push(job), repo, variant, n) == download_jobs::sums(
            jobs,
            repo,
            variant,
            n,
        ),
    decreases n,
{
    if n > 0 {
        lemma_sums_before(jobs, job, repo, variant, n - 1);
    }
}

/// The progress of a repository, or of one of its variants, adds up what its working downloads have
/// received, stored and expect.
pub proof fn law_progress_adds_up(
    jobs: Seq<download_jobs::JobView>,
    job: download_jobs::JobView,
    repo: Seq<char>,
    variant: Option<Seq<char>>,
)
    ensures
        ({
            let none = download_jobs::sums(Seq::empty(), repo, variant, 0);
            let before = download_jobs::sums(jobs, repo, variant, jobs.len() as int);
            let after = download_jobs::sums(jobs.push(job), repo, variant, (jobs.len() + 1) as int);
            let counts = (job.state == JobState::Running || job.state == JobState::Cancelling)
                && text::lower(job.repo_id) == text::lower(repo) && (variant is None || text::lower(
                job.variant,
            ) == text::lower(variant->0));
            &&& none.count == 0 && none.downloaded == 0 && none.completed == 0 && none.total == 0
            &&& !counts ==> after == before
            &&& counts ==> after.count == before.count + 1 && after.downloaded == before.downloaded
                + job.downloaded_bytes && after.completed == before.completed + job.completed_bytes
                && after.total == before.total + job.total_bytes
        }),
{
    lemma_sums_before(jobs, job, repo, variant, jobs.len() as int);
}

/// A target is there once something of it was received or it is whole on disk.
pub proof fn law_target_is_there_once_something_is(
    downloaded: int,
    completed: int,
    expected: int,
    complete: bool,
    path: Option<Seq<char>>,
)
    ensures
        ({
            let p = download_jobs::progress_of(downloaded, completed, expected, complete, path);
            &&& p.downloaded_bytes == downloaded
            &&& p.completed_bytes == completed
            &&& p.expected_bytes == expected
            &&& p.complete_on_disk == complete
            &&& p.cache_path == path
            &&& complete ==> p.target_present
            &&& downloaded > 0 ==> p.target_present
            &&& !complete && downloaded == 0 ==> !p.target_present
        }),
{
}

/// A model on disk stands for a download where it is complete, of the repository and of the variant, if
/// one is named.
pub proof fn law_model_on_disk_stands_for_the_download(
    m: model_scan::ModelView,
    repo: Seq<char>,
    variant: Option<Seq<char>>,
)
    ensures
        download_jobs::model_matches(m, repo, variant) ==> m.complete && text::lower(
            model_scan::spec_repo_id(m),
        ) == text::lower(text::trimmed(repo)),
        m.complete && text::lower(model_scan::spec_repo_id(m)) == text::lower(text::trimmed(repo))
            && variant is None ==> download_jobs::model_matches(m, repo, variant),
        download_jobs::model_matches(m, repo, variant) && variant is Some && text::trimmed(
            variant->0,
        ).len() > 0 ==> text::lower(names::spec_quant(model_scan::spec_path_in_repo(m)))
            == text::lower(text::trimmed(variant->0)),
{
}

/// A variant of blanks is no variant; where all weights are of one quantization, none has to be named.
pub proof fn law_blank_variant_is_none(files: Seq<downloads::RemoteView>, blank: Seq<char>)
    requires
        text::trimmed(blank).len() == 0,
    ensures
        downloads::spec_variant_files(files, Some(blank)) == downloads::spec_variant_files(files, None),
{
}

/// A name of letters, digits, dashes, underscores and points that begins with no point is one of a
/// repository's parts.
pub proof fn law_plain_characters_make_names(s: Seq<char>)
    requires
        s.len() > 0,
        s[0] != '.',
        forall|i: int|
            0 <= i < s.len() ==> {
                let c = #[trigger] s[i];
                ('a' <= c && c <= 'z') || ('A' <= c && c <= 'Z') || ('0' <= c && c <= '9') || c == '-'
                    || c == '_' || c == '.'
            },
    ensures
        downloads::repo_part(s),
{
}

/// The file of a repository with one file of weights needs no variant.
pub proof fn law_single_file_needs_no_variant(f: downloads::RemoteView)
    ensures
        downloads::chosen_variant(seq![f], None) == Some(names::spec_quant(f.path)),
{
}

} // verus!
