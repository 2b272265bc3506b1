//! Requests about downloads, and what they are answered.

use vstd::prelude::*;

use crate::answers;
use crate::answers::{maybe_number, maybe_text, number, push_row, text_list};
use crate::chat_store;
use crate::download_jobs;
use crate::download_jobs::{
    active_jobs, DownloadRegistry, Job, JobState, Progress, StartAnswer, StartRequest,
};
use crate::downloads;
use crate::downloads::{files_complete, job_key, requested_files, variant_files, RemoteFile};
use crate::error;
use crate::error::{ApiError, ApiResult};
use crate::gguf_variants;
use crate::gguf_variants::{default_variant, Variant};
use crate::json;
use crate::json::{from_str, Json, JsonObject, Number};
use crate::settings_api;
use crate::text;

verus! {

/// How files are downloaded.
pub const TRANSPORT_HTTP: &'static str = "http";

/// The bits of the double 1.0: the share of a download that is complete.
pub const WHOLE_SHARE: u64 = 0x3ff0_0000_0000_0000;

// ---------- starting ----------

/// What a request to download asks for.
#[derive(Debug)]
pub struct DownloadPlan {
    pub key: String,
    pub repo_id: String,
    pub variant: String,
    pub files: Vec<RemoteFile>,
}

#[verifier::ext_equal]
pub struct PlanView {
    pub key: Seq<char>,
    pub repo_id: Seq<char>,
    pub variant: Seq<char>,
    pub files: Seq<downloads::RemoteView>,
}

impl View for DownloadPlan {
    type V = PlanView;

    open spec fn view(&self) -> PlanView {
        PlanView {
            key: self.key@,
            repo_id: self.repo_id@,
            variant: self.variant@,
            files: downloads::remotes_view(self.files@),
        }
    }
}

/// The files of a variant that a request names, or all of them.
pub open spec fn named_files(
    files: Seq<downloads::RemoteView>,
    requested: Option<Seq<Seq<char>>>,
) -> Result<Seq<downloads::RemoteView>, error::ApiErrorView> {
    match requested {
        Some(list) => if list.len() == 0 {
            Ok(files)
        } else {
            let left = downloads::asked_for(files, list, files.len() as int);
            if left.len() == 0 {
                Err(
                    settings_api::unprocessable(
                        "Запрошенные файлы не относятся к выбранному варианту"@,
                    ),
                )
            } else {
                Ok(left)
            }
        },
        None => Ok(files),
    }
}

pub open spec fn spec_plan(
    repo_id: Seq<char>,
    remote: Seq<downloads::RemoteView>,
    variant: Option<Seq<char>>,
    requested: Option<Seq<Seq<char>>>,
) -> Result<PlanView, error::ApiErrorView> {
    match downloads::spec_variant_files(remote, variant) {
        Err(why) => Err(settings_api::unprocessable(why)),
        Ok((v, selected)) => match named_files(selected, requested) {
            Err(e) => Err(e),
            Ok(files) => Ok(
                PlanView { key: downloads::spec_job_key(repo_id, Some(v)), repo_id, variant: v, files },
            ),
        },
    }
}

pub open spec fn list_of(requested: Option<Vec<String>>) -> Option<Seq<Seq<char>>> {
    match requested {
        Some(list) => Some(text::views(list@)),
        None => None,
    }
}

/// What a request to download asks for. `remote` are the files of the repository.
pub fn plan_download(request: &StartRequest, repo_id: String, remote: &Vec<RemoteFile>) -> (r:
    ApiResult<DownloadPlan>)
    ensures
        match spec_plan(
            repo_id@,
            downloads::remotes_view(remote@),
            chat_store::opt_text(request.gguf_variant),
            list_of(request.files),
        ) {
            Ok(plan) => r is Ok && r->Ok_0@ == plan,
            Err(e) => r is Err && r->Err_0@ == e,
        },
{
    let (variant, selected) = match variant_files(remote, &request.gguf_variant) {
        Ok(pair) => pair,
        Err(why) => return Err(ApiError::unprocessable(why)),
    };
    let files = match requested_files(selected, &request.files) {
        Ok(files) => files,
        Err(e) => return Err(e),
    };
    let key = job_key(repo_id.as_str(), Some(variant.as_str()));
    Ok(DownloadPlan { key, repo_id, variant, files })
}

/// Whether all files are there already.
pub open spec fn all_there(files: Seq<downloads::RemoteView>, present: Seq<Option<u64>>) -> bool {
    files.len() > 0 && forall|i: int|
        0 <= i < files.len() ==> downloads::spec_safe_path((#[trigger] files[i]).path) is Some
            && downloads::spec_complete(present[i], files[i].size)
}

/// Begins what was planned: nothing is to be done where all files are there, and a download that
/// works already is joined. `present` are the sizes of the files on disk.
pub fn begin_download(registry: &mut DownloadRegistry, plan: DownloadPlan, present: &Vec<Option<u64>>) -> (r:
    StartAnswer)
    requires
        old(registry).last_generation < u64::MAX,
        download_jobs::known_bytes(plan@.files, plan@.files.len() as int) <= u64::MAX,
        present@.len() == plan.files@.len(),
    ensures
        r.job_key@ == plan@.key,
        if all_there(plan@.files, present@) {
            &&& final(registry)@ == old(registry)@
            &&& r.state == JobState::Complete && r.generation is None && !r.attached
        } else {
            &&& (final(registry)@, r.attached) == download_jobs::started(
                old(registry)@,
                plan@.key,
                plan@.repo_id,
                plan@.variant,
                plan@.files,
            )
            &&& download_jobs::job_of(final(registry)@, plan@.key) is Some
            &&& r.state == download_jobs::job_of(final(registry)@, plan@.key)->Some_0.state
            &&& r.generation == Some(
                download_jobs::job_of(final(registry)@, plan@.key)->Some_0.generation,
            )
        },
{
    let there = files_complete(&plan.files, present);
    proof {
        let view = downloads::remotes_view(plan.files@);
        assert forall|i: int| 0 <= i < view.len() implies #[trigger] view[i]
            == plan.files@[i]@ by {}
        if there {
            assert forall|i: int| 0 <= i < view.len() implies downloads::spec_safe_path(
                (#[trigger] view[i]).path,
            ) is Some && downloads::spec_complete(present@[i], view[i].size) by {
                assert(plan.files@[i].path@ == view[i].path);
            }
        } else if all_there(view, present@) {
            assert forall|i: int| 0 <= i < plan.files@.len() implies downloads::spec_safe_path(
                (#[trigger] plan.files@[i]).path@,
            ) is Some && downloads::spec_complete(present@[i], plan.files@[i].size) by {
                assert(view[i].path == plan.files@[i].path@);
            }
        }
    }
    if there {
        return StartAnswer {
            job_key: plan.key,
            state: JobState::Complete,
            generation: None,
            attached: false,
        };
    }
    registry.start(plan.key, plan.repo_id, plan.variant, plan.files)
}

pub open spec fn start_json(
    key: Seq<char>,
    state: JobState,
    generation: Option<u64>,
    attached: bool,
) -> json::JsonView {
    let o = json::with(json::no_fields(), "state"@, answers::word(download_jobs::state_name(state)));
    let o = json::with(o, "accepted"@, answers::flag(true));
    let o = json::with(o, "generation"@, answers::maybe_count(generation));
    let o = json::with(o, "attached"@, answers::flag(attached));
    let o = json::with(o, "transport"@, answers::word(TRANSPORT_HTTP@));
    let o = json::with(o, "cancel_transport"@, answers::word(TRANSPORT_HTTP@));
    json::JsonView::Object(json::with(o, "job_key"@, answers::word(key)))
}

/// What a request to download is answered.
pub fn start_response(answer: &StartAnswer) -> (r: Json)
    ensures
        r@ == start_json(answer.job_key@, answer.state, answer.generation, answer.attached),
{
    let mut o = JsonObject::new();
    o.insert("state", from_str(answer.state.as_str()));
    o.insert("accepted", Json::Bool(true));
    o.insert("generation", maybe_number(answer.generation));
    o.insert("attached", Json::Bool(answer.attached));
    o.insert("transport", from_str(TRANSPORT_HTTP));
    o.insert("cancel_transport", from_str(TRANSPORT_HTTP));
    o.insert("job_key", from_str(answer.job_key.as_str()));
    Json::Object(o)
}

/// What a request to cancel is answered.
pub fn cancel_response(key: &str, state: Option<JobState>) -> (r: Json)
    ensures
        r@ == json::JsonView::Object(
            json::with(
                json::with(json::no_fields(), "job_key"@, answers::word(key@)),
                "state"@,
                answers::word(
                    match state {
                        Some(s) => download_jobs::state_name(s),
                        None => "idle"@,
                    },
                ),
            ),
        ),
{
    let shown = match state {
        Some(s) => s.as_str(),
        None => "idle",
    };
    let mut o = JsonObject::new();
    o.insert("job_key", from_str(key));
    o.insert("state", from_str(shown));
    Json::Object(o)
}

// ---------- how far it is ----------

/// A share: the bits of a double.
pub open spec fn share(bits: u64) -> json::JsonView {
    json::JsonView::Number(Number::Float(bits))
}

pub open spec fn job_json(job: download_jobs::JobView, received: u64) -> json::JsonView {
    let o = json::with(
        json::no_fields(),
        "state"@,
        answers::word(download_jobs::state_name(job.state)),
    );
    let o = json::with(o, "error"@, answers::maybe_word(job.error));
    let o = json::with(o, "generation"@, answers::count(job.generation as int));
    let o = json::with(o, "downloaded_bytes"@, answers::count(job.downloaded_bytes as int));
    let o = json::with(o, "total_bytes"@, answers::count(job.total_bytes as int));
    json::JsonView::Object(
        json::with(
            o,
            "progress"@,
            share(
                if job.state == JobState::Complete {
                    WHOLE_SHARE
                } else {
                    received
                },
            ),
        ),
    )
}

/// The state of a job. `received` is the share that was received, as the bits of a double.
pub fn job_status(job: &Job, received: u64) -> (r: Json)
    ensures
        r@ == job_json(job@, received),
{
    let mut o = JsonObject::new();
    o.insert("state", from_str(job.state.as_str()));
    o.insert(
        "error",
        maybe_text(
            match &job.error {
                Some(why) => Some(why.as_str()),
                None => None,
            },
        ),
    );
    o.insert("generation", number(job.generation));
    o.insert("downloaded_bytes", number(job.downloaded_bytes));
    o.insert("total_bytes", number(job.total_bytes));
    let bits = match job.state {
        JobState::Complete => WHOLE_SHARE,
        _ => received,
    };
    o.insert("progress", Json::Number(Number::Float(bits)));
    Json::Object(o)
}

/// The state where there is no job: the variant is on disk, or it is not.
pub fn idle_status(present: bool) -> (r: Json)
    ensures
        r@ == json::JsonView::Object(
            json::with(
                json::with(
                    json::with(
                        json::no_fields(),
                        "state"@,
                        answers::word(
                            if present {
                                "complete"@
                            } else {
                                "idle"@
                            },
                        ),
                    ),
                    "error"@,
                    json::JsonView::Null,
                ),
                "generation"@,
                json::JsonView::Null,
            ),
        ),
{
    let mut o = JsonObject::new();
    o.insert("state", from_str(download_jobs::idle_state(present)));
    o.insert("error", Json::Null);
    o.insert("generation", Json::Null);
    Json::Object(o)
}

pub open spec fn spec_progress_json(p: download_jobs::ProgressView, received: u64) ->
    json::JsonView {
    let o = json::with(
        json::no_fields(),
        "downloaded_bytes"@,
        answers::count(p.downloaded_bytes),
    );
    let o = json::with(o, "completed_bytes"@, answers::count(p.completed_bytes));
    let o = json::with(o, "complete_on_disk"@, answers::flag(p.complete_on_disk));
    let o = json::with(o, "expected_bytes"@, answers::count(p.expected_bytes));
    let o = json::with(
        o,
        "progress"@,
        share(
            if p.complete_on_disk {
                WHOLE_SHARE
            } else {
                received
            },
        ),
    );
    let o = json::with(o, "target_present"@, answers::flag(p.target_present));
    let o = json::with(o, "cache_path"@, answers::maybe_word(p.cache_path));
    json::JsonView::Object(json::with(o, "cache_measured"@, answers::flag(true)))
}

/// The progress of a download. `received` is the share that was received, as the bits of a double.
pub fn progress_json(p: &Progress, received: u64) -> (r: Json)
    ensures
        r@ == spec_progress_json(p@, received),
{
    let mut o = JsonObject::new();
    o.insert("downloaded_bytes", number(p.downloaded_bytes));
    o.insert("completed_bytes", number(p.completed_bytes));
    o.insert("complete_on_disk", Json::Bool(p.complete_on_disk));
    o.insert("expected_bytes", number(p.expected_bytes));
    let bits = if p.complete_on_disk {
        WHOLE_SHARE
    } else {
        received
    };
    o.insert("progress", Json::Number(Number::Float(bits)));
    o.insert("target_present", Json::Bool(p.target_present));
    o.insert(
        "cache_path",
        maybe_text(
            match &p.cache_path {
                Some(path) => Some(path.as_str()),
                None => None,
            },
        ),
    );
    o.insert("cache_measured", Json::Bool(true));
    Json::Object(o)
}

pub open spec fn paths_of(files: Seq<downloads::RemoteView>) -> Seq<Seq<char>> {
    Seq::new(files.len(), |i: int| files[i].path)
}

pub open spec fn active_row(job: download_jobs::JobView) -> json::JsonView {
    let o = json::with(json::no_fields(), "repo_id"@, answers::word(job.repo_id));
    let o = json::with(o, "variant"@, answers::word(job.variant));
    let o = json::with(o, "transport"@, answers::word(TRANSPORT_HTTP@));
    let o = json::with(o, "cancel_transport"@, answers::word(TRANSPORT_HTTP@));
    let o = json::with(o, "state"@, answers::word(download_jobs::state_name(job.state)));
    let o = json::with(o, "generation"@, answers::count(job.generation as int));
    json::JsonView::Object(json::with(o, "files"@, answers::words(paths_of(job.files))))
}

fn paths_of_files(files: &Vec<RemoteFile>) -> (r: Vec<String>)
    ensures
        text::views(r@) == paths_of(downloads::remotes_view(files@)),
{
    let ghost view = downloads::remotes_view(files@);
    let mut out: Vec<String> = Vec::new();
    let mut i: usize = 0;
    while i < files.len()
        invariant
            i <= files@.len(),
            view == downloads::remotes_view(files@),
            out@.len() == i,
            forall|k: int| 0 <= k < i ==> (#[trigger] out@[k])@ == view[k].path,
        decreases files@.len() - i,
    {
        assert(view[i as int] == files@[i as int]@);
        out.push(files[i].path.clone());
        i += 1;
    }
    assert(text::views(out@) =~= paths_of(view));
    out
}

fn row_of_job(job: &Job) -> (r: Json)
    ensures
        r@ == active_row(job@),
{
    let paths = paths_of_files(&job.files);
    let mut o = JsonObject::new();
    o.insert("repo_id", from_str(job.repo_id.as_str()));
    o.insert("variant", from_str(job.variant.as_str()));
    o.insert("transport", from_str(TRANSPORT_HTTP));
    o.insert("cancel_transport", from_str(TRANSPORT_HTTP));
    o.insert("state", from_str(job.state.as_str()));
    o.insert("generation", number(job.generation));
    o.insert("files", text_list(&paths));
    Json::Object(o)
}

/// The downloads that work, of one repository or, without a name, of all.
pub fn active_downloads(registry: &DownloadRegistry, repo: &str) -> (r: Json)
    ensures
        ({
            let jobs = registry@.jobs;
            let at = download_jobs::working(jobs, repo@, jobs.len() as int);
            r@ == json::JsonView::Object(
                json::with(
                    json::no_fields(),
                    "downloads"@,
                    json::JsonView::Array(
                        Seq::new(at.len(), |k: int| active_row(jobs[at[k]])),
                    ),
                ),
            )
        }),
{
    let places = active_jobs(registry, repo);
    let ghost jobs = registry@.jobs;
    let ghost at = download_jobs::working(jobs, repo@, jobs.len() as int);
    proof {
        lemma_working_bounds(jobs, repo@, jobs.len() as int);
        assert forall|k: int| 0 <= k < places@.len() implies places@[k] as int == #[trigger] at[k] by {
            assert(places@.map_values(|p: usize| p as int)[k] == at[k]);
        }
    }
    let mut rows: Vec<Json> = Vec::new();
    let mut i: usize = 0;
    while i < places.len()
        invariant
            i <= places@.len(),
            jobs == registry@.jobs,
            at.len() == places@.len(),
            forall|k: int| 0 <= k < places@.len() ==> places@[k] as int == #[trigger] at[k],
            forall|k: int| 0 <= k < at.len() ==> 0 <= #[trigger] at[k] < jobs.len(),
            json::items_view(rows@) == Seq::new(i as nat, |k: int| active_row(jobs[at[k]])),
        decreases places@.len() - i,
    {
        assert(places@[i as int] as int == at[i as int]);
        let job = &registry.jobs[places[i]];
        assert(jobs[at[i as int]] == job@);
        push_row(&mut rows, row_of_job(job));
        assert(Seq::new((i + 1) as nat, |k: int| active_row(jobs[at[k]])) =~= Seq::new(
            i as nat,
            |k: int| active_row(jobs[at[k]]),
        ).push(active_row(jobs[at[i as int]])));
        i += 1;
    }
    let mut o = JsonObject::new();
    o.insert("downloads", Json::Array(rows));
    Json::Object(o)
}

proof fn lemma_working_bounds(jobs: Seq<download_jobs::JobView>, repo: Seq<char>, n: int)
    requires
        n <= jobs.len(),
    ensures
        forall|k: int|
            0 <= k < download_jobs::working(jobs, repo, n).len() ==> 0
                <= #[trigger] download_jobs::working(jobs, repo, n)[k] < n,
    decreases n,
{
    if n > 0 {
        lemma_working_bounds(jobs, repo, n - 1);
        let before = download_jobs::working(jobs, repo, n - 1);
        let all = download_jobs::working(jobs, repo, n);
        assert forall|k: int| 0 <= k < all.len() implies 0 <= #[trigger] all[k] < n by {
            if k < before.len() {
                assert(all[k] == before[k]);
            }
        }
    }
}

/// Whether a download can be continued. `partial` are the bytes of its incomplete files.
pub fn transport_status(partial: u64) -> (r: Json)
    ensures
        r@ == json::JsonView::Object(
            json::with(
                json::with(
                    json::with(json::no_fields(), "has_partial"@, answers::flag(partial > 0)),
                    "last_transport"@,
                    answers::maybe_word(
                        if partial > 0 {
                            Some(TRANSPORT_HTTP@)
                        } else {
                            None
                        },
                    ),
                ),
                "resumable"@,
                answers::flag(true),
            ),
        ),
{
    let last = if partial > 0 {
        Some(TRANSPORT_HTTP)
    } else {
        None
    };
    let mut o = JsonObject::new();
    o.insert("has_partial", Json::Bool(partial > 0));
    o.insert("last_transport", maybe_text(last));
    o.insert("resumable", Json::Bool(true));
    Json::Object(o)
}

// ---------- variants ----------

pub open spec fn variant_json(v: gguf_variants::VariantView) -> json::JsonView {
    let null = json::JsonView::Null;
    let o = json::with(json::no_fields(), "filename"@, answers::word(v.filename));
    let o = json::with(o, "quant"@, answers::word(v.quant));
    let o = json::with(o, "display_label"@, null);
    let o = json::with(o, "size_bytes"@, answers::count(v.size_bytes));
    let o = json::with(o, "download_size_bytes"@, answers::count(v.size_bytes));
    let o = json::with(o, "shard_count"@, answers::count(v.shard_count));
    let o = json::with(
        o,
        "download_remaining_bytes"@,
        match v.remaining_bytes {
            Some(n) => answers::count(n),
            None => null,
        },
    );
    let o = json::with(o, "downloaded"@, answers::flag(v.downloaded));
    let o = json::with(o, "update_available"@, answers::flag(false));
    let o = json::with(o, "partial"@, answers::flag(v.partial));
    let o = json::with(
        o,
        "partial_transport"@,
        answers::maybe_word(
            if v.partial {
                Some(TRANSPORT_HTTP@)
            } else {
                None
            },
        ),
    );
    let o = json::with(o, "partial_resumable"@, answers::flag(v.partial));
    json::JsonView::Object(json::with(o, "dependency_key"@, null))
}

impl Variant {
    /// The variant as the interface gets it.
    pub fn to_json(&self) -> (r: Json)
        ensures
            r@ == variant_json(self@),
    {
        let transport = if self.partial {
            Some(TRANSPORT_HTTP)
        } else {
            None
        };
        let mut o = JsonObject::new();
        o.insert("filename", from_str(self.filename.as_str()));
        o.insert("quant", from_str(self.quant.as_str()));
        o.insert("display_label", Json::Null);
        o.insert("size_bytes", number(self.size_bytes));
        o.insert("download_size_bytes", number(self.size_bytes));
        o.insert("shard_count", number(self.shard_count as u64));
        o.insert("download_remaining_bytes", maybe_number(self.remaining_bytes));
        o.insert("downloaded", Json::Bool(self.downloaded));
        o.insert("update_available", Json::Bool(false));
        o.insert("partial", Json::Bool(self.partial));
        o.insert("partial_transport", maybe_text(transport));
        o.insert("partial_resumable", Json::Bool(self.partial));
        o.insert("dependency_key", Json::Null);
        Json::Object(o)
    }
}

pub open spec fn respond_json(
    repo_id: Seq<char>,
    variants: Seq<gguf_variants::VariantView>,
    has_vision: bool,
    context_length: Option<u64>,
) -> json::JsonView {
    let o = json::with(json::no_fields(), "repo_id"@, answers::word(repo_id));
    let o = json::with(
        o,
        "variants"@,
        json::JsonView::Array(Seq::new(variants.len(), |i: int| variant_json(variants[i]))),
    );
    let o = json::with(o, "has_vision"@, answers::flag(has_vision));
    let o = json::with(
        o,
        "default_variant"@,
        answers::maybe_word(
            match gguf_variants::default_place(variants) {
                Some(k) => Some(variants[k].quant),
                None => None,
            },
        ),
    );
    json::JsonView::Object(
        json::with(o, "context_length"@, answers::maybe_count(context_length)),
    )
}

/// The variants of a model. `context_length` is what the first copy on disk says of it.
pub fn respond(
    repo_id: &str,
    variants: &Vec<Variant>,
    has_vision: bool,
    context_length: Option<u64>,
) -> (r: Json)
    ensures
        r@ == respond_json(
            repo_id@,
            gguf_variants::variants_view(variants@),
            has_vision,
            context_length,
        ),
{
    let ghost view = gguf_variants::variants_view(variants@);
    let mut rows: Vec<Json> = Vec::new();
    let mut i: usize = 0;
    while i < variants.len()
        invariant
            i <= variants@.len(),
            view == gguf_variants::variants_view(variants@),
            json::items_view(rows@) == Seq::new(i as nat, |k: int| variant_json(view[k])),
        decreases variants@.len() - i,
    {
        assert(view[i as int] == variants@[i as int]@);
        push_row(&mut rows, variants[i].to_json());
        assert(Seq::new((i + 1) as nat, |k: int| variant_json(view[k])) =~= Seq::new(
            i as nat,
            |k: int| variant_json(view[k]),
        ).push(variant_json(view[i as int])));
        i += 1;
    }
    let default = default_variant(variants);
    proof {
        if let Some(k) = gguf_variants::default_place(view) {
            assert(view[k] == variants@[k]@);
        }
    }
    let mut o = JsonObject::new();
    o.insert("repo_id", from_str(repo_id));
    o.insert("variants", Json::Array(rows));
    o.insert("has_vision", Json::Bool(has_vision));
    o.insert(
        "default_variant",
        maybe_text(
            match &default {
                Some(q) => Some(q.as_str()),
                None => None,
            },
        ),
    );
    o.insert("context_length", maybe_number(context_length));
    Json::Object(o)
}

} // verus!
