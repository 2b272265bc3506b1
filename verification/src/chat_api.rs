//! Requests and answers of the chat.

use vstd::prelude::*;

use crate::chat_ops;
use crate::chat_store;
use crate::chat_store::ThreadFilter;
use crate::error;
use crate::error::{ApiError, ApiResult};
use crate::json;
use crate::json::{Json, JsonObject};
use crate::settings_api;
use crate::settings_api::body_text;
use crate::settings_store;
use crate::settings_store::Expectations;
use crate::text;

verus! {

/// What is answered while there is no engine that generates.
pub const ENGINE_NOT_READY: &'static str =
    "Движок инференса SlothForge ещё не подключён: генерация ответов появится на этапе 2 дорожной карты";

/// A message of a request for an answer of a model.
#[derive(Debug)]
pub struct ChatMessage {
    pub role: String,
    pub content: Json,
}

/// The texts of the first `n` parts, one behind the other.
pub open spec fn joined_parts(parts: Seq<json::JsonView>, n: int) -> Seq<char>
    decreases n,
{
    if n <= 0 {
        Seq::empty()
    } else {
        let before = joined_parts(parts, n - 1);
        match json::text_of(json::member(parts[n - 1], "text"@)) {
            Some(s) => before + s,
            None => before,
        }
    }
}

/// The text of a message: a text, or the texts of the parts of a list; else what `rendered` says.
pub open spec fn spec_text_content(content: json::JsonView, rendered: Seq<char>) -> Seq<char> {
    match content {
        json::JsonView::Text(s) => s,
        json::JsonView::Array(parts) => joined_parts(parts, parts.len() as int),
        _ => rendered,
    }
}

impl ChatMessage {
    /// The text of the message. `rendered` is the content written as JSON.
    pub fn text_content(&self, rendered: &str) -> (r: String)
        ensures
            r@ == spec_text_content(self.content@, rendered@),
    {
        match &self.content {
            Json::Text(s) => s.clone(),
            Json::Array(parts) => {
                proof {
                    json::lemma_items_view(parts@);
                }
                let ghost view = json::items_view(parts@);
                let mut out = String::new();
                let mut i: usize = 0;
                assert(out@ =~= Seq::<char>::empty());
                while i < parts.len()
                    invariant
                        i <= parts@.len(),
                        view.len() == parts@.len(),
                        forall|k: int|
                            0 <= k < parts@.len() ==> #[trigger] view[k] == json::value_view(
                                parts@[k],
                            ),
                        out@ == joined_parts(view, i as int),
                    decreases parts@.len() - i,
                {
                    assert(view[i as int] == parts@[i as int]@);
                    if let Some(s) = body_text(&parts[i], "text") {
                        out = text::join2(out.as_str(), s);
                    }
                    i += 1;
                }
                out
            },
            _ => rendered.to_owned(),
        }
    }
}

/// An answer of a model.
#[derive(Debug)]
pub struct ChatCompletionResponse {
    pub id: String,
    pub object: String,
    pub created: u64,
    pub model: String,
    pub choices: Vec<ChatChoice>,
    pub usage: CompletionUsage,
}

#[derive(Debug)]
pub struct ChatChoiceMessage {
    pub role: String,
    pub content: String,
}

#[derive(Debug)]
pub struct ChatChoice {
    pub index: usize,
    pub message: ChatChoiceMessage,
    pub finish_reason: String,
}

#[derive(Debug)]
pub struct CompletionUsage {
    pub prompt_tokens: usize,
    pub completion_tokens: usize,
    pub total_tokens: usize,
}

/// The answer to every request for a generation.
pub fn engine_not_ready() -> (r: ApiError)
    ensures
        r@ == (error::ApiErrorView { status: 503, detail: ENGINE_NOT_READY@ }),
{
    ApiError::service_unavailable(ENGINE_NOT_READY.to_owned())
}

/// Which threads a request asks for.
#[derive(Debug)]
pub struct ThreadListQuery {
    pub model_type: Option<String>,
    pub pair_id: Option<String>,
    pub project_id: Option<String>,
    pub include_archived: Option<bool>,
}

impl ThreadListQuery {
    /// Archived threads are shown only on request.
    pub fn into_filter(self) -> (r: ThreadFilter)
        ensures
            r@ == (chat_store::FilterView {
                model_type: chat_store::opt_text(self.model_type),
                pair_id: chat_store::opt_text(self.pair_id),
                project_id: chat_store::opt_text(self.project_id),
                include_archived: self.include_archived == Some(true),
            }),
    {
        let include_archived = match self.include_archived {
            Some(b) => b,
            None => false,
        };
        ThreadFilter {
            model_type: self.model_type,
            pair_id: self.pair_id,
            project_id: self.project_id,
            include_archived,
        }
    }
}

/// Which projects a request asks for.
#[derive(Debug)]
pub struct ProjectListQuery {
    pub include_archived: Option<bool>,
}

/// The texts among the first `n` items of a list.
pub open spec fn texts_of(items: Seq<json::JsonView>, n: int) -> Seq<Seq<char>>
    decreases n,
{
    if n <= 0 {
        Seq::empty()
    } else {
        let before = texts_of(items, n - 1);
        match json::text_of(Some(items[n - 1])) {
            Some(s) => before.push(s),
            None => before,
        }
    }
}

pub open spec fn spec_string_list(v: Option<json::JsonView>) -> Seq<Seq<char>> {
    match v {
        Some(json::JsonView::Array(items)) => texts_of(items, items.len() as int),
        _ => Seq::empty(),
    }
}

/// The texts of a list; anything else has none.
pub fn string_list(value: Option<&Json>) -> (r: Vec<String>)
    ensures
        text::views(r@) == spec_string_list(settings_api::opt_view(value)),
{
    let mut out: Vec<String> = Vec::new();
    assert(text::views(out@) =~= Seq::empty());
    if let Some(Json::Array(items)) = value {
        proof {
            json::lemma_items_view(items@);
        }
        let ghost view = json::items_view(items@);
        let mut i: usize = 0;
        while i < items.len()
            invariant
                i <= items@.len(),
                view.len() == items@.len(),
                forall|k: int|
                    0 <= k < items@.len() ==> #[trigger] view[k] == json::value_view(items@[k]),
                text::views(out@) == texts_of(view, i as int),
            decreases items@.len() - i,
        {
            assert(view[i as int] == items@[i as int]@);
            if let Some(s) = items[i].as_str() {
                let ghost before = text::views(out@);
                out.push(s.to_owned());
                assert(text::views(out@) =~= before.push(s@));
            }
            i += 1;
        }
    }
    out
}

/// The object in a field of a request; an empty one if there is none.
pub fn object_field(body: &Json, key: &str) -> (r: JsonObject)
    ensures
        r@ == chat_ops::object_or_empty(json::member(body@, key@)),
{
    match body.get(key) {
        Some(Json::Object(o)) => o.duplicate(),
        _ => JsonObject::new(),
    }
}

/// The threads that a request names for deletion, under either name of the field.
pub fn ids_to_delete(body: &Json) -> (r: Vec<String>)
    ensures
        ({
            let ids = spec_string_list(json::member(body@, "ids"@));
            text::views(r@) == (if ids.len() == 0 {
                spec_string_list(json::member(body@, "threadIds"@))
            } else {
                ids
            })
        }),
{
    let ids = string_list(body.get("ids"));
    if ids.len() == 0 {
        return string_list(body.get("threadIds"));
    }
    ids
}

/// A request for a fork.
#[derive(Debug)]
pub struct ForkRequest {
    pub message_id: String,
    pub new_thread_id: String,
    pub created_at: i64,
}

pub open spec fn bad_request(detail: Seq<char>) -> error::ApiErrorView {
    error::ApiErrorView { status: 400, detail }
}

/// What a request for a fork asks for.
pub fn fork_request(body: &Json, now: i64) -> (r: ApiResult<ForkRequest>)
    ensures
        match json::text_of(json::member(body@, "messageId"@)) {
            None => r is Err && r->Err_0@ == bad_request("Не указан messageId"@),
            Some(message_id) => match json::text_of(json::member(body@, "newThreadId"@)) {
                None => r is Err && r->Err_0@ == bad_request("Не указан newThreadId"@),
                Some(new_id) => r is Ok && r->Ok_0.message_id@ == message_id
                    && r->Ok_0.new_thread_id@ == new_id && r->Ok_0.created_at
                    == chat_store::i64_or(json::member(body@, "createdAt"@), now),
            },
        },
{
    let message_id = match body_text(body, "messageId") {
        Some(s) => s.to_owned(),
        None => return Err(ApiError::bad_request("Не указан messageId".to_owned())),
    };
    let new_thread_id = match body_text(body, "newThreadId") {
        Some(s) => s.to_owned(),
        None => return Err(ApiError::bad_request("Не указан newThreadId".to_owned())),
    };
    let created_at = match body.get("createdAt") {
        Some(v) => match v.as_i64() {
            Some(t) => t,
            None => now,
        },
        None => now,
    };
    Ok(ForkRequest { message_id, new_thread_id, created_at })
}

/// A request to store a batch of messages.
#[derive(Debug)]
pub struct SyncRequest {
    pub messages: Vec<Json>,
    pub prune_missing: bool,
    pub deleted_ids: Vec<String>,
}

/// The messages of a batch: the body itself if it is a list, or else its field.
pub open spec fn batch_messages(body: json::JsonView) -> Seq<json::JsonView> {
    match body {
        json::JsonView::Array(items) => items,
        _ => match json::member(body, "messages"@) {
            Some(json::JsonView::Array(items)) => items,
            _ => Seq::empty(),
        },
    }
}

fn array_items(v: &Json) -> (r: Vec<Json>)
    ensures
        json::items_view(r@) == (match v@ {
            json::JsonView::Array(items) => items,
            _ => Seq::empty(),
        }),
{
    match v.duplicate() {
        Json::Array(items) => items,
        _ => Vec::new(),
    }
}

/// What a request to store a batch of messages asks for.
pub fn sync_request(body: &Json) -> (r: SyncRequest)
    ensures
        json::items_view(r.messages@) == batch_messages(body@),
        r.prune_missing == chat_store::bool_or(json::member(body@, "pruneMissing"@), false),
        text::views(r.deleted_ids@) == spec_string_list(
            json::member(body@, "deletedMessageIds"@),
        ),
{
    let messages = match body {
        Json::Array(_) => array_items(body),
        _ => match body.get("messages") {
            Some(v) => array_items(v),
            None => Vec::new(),
        },
    };
    let prune_missing = match body.get("pruneMissing") {
        Some(v) => match v.as_bool() {
            Some(b) => b,
            None => false,
        },
        None => false,
    };
    let deleted_ids = string_list(body.get("deletedMessageIds"));
    SyncRequest { messages, prune_missing, deleted_ids }
}

/// The paths among the first `n` items: lists of texts that are not empty.
pub open spec fn paths_of(items: Seq<json::JsonView>, n: int) -> Seq<Seq<Seq<char>>>
    decreases n,
{
    if n <= 0 {
        Seq::empty()
    } else {
        let before = paths_of(items, n - 1);
        let path = spec_string_list(Some(items[n - 1]));
        if path.len() > 0 {
            before.push(path)
        } else {
            before
        }
    }
}

pub open spec fn spec_paths(v: Option<json::JsonView>) -> Seq<Seq<Seq<char>>> {
    match v {
        Some(json::JsonView::Array(items)) => paths_of(items, items.len() as int),
        _ => Seq::empty(),
    }
}

/// The conditions and the patch of a conditional write.
pub fn compare_and_set_request(body: &Json) -> (r: (Expectations, JsonObject))
    ensures
        r.0.expected@ == chat_ops::object_or_empty(json::member(body@, "expected"@)),
        text::views(r.0.expected_absent@) == spec_string_list(
            json::member(body@, "expectedAbsent"@),
        ),
        settings_store::paths_view(r.0.expected_absent_paths@) == spec_paths(
            json::member(body@, "expectedAbsentPaths"@),
        ),
        r.1@ == chat_ops::object_or_empty(json::member(body@, "patch"@)),
{
    let mut paths: Vec<Vec<String>> = Vec::new();
    assert(settings_store::paths_view(paths@) =~= Seq::empty());
    if let Some(Json::Array(items)) = body.get("expectedAbsentPaths") {
        proof {
            json::lemma_items_view(items@);
        }
        let ghost view = json::items_view(items@);
        let mut i: usize = 0;
        while i < items.len()
            invariant
                i <= items@.len(),
                view.len() == items@.len(),
                forall|k: int|
                    0 <= k < items@.len() ==> #[trigger] view[k] == json::value_view(items@[k]),
                settings_store::paths_view(paths@) == paths_of(view, i as int),
            decreases items@.len() - i,
        {
            assert(view[i as int] == items@[i as int]@);
            let path = string_list(Some(&items[i]));
            if path.len() > 0 {
                let ghost before = settings_store::paths_view(paths@);
                let ghost names = text::views(path@);
                paths.push(path);
                assert(settings_store::paths_view(paths@) =~= before.push(names));
            }
            i += 1;
        }
    }
    (
        Expectations {
            expected: object_field(body, "expected"),
            expected_absent: string_list(body.get("expectedAbsent")),
            expected_absent_paths: paths,
        },
        object_field(body, "patch"),
    )
}

/// The settings of the chat that a request changes.
pub fn settings_patch(body: Json) -> (r: ApiResult<JsonObject>)
    ensures
        match body@ {
            json::JsonView::Object(o) => r is Ok && r->Ok_0@ == o,
            _ => r is Err && r->Err_0@ == bad_request("Настройки чата должны быть JSON-объектом"@),
        },
{
    match body {
        Json::Object(o) => Ok(o),
        _ => Err(
            ApiError::bad_request("Настройки чата должны быть JSON-объектом".to_owned()),
        ),
    }
}

} // verus!
