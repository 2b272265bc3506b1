//! Threads, messages and projects of the chat.
//!
//! Records are kept whole: the interface adds fields over time, and none of them may be lost.
//! Only the fields by which records are searched and sorted stand beside them. Deleted threads
//! are remembered: a save that arrives after the deletion does not bring the thread back.

use vstd::prelude::*;

use crate::error;
use crate::error::ApiError;
use crate::json;
use crate::json::{Json, JsonObject};
use crate::text;

verus! {

/// Why an operation on the chat failed.
#[derive(Debug)]
pub enum ChatError {
    /// The thread was deleted; its id.
    Deleted(String),
    NotFound(String),
    Conflict(String),
    Invalid(String),
    /// The storage refused; its words.
    Store(String),
}

#[verifier::ext_equal]
pub enum ChatErrorView {
    Deleted(Seq<char>),
    NotFound(Seq<char>),
    Conflict(Seq<char>),
    Invalid(Seq<char>),
    Store(Seq<char>),
}

impl View for ChatError {
    type V = ChatErrorView;

    open spec fn view(&self) -> ChatErrorView {
        match self {
            ChatError::Deleted(s) => ChatErrorView::Deleted(s@),
            ChatError::NotFound(s) => ChatErrorView::NotFound(s@),
            ChatError::Conflict(s) => ChatErrorView::Conflict(s@),
            ChatError::Invalid(s) => ChatErrorView::Invalid(s@),
            ChatError::Store(s) => ChatErrorView::Store(s@),
        }
    }
}

pub type ChatResult<T> = Result<T, ChatError>;

/// What the user is told of an error.
pub open spec fn api_error(e: ChatErrorView) -> error::ApiErrorView {
    match e {
        ChatErrorView::Deleted(id) => error::ApiErrorView {
            status: 410,
            detail: "Тред "@ + id + " удалён"@,
        },
        ChatErrorView::NotFound(what) => error::ApiErrorView {
            status: 404,
            detail: "Не найдено: "@ + what,
        },
        ChatErrorView::Conflict(detail) => error::ApiErrorView { status: 409, detail },
        ChatErrorView::Invalid(detail) => error::ApiErrorView { status: 400, detail },
        ChatErrorView::Store(detail) => error::ApiErrorView {
            status: 500,
            detail: "Ошибка хранилища: "@ + detail,
        },
    }
}

impl ChatError {
    /// What the user is told of this error.
    pub fn to_api_error(self) -> (r: ApiError)
        ensures
            r@ == api_error(self@),
    {
        match self {
            ChatError::Deleted(id) => ApiError::new(
                410,
                text::join3("Тред ", id.as_str(), " удалён"),
            ),
            ChatError::NotFound(what) => ApiError::not_found(
                text::join2("Не найдено: ", what.as_str()),
            ),
            ChatError::Conflict(detail) => ApiError::conflict(detail),
            ChatError::Invalid(detail) => ApiError::bad_request(detail),
            ChatError::Store(detail) => ApiError::internal(
                text::join2("Ошибка хранилища: ", detail.as_str()),
            ),
        }
    }
}

/// Which threads a list shows.
#[derive(Debug)]
pub struct ThreadFilter {
    pub model_type: Option<String>,
    pub pair_id: Option<String>,
    pub project_id: Option<String>,
    pub include_archived: bool,
}

/// A thread and the fields by which threads are searched and sorted.
#[derive(Debug)]
pub struct ThreadRow {
    pub id: String,
    pub record: JsonObject,
    pub created_at: i64,
    pub archived: bool,
    pub project_id: Option<String>,
    pub pair_id: Option<String>,
    pub model_type: Option<String>,
}

/// A message of a thread.
#[derive(Debug)]
pub struct MessageRow {
    pub thread_id: String,
    pub id: String,
    pub record: JsonObject,
    pub created_at: i64,
}

#[derive(Debug)]
pub struct ProjectRow {
    pub id: String,
    pub record: JsonObject,
    pub created_at: i64,
    pub archived: bool,
}

/// All of the chat. Messages stand in the order in which they were first stored.
#[derive(Debug)]
pub struct ChatTables {
    pub threads: Vec<ThreadRow>,
    pub messages: Vec<MessageRow>,
    pub projects: Vec<ProjectRow>,
    /// Ids of deleted threads.
    pub deleted: Vec<String>,
}

#[verifier::ext_equal]
pub struct ThreadView {
    pub id: Seq<char>,
    pub record: json::Fields,
    pub created_at: i64,
    pub archived: bool,
    pub project_id: Option<Seq<char>>,
    pub pair_id: Option<Seq<char>>,
    pub model_type: Option<Seq<char>>,
}

#[verifier::ext_equal]
pub struct MessageView {
    pub thread_id: Seq<char>,
    pub id: Seq<char>,
    pub record: json::Fields,
    pub created_at: i64,
}

#[verifier::ext_equal]
pub struct ProjectView {
    pub id: Seq<char>,
    pub record: json::Fields,
    pub created_at: i64,
    pub archived: bool,
}

#[verifier::ext_equal]
pub struct ChatView {
    pub threads: Seq<ThreadView>,
    pub messages: Seq<MessageView>,
    pub projects: Seq<ProjectView>,
    pub deleted: Seq<Seq<char>>,
}

#[verifier::ext_equal]
pub struct FilterView {
    pub model_type: Option<Seq<char>>,
    pub pair_id: Option<Seq<char>>,
    pub project_id: Option<Seq<char>>,
    pub include_archived: bool,
}

pub open spec fn opt_text(s: Option<String>) -> Option<Seq<char>> {
    match s {
        Some(t) => Some(t@),
        None => None,
    }
}

impl View for ThreadFilter {
    type V = FilterView;

    open spec fn view(&self) -> FilterView {
        FilterView {
            model_type: opt_text(self.model_type),
            pair_id: opt_text(self.pair_id),
            project_id: opt_text(self.project_id),
            include_archived: self.include_archived,
        }
    }
}

impl View for ThreadRow {
    type V = ThreadView;

    open spec fn view(&self) -> ThreadView {
        ThreadView {
            id: self.id@,
            record: self.record@,
            created_at: self.created_at,
            archived: self.archived,
            project_id: opt_text(self.project_id),
            pair_id: opt_text(self.pair_id),
            model_type: opt_text(self.model_type),
        }
    }
}

impl View for MessageRow {
    type V = MessageView;

    open spec fn view(&self) -> MessageView {
        MessageView {
            thread_id: self.thread_id@,
            id: self.id@,
            record: self.record@,
            created_at: self.created_at,
        }
    }
}

impl View for ProjectRow {
    type V = ProjectView;

    open spec fn view(&self) -> ProjectView {
        ProjectView {
            id: self.id@,
            record: self.record@,
            created_at: self.created_at,
            archived: self.archived,
        }
    }
}

pub open spec fn threads_view(s: Seq<ThreadRow>) -> Seq<ThreadView> {
    Seq::new(s.len(), |i: int| s[i]@)
}

pub open spec fn messages_view(s: Seq<MessageRow>) -> Seq<MessageView> {
    Seq::new(s.len(), |i: int| s[i]@)
}

pub open spec fn projects_view(s: Seq<ProjectRow>) -> Seq<ProjectView> {
    Seq::new(s.len(), |i: int| s[i]@)
}

pub open spec fn records_view(s: Seq<Json>) -> Seq<json::JsonView> {
    Seq::new(s.len(), |i: int| s[i]@)
}

impl View for ChatTables {
    type V = ChatView;

    open spec fn view(&self) -> ChatView {
        ChatView {
            threads: threads_view(self.threads@),
            messages: messages_view(self.messages@),
            projects: projects_view(self.projects@),
            deleted: text::views(self.deleted@),
        }
    }
}

/// The place of a thread from `i` on.
pub open spec fn thread_from(s: Seq<ThreadView>, id: Seq<char>, i: int) -> Option<int>
    decreases s.len() - i,
{
    if i < 0 || i >= s.len() {
        None
    } else if s[i].id == id {
        Some(i)
    } else {
        thread_from(s, id, i + 1)
    }
}

pub open spec fn message_from(
    s: Seq<MessageView>,
    thread_id: Seq<char>,
    id: Seq<char>,
    i: int,
) -> Option<int>
    decreases s.len() - i,
{
    if i < 0 || i >= s.len() {
        None
    } else if s[i].thread_id == thread_id && s[i].id == id {
        Some(i)
    } else {
        message_from(s, thread_id, id, i + 1)
    }
}

pub open spec fn project_from(s: Seq<ProjectView>, id: Seq<char>, i: int) -> Option<int>
    decreases s.len() - i,
{
    if i < 0 || i >= s.len() {
        None
    } else if s[i].id == id {
        Some(i)
    } else {
        project_from(s, id, i + 1)
    }
}

/// The record of a thread.
pub open spec fn thread_record(s: ChatView, id: Seq<char>) -> Option<json::Fields> {
    match thread_from(s.threads, id, 0) {
        Some(i) => Some(s.threads[i].record),
        None => None,
    }
}

pub open spec fn message_record(s: ChatView, thread_id: Seq<char>, id: Seq<char>) -> Option<
    json::Fields,
> {
    match message_from(s.messages, thread_id, id, 0) {
        Some(i) => Some(s.messages[i].record),
        None => None,
    }
}

pub open spec fn project_record(s: ChatView, id: Seq<char>) -> Option<json::Fields> {
    match project_from(s.projects, id, 0) {
        Some(i) => Some(s.projects[i].record),
        None => None,
    }
}

/// Ids occur once, and every message belongs to a thread.
pub open spec fn consistent(s: ChatView) -> bool {
    &&& forall|i: int, j: int|
        0 <= i < j < s.threads.len() ==> (#[trigger] s.threads[i]).id != (#[trigger] s.threads[j]).id
    &&& forall|i: int, j: int|
        0 <= i < j < s.messages.len() ==> (#[trigger] s.messages[i]).thread_id != (
        #[trigger] s.messages[j]).thread_id || s.messages[i].id != s.messages[j].id
    &&& forall|i: int, j: int|
        0 <= i < j < s.projects.len() ==> (#[trigger] s.projects[i]).id != (
        #[trigger] s.projects[j]).id
    &&& forall|i: int|
        0 <= i < s.messages.len() ==> thread_from(
            s.threads,
            (#[trigger] s.messages[i]).thread_id,
            0,
        ) is Some
}

/// The object of a record.
pub open spec fn object_of(v: json::JsonView, what: Seq<char>) -> Result<
    json::Fields,
    ChatErrorView,
> {
    match v {
        json::JsonView::Object(o) => Ok(o),
        _ => Err(ChatErrorView::Invalid(what + ": ожидался JSON-объект"@)),
    }
}

/// The id of a record: a text that is not blank, without the blanks around it.
pub open spec fn id_of(o: json::Fields, what: Seq<char>) -> Result<Seq<char>, ChatErrorView> {
    match json::text_of(json::field(o, "id"@)) {
        Some(s) => if text::trimmed(s).len() > 0 {
            Ok(text::trimmed(s))
        } else {
            Err(ChatErrorView::Invalid(what + ": не указан id"@))
        },
        None => Err(ChatErrorView::Invalid(what + ": не указан id"@)),
    }
}

pub open spec fn i64_or(v: Option<json::JsonView>, default: i64) -> i64 {
    match json::i64_of(v) {
        Some(n) => n,
        None => default,
    }
}

pub open spec fn bool_or(v: Option<json::JsonView>, default: bool) -> bool {
    match json::bool_of(v) {
        Some(b) => b,
        None => default,
    }
}

pub open spec fn thread_row(id: Seq<char>, o: json::Fields, now: i64) -> ThreadView {
    ThreadView {
        id,
        record: o,
        created_at: i64_or(json::field(o, "createdAt"@), now),
        archived: bool_or(json::field(o, "archived"@), false),
        project_id: json::text_of(json::field(o, "projectId"@)),
        pair_id: json::text_of(json::field(o, "pairId"@)),
        model_type: json::text_of(json::field(o, "modelType"@)),
    }
}

pub open spec fn message_row(
    thread_id: Seq<char>,
    id: Seq<char>,
    o: json::Fields,
    now: i64,
) -> MessageView {
    MessageView {
        thread_id,
        id,
        record: o,
        created_at: i64_or(json::field(o, "createdAt"@), now),
    }
}

pub open spec fn project_row(id: Seq<char>, o: json::Fields, now: i64) -> ProjectView {
    ProjectView {
        id,
        record: o,
        created_at: i64_or(json::field(o, "createdAt"@), now),
        archived: bool_or(json::field(o, "archived"@), false),
    }
}

/// The chat with a thread stored under its id.
pub open spec fn with_thread(s: ChatView, row: ThreadView) -> ChatView {
    ChatView {
        threads: match thread_from(s.threads, row.id, 0) {
            Some(i) => s.threads.update(i, row),
            None => s.threads.push(row),
        },
        ..s
    }
}

/// The messages with one stored under its thread and id.
pub open spec fn with_message(s: Seq<MessageView>, row: MessageView) -> Seq<MessageView> {
    match message_from(s, row.thread_id, row.id, 0) {
        Some(i) => s.update(i, row),
        None => s.push(row),
    }
}

pub open spec fn with_project(s: ChatView, row: ProjectView) -> ChatView {
    ChatView {
        projects: match project_from(s.projects, row.id, 0) {
            Some(i) => s.projects.update(i, row),
            None => s.projects.push(row),
        },
        ..s
    }
}

/// The remembered ids with one more.
pub open spec fn tombstoned(deleted: Seq<Seq<char>>, id: Seq<char>) -> Seq<Seq<char>> {
    if deleted.contains(id) {
        deleted
    } else {
        deleted.push(id)
    }
}

// ---------- shared helpers ----------

pub(crate) fn as_object(value: Json, what: &str) -> (r: ChatResult<JsonObject>)
    ensures
        match object_of(value@, what@) {
            Ok(o) => r is Ok && r->Ok_0@ == o,
            Err(e) => r is Err && r->Err_0@ == e,
        },
{
    match value {
        Json::Object(o) => Ok(o),
        _ => Err(ChatError::Invalid(text::join2(what, ": ожидался JSON-объект"))),
    }
}

pub(crate) fn required_id(record: &JsonObject, what: &str) -> (r: ChatResult<String>)
    ensures
        match id_of(record@, what@) {
            Ok(id) => r is Ok && r->Ok_0@ == id,
            Err(e) => r is Err && r->Err_0@ == e,
        },
{
    if let Some(s) = str_field(record, "id") {
        let id = text::trim(s);
        if !id.as_str().is_empty() {
            return Ok(id);
        }
    }
    Err(ChatError::Invalid(text::join2(what, ": не указан id")))
}

pub(crate) fn str_field<'a>(record: &'a JsonObject, key: &str) -> (r: Option<&'a str>)
    ensures
        json::text_of(json::field(record@, key@)) == (match r {
            Some(s) => Some(s@),
            None => None,
        }),
{
    match record.get(key) {
        Some(v) => v.as_str(),
        None => None,
    }
}

fn owned_field(record: &JsonObject, key: &str) -> (r: Option<String>)
    ensures
        opt_text(r) == json::text_of(json::field(record@, key@)),
{
    match str_field(record, key) {
        Some(s) => Some(s.to_owned()),
        None => None,
    }
}

pub(crate) fn time_field(record: &JsonObject, key: &str) -> (r: Option<i64>)
    ensures
        r == json::i64_of(json::field(record@, key@)),
{
    match record.get(key) {
        Some(v) => v.as_i64(),
        None => None,
    }
}

fn flag_field(record: &JsonObject, key: &str) -> (r: bool)
    ensures
        r == bool_or(json::field(record@, key@), false),
{
    match record.get(key) {
        Some(v) => match v.as_bool() {
            Some(b) => b,
            None => false,
        },
        None => false,
    }
}

pub(crate) fn find_thread(threads: &Vec<ThreadRow>, id: &str) -> (r: Option<usize>)
    ensures
        thread_from(threads_view(threads@), id@, 0) == (match r {
            Some(i) => Some(i as int),
            None => None,
        }),
        r matches Some(i) ==> i < threads@.len() && threads@[i as int].id@ == id@,
{
    let ghost view = threads_view(threads@);
    let mut i: usize = 0;
    while i < threads.len()
        invariant
            i <= threads@.len(),
            view == threads_view(threads@),
            thread_from(view, id@, i as int) == thread_from(view, id@, 0),
        decreases threads@.len() - i,
    {
        assert(view[i as int].id == threads@[i as int].id@);
        if text::same(threads[i].id.as_str(), id) {
            return Some(i);
        }
        i += 1;
    }
    None
}

pub(crate) fn find_message(messages: &Vec<MessageRow>, thread_id: &str, id: &str) -> (r: Option<usize>)
    ensures
        message_from(messages_view(messages@), thread_id@, id@, 0) == (match r {
            Some(i) => Some(i as int),
            None => None,
        }),
        r matches Some(i) ==> i < messages@.len(),
{
    let ghost view = messages_view(messages@);
    let mut i: usize = 0;
    while i < messages.len()
        invariant
            i <= messages@.len(),
            view == messages_view(messages@),
            message_from(view, thread_id@, id@, i as int) == message_from(
                view,
                thread_id@,
                id@,
                0,
            ),
        decreases messages@.len() - i,
    {
        assert(view[i as int] == messages@[i as int]@);
        if text::same(messages[i].thread_id.as_str(), thread_id) && text::same(
            messages[i].id.as_str(),
            id,
        ) {
            return Some(i);
        }
        i += 1;
    }
    None
}

pub(crate) fn find_project(projects: &Vec<ProjectRow>, id: &str) -> (r: Option<usize>)
    ensures
        project_from(projects_view(projects@), id@, 0) == (match r {
            Some(i) => Some(i as int),
            None => None,
        }),
        r matches Some(i) ==> i < projects@.len(),
{
    let ghost view = projects_view(projects@);
    let mut i: usize = 0;
    while i < projects.len()
        invariant
            i <= projects@.len(),
            view == projects_view(projects@),
            project_from(view, id@, i as int) == project_from(view, id@, 0),
        decreases projects@.len() - i,
    {
        assert(view[i as int].id == projects@[i as int].id@);
        if text::same(projects[i].id.as_str(), id) {
            return Some(i);
        }
        i += 1;
    }
    None
}

pub(crate) fn holds(ids: &Vec<String>, id: &str) -> (r: bool)
    ensures
        r == text::views(ids@).contains(id@),
{
    let ghost view = text::views(ids@);
    let mut i: usize = 0;
    while i < ids.len()
        invariant
            i <= ids@.len(),
            view == text::views(ids@),
            forall|k: int| 0 <= k < i ==> view[k] != id@,
        decreases ids@.len() - i,
    {
        assert(view[i as int] == ids@[i as int]@);
        if text::same(ids[i].as_str(), id) {
            return true;
        }
        i += 1;
    }
    false
}

pub(crate) fn write_thread(tables: &mut ChatTables, id: String, record: JsonObject, now: i64)
    ensures
        final(tables)@ == with_thread(old(tables)@, thread_row(id@, record@, now)),
{
    let ghost before = tables@;
    let created_at = match time_field(&record, "createdAt") {
        Some(t) => t,
        None => now,
    };
    let archived = flag_field(&record, "archived");
    let project_id = owned_field(&record, "projectId");
    let pair_id = owned_field(&record, "pairId");
    let model_type = owned_field(&record, "modelType");
    let place = find_thread(&tables.threads, id.as_str());
    let ghost row = thread_row(id@, record@, now);
    let entry = ThreadRow { id, record, created_at, archived, project_id, pair_id, model_type };
    assert(entry@ =~= row);
    match place {
        Some(i) => {
            tables.threads.set(i, entry);
            assert(threads_view(tables.threads@) =~= before.threads.update(i as int, row));
        },
        None => {
            tables.threads.push(entry);
            assert(threads_view(tables.threads@) =~= before.threads.push(row));
        },
    }
}

pub(crate) fn write_message(
    messages: &mut Vec<MessageRow>,
    thread_id: &str,
    id: String,
    record: JsonObject,
    now: i64,
)
    ensures
        messages_view(final(messages)@) == with_message(
            messages_view(old(messages)@),
            message_row(thread_id@, id@, record@, now),
        ),
{
    let ghost before = messages_view(messages@);
    let created_at = match time_field(&record, "createdAt") {
        Some(t) => t,
        None => now,
    };
    let place = find_message(messages, thread_id, id.as_str());
    let ghost row = message_row(thread_id@, id@, record@, now);
    let entry = MessageRow { thread_id: thread_id.to_owned(), id, record, created_at };
    assert(entry@ =~= row);
    match place {
        Some(i) => {
            messages.set(i, entry);
            assert(messages_view(messages@) =~= before.update(i as int, row));
        },
        None => {
            messages.push(entry);
            assert(messages_view(messages@) =~= before.push(row));
        },
    }
}

pub(crate) fn write_project(tables: &mut ChatTables, id: String, record: JsonObject, now: i64)
    ensures
        final(tables)@ == with_project(old(tables)@, project_row(id@, record@, now)),
{
    let ghost before = tables@;
    let created_at = match time_field(&record, "createdAt") {
        Some(t) => t,
        None => now,
    };
    let archived = flag_field(&record, "archived");
    let place = find_project(&tables.projects, id.as_str());
    let ghost row = project_row(id@, record@, now);
    let entry = ProjectRow { id, record, created_at, archived };
    assert(entry@ =~= row);
    match place {
        Some(i) => {
            tables.projects.set(i, entry);
            assert(projects_view(tables.projects@) =~= before.projects.update(i as int, row));
        },
        None => {
            tables.projects.push(entry);
            assert(projects_view(tables.projects@) =~= before.projects.push(row));
        },
    }
}

pub(crate) fn tombstone(deleted: &mut Vec<String>, id: &String)
    ensures
        text::views(final(deleted)@) == tombstoned(text::views(old(deleted)@), id@),
{
    let ghost before = text::views(deleted@);
    if !holds(deleted, id.as_str()) {
        deleted.push(id.clone());
        assert(text::views(deleted@) =~= before.push(id@));
    }
}

impl ChatTables {
    /// A chat without anything in it.
    pub fn new() -> (r: Self)
        ensures
            r@ == (ChatView {
                threads: Seq::empty(),
                messages: Seq::empty(),
                projects: Seq::empty(),
                deleted: Seq::empty(),
            }),
            consistent(r@),
    {
        let r = ChatTables {
            threads: Vec::new(),
            messages: Vec::new(),
            projects: Vec::new(),
            deleted: Vec::new(),
        };
        assert(r@.threads =~= Seq::empty());
        assert(r@.messages =~= Seq::empty());
        assert(r@.projects =~= Seq::empty());
        assert(r@.deleted =~= Seq::empty());
        r
    }
}

// ---------- threads ----------

/// The thread with this id.
pub fn get_thread(tables: &ChatTables, id: &str) -> (r: Option<Json>)
    ensures
        match thread_record(tables@, id@) {
            Some(o) => r is Some && r->Some_0@ == json::JsonView::Object(o),
            None => r is None,
        },
{
    match find_thread(&tables.threads, id) {
        Some(i) => {
            assert(tables@.threads[i as int] == tables.threads@[i as int]@);
            Some(Json::Object(tables.threads[i].record.duplicate()))
        },
        None => None,
    }
}

/// A thread record with the fields that every thread has.
pub open spec fn completed_thread(o: json::Fields, created: Option<i64>, now: i64) -> json::Fields {
    let dated = if json::i64_of(json::field(o, "createdAt"@)) is Some {
        o
    } else {
        json::with(
            o,
            "createdAt"@,
            json::whole(
                match created {
                    Some(t) => t,
                    None => now,
                },
            ),
        )
    };
    let titled = json::with_default(dated, "title"@, json::JsonView::Text(""@));
    let filed = json::with_default(titled, "archived"@, json::JsonView::Bool(false));
    json::with_default(filed, "updatedAt"@, json::whole(now))
}

pub open spec fn created_time(o: Option<json::Fields>) -> Option<i64> {
    match o {
        Some(fields) => json::i64_of(json::field(fields, "createdAt"@)),
        None => None,
    }
}

/// What storing a whole thread gives: its id and its record.
pub open spec fn saved_thread(s: ChatView, record: json::JsonView, now: i64) -> Result<
    (Seq<char>, json::Fields),
    ChatErrorView,
> {
    match object_of(record, "тред"@) {
        Err(e) => Err(e),
        Ok(o) => match id_of(o, "тред"@) {
            Err(e) => Err(e),
            Ok(id) => if s.deleted.contains(id) {
                Err(ChatErrorView::Deleted(id))
            } else {
                Ok((id, completed_thread(o, created_time(thread_record(s, id)), now)))
            },
        },
    }
}

/// Stores a whole thread and returns the stored record.
pub fn save_thread(tables: &mut ChatTables, record: Json, now: i64) -> (r: ChatResult<Json>)
    ensures
        match saved_thread(old(tables)@, record@, now) {
            Ok((id, o)) => r is Ok && r->Ok_0@ == json::JsonView::Object(o) && final(tables)@
                == with_thread(old(tables)@, thread_row(id, o, now)),
            Err(e) => r is Err && r->Err_0@ == e && final(tables)@ == old(tables)@,
        },
{
    let mut record = match as_object(record, "тред") {
        Ok(o) => o,
        Err(e) => return Err(e),
    };
    let id = match required_id(&record, "тред") {
        Ok(id) => id,
        Err(e) => return Err(e),
    };
    if holds(&tables.deleted, id.as_str()) {
        return Err(ChatError::Deleted(id));
    }
    let existing_created_at = match find_thread(&tables.threads, id.as_str()) {
        Some(i) => {
            assert(tables@.threads[i as int] == tables.threads@[i as int]@);
            time_field(&tables.threads[i].record, "createdAt")
        },
        None => None,
    };
    if time_field(&record, "createdAt").is_none() {
        let t = match existing_created_at {
            Some(t) => t,
            None => now,
        };
        record.insert("createdAt", json::from_i64(t));
    }
    record.insert_if_absent("title", json::from_str(""));
    record.insert_if_absent("archived", Json::Bool(false));
    record.insert_if_absent("updatedAt", json::from_i64(now));
    let saved = Json::Object(record.duplicate());
    write_thread(tables, id, record, now);
    Ok(saved)
}

} // verus!
