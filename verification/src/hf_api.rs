//! Requests to Hugging Face: addresses, tokens and what its answers mean.

use vstd::prelude::*;

use crate::chat_store;
use crate::download_jobs;
use crate::download_jobs::non_empty;
use crate::text;

verus! {

/// The address where none is set.
pub const DEFAULT_HF_ENDPOINT: &'static str = "https://huggingface.co";

/// The variable that holds another address.
pub const HF_ENDPOINT_ENV: &'static str = "HF_ENDPOINT";

/// The header with the token of a request.
pub const HF_TOKEN_HEADER: &'static str = "x-unsloth-hf-token";

/// How long a list of files may be used again, in seconds.
pub const TREE_CACHE_SECONDS: u64 = 600;

pub const TOKEN_MISSING: &'static str = "missing";

pub const TOKEN_VALID: &'static str = "valid";

pub const TOKEN_INVALID: &'static str = "invalid";

pub const TOKEN_RATE_LIMITED: &'static str = "rate_limited";

pub const TOKEN_UNAVAILABLE: &'static str = "unavailable";

pub open spec fn spec_endpoint(value: Option<Seq<char>>) -> Seq<char> {
    match value {
        Some(v) => {
            let address = text::without_trailing(text::trimmed(v), '/');
            if address.len() > 0 {
                address
            } else {
                DEFAULT_HF_ENDPOINT@
            }
        },
        None => DEFAULT_HF_ENDPOINT@,
    }
}

/// The address that is set, without the slashes at its end, or the usual one.
pub fn endpoint(value: &Option<String>) -> (r: String)
    ensures
        r@ == spec_endpoint(chat_store::opt_text(*value)),
{
    if let Some(v) = value {
        let address = text::trim_end_char(text::trim(v.as_str()).as_str(), '/');
        if !address.as_str().is_empty() {
            return address;
        }
    }
    DEFAULT_HF_ENDPOINT.to_owned()
}

/// The token for a request: the one in its header, else the one that is stored.
pub fn resolve_token(header: &Option<String>, stored: Option<String>) -> (r: Option<String>)
    ensures
        chat_store::opt_text(r) == (match download_jobs::filled(chat_store::opt_text(*header)) {
            Some(t) => Some(t),
            None => chat_store::opt_text(stored),
        }),
{
    match non_empty(header) {
        Some(t) => Some(t),
        None => stored,
    }
}

/// The address of a repository's list of files.
pub fn tree_url(endpoint: &str, repo_id: &str) -> (r: String)
    ensures
        r@ == endpoint@ + "/api/models/"@ + repo_id@ + "/tree/main?recursive=true"@,
{
    let start = text::join3(endpoint, "/api/models/", repo_id);
    text::join2(start.as_str(), "/tree/main?recursive=true")
}

/// The address of a file.
pub fn file_url(endpoint: &str, repo_id: &str, path: &str) -> (r: String)
    ensures
        r@ == endpoint@ + "/"@ + repo_id@ + "/resolve/main/"@ + path@,
{
    let start = text::join3(endpoint, "/", repo_id);
    text::join3(start.as_str(), "/resolve/main/", path)
}

/// Which part of a file is asked for: what comes after what is there, or all of it.
pub fn range_header(offset: u64) -> (r: Option<String>)
    ensures
        chat_store::opt_text(r) == (if offset > 0 {
            Some("bytes="@ + text::decimal_of(offset as int) + "-"@)
        } else {
            None
        }),
{
    if offset > 0 {
        Some(text::join3("bytes=", text::decimal(offset).as_str(), "-"))
    } else {
        None
    }
}

pub open spec fn spec_cache_key(repo_id: Seq<char>, with_token: bool) -> Seq<char> {
    text::lower(repo_id) + "::"@ + if with_token {
        "true"@
    } else {
        "false"@
    }
}

/// The key under which a list of files is kept: the same repository may show more to those with a
/// token.
pub fn tree_cache_key(repo_id: &str, with_token: bool) -> (r: String)
    ensures
        r@ == spec_cache_key(repo_id@, with_token),
{
    let lower = text::to_lower(repo_id);
    text::join3(
        lower.as_str(),
        "::",
        if with_token {
            "true"
        } else {
            "false"
        },
    )
}

/// Whether a list of files that was fetched so long ago may be used again.
pub fn is_fresh(elapsed_seconds: u64) -> (r: bool)
    ensures
        r == (elapsed_seconds < TREE_CACHE_SECONDS),
{
    elapsed_seconds < TREE_CACHE_SECONDS
}

/// What the check of a token found.
#[derive(Debug)]
pub struct TokenStatus {
    pub status: &'static str,
    pub retry_after_seconds: Option<u64>,
}

pub open spec fn status_of(code: u16) -> Seq<char> {
    if 200 <= code < 300 {
        TOKEN_VALID@
    } else if code == 401 || code == 403 {
        TOKEN_INVALID@
    } else if code == 429 {
        TOKEN_RATE_LIMITED@
    } else {
        TOKEN_UNAVAILABLE@
    }
}

/// What the answer to a token's check means. `retry_after` is the header that says when to ask
/// again.
pub fn token_status(code: u16, retry_after: &Option<String>) -> (r: TokenStatus)
    ensures
        r.status@ == status_of(code),
        match r.retry_after_seconds {
            Some(n) => code == 429 && *retry_after is Some && text::parsed_number(
                text::trimmed(retry_after->Some_0@),
                u64::MAX as int,
            ) == Some(n as int),
            None => code != 429 || *retry_after is None || text::parsed_number(
                text::trimmed(retry_after->Some_0@),
                u64::MAX as int,
            ) is None,
        },
{
    if 200 <= code && code < 300 {
        TokenStatus { status: TOKEN_VALID, retry_after_seconds: None }
    } else if code == 401 || code == 403 {
        TokenStatus { status: TOKEN_INVALID, retry_after_seconds: None }
    } else if code == 429 {
        let seconds = match retry_after {
            Some(v) => text::parse_number(text::trim(v.as_str()).as_str(), u64::MAX),
            None => None,
        };
        TokenStatus { status: TOKEN_RATE_LIMITED, retry_after_seconds: seconds }
    } else {
        TokenStatus { status: TOKEN_UNAVAILABLE, retry_after_seconds: None }
    }
}

} // verus!
