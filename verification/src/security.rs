//! Protection of the server from foreign pages.
//!
//! 1. Answers may be read by pages of this computer only.
//! 2. A request whose `Host` is a foreign name is refused: a foreign site can bind its own name to
//!    the address of this computer.
//! 3. A request that changes something and comes from a foreign page is refused: such a page cannot
//!    read the answer, but it can send the request.
//!
//! Whether a text is an IP address of this computer is decided by the caller, who parses addresses;
//! it is handed in as `loopback_address`.

use vstd::prelude::*;

use crate::error;
use crate::error::ApiError;
use crate::text;

verus! {

/// The host of `host:port`. An IPv6 address stands in square brackets.
pub open spec fn spec_strip_port(authority: Seq<char>) -> Seq<char> {
    if authority.len() > 0 && authority[0] == '[' {
        match text::index_from(authority, ']', 1) {
            Some(end) => authority.subrange(1, end),
            None => authority.skip(1),
        }
    } else {
        match text::last_index(authority, ':', authority.len() as int) {
            Some(i) => if i + 1 < authority.len() && text::all_digits(authority.skip(i + 1)) {
                authority.take(i)
            } else {
                authority
            },
            None => authority,
        }
    }
}

/// Cuts the port off `host:port`, with IPv6 in square brackets (`[::1]:3000` gives `::1`).
pub fn strip_port(authority: &str) -> (r: String)
    ensures
        r@ == spec_strip_port(authority@),
{
    let chars = text::to_chars(authority);
    let n = chars.len();
    if n > 0 && chars[0] == '[' {
        let end = match text::find_from(&chars, ']', 1) {
            Some(end) => end,
            None => n,
        };
        let r = text::from_chars(&chars, 1, end);
        assert(r@ =~= spec_strip_port(authority@));
        return r;
    }
    match text::rfind(&chars, ':') {
        Some(i) => {
            assert(authority@.skip(i + 1) =~= authority@.subrange(i + 1, n as int));
            if i + 1 < n && text::digits_only(&chars, i + 1, n) {
                let r = text::from_chars(&chars, 0, i);
                assert(r@ =~= authority@.take(i as int));
                return r;
            }
        },
        None => {},
    }
    authority.to_owned()
}

/// A name of a host in lower case and without the dots that may end it.
pub open spec fn spec_bare_host(host: Seq<char>) -> Seq<char> {
    text::lower(text::without_trailing(host, '.'))
}

/// What has to be tried as an IP address.
pub fn bare_host(host: &str) -> (r: String)
    ensures
        r@ == spec_bare_host(host@),
{
    text::to_lower(text::trim_end_char(host, '.').as_str())
}

/// Whether a name of a host stands for this computer.
pub open spec fn loopback(host: Seq<char>, loopback_address: bool) -> bool {
    let bare = spec_bare_host(host);
    bare == "localhost"@ || text::occurs_at(
        bare,
        ".localhost"@,
        bare.len() - ".localhost"@.len(),
    ) || loopback_address
}

/// Whether a name of a host stands for this computer. `loopback_address` says whether `bare_host`
/// of it is an IP address of this computer.
pub fn is_loopback_host(host: &str, loopback_address: bool) -> (r: bool)
    ensures
        r == loopback(host@, loopback_address),
{
    let bare = bare_host(host);
    text::same(bare.as_str(), "localhost") || text::ends_with(bare.as_str(), ".localhost")
        || loopback_address
}

/// The hosts that a comma-separated list names, among the first `n` of its items.
pub open spec fn listed_hosts(items: Seq<Seq<char>>, n: int) -> Seq<Seq<char>>
    decreases n,
{
    if n <= 0 {
        Seq::empty()
    } else {
        let before = listed_hosts(items, n - 1);
        let host = text::lower(text::trimmed(items[n - 1]));
        if host.len() == 0 {
            before
        } else {
            before.push(host)
        }
    }
}

/// Further hosts that are allowed, from a comma-separated list.
pub fn parse_allowed_hosts(raw: &str) -> (r: Vec<String>)
    ensures
        text::views(r@) == listed_hosts(
            text::pieces(raw@, ','),
            text::pieces(raw@, ',').len() as int,
        ),
{
    let items = text::split(raw, ',');
    let ghost all = text::pieces(raw@, ',');
    let mut hosts: Vec<String> = Vec::new();
    let mut i: usize = 0;
    assert(text::views(hosts@) =~= Seq::<Seq<char>>::empty());
    while i < items.len()
        invariant
            i <= items@.len(),
            all == text::views(items@),
            text::views(hosts@) == listed_hosts(all, i as int),
        decreases items@.len() - i,
    {
        assert(all[i as int] == items@[i as int]@);
        let host = text::to_lower(text::trim(items[i].as_str()).as_str());
        if !host.as_str().is_empty() {
            let ghost before = text::views(hosts@);
            let ghost seen = host@;
            hosts.push(host);
            assert(text::views(hosts@) =~= before.push(seen));
        }
        i += 1;
    }
    hosts
}

/// Whether a list holds a name, but for the case of ASCII letters.
pub open spec fn listed(hosts: Seq<Seq<char>>, host: Seq<char>) -> bool {
    exists|i: int| 0 <= i < hosts.len() && text::lower(#[trigger] hosts[i]) == text::lower(host)
}

pub open spec fn allowed_host(
    host: Seq<char>,
    extra: Seq<Seq<char>>,
    loopback_address: bool,
) -> bool {
    loopback(host, loopback_address) || listed(extra, host)
}

/// Whether requests to this host are answered.
pub fn is_allowed_host(host: &str, extra: &Vec<String>, loopback_address: bool) -> (r: bool)
    ensures
        r == allowed_host(host@, text::views(extra@), loopback_address),
{
    if is_loopback_host(host, loopback_address) {
        return true;
    }
    let ghost all = text::views(extra@);
    let mut i: usize = 0;
    while i < extra.len()
        invariant
            i <= extra@.len(),
            all == text::views(extra@),
            forall|k: int| 0 <= k < i ==> text::lower(#[trigger] all[k]) != text::lower(host@),
        decreases extra@.len() - i,
    {
        assert(all[i as int] == extra@[i as int]@);
        if text::same_ignoring_case(extra[i].as_str(), host) {
            return true;
        }
        i += 1;
    }
    false
}

/// The host of an origin such as `http://localhost:3000`; nothing for another scheme.
pub open spec fn spec_origin_host(origin: Seq<char>) -> Option<Seq<char>> {
    match text::part_from(origin, "://"@, 0) {
        None => None,
        Some(i) => if origin.take(i) == "http"@ || origin.take(i) == "https"@ {
            Some(spec_strip_port(origin.skip(i + "://"@.len())))
        } else {
            None
        },
    }
}

/// The host of an origin such as `http://localhost:3000`; nothing for another scheme.
pub fn origin_host(origin: &str) -> (r: Option<String>)
    ensures
        match r {
            Some(h) => spec_origin_host(origin@) == Some(h@),
            None => spec_origin_host(origin@) is None,
        },
{
    let chars = text::to_chars(origin);
    let mark = text::to_chars("://");
    let total = chars.len();
    match text::find_part(&chars, &mark, 0) {
        None => None,
        Some(i) => {
            let scheme = text::from_chars(&chars, 0, i);
            assert(scheme@ =~= origin@.take(i as int));
            if text::same(scheme.as_str(), "http") || text::same(scheme.as_str(), "https") {
                let authority = text::from_chars(&chars, i + mark.len(), total);
                assert(authority@ =~= origin@.skip(i + mark@.len()));
                Some(strip_port(authority.as_str()))
            } else {
                None
            }
        },
    }
}

pub open spec fn allowed_origin(
    origin: Seq<char>,
    extra: Seq<Seq<char>>,
    loopback_address: bool,
) -> bool {
    match spec_origin_host(origin) {
        Some(host) => allowed_host(host, extra, loopback_address),
        None => false,
    }
}

/// Whether a page of this origin may read answers. `loopback_address` says whether the host of the
/// origin is an IP address of this computer.
pub fn is_allowed_origin(origin: &str, extra: &Vec<String>, loopback_address: bool) -> (r: bool)
    ensures
        r == allowed_origin(origin@, text::views(extra@), loopback_address),
{
    match origin_host(origin) {
        Some(host) => is_allowed_host(host.as_str(), extra, loopback_address),
        None => false,
    }
}

/// What a request says of itself.
#[derive(Debug)]
pub struct RequestFacts {
    /// `GET`, `HEAD` or `OPTIONS`: the request changes nothing.
    pub read_only: bool,
    /// The header `Host`, or the authority of the address.
    pub host: Option<String>,
    /// Whether the host is an IP address of this computer.
    pub host_is_loopback_address: bool,
    /// The header `Origin`.
    pub has_origin: bool,
    /// The text of the header `Origin`, where it is one.
    pub origin: Option<String>,
    /// Whether the host of the origin is an IP address of this computer.
    pub origin_is_loopback_address: bool,
}

pub open spec fn foreign_state_change(f: RequestFacts, extra: Seq<Seq<char>>) -> bool {
    !f.read_only && f.has_origin && match f.origin {
        Some(origin) => !allowed_origin(origin@, extra, f.origin_is_loopback_address),
        None => true,
    }
}

/// Why a request is refused.
pub open spec fn spec_guard(f: RequestFacts, extra: Seq<Seq<char>>) -> Option<
    error::ApiErrorView,
> {
    match f.host {
        None => Some(
            error::ApiErrorView { status: 400, detail: "В запросе нет заголовка Host"@ },
        ),
        Some(host) => if !allowed_host(
            spec_strip_port(host@),
            extra,
            f.host_is_loopback_address,
        ) {
            Some(
                error::ApiErrorView {
                    status: 403,
                    detail: "Недопустимый заголовок Host «"@ + host@
                        + "». Если это адрес вашего компьютера в сети, добавьте его в SLOTH_ALLOWED_HOSTS"@,
                },
            )
        } else if foreign_state_change(f, extra) {
            Some(
                error::ApiErrorView {
                    status: 403,
                    detail: "Изменяющий запрос со страницы чужого сайта отклонён"@,
                },
            )
        } else {
            None
        },
    }
}

/// Lets a request pass, or says why it is refused.
pub fn guard_request(f: &RequestFacts, extra: &Vec<String>) -> (r: Result<(), ApiError>)
    ensures
        match spec_guard(*f, text::views(extra@)) {
            None => r is Ok,
            Some(e) => r is Err && r->Err_0@ == e,
        },
{
    let host = match &f.host {
        Some(host) => host,
        None => return Err(ApiError::bad_request("В запросе нет заголовка Host".to_owned())),
    };
    let bare = strip_port(host.as_str());
    if !is_allowed_host(bare.as_str(), extra, f.host_is_loopback_address) {
        return Err(
            ApiError::forbidden(
                text::join3(
                    "Недопустимый заголовок Host «",
                    host.as_str(),
                    "». Если это адрес вашего компьютера в сети, добавьте его в SLOTH_ALLOWED_HOSTS",
                ),
            ),
        );
    }
    let foreign = !f.read_only && f.has_origin && match &f.origin {
        Some(origin) => !is_allowed_origin(origin.as_str(), extra, f.origin_is_loopback_address),
        None => true,
    };
    if foreign {
        return Err(
            ApiError::forbidden("Изменяющий запрос со страницы чужого сайта отклонён".to_owned()),
        );
    }
    Ok(())
}

/// A request that passes has a host that is allowed, and if it changes something and names the page
/// that it comes from, that page is allowed too.
pub proof fn law_passed_request_is_local(f: RequestFacts, extra: Seq<Seq<char>>)
    requires
        spec_guard(f, extra) is None,
    ensures
        f.host is Some,
        allowed_host(spec_strip_port(f.host->0@), extra, f.host_is_loopback_address),
        !f.read_only && f.has_origin ==> f.origin is Some && allowed_origin(
            f.origin->0@,
            extra,
            f.origin_is_loopback_address,
        ),
{
}

} // verus!
