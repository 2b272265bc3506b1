//! What requests mean: texts, lists, nodes of the cluster, cards, addresses and tokens.

use vstd::prelude::*;

use crate::chat_api;
use crate::cluster;
use crate::cluster::{ClusterError, Latency, StepGradients};
use crate::cluster_api;
use crate::cluster_api::RegisterWorkerRequest;
use crate::error;
use crate::hf_api;
use crate::json;
use crate::messages;
use crate::names;
use crate::paths::PathRejection;
use crate::telemetry;
use crate::telemetry::{Card, MemoryBudget};
use crate::text;

verus! {

// ---------- messages of a chat ----------

proof fn lemma_parts_before(parts: Seq<json::JsonView>, part: json::JsonView, n: int)
    requires
        0 <= n <= parts.len(),
    ensures
        chat_api::joined_parts(parts.push(part), n) == chat_api::joined_parts(parts, n),
        chat_api::texts_of(parts.push(part), n) == chat_api::texts_of(parts, n),
        chat_api::paths_of(parts.push(part), n) == chat_api::paths_of(parts, n),
    decreases n,
{
    if n > 0 {
        lemma_parts_before(parts, part, n - 1);
    }
}

/// The text of a message is its content, or the texts of its parts one after the other; a part without a
/// text adds nothing.
pub proof fn law_texts_of_parts_are_joined(
    parts: Seq<json::JsonView>,
    part: json::JsonView,
    s: Seq<char>,
    rendered: Seq<char>,
)
    ensures
        chat_api::spec_text_content(json::JsonView::Text(s), rendered) == s,
        chat_api::spec_text_content(json::JsonView::Array(Seq::empty()), rendered) == Seq::<
            char,
        >::empty(),
        json::text_of(json::member(part, "text"@)) matches Some(t) ==> chat_api::spec_text_content(
            json::JsonView::Array(parts.push(part)),
            rendered,
        ) == chat_api::spec_text_content(json::JsonView::Array(parts), rendered) + t,
        json::text_of(json::member(part, "text"@)) is None ==> chat_api::spec_text_content(
            json::JsonView::Array(parts.push(part)),
            rendered,
        ) == chat_api::spec_text_content(json::JsonView::Array(parts), rendered),
{
    lemma_parts_before(parts, part, parts.len() as int);
}

/// A list of texts holds the texts of the array in their order, and nothing else.
pub proof fn law_lists_hold_the_texts(items: Seq<json::JsonView>, item: json::JsonView, s: Seq<char>)
    ensures
        chat_api::spec_string_list(None) == Seq::<Seq<char>>::empty(),
        chat_api::spec_string_list(Some(json::JsonView::Array(items.push(json::JsonView::Text(s)))))
            == chat_api::spec_string_list(Some(json::JsonView::Array(items))).push(s),
        !(item is Text) ==> chat_api::spec_string_list(Some(json::JsonView::Array(items.push(item))))
            == chat_api::spec_string_list(Some(json::JsonView::Array(items))),
        chat_api::spec_string_list(Some(item)).len() > 0 ==> chat_api::spec_paths(
            Some(json::JsonView::Array(items.push(item))),
        ) == chat_api::spec_paths(Some(json::JsonView::Array(items))).push(
            chat_api::spec_string_list(Some(item)),
        ),
        chat_api::spec_string_list(Some(item)).len() == 0 ==> chat_api::spec_paths(
            Some(json::JsonView::Array(items.push(item))),
        ) == chat_api::spec_paths(Some(json::JsonView::Array(items))),
{
    lemma_parts_before(items, json::JsonView::Text(s), items.len() as int);
    lemma_parts_before(items, item, items.len() as int);
}

/// A batch is an array of messages, alone or as the field `messages`.
pub proof fn law_batch_is_an_array(items: Seq<json::JsonView>, o: json::Fields)
    ensures
        chat_api::batch_messages(json::JsonView::Array(items)) == items,
        chat_api::batch_messages(
            json::JsonView::Object(json::with(o, "messages"@, json::JsonView::Array(items))),
        ) == items,
        json::field(o, "messages"@) is None ==> chat_api::batch_messages(json::JsonView::Object(o))
            == Seq::<json::JsonView>::empty(),
{
    json::law_set_field_is_read_back(
        o,
        "messages"@,
        json::JsonView::Array(items),
        "messages"@,
    );
}

// ---------- nodes ----------

/// A node is registered as it says, without blanks around its name and its card, at the address that it
/// names, else at that of its connection.
pub proof fn law_node_is_registered_as_it_says(
    request: RegisterWorkerRequest,
    parsed: Option<Seq<char>>,
    connection: Option<Seq<char>>,
    now_ms: u64,
)
    ensures
        cluster_api::spec_check_registration(request, parsed, connection, now_ms) matches Ok(w) ==> {
            &&& w.worker_id == text::trimmed(request.worker_id@)
            &&& 0 < w.worker_id.len() <= 128
            &&& w.gpu_name == text::trimmed(request.gpu_name@)
            &&& 0 < w.gpu_name.len() <= 256
            &&& w.vram_mb == request.vram_mb
            &&& 1 <= w.vram_mb <= 1_048_576
            &&& w.last_seen_ms == now_ms
            &&& request.ip is None ==> connection == Some(w.ip)
            &&& (request.ip matches Some(ip) ==> text::trimmed(ip@).len() > 0 ==> parsed == Some(w.ip))
            &&& request.latency_ms is None ==> w.latency_ms is None
            &&& (request.latency_ms matches Some(bits) ==> w.latency_ms is Some ==> w.latency_ms == Some(
                Latency::Reported(bits),
            ))
        },
        cluster_api::spec_check_registration(request, parsed, connection, now_ms) matches Err(e)
            ==> e.status == 422,
        0 < text::trimmed(request.worker_id@).len() <= 128 && 0 < text::trimmed(request.gpu_name@).len()
            <= 256 && 1 <= request.vram_mb <= 1_048_576 && parsed is Some && connection is Some
            ==> cluster_api::spec_check_registration(request, parsed, connection, now_ms) is Ok,
{
}

proof fn lemma_first_not_finite(grads: Seq<u32>, n: int)
    requires
        0 <= n <= grads.len(),
    ensures
        match cluster_api::first_not_finite(grads, n) {
            Some(i) => 0 <= i < n && !cluster::finite_bits(grads[i]) && forall|k: int|
                0 <= k < i ==> cluster::finite_bits(#[trigger] grads[k]),
            None => forall|k: int| 0 <= k < n ==> cluster::finite_bits(#[trigger] grads[k]),
        },
    decreases n,
{
    if n > 0 {
        lemma_first_not_finite(grads, n - 1);
    }
}

/// Gradients are taken if there are some, all of them finite, for the step of the master and as many as the
/// master has; else the answer says what is wrong.
pub proof fn law_gradients_that_are_taken(
    worker_step: Option<u32>,
    grads: Seq<u32>,
    master: Option<StepGradients>,
    k: int,
)
    ensures
        cluster_api::spec_check_sync(worker_step, grads, master) is None <==> {
            &&& grads.len() > 0
            &&& forall|i: int| 0 <= i < grads.len() ==> cluster::finite_bits(#[trigger] grads[i])
            &&& master matches Some(m) && m.gradients@.len() == grads.len() && (worker_step is None
                || worker_step == Some(m.step))
        },
        grads.len() == 0 ==> (cluster_api::spec_check_sync(worker_step, grads, master) matches Some(e)
            && e.status == 400),
        0 <= k < grads.len() && !cluster::finite_bits(grads[k]) ==> (cluster_api::spec_check_sync(
            worker_step,
            grads,
            master,
        ) matches Some(e) && e.status == 400),
        grads.len() > 0 && (forall|i: int|
            0 <= i < grads.len() ==> cluster::finite_bits(#[trigger] grads[i])) && master is None ==> (
        cluster_api::spec_check_sync(worker_step, grads, master) matches Some(e) && e.status == 409),
{
    lemma_first_not_finite(grads, grads.len() as int);
}

proof fn lemma_nodes_before(ws: Seq<cluster::WorkerView>, w: cluster::WorkerView, now_ms: u64, n: int)
    requires
        0 <= n <= ws.len(),
    ensures
        cluster_api::vram_sum(ws.push(w), n) == cluster_api::vram_sum(ws, n),
        cluster_api::online_count(ws.push(w), now_ms, n) == cluster_api::online_count(ws, now_ms, n),
    decreases n,
{
    if n > 0 {
        lemma_nodes_before(ws, w, now_ms, n - 1);
    }
}

/// One node more adds its memory, and one to those that are online if it was heard of in the last fifteen
/// seconds.
pub proof fn law_nodes_add_up(ws: Seq<cluster::WorkerView>, w: cluster::WorkerView, now_ms: u64)
    ensures
        cluster_api::vram_sum(Seq::empty(), 0) == 0,
        cluster_api::online_count(Seq::empty(), now_ms, 0) == 0,
        cluster_api::vram_sum(ws.push(w), (ws.len() + 1) as int) == cluster_api::vram_sum(
            ws,
            ws.len() as int,
        ) + w.vram_mb,
        cluster_api::online_count(ws.push(w), now_ms, (ws.len() + 1) as int)
            == cluster_api::online_count(ws, now_ms, ws.len() as int) + if now_ms - w.last_seen_ms
            <= 15_000 {
            1int
        } else {
            0int
        },
{
    lemma_nodes_before(ws, w, now_ms, ws.len() as int);
}

/// What is wrong with gradients is the fault of the node that sent them; the rest is the server's.
pub proof fn law_faults_of_gradients(e: ClusterError)
    ensures
        e is GradientLengthMismatch || e is PartialGradientBytes || e is NonFiniteGradient <==> (
        cluster_api::cluster_api_error(e).status == 400),
        e is WorkerNotRegistered || e is BarrierTimeout || e is Network <==> (
        cluster_api::cluster_api_error(e).status == 500),
{
}

// ---------- cards ----------

/// The memory in use is what others took of the whole, which is the whole without the budget, and what the
/// program uses itself; never more than the whole.
pub proof fn law_memory_in_use(total: u64, budget: MemoryBudget)
    ensures
        0 <= telemetry::spec_used_from_budget(total, budget) <= total,
        budget.budget_bytes <= total && budget.usage_bytes <= budget.budget_bytes
            ==> telemetry::spec_used_from_budget(total, budget) + (budget.budget_bytes
            - budget.usage_bytes) == total,
        budget.budget_bytes >= total && budget.usage_bytes <= total ==> telemetry::spec_used_from_budget(
            total,
            budget,
        ) == budget.usage_bytes,
{
}

/// Of the cards the one whose memory is nearest to the given size is taken; where two are as near, the first.
pub proof fn law_nearest_card_is_taken(cards: Seq<Card>, total: u64, i: int, k: int)
    requires
        0 <= i < cards.len(),
        0 <= k < cards.len(),
        telemetry::best_card(cards, Some(total), i),
    ensures
        cards[k].vram_total_bytes == total ==> cards[i].vram_total_bytes == total && i <= k,
        total <= cards[k].vram_total_bytes <= cards[i].vram_total_bytes ==> cards[k].vram_total_bytes
            == cards[i].vram_total_bytes && i <= k,
        cards[i].vram_total_bytes <= cards[k].vram_total_bytes <= total ==> cards[k].vram_total_bytes
            == cards[i].vram_total_bytes && i <= k,
{
    assert(telemetry::abs_diff(cards[i].vram_total_bytes as int, total as int) <= telemetry::abs_diff(
        cards[k].vram_total_bytes as int,
        total as int,
    ));
}

/// Without a size to compare, the card with the most memory is taken; of two such the last.
pub proof fn law_largest_card_is_taken(cards: Seq<Card>, i: int, k: int)
    requires
        0 <= i < cards.len(),
        0 <= k < cards.len(),
        telemetry::best_card(cards, None, i),
    ensures
        cards[k].vram_total_bytes <= cards[i].vram_total_bytes,
        cards[k].vram_total_bytes == cards[i].vram_total_bytes ==> k <= i,
{
}

/// A card is named `card` and a number.
pub proof fn law_names_of_cards(digits: Seq<char>, c: char)
    requires
        digits.len() > 0,
        text::all_digits(digits),
    ensures
        telemetry::card_name("card"@ + digits),
        !telemetry::card_name("card"@),
        !('0' <= c <= '9') ==> !telemetry::card_name("card"@ + digits.push(c)),
{
    reveal_strlit("card");
    let name = "card"@ + digits;
    assert(name.skip(4) =~= digits);
    assert(text::occurs_at(name, "card"@, 0)) by {
        assert(name.subrange(0, 4) =~= "card"@);
    }
    let other = "card"@ + digits.push(c);
    assert(other.skip(4) =~= digits.push(c));
    assert(digits.push(c)[digits.len() as int] == c);
}

// ---------- the hub's address and token ----------

/// The address of the hub is the one that is set, without slashes at its end; without one it is
/// `https://huggingface.co`.
pub proof fn law_address_of_the_hub(v: Seq<char>)
    ensures
        hf_api::spec_endpoint(None) == "https://huggingface.co"@,
        text::trimmed(v).len() == 0 ==> hf_api::spec_endpoint(Some(v)) == "https://huggingface.co"@,
        v.len() > 0 && v.last() != '/' && text::trimmed(v) == v ==> hf_api::spec_endpoint(Some(v)) == v,
        v.len() > 0 && v.last() != '/' && text::trimmed(v + seq!['/']) == v + seq!['/'] ==> (
        hf_api::spec_endpoint(Some(v + seq!['/'])) == v),
{
    let w = v + seq!['/'];
    assert(w.drop_last() =~= v);
    assert(w.last() == '/');
    reveal_with_fuel(text::without_trailing, 3);
}

/// Trees of repositories are kept by the name in small letters, with and without a token apart.
pub proof fn law_trees_are_kept_apart(a: Seq<char>, b: Seq<char>)
    ensures
        text::lower(a) == text::lower(b) ==> hf_api::spec_cache_key(a, true) == hf_api::spec_cache_key(
            b,
            true,
        ),
        hf_api::spec_cache_key(a, true) != hf_api::spec_cache_key(a, false),
        hf_api::spec_cache_key(a, true) == hf_api::spec_cache_key(b, true) ==> text::lower(a)
            == text::lower(b),
{
    reveal_strlit("true");
    reveal_strlit("false");
    reveal_strlit("::");
    let x = hf_api::spec_cache_key(a, true);
    let y = hf_api::spec_cache_key(a, false);
    let z = hf_api::spec_cache_key(b, true);
    assert(x.len() + 1 == y.len());
    if x == z {
        assert(text::lower(a).len() + 6 == x.len() && text::lower(b).len() + 6 == z.len());
        assert(x.take(x.len() - 6) =~= text::lower(a));
        assert(z.take(z.len() - 6) =~= text::lower(b));
    }
}

/// The answer of the hub tells whether a token is good.
pub proof fn law_answers_about_a_token(code: u16)
    ensures
        200 <= code <= 299 ==> hf_api::status_of(code) == "valid"@,
        code == 401 || code == 403 ==> hf_api::status_of(code) == "invalid"@,
        code == 429 ==> hf_api::status_of(code) == "rate_limited"@,
        code < 200 || 300 <= code <= 400 || code == 402 || 404 <= code <= 428 || code >= 430
            ==> hf_api::status_of(code) == "unavailable"@,
{
}

// ---------- errors ----------

/// A path that is bad, missing or outside the roots has an answer of its own.
pub proof fn law_answers_about_paths(what: Seq<char>)
    ensures
        error::path_error(PathRejection::Invalid, what).status == 400,
        error::path_error(PathRejection::NotFound, what).status == 404,
        error::path_error(PathRejection::OutsideRoots, what).status == 403,
{
}

/// A number of `n + 1` hexadecimal digits ends in the digit of its remainder by sixteen, behind the digits of
/// its quotient; the digits count up from `0` to `9` and from `a` to `f`.
pub proof fn law_hexadecimal_digits(n: int, digits: int, d: int)
    requires
        0 <= digits,
        0 <= d < 16,
    ensures
        messages::hex_of(n, 0) == Seq::<char>::empty(),
        messages::hex_of(n, digits + 1) == messages::hex_of(n / 16, digits).push(
            messages::hex_digit(n % 16),
        ),
        d <= 9 ==> messages::hex_digit(d) as int == '0' as int + d,
        d >= 10 ==> messages::hex_digit(d) as int == 'a' as int + d - 10,
{
}

// ---------- names ----------

/// A file belongs to a repository and a quantization if its name holds both, the repository without its owner
/// `unsloth` and without its ending.
pub proof fn law_file_with_both_names_matches(file: Seq<char>, repo: Seq<char>, quant: Seq<char>)
    ensures
        text::has_part(file, quant) && text::has_part(file, names::clean_repo(repo))
            ==> names::names_match(file, repo, quant),
        names::names_match(file, repo, quant) ==> text::has_part(file, quant) || text::has_suffix(
            file,
            "-"@ + quant + ".gguf"@,
        ) || text::has_suffix(file, "_"@ + quant + ".gguf"@) || text::has_suffix(
            file,
            "."@ + quant + ".gguf"@,
        ),
{
}

} // verus!
