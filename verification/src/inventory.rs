//! What is known of a model from its files: a summary of the headers, and the size of the cache for
//! keys and values.

use vstd::prelude::*;

use crate::chat_store;
use crate::ggml::GGMLType;
use crate::gguf;
use crate::gguf::GGUFFile;

verus! {

/// What the interface and the estimate of memory need to know of a model.
#[derive(Debug)]
pub struct GgufSummary {
    pub architecture: Option<String>,
    pub context_length: Option<u64>,
    pub block_count: Option<u64>,
    pub embedding_length: Option<u64>,
    pub head_count: Option<u64>,
    pub head_count_kv: Option<u64>,
    pub key_length: Option<u64>,
    pub value_length: Option<u64>,
    pub expert_count: Option<u64>,
    /// Some layers look at the last tokens only.
    pub uses_sliding_window: bool,
    /// Several layers share a cache.
    pub shares_kv_between_layers: bool,
    /// The weights of all files.
    pub parameter_count: u64,
    pub tensor_count: u64,
    /// The template of the chat.
    pub chat_template: Option<String>,
}

#[verifier::ext_equal]
pub struct SummaryView {
    pub architecture: Option<Seq<char>>,
    pub context_length: Option<u64>,
    pub block_count: Option<u64>,
    pub embedding_length: Option<u64>,
    pub head_count: Option<u64>,
    pub head_count_kv: Option<u64>,
    pub key_length: Option<u64>,
    pub value_length: Option<u64>,
    pub expert_count: Option<u64>,
    pub uses_sliding_window: bool,
    pub shares_kv_between_layers: bool,
    pub parameter_count: u64,
    pub tensor_count: u64,
    pub chat_template: Option<Seq<char>>,
}

impl View for GgufSummary {
    type V = SummaryView;

    open spec fn view(&self) -> SummaryView {
        SummaryView {
            architecture: chat_store::opt_text(self.architecture),
            context_length: self.context_length,
            block_count: self.block_count,
            embedding_length: self.embedding_length,
            head_count: self.head_count,
            head_count_kv: self.head_count_kv,
            key_length: self.key_length,
            value_length: self.value_length,
            expert_count: self.expert_count,
            uses_sliding_window: self.uses_sliding_window,
            shares_kv_between_layers: self.shares_kv_between_layers,
            parameter_count: self.parameter_count,
            tensor_count: self.tensor_count,
            chat_template: chat_store::opt_text(self.chat_template),
        }
    }
}

impl Default for GgufSummary {
    fn default() -> (r: Self)
        ensures
            r@ == (SummaryView {
                architecture: None,
                context_length: None,
                block_count: None,
                embedding_length: None,
                head_count: None,
                head_count_kv: None,
                key_length: None,
                value_length: None,
                expert_count: None,
                uses_sliding_window: false,
                shares_kv_between_layers: false,
                parameter_count: 0,
                tensor_count: 0,
                chat_template: None,
            }),
    {
        GgufSummary {
            architecture: None,
            context_length: None,
            block_count: None,
            embedding_length: None,
            head_count: None,
            head_count_kv: None,
            key_length: None,
            value_length: None,
            expert_count: None,
            uses_sliding_window: false,
            shares_kv_between_layers: false,
            parameter_count: 0,
            tensor_count: 0,
            chat_template: None,
        }
    }
}

pub open spec fn held(n: int) -> u64 {
    if n > u64::MAX {
        u64::MAX
    } else {
        n as u64
    }
}

pub open spec fn weights_of(v: gguf::ParsedView) -> int {
    gguf::sum_elements(v.tensors, v.tensors.len() as int)
}

pub open spec fn text_value(v: gguf::ParsedView, key: Seq<char>) -> Option<Seq<char>> {
    match gguf::lookup(v.metadata, key) {
        Some(m) => m.spec_str(),
        None => None,
    }
}

/// The summary of one file.
pub open spec fn summary_of(v: gguf::ParsedView) -> SummaryView {
    SummaryView {
        architecture: v.spec_architecture(),
        context_length: v.spec_arch_u64("context_length"@),
        block_count: v.spec_arch_u64("block_count"@),
        embedding_length: v.spec_arch_u64("embedding_length"@),
        head_count: v.spec_arch_u64("attention.head_count"@),
        head_count_kv: v.spec_arch_u64("attention.head_count_kv"@),
        key_length: v.spec_arch_u64("attention.key_length"@),
        value_length: v.spec_arch_u64("attention.value_length"@),
        expert_count: v.spec_arch_u64("expert_count"@),
        uses_sliding_window: v.spec_arch_value("attention.sliding_window"@) is Some,
        shares_kv_between_layers: match v.spec_arch_u64("attention.shared_kv_layers"@) {
            Some(n) => n > 0,
            None => false,
        },
        parameter_count: held(weights_of(v)),
        tensor_count: v.tensor_count,
        chat_template: text_value(v, "tokenizer.chat_template"@),
    }
}

fn owned(s: Option<&str>) -> (r: Option<String>)
    ensures
        chat_store::opt_text(r) == (match s {
            Some(t) => Some(t@),
            None => None,
        }),
{
    match s {
        Some(t) => Some(t.to_owned()),
        None => None,
    }
}

impl GgufSummary {
    /// The summary of one file.
    pub fn from_file(file: &GGUFFile<'_>) -> (r: Self)
        requires
            file.wf(),
        ensures
            r@ == summary_of(file@),
    {
        let shared = match file.arch_u64("attention.shared_kv_layers") {
            Some(layers) => layers > 0,
            None => false,
        };
        let template = match file.value("tokenizer.chat_template") {
            Some(v) => v.as_str(),
            None => None,
        };
        GgufSummary {
            architecture: owned(file.architecture()),
            context_length: file.context_length(),
            block_count: file.block_count(),
            embedding_length: file.embedding_length(),
            head_count: file.head_count(),
            head_count_kv: file.head_count_kv(),
            key_length: file.arch_u64("attention.key_length"),
            value_length: file.arch_u64("attention.value_length"),
            expert_count: file.arch_u64("expert_count"),
            uses_sliding_window: file.arch_value("attention.sliding_window").is_some(),
            shares_kv_between_layers: shared,
            parameter_count: file.parameter_count(),
            tensor_count: file.tensor_count,
            chat_template: owned(template),
        }
    }

    /// The number of layers with experts: all of them if the model has experts, else none.
    pub fn moe_layer_count(&self) -> (r: Option<u64>)
        ensures
            r == (match self@.expert_count {
                Some(experts) => if experts > 0 {
                    self@.block_count
                } else {
                    Some(0)
                },
                None => Some(0u64),
            }),
    {
        match self.expert_count {
            Some(experts) => if experts > 0 {
                self.block_count
            } else {
                Some(0)
            },
            None => Some(0),
        }
    }
}

pub open spec fn files_view(s: Seq<GGUFFile<'_>>) -> Seq<gguf::ParsedView> {
    Seq::new(s.len(), |i: int| s[i]@)
}

/// The weights of the first `n` files, each held at the largest number.
pub open spec fn more_weights(s: Seq<gguf::ParsedView>, n: int) -> int
    decreases n,
{
    if n <= 0 {
        0
    } else {
        more_weights(s, n - 1) + held(weights_of(s[n - 1]))
    }
}

pub open spec fn more_tensors(s: Seq<gguf::ParsedView>, n: int) -> int
    decreases n,
{
    if n <= 0 {
        0
    } else {
        more_tensors(s, n - 1) + s[n - 1].tensor_count
    }
}

/// The summary of a model: that of the first file, with the weights and tensors of the others.
pub fn summarize(first: &GGUFFile<'_>, others: &Vec<GGUFFile<'_>>) -> (r: GgufSummary)
    requires
        first.wf(),
    ensures
        r@ == (SummaryView {
            parameter_count: held(
                held(weights_of(first@)) + more_weights(
                    files_view(others@),
                    others@.len() as int,
                ),
            ),
            tensor_count: held(
                first@.tensor_count + more_tensors(files_view(others@), others@.len() as int),
            ),
            ..summary_of(first@)
        }),
{
    let mut summary = GgufSummary::from_file(first);
    let ghost view = files_view(others@);
    let ghost start = summary@;
    let mut i: usize = 0;
    while i < others.len()
        invariant
            i <= others@.len(),
            view == files_view(others@),
            more_weights(view, i as int) >= 0,
            more_tensors(view, i as int) >= 0,
            summary@ == (SummaryView {
                parameter_count: held(start.parameter_count + more_weights(view, i as int)),
                tensor_count: held(start.tensor_count + more_tensors(view, i as int)),
                ..start
            }),
        decreases others@.len() - i,
    {
        assert(view[i as int] == others@[i as int]@);
        summary.parameter_count =
        summary.parameter_count.saturating_add(others[i].parameter_count());
        summary.tensor_count = summary.tensor_count.saturating_add(others[i].tensor_count);
        i += 1;
    }
    summary
}

pub open spec fn or_option(a: Option<u64>, b: Option<u64>) -> Option<u64> {
    match a {
        Some(n) => Some(n),
        None => b,
    }
}

/// The size of a head where the file does not say: the embedding divided by the heads.
pub open spec fn head_dim(s: SummaryView) -> Option<u64> {
    match (s.embedding_length, s.head_count) {
        (Some(embedding), Some(heads)) => if heads == 0 {
            None
        } else {
            Some((embedding as int / heads as int) as u64)
        },
        _ => None,
    }
}

/// The bytes of a cache: for every layer and token the keys and values of all heads. Nothing where
/// a product does not fit in 64 bits.
pub open spec fn cache_size(
    n_ctx: int,
    layers: int,
    heads: int,
    key_length: int,
    value_length: int,
    bytes_per_block: int,
    elements_per_block: int,
) -> Option<u64> {
    let per_token = key_length + value_length;
    let elements = n_ctx * layers * heads * per_token;
    if n_ctx * layers <= u64::MAX && n_ctx * layers * heads <= u64::MAX && per_token <= u64::MAX
        && elements <= u64::MAX && elements * bytes_per_block <= u64::MAX {
        Some((elements * bytes_per_block / elements_per_block) as u64)
    } else {
        None
    }
}

pub open spec fn spec_kv_cache(s: SummaryView, n_ctx: u64, cache_type: GGMLType) -> Option<u64> {
    if s.uses_sliding_window || s.shares_kv_between_layers {
        None
    } else {
        match (
            s.block_count,
            or_option(s.head_count_kv, s.head_count),
            or_option(s.key_length, head_dim(s)),
            or_option(s.value_length, head_dim(s)),
            cache_type.spec_layout(),
        ) {
            (Some(layers), Some(heads), Some(k), Some(v), Some(layout)) => cache_size(
                n_ctx as int,
                layers as int,
                heads as int,
                k as int,
                v as int,
                layout.bytes_per_block as int,
                layout.elements_per_block as int,
            ),
            _ => None,
        }
    }
}

fn sized(
    n_ctx: u64,
    layers: u64,
    heads: u64,
    key_length: u64,
    value_length: u64,
    bytes_per_block: u64,
    elements_per_block: u64,
) -> (r: Option<u64>)
    requires
        elements_per_block > 0,
    ensures
        r == cache_size(
            n_ctx as int,
            layers as int,
            heads as int,
            key_length as int,
            value_length as int,
            bytes_per_block as int,
            elements_per_block as int,
        ),
{
    let a = n_ctx.checked_mul(layers)?;
    let b = a.checked_mul(heads)?;
    let per_token = key_length.checked_add(value_length)?;
    let elements = b.checked_mul(per_token)?;
    let bytes = elements.checked_mul(bytes_per_block)?;
    proof {
        assert(bytes as int / elements_per_block as int <= bytes) by (nonlinear_arith)
            requires
                elements_per_block > 0,
                bytes >= 0,
        ;
    }
    Some(bytes / elements_per_block)
}

/// The size of the cache for keys and values in bytes. Nothing for an architecture that needs
/// another formula, or where the header lacks a dimension: no number is invented.
pub fn kv_cache_bytes(summary: &GgufSummary, n_ctx: u64, cache_type: GGMLType) -> (r: Option<u64>)
    ensures
        r == spec_kv_cache(summary@, n_ctx, cache_type),
{
    if summary.uses_sliding_window || summary.shares_kv_between_layers {
        return None;
    }
    let layers = summary.block_count?;
    let kv_heads = match summary.head_count_kv {
        Some(n) => n,
        None => summary.head_count?,
    };
    let dim = match (summary.embedding_length, summary.head_count) {
        (Some(embedding), Some(heads)) => if heads == 0 {
            None
        } else {
            Some(embedding / heads)
        },
        _ => None,
    };
    let key_length = match summary.key_length {
        Some(n) => n,
        None => dim?,
    };
    let value_length = match summary.value_length {
        Some(n) => n,
        None => dim?,
    };
    let layout = cache_type.block_layout()?;
    sized(
        n_ctx,
        layers,
        kv_heads,
        key_length,
        value_length,
        layout.bytes_per_block,
        layout.elements_per_block,
    )
}

/// Where the cache of twice the context has a size, that of the context has one too, and it is not
/// larger.
pub proof fn law_cache_grows_with_the_context(s: SummaryView, n_ctx: u64, cache_type: GGMLType)
    requires
        2 * n_ctx <= u64::MAX,
        spec_kv_cache(s, (2 * n_ctx) as u64, cache_type) is Some,
    ensures
        spec_kv_cache(s, n_ctx, cache_type) is Some,
        spec_kv_cache(s, n_ctx, cache_type)->0 <= spec_kv_cache(
            s,
            (2 * n_ctx) as u64,
            cache_type,
        )->0,
{
    let layers = s.block_count->0 as int;
    let heads = or_option(s.head_count_kv, s.head_count)->0 as int;
    let per_token = or_option(s.key_length, head_dim(s))->0 + or_option(
        s.value_length,
        head_dim(s),
    )->0;
    let layout = cache_type.spec_layout()->0;
    let b = layout.bytes_per_block as int;
    let e = layout.elements_per_block as int;
    let n = n_ctx as int;
    lemma_doubled(n, layers, heads, per_token, b, e);
}

proof fn lemma_doubled(n: int, layers: int, heads: int, per_token: int, b: int, e: int)
    requires
        n >= 0,
        layers >= 0,
        heads >= 0,
        per_token >= 0,
        b >= 0,
        e > 0,
    ensures
        0 <= n * layers <= 2 * n * layers,
        0 <= n * layers * heads <= 2 * n * layers * heads,
        0 <= n * layers * heads * per_token <= 2 * n * layers * heads * per_token,
        0 <= n * layers * heads * per_token * b <= 2 * n * layers * heads * per_token * b,
        0 <= n * layers * heads * per_token * b / e <= 2 * n * layers * heads * per_token * b / e,
{
    assert(2 * n * layers == 2 * (n * layers)) by (nonlinear_arith);
    assert(0 <= n * layers) by (nonlinear_arith)
        requires
            n >= 0,
            layers >= 0,
    ;
    let a = n * layers;
    let a2 = 2 * n * layers;
    assert(0 <= a * heads <= a2 * heads) by (nonlinear_arith)
        requires
            0 <= a <= a2,
            heads >= 0,
    ;
    let c = a * heads;
    let c2 = a2 * heads;
    assert(0 <= c * per_token <= c2 * per_token) by (nonlinear_arith)
        requires
            0 <= c <= c2,
            per_token >= 0,
    ;
    let d = c * per_token;
    let d2 = c2 * per_token;
    assert(0 <= d * b <= d2 * b) by (nonlinear_arith)
        requires
            0 <= d <= d2,
            b >= 0,
    ;
    let x = d * b;
    let x2 = d2 * b;
    assert(0 <= x / e <= x2 / e) by (nonlinear_arith)
        requires
            0 <= x <= x2,
            e > 0,
    ;
}

} // verus!
