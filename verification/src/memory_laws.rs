//! What an estimate of memory can rely on: how the cache follows from the numbers of a header, and the
//! whole from its parts.

use vstd::prelude::*;

use crate::ggml::GGMLType;
use crate::inference;
use crate::inventory;

verus! {

/// A header that gives the layers, the heads and the sizes of keys and values.
pub open spec fn plain(s: inventory::SummaryView, layers: u64, heads: u64, key: u64, value: u64) -> bool {
    &&& !s.uses_sliding_window
    &&& !s.shares_kv_between_layers
    &&& s.block_count == Some(layers)
    &&& s.head_count_kv == Some(heads)
    &&& s.key_length == Some(key)
    &&& s.value_length == Some(value)
}

proof fn lemma_grows(a: int, b: int)
    requires
        a >= 0,
        b >= 1,
    ensures
        0 <= a <= a * b,
{
    assert(0 <= a <= a * b) by (nonlinear_arith)
        requires
            a >= 0,
            b >= 1,
    ;
}

proof fn lemma_products(n: int, layers: int, heads: int, width: int, bytes: int)
    requires
        n >= 0,
        layers >= 1,
        heads >= 1,
        width >= 1,
        bytes >= 1,
    ensures
        0 <= n * layers <= n * layers * heads * width * bytes,
        0 <= n * layers * heads <= n * layers * heads * width * bytes,
        0 <= n * layers * heads * width <= n * layers * heads * width * bytes,
{
    lemma_grows(n, layers);
    lemma_grows(n * layers, heads);
    lemma_grows(n * layers * heads, width);
    lemma_grows(n * layers * heads * width, bytes);
}

/// The cache holds a key and a value for every token of the context, every layer and every head: at
/// 16 bits each number takes two bytes, at 32 bits four, and a block of 32 numbers takes 34 or 18
/// bytes in the smaller types.
pub proof fn law_cache_holds_keys_and_values(
    s: inventory::SummaryView,
    n_ctx: u64,
    layers: u64,
    heads: u64,
    key: u64,
    value: u64,
)
    requires
        plain(s, layers, heads, key, value),
        layers >= 1,
        heads >= 1,
        1 <= key + value <= u64::MAX,
        n_ctx * layers * heads * (key + value) * 34 <= u64::MAX,
    ensures
        inventory::spec_kv_cache(s, n_ctx, GGMLType::F16) == Some(
            (n_ctx * layers * heads * (key + value) * 2) as u64,
        ),
        inventory::spec_kv_cache(s, n_ctx, GGMLType::BF16) == Some(
            (n_ctx * layers * heads * (key + value) * 2) as u64,
        ),
        inventory::spec_kv_cache(s, n_ctx, GGMLType::F32) == Some(
            (n_ctx * layers * heads * (key + value) * 4) as u64,
        ),
        inventory::spec_kv_cache(s, n_ctx, GGMLType::Q8_0) == Some(
            (n_ctx * layers * heads * (key + value) * 34 / 32) as u64,
        ),
        inventory::spec_kv_cache(s, n_ctx, GGMLType::Q4_0) == Some(
            (n_ctx * layers * heads * (key + value) * 18 / 32) as u64,
        ),
{
    lemma_products(n_ctx as int, layers as int, heads as int, key + value, 34);
}

/// The cache is as large as that many numbers of its type are elsewhere.
pub proof fn law_cache_is_as_large_as_its_numbers(
    s: inventory::SummaryView,
    n_ctx: u64,
    layers: u64,
    heads: u64,
    key: u64,
    value: u64,
    cache_type: GGMLType,
)
    requires
        plain(s, layers, heads, key, value),
        n_ctx * layers * heads * (key + value) <= u64::MAX,
        inventory::spec_kv_cache(s, n_ctx, cache_type) is Some,
        cache_type.spec_data_size((n_ctx * layers * heads * (key + value)) as u64) is Some,
    ensures
        inventory::spec_kv_cache(s, n_ctx, cache_type) == cache_type.spec_data_size(
            (n_ctx * layers * heads * (key + value)) as u64,
        ),
{
    let layout = cache_type.spec_layout()->0;
    let e = layout.elements_per_block as int;
    let b = layout.bytes_per_block as int;
    let x = n_ctx * layers * heads * (key + value);
    assert(e > 0);
    assert(x * b / e == (x / e) * b) by (nonlinear_arith)
        requires
            x % e == 0,
            e > 0,
    {
        let q = x / e;
        assert(x == e * q);
        assert(x * b == e * (q * b));
        assert((e * (q * b)) / e == q * b);
    }
}

/// A header without the sizes of keys and values, whose heads divide the embedding, has the cache of
/// a header that gives the embedding divided by the heads as both.
pub proof fn law_head_size_comes_from_the_embedding(
    s: inventory::SummaryView,
    n_ctx: u64,
    cache_type: GGMLType,
    heads: u64,
    size: u64,
)
    requires
        s.key_length is None,
        s.value_length is None,
        s.head_count == Some(heads),
        heads > 0,
        s.embedding_length matches Some(embedding) && embedding == heads * size,
    ensures
        inventory::spec_kv_cache(s, n_ctx, cache_type) == inventory::spec_kv_cache(
            inventory::SummaryView { key_length: Some(size), value_length: Some(size), ..s },
            n_ctx,
            cache_type,
        ),
{
    let embedding = s.embedding_length->0 as int;
    assert(embedding / (heads as int) == size) by (nonlinear_arith)
        requires
            embedding == heads * size,
            heads > 0,
    ;
}

/// Each of the two sizes that a header leaves out is filled in by itself: the one that is there stays.
pub proof fn law_given_head_size_stays(
    s: inventory::SummaryView,
    n_ctx: u64,
    cache_type: GGMLType,
    heads: u64,
    size: u64,
)
    requires
        s.head_count == Some(heads),
        heads > 0,
        s.embedding_length matches Some(embedding) && heads * size <= embedding < heads * (size + 1),
    ensures
        s.key_length is None ==> inventory::spec_kv_cache(s, n_ctx, cache_type)
            == inventory::spec_kv_cache(
            inventory::SummaryView { key_length: Some(size), ..s },
            n_ctx,
            cache_type,
        ),
        s.value_length is None ==> inventory::spec_kv_cache(s, n_ctx, cache_type)
            == inventory::spec_kv_cache(
            inventory::SummaryView { value_length: Some(size), ..s },
            n_ctx,
            cache_type,
        ),
{
    let embedding = s.embedding_length->0 as int;
    assert(embedding / (heads as int) == size) by (nonlinear_arith)
        requires
            heads * size <= embedding < heads * (size + 1),
            heads > 0,
    ;
}

/// Where every head has keys and values of its own, the cache is two embeddings for every token and
/// layer: four bytes per number of the embedding at 16 bits.
pub proof fn law_cache_of_two_embeddings(
    s: inventory::SummaryView,
    n_ctx: u64,
    layers: u64,
    heads: u64,
    embedding: u64,
)
    requires
        !s.uses_sliding_window,
        !s.shares_kv_between_layers,
        s.key_length is None,
        s.value_length is None,
        s.block_count == Some(layers),
        s.head_count == Some(heads),
        s.head_count_kv is None || s.head_count_kv == Some(heads),
        s.embedding_length == Some(embedding),
        layers >= 1,
        heads >= 1,
        1 <= embedding,
        2 * embedding <= u64::MAX,
        embedding as int % heads as int == 0,
        n_ctx * layers * 2 * embedding * 4 <= u64::MAX,
    ensures
        inventory::spec_kv_cache(s, n_ctx, GGMLType::F16) == Some(
            (n_ctx * layers * 2 * embedding * 2) as u64,
        ),
        inventory::spec_kv_cache(s, n_ctx, GGMLType::F32) == Some(
            (n_ctx * layers * 2 * embedding * 4) as u64,
        ),
{
    let size = embedding as int / heads as int;
    let h = heads as int;
    let e = embedding as int;
    assert(h * size == e && 1 <= size <= e) by (nonlinear_arith)
        requires
            size == e / h,
            e % h == 0,
            h >= 1,
            e >= 1,
    ;
    let n = n_ctx as int;
    let l = layers as int;
    assert(n * l * h * (size + size) == n * l * 2 * e) by (nonlinear_arith)
        requires
            h * size == e,
    ;
    lemma_products(n, l, h, size + size, 4);
}

/// A header that does not say how many heads have keys and values has as many as it has heads.
pub proof fn law_heads_have_their_own_keys(s: inventory::SummaryView, n_ctx: u64, cache_type: GGMLType)
    requires
        s.head_count_kv is None,
    ensures
        inventory::spec_kv_cache(s, n_ctx, cache_type) == inventory::spec_kv_cache(
            inventory::SummaryView { head_count_kv: s.head_count, ..s },
            n_ctx,
            cache_type,
        ),
{
}

/// No number is invented: an architecture that needs another formula, a header that lacks a
/// dimension and a type without a layout have no size.
pub proof fn law_no_size_is_invented(s: inventory::SummaryView, n_ctx: u64, cache_type: GGMLType)
    ensures
        s.uses_sliding_window ==> inventory::spec_kv_cache(s, n_ctx, cache_type) is None,
        s.shares_kv_between_layers ==> inventory::spec_kv_cache(s, n_ctx, cache_type) is None,
        s.block_count is None ==> inventory::spec_kv_cache(s, n_ctx, cache_type) is None,
        s.head_count_kv is None && s.head_count is None ==> inventory::spec_kv_cache(
            s,
            n_ctx,
            cache_type,
        ) is None,
        (s.key_length is None || s.value_length is None) && (s.embedding_length is None
            || s.head_count is None || s.head_count == Some(0u64)) ==> inventory::spec_kv_cache(
            s,
            n_ctx,
            cache_type,
        ) is None,
        cache_type is Unknown ==> inventory::spec_kv_cache(s, n_ctx, cache_type) is None,
{
}

/// An estimate is for the context that is asked for, else for that of the model, else for 4096 tokens;
/// it adds the files, the cache and 256 MiB for computing.
pub proof fn law_estimate_adds_up(
    size_bytes: u64,
    s: inventory::SummaryView,
    n_ctx: Option<u64>,
    cache_type: GGMLType,
)
    ensures
        n_ctx matches Some(n) ==> n > 0 ==> inference::spec_size(
            size_bytes,
            s,
            n_ctx,
            cache_type,
        ).n_ctx == n,
        (n_ctx is None || n_ctx == Some(0u64)) ==> inference::spec_size(
            size_bytes,
            s,
            n_ctx,
            cache_type,
        ).n_ctx == (match s.context_length {
            Some(native) => native,
            None => 4096,
        }),
        inference::spec_size(size_bytes, s, n_ctx, cache_type).weights_bytes == size_bytes,
        inference::spec_size(size_bytes, s, n_ctx, cache_type).compute_bytes == 256 * 1024 * 1024,
        inference::spec_size(size_bytes, s, n_ctx, cache_type).kv_bytes == inventory::spec_kv_cache(
            s,
            inference::spec_size(size_bytes, s, n_ctx, cache_type).n_ctx,
            cache_type,
        ),
        inference::spec_size(size_bytes, s, n_ctx, cache_type).kv_bytes matches Some(kv) ==> size_bytes
            + kv + 256 * 1024 * 1024 <= u64::MAX ==> inference::spec_size(
            size_bytes,
            s,
            n_ctx,
            cache_type,
        ).total_bytes == size_bytes + kv + 256 * 1024 * 1024,
        inference::spec_size(size_bytes, s, n_ctx, cache_type).kv_bytes is None && size_bytes + 256
            * 1024 * 1024 <= u64::MAX ==> inference::spec_size(
            size_bytes,
            s,
            n_ctx,
            cache_type,
        ).total_bytes == size_bytes + 256 * 1024 * 1024,
{
}

} // verus!
