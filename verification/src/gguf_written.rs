//! The GGUF format from the other side: the bytes in which a file is written, and that they are read
//! back.

use vstd::prelude::*;
use vstd::utf8::*;

use crate::ggml;
use crate::gguf;
use crate::gguf::{GGUF_MAGIC, MAX_DIMENSIONS, MAX_VALUE_NESTING, MIN_KV_BYTES, MIN_TENSOR_INFO_BYTES};

verus! {

/// Whether bytes stand in a file from a position on.
pub open spec fn stands(d: Seq<u8>, pos: int, part: Seq<u8>) -> bool {
    0 <= pos && pos + part.len() <= d.len() && d.subrange(pos, pos + part.len()) == part
}

proof fn lemma_split(d: Seq<u8>, pos: int, a: Seq<u8>, b: Seq<u8>)
    requires
        stands(d, pos, a + b),
    ensures
        stands(d, pos, a),
        stands(d, pos + a.len(), b),
{
    let whole = d.subrange(pos, pos + (a + b).len());
    assert(d.subrange(pos, pos + a.len()) =~= whole.subrange(0, a.len() as int));
    assert(whole.subrange(0, a.len() as int) =~= a);
    assert(d.subrange(pos + a.len(), pos + a.len() + b.len()) =~= whole.subrange(
        a.len() as int,
        whole.len() as int,
    ));
    assert(whole.subrange(a.len() as int, whole.len() as int) =~= b);
}

// ---------- numbers and texts ----------

/// The `n` bytes of a number, the lowest first.
pub open spec fn put_uint(v: int, n: int) -> Seq<u8>
    decreases n,
{
    if n <= 0 {
        Seq::empty()
    } else {
        seq![(v % 256) as u8] + put_uint(v / 256, n - 1)
    }
}

proof fn lemma_uint_len(v: int, n: int)
    requires
        n >= 0,
    ensures
        put_uint(v, n).len() == n,
    decreases n,
{
    if n > 0 {
        lemma_uint_len(v / 256, n - 1);
    }
}

proof fn lemma_read_uint(d: Seq<u8>, pos: int, v: int, n: int, what: Seq<char>)
    requires
        stands(d, pos, put_uint(v, n)),
        0 <= v < gguf::byte_range(n),
        n >= 0,
    ensures
        gguf::spec_uint(d, pos, n, what) == Ok::<(int, int), gguf::ErrorView>((v, pos + n)),
        put_uint(v, n).len() == n,
    decreases n,
{
    lemma_uint_len(v, n);
    if n > 0 {
        let low = seq![(v % 256) as u8];
        lemma_split(d, pos, low, put_uint(v / 256, n - 1));
        assert(d.subrange(pos, pos + 1)[0] == d[pos]);
        lemma_read_uint(d, pos + 1, v / 256, n - 1, what);
        assert(gguf::le_uint(d, pos + 1, n - 1) == v / 256);
    }
}

/// A text: its length in bytes, then the bytes.
pub open spec fn put_text(s: Seq<char>) -> Seq<u8> {
    put_uint(encode_utf8(s).len() as int, 8) + encode_utf8(s)
}

/// Whether the length of a text can be written.
pub open spec fn short_text(s: Seq<char>) -> bool {
    encode_utf8(s).len() <= u64::MAX
}

proof fn lemma_read_text(d: Seq<u8>, pos: int, s: Seq<char>, what: Seq<char>)
    requires
        stands(d, pos, put_text(s)),
        short_text(s),
    ensures
        gguf::spec_string(d, pos, what) == Ok::<(Seq<char>, int), gguf::ErrorView>(
            (s, pos + put_text(s).len()),
        ),
        put_text(s).len() == 8 + encode_utf8(s).len(),
{
    let bytes = encode_utf8(s);
    gguf::lemma_byte_range_values();
    lemma_split(d, pos, put_uint(bytes.len() as int, 8), bytes);
    lemma_read_uint(d, pos, bytes.len() as int, 8, what);
    encode_utf8_valid_utf8(s);
    encode_utf8_decode_utf8(s);
    assert(d.subrange(pos + 8, pos + 8 + bytes.len()) == bytes);
}

// ---------- values ----------

/// The number of a value's type.
pub open spec fn type_of(v: gguf::MetaValue) -> int {
    match v {
        gguf::MetaValue::Uint8(_) => 0,
        gguf::MetaValue::Int8(_) => 1,
        gguf::MetaValue::Uint16(_) => 2,
        gguf::MetaValue::Int16(_) => 3,
        gguf::MetaValue::Uint32(_) => 4,
        gguf::MetaValue::Int32(_) => 5,
        gguf::MetaValue::Float32(_) => 6,
        gguf::MetaValue::Bool(_) => 7,
        gguf::MetaValue::String(_) => 8,
        gguf::MetaValue::Array(_) => 9,
        gguf::MetaValue::Uint64(_) => 10,
        gguf::MetaValue::Int64(_) => 11,
        gguf::MetaValue::Float64(_) => 12,
    }
}

/// The number with the same `n` bytes that is not negative.
pub open spec fn unsigned(v: int, n: int) -> int {
    if v >= 0 {
        v
    } else {
        v + gguf::byte_range(n)
    }
}

/// The type of the elements of an array; that of an empty one is as good as any.
pub open spec fn element_type(items: Seq<gguf::MetaValue>) -> int {
    if items.len() == 0 {
        0
    } else {
        type_of(items[0])
    }
}

/// The bytes of a value.
pub open spec fn put_value(v: gguf::MetaValue) -> Seq<u8>
    decreases v, 0int,
{
    match v {
        gguf::MetaValue::Uint8(x) => put_uint(x as int, 1),
        gguf::MetaValue::Int8(x) => put_uint(unsigned(x as int, 1), 1),
        gguf::MetaValue::Uint16(x) => put_uint(x as int, 2),
        gguf::MetaValue::Int16(x) => put_uint(unsigned(x as int, 2), 2),
        gguf::MetaValue::Uint32(x) => put_uint(x as int, 4),
        gguf::MetaValue::Int32(x) => put_uint(unsigned(x as int, 4), 4),
        gguf::MetaValue::Float32(x) => put_uint(x as int, 4),
        gguf::MetaValue::Bool(x) => put_uint(
            if x {
                1
            } else {
                0
            },
            1,
        ),
        gguf::MetaValue::String(s) => put_text(s),
        gguf::MetaValue::Array(items) => put_uint(element_type(items), 4) + (put_uint(
            items.len() as int,
            8,
        ) + put_values(items, items.len() as int)),
        gguf::MetaValue::Uint64(x) => put_uint(x as int, 8),
        gguf::MetaValue::Int64(x) => put_uint(unsigned(x as int, 8), 8),
        gguf::MetaValue::Float64(x) => put_uint(x as int, 8),
    }
}

/// The bytes of the first `n` values, one after the other.
pub open spec fn put_values(items: Seq<gguf::MetaValue>, n: int) -> Seq<u8>
    decreases items, n,
{
    if n <= 0 || n > items.len() {
        Seq::empty()
    } else {
        put_values(items, n - 1) + put_value(items[n - 1])
    }
}

/// Whether a value can be written inside `depth` arrays: texts and arrays are not too long, the
/// elements of an array are of one type, and arrays are not nested too deep.
pub open spec fn writable(v: gguf::MetaValue, depth: int) -> bool
    decreases v,
{
    match v {
        gguf::MetaValue::String(s) => short_text(s),
        gguf::MetaValue::Array(items) => {
            &&& depth < MAX_VALUE_NESTING
            &&& items.len() <= u64::MAX
            &&& forall|i: int|
                0 <= i < items.len() ==> type_of(#[trigger] items[i]) == element_type(items)
                    && writable(items[i], depth + 1)
        },
        _ => true,
    }
}

proof fn lemma_read_scalar(d: Seq<u8>, pos: int, v: gguf::MetaValue, depth: int)
    requires
        stands(d, pos, put_value(v)),
        !(v is String),
        !(v is Array),
    ensures
        gguf::spec_value(d, pos, type_of(v), depth) == Ok::<
            (gguf::MetaValue, int),
            gguf::ErrorView,
        >((v, pos + put_value(v).len())),
        gguf::spec_min_value_bytes(type_of(v)) == Some(put_value(v).len() as int),
{
    gguf::lemma_byte_range_values();
    let what = "значение метаданных"@;
    match v {
        gguf::MetaValue::Uint8(x) => lemma_read_uint(d, pos, x as int, 1, what),
        gguf::MetaValue::Int8(x) => lemma_read_uint(d, pos, unsigned(x as int, 1), 1, what),
        gguf::MetaValue::Uint16(x) => lemma_read_uint(d, pos, x as int, 2, what),
        gguf::MetaValue::Int16(x) => lemma_read_uint(d, pos, unsigned(x as int, 2), 2, what),
        gguf::MetaValue::Uint32(x) => lemma_read_uint(d, pos, x as int, 4, what),
        gguf::MetaValue::Int32(x) => lemma_read_uint(d, pos, unsigned(x as int, 4), 4, what),
        gguf::MetaValue::Float32(x) => lemma_read_uint(d, pos, x as int, 4, what),
        gguf::MetaValue::Bool(x) => {
            let n: int = if x {
                1
            } else {
                0
            };
            lemma_read_uint(d, pos, n, 1, what);
        },
        gguf::MetaValue::Uint64(x) => lemma_read_uint(d, pos, x as int, 8, what),
        gguf::MetaValue::Int64(x) => lemma_read_uint(d, pos, unsigned(x as int, 8), 8, what),
        gguf::MetaValue::Float64(x) => lemma_read_uint(d, pos, x as int, 8, what),
        _ => {},
    }
}

proof fn lemma_value_len(v: gguf::MetaValue)
    ensures
        gguf::spec_min_value_bytes(type_of(v)) is Some,
        1 <= gguf::spec_min_value_bytes(type_of(v))->0 <= put_value(v).len(),
{
    match v {
        gguf::MetaValue::Array(items) => {
            lemma_uint_len(element_type(items), 4);
            lemma_uint_len(items.len() as int, 8);
        },
        gguf::MetaValue::String(s) => {
            lemma_uint_len(encode_utf8(s).len() as int, 8);
        },
        gguf::MetaValue::Uint8(x) => lemma_uint_len(x as int, 1),
        gguf::MetaValue::Int8(x) => lemma_uint_len(unsigned(x as int, 1), 1),
        gguf::MetaValue::Uint16(x) => lemma_uint_len(x as int, 2),
        gguf::MetaValue::Int16(x) => lemma_uint_len(unsigned(x as int, 2), 2),
        gguf::MetaValue::Uint32(x) => lemma_uint_len(x as int, 4),
        gguf::MetaValue::Int32(x) => lemma_uint_len(unsigned(x as int, 4), 4),
        gguf::MetaValue::Float32(x) => lemma_uint_len(x as int, 4),
        gguf::MetaValue::Bool(x) => {
            lemma_uint_len(1, 1);
            lemma_uint_len(0, 1);
        },
        gguf::MetaValue::Uint64(x) => lemma_uint_len(x as int, 8),
        gguf::MetaValue::Int64(x) => lemma_uint_len(unsigned(x as int, 8), 8),
        gguf::MetaValue::Float64(x) => lemma_uint_len(x as int, 8),
    }
}

proof fn lemma_values_len(items: Seq<gguf::MetaValue>, min: int, n: int)
    requires
        0 <= n <= items.len(),
        forall|i: int| 0 <= i < items.len() ==> type_of(#[trigger] items[i]) == element_type(items),
        items.len() > 0 ==> gguf::spec_min_value_bytes(element_type(items)) == Some(min),
    ensures
        n * min <= put_values(items, n).len(),
    decreases n,
{
    if n > 0 {
        lemma_values_len(items, min, n - 1);
        lemma_value_len(items[n - 1]);
        assert(n * min == (n - 1) * min + min) by (nonlinear_arith);
    } else {
        assert(0 * min == 0) by (nonlinear_arith);
    }
}

proof fn lemma_read_value(d: Seq<u8>, pos: int, v: gguf::MetaValue, depth: int)
    requires
        stands(d, pos, put_value(v)),
        writable(v, depth),
        0 <= depth <= MAX_VALUE_NESTING,
    ensures
        gguf::spec_value(d, pos, type_of(v), depth) == Ok::<
            (gguf::MetaValue, int),
            gguf::ErrorView,
        >((v, pos + put_value(v).len())),
    decreases v, 0int,
{
    match v {
        gguf::MetaValue::String(s) => {
            lemma_read_text(d, pos, s, "значение метаданных"@);
        },
        gguf::MetaValue::Array(items) => {
            let n = items.len() as int;
            let kind = element_type(items);
            let rest = put_uint(n, 8) + put_values(items, n);
            gguf::lemma_byte_range_values();
            lemma_split(d, pos, put_uint(kind, 4), rest);
            lemma_read_uint(d, pos, kind, 4, "тип элементов массива"@);
            lemma_split(d, pos + 4, put_uint(n, 8), put_values(items, n));
            lemma_read_uint(d, pos + 4, n, 8, "массив метаданных"@);
            if n > 0 {
                lemma_value_len(items[0]);
            }
            let min = gguf::spec_min_value_bytes(kind)->0;
            lemma_values_len(items, min, n);
            lemma_read_values(d, pos + 12, items, depth + 1, n);
            assert(items.take(n) =~= items);
        },
        _ => {
            lemma_read_scalar(d, pos, v, depth);
        },
    }
}

proof fn lemma_read_values(
    d: Seq<u8>,
    pos: int,
    items: Seq<gguf::MetaValue>,
    depth: int,
    n: int,
)
    requires
        0 <= n <= items.len(),
        stands(d, pos, put_values(items, n)),
        0 <= depth <= MAX_VALUE_NESTING,
        forall|i: int|
            0 <= i < items.len() ==> type_of(#[trigger] items[i]) == element_type(items)
                && writable(items[i], depth),
    ensures
        gguf::spec_values(d, pos, element_type(items), depth, n) == Ok::<
            (Seq<gguf::MetaValue>, int),
            gguf::ErrorView,
        >((items.take(n), pos + put_values(items, n).len())),
    decreases items, n,
{
    if n > 0 {
        lemma_split(d, pos, put_values(items, n - 1), put_value(items[n - 1]));
        lemma_read_values(d, pos, items, depth, n - 1);
        lemma_read_value(d, pos + put_values(items, n - 1).len(), items[n - 1], depth);
        assert(items.take(n) =~= items.take(n - 1).push(items[n - 1]));
    } else {
        assert(items.take(0) =~= Seq::<gguf::MetaValue>::empty());
    }
}

// ---------- records ----------

/// The bytes of a record of the metadata: key, type and value.
pub open spec fn put_entry(e: gguf::Entry) -> Seq<u8> {
    put_text(e.0) + (put_uint(type_of(e.1), 4) + put_value(e.1))
}

/// The bytes of the first `n` records.
pub open spec fn put_entries(entries: Seq<gguf::Entry>, n: int) -> Seq<u8>
    decreases n,
{
    if n <= 0 {
        Seq::empty()
    } else {
        put_entries(entries, n - 1) + put_entry(entries[n - 1])
    }
}

/// Records that can be written: no key twice.
pub open spec fn writable_entries(entries: Seq<gguf::Entry>) -> bool {
    &&& entries.len() <= u64::MAX
    &&& forall|i: int|
        0 <= i < entries.len() ==> short_text((#[trigger] entries[i]).0) && writable(
            entries[i].1,
            0,
        )
    &&& forall|i: int, j: int|
        0 <= i < j < entries.len() ==> (#[trigger] entries[i]).0 != (#[trigger] entries[j]).0
}

proof fn lemma_read_entry(d: Seq<u8>, pos: int, e: gguf::Entry)
    requires
        stands(d, pos, put_entry(e)),
        short_text(e.0),
        writable(e.1, 0),
    ensures
        gguf::spec_entry(d, pos) == Ok::<(gguf::Entry, int), gguf::ErrorView>(
            (e, pos + put_entry(e).len()),
        ),
        put_entry(e).len() >= MIN_KV_BYTES,
{
    let rest = put_uint(type_of(e.1), 4) + put_value(e.1);
    gguf::lemma_byte_range_values();
    lemma_split(d, pos, put_text(e.0), rest);
    lemma_read_text(d, pos, e.0, "ключ метаданных"@);
    let p = pos + put_text(e.0).len();
    lemma_split(d, p, put_uint(type_of(e.1), 4), put_value(e.1));
    lemma_read_uint(d, p, type_of(e.1), 4, "тип значения"@);
    lemma_read_value(d, p + 4, e.1, 0);
    lemma_value_len(e.1);
}

proof fn lemma_read_entries(d: Seq<u8>, pos: int, entries: Seq<gguf::Entry>, n: int)
    requires
        0 <= n <= entries.len(),
        stands(d, pos, put_entries(entries, n)),
        writable_entries(entries),
    ensures
        gguf::spec_entries(d, pos, n) == Ok::<(Seq<gguf::Entry>, int), gguf::ErrorView>(
            (entries.take(n), pos + put_entries(entries, n).len()),
        ),
        n * MIN_KV_BYTES <= put_entries(entries, n).len(),
    decreases n,
{
    if n > 0 {
        let e = entries[n - 1];
        lemma_split(d, pos, put_entries(entries, n - 1), put_entry(e));
        lemma_read_entries(d, pos, entries, n - 1);
        lemma_read_entry(d, pos + put_entries(entries, n - 1).len(), e);
        let before = entries.take(n - 1);
        if gguf::has_key(before, e.0) {
            let i = choose|i: int| 0 <= i < before.len() && (#[trigger] before[i]).0 == e.0;
            assert(entries[i].0 == entries[n - 1].0);
        }
        assert(entries.take(n) =~= before.push(e));
    } else {
        assert(entries.take(0) =~= Seq::<gguf::Entry>::empty());
    }
}

/// The bytes of the first `n` dimensions.
pub open spec fn put_dimensions(dims: Seq<u64>, n: int) -> Seq<u8>
    decreases n,
{
    if n <= 0 {
        Seq::empty()
    } else {
        put_dimensions(dims, n - 1) + put_uint(dims[n - 1] as int, 8)
    }
}

proof fn lemma_read_dimensions(d: Seq<u8>, pos: int, dims: Seq<u64>, n: int)
    requires
        0 <= n <= dims.len(),
        stands(d, pos, put_dimensions(dims, n)),
    ensures
        gguf::spec_dimensions(d, pos, n) == Ok::<(Seq<u64>, int), gguf::ErrorView>(
            (dims.take(n), pos + put_dimensions(dims, n).len()),
        ),
    decreases n,
{
    if n > 0 {
        gguf::lemma_byte_range_values();
        lemma_split(d, pos, put_dimensions(dims, n - 1), put_uint(dims[n - 1] as int, 8));
        lemma_read_dimensions(d, pos, dims, n - 1);
        lemma_read_uint(
            d,
            pos + put_dimensions(dims, n - 1).len(),
            dims[n - 1] as int,
            8,
            "размерность тензора"@,
        );
        assert(dims.take(n) =~= dims.take(n - 1).push(dims[n - 1]));
    } else {
        assert(dims.take(0) =~= Seq::<u64>::empty());
    }
}

/// The bytes of a record of a tensor: name, dimensions, type and offset.
pub open spec fn put_tensor(t: gguf::TensorView) -> Seq<u8> {
    put_text(t.name) + (put_uint(t.dimensions.len() as int, 4) + (put_dimensions(
        t.dimensions,
        t.dimensions.len() as int,
    ) + (put_uint(t.tensor_type.spec_id() as int, 4) + put_uint(t.offset as int, 8))))
}

/// The bytes of the first `n` records of tensors.
pub open spec fn put_tensors(tensors: Seq<gguf::TensorView>, n: int) -> Seq<u8>
    decreases n,
{
    if n <= 0 {
        Seq::empty()
    } else {
        put_tensors(tensors, n - 1) + put_tensor(tensors[n - 1])
    }
}

/// A tensor that can be written: its numbers are those that its dimensions and its type give.
pub open spec fn writable_tensor(t: gguf::TensorView) -> bool {
    &&& short_text(t.name)
    &&& t.dimensions.len() <= MAX_DIMENSIONS
    &&& ggml::type_of_id(t.tensor_type.spec_id()) == t.tensor_type
    &&& gguf::spec_describe(t.name, t.dimensions, t.tensor_type, t.offset) == Ok::<
        gguf::TensorView,
        gguf::ErrorView,
    >(t)
}

/// Tensors that can be written: no name twice.
pub open spec fn writable_tensors(tensors: Seq<gguf::TensorView>) -> bool {
    &&& tensors.len() <= u64::MAX
    &&& forall|i: int| 0 <= i < tensors.len() ==> writable_tensor(#[trigger] tensors[i])
    &&& forall|i: int, j: int|
        0 <= i < j < tensors.len() ==> (#[trigger] tensors[i]).name != (#[trigger] tensors[j]).name
}

proof fn lemma_read_tensor(d: Seq<u8>, pos: int, t: gguf::TensorView)
    requires
        stands(d, pos, put_tensor(t)),
        writable_tensor(t),
    ensures
        gguf::spec_tensor(d, pos) == Ok::<(gguf::TensorView, int), gguf::ErrorView>(
            (t, pos + put_tensor(t).len()),
        ),
        put_tensor(t).len() >= MIN_TENSOR_INFO_BYTES,
{
    let n = t.dimensions.len() as int;
    let id = t.tensor_type.spec_id() as int;
    let end = put_uint(id, 4) + put_uint(t.offset as int, 8);
    let dims = put_dimensions(t.dimensions, n);
    gguf::lemma_byte_range_values();
    lemma_split(d, pos, put_text(t.name), put_uint(n, 4) + (dims + end));
    lemma_read_text(d, pos, t.name, "имя тензора"@);
    let p1 = pos + put_text(t.name).len();
    lemma_split(d, p1, put_uint(n, 4), dims + end);
    lemma_read_uint(d, p1, n, 4, "число измерений"@);
    lemma_split(d, p1 + 4, dims, end);
    lemma_read_dimensions(d, p1 + 4, t.dimensions, n);
    assert(t.dimensions.take(n) =~= t.dimensions);
    let p3 = p1 + 4 + dims.len();
    lemma_split(d, p3, put_uint(id, 4), put_uint(t.offset as int, 8));
    lemma_read_uint(d, p3, id, 4, "тип тензора"@);
    lemma_read_uint(d, p3 + 4, t.offset as int, 8, "смещение тензора"@);
}

proof fn lemma_read_tensors(d: Seq<u8>, pos: int, tensors: Seq<gguf::TensorView>, n: int)
    requires
        0 <= n <= tensors.len(),
        stands(d, pos, put_tensors(tensors, n)),
        writable_tensors(tensors),
    ensures
        gguf::spec_tensors(d, pos, n) == Ok::<(Seq<gguf::TensorView>, int), gguf::ErrorView>(
            (tensors.take(n), pos + put_tensors(tensors, n).len()),
        ),
        n * MIN_TENSOR_INFO_BYTES <= put_tensors(tensors, n).len(),
    decreases n,
{
    if n > 0 {
        let t = tensors[n - 1];
        lemma_split(d, pos, put_tensors(tensors, n - 1), put_tensor(t));
        lemma_read_tensors(d, pos, tensors, n - 1);
        lemma_read_tensor(d, pos + put_tensors(tensors, n - 1).len(), t);
        let before = tensors.take(n - 1);
        if gguf::has_tensor(before, t.name) {
            let i = choose|i: int| 0 <= i < before.len() && (#[trigger] before[i]).name == t.name;
            assert(tensors[i].name == tensors[n - 1].name);
        }
        assert(tensors.take(n) =~= before.push(t));
    } else {
        assert(tensors.take(0) =~= Seq::<gguf::TensorView>::empty());
    }
}

// ---------- files ----------

/// What goes into a file.
#[verifier::ext_equal]
pub struct Contents {
    pub version: int,
    pub metadata: Seq<gguf::Entry>,
    pub tensors: Seq<gguf::TensorView>,
    pub data: Seq<u8>,
}

/// The bytes behind the four numbers at the start of a file.
pub open spec fn put_records(c: Contents) -> Seq<u8> {
    put_entries(c.metadata, c.metadata.len() as int) + put_tensors(
        c.tensors,
        c.tensors.len() as int,
    )
}

/// The bytes before the data section.
pub open spec fn put_head(c: Contents) -> Seq<u8> {
    put_uint(GGUF_MAGIC as int, 4) + (put_uint(c.version, 4) + (put_uint(
        c.tensors.len() as int,
        8,
    ) + (put_uint(c.metadata.len() as int, 8) + put_records(c))))
}

/// Where the data section begins.
pub open spec fn data_start(c: Contents) -> int {
    gguf::spec_align_up(put_head(c).len() as int, gguf::spec_alignment(c.metadata)->Ok_0 as int)
}

/// The bytes of a file: the head, zeros up to the data section, and the data.
pub open spec fn put_file(c: Contents) -> Seq<u8> {
    put_head(c) + (Seq::new((data_start(c) - put_head(c).len()) as nat, |i: int| 0u8) + c.data)
}

/// Contents that make a file: the records can be written, the alignment that the metadata ask for
/// is one, and the data hold every tensor.
pub open spec fn writable_contents(c: Contents) -> bool {
    &&& 2 <= c.version <= 3
    &&& writable_entries(c.metadata)
    &&& writable_tensors(c.tensors)
    &&& gguf::spec_alignment(c.metadata) is Ok
    &&& put_head(c).len() + gguf::spec_alignment(c.metadata)->Ok_0 - 1 <= u64::MAX
    &&& forall|i: int|
        0 <= i < c.tensors.len() ==> gguf::data_end(#[trigger] c.tensors[i], 0) <= c.data.len()
}

proof fn lemma_all_inside(tensors: Seq<gguf::TensorView>, start: int, len: int, n: int)
    requires
        n <= tensors.len(),
        forall|i: int| 0 <= i < n ==> gguf::data_end(#[trigger] tensors[i], start) <= len,
    ensures
        gguf::first_outside(tensors, start, len, n) is None,
    decreases n,
{
    if n > 0 {
        lemma_all_inside(tensors, start, len, n - 1);
    }
}

proof fn lemma_align_up(value: int, alignment: int)
    requires
        value >= 0,
        alignment > 0,
    ensures
        value <= gguf::spec_align_up(value, alignment) <= value + alignment - 1,
{
    let r = (value + alignment - 1) % alignment;
    assert(0 <= r < alignment) by (nonlinear_arith)
        requires
            alignment > 0,
            r == (value + alignment - 1) % alignment,
    ;
}

/// The four numbers at the start of a file, and where the records stand.
#[verifier::rlimit(40)]
proof fn lemma_read_numbers(d: Seq<u8>, c: Contents)
    requires
        stands(d, 0, put_head(c)),
        2 <= c.version <= 3,
        c.metadata.len() <= u64::MAX,
        c.tensors.len() <= u64::MAX,
    ensures
        gguf::spec_parse(d) == gguf::spec_body(
            d,
            24,
            c.version,
            c.tensors.len() as int,
            c.metadata.len() as int,
        ),
        stands(d, 24, put_records(c)),
        put_head(c).len() == 24 + put_records(c).len(),
{
    let (nt, nm) = (c.tensors.len() as int, c.metadata.len() as int);
    gguf::lemma_byte_range_values();
    let r4 = put_records(c);
    let r3 = put_uint(nm, 8) + r4;
    let r2 = put_uint(nt, 8) + r3;
    let r1 = put_uint(c.version, 4) + r2;
    lemma_split(d, 0, put_uint(GGUF_MAGIC as int, 4), r1);
    lemma_read_uint(d, 0, GGUF_MAGIC as int, 4, "магическое число"@);
    lemma_split(d, 4, put_uint(c.version, 4), r2);
    lemma_read_uint(d, 4, c.version, 4, "версия"@);
    lemma_split(d, 8, put_uint(nt, 8), r3);
    lemma_read_uint(d, 8, nt, 8, "число тензоров"@);
    lemma_split(d, 16, put_uint(nm, 8), r4);
    lemma_read_uint(d, 16, nm, 8, "число ключей метаданных"@);
}

/// What a file holds.
pub open spec fn parsed(c: Contents) -> gguf::ParsedView {
    gguf::ParsedView {
        version: c.version as u32,
        tensor_count: c.tensors.len() as u64,
        metadata_kv_count: c.metadata.len() as u64,
        metadata: c.metadata,
        tensors: c.tensors,
        data_offset: data_start(c) as u64,
        alignment: gguf::spec_alignment(c.metadata)->Ok_0,
    }
}

#[verifier::rlimit(40)]
proof fn lemma_read_body(d: Seq<u8>, c: Contents)
    requires
        writable_contents(c),
        stands(d, 24, put_records(c)),
        put_head(c).len() == 24 + put_records(c).len(),
        d.len() == data_start(c) + c.data.len(),
    ensures
        gguf::spec_body(
            d,
            24,
            c.version,
            c.tensors.len() as int,
            c.metadata.len() as int,
        ) == Ok::<gguf::ParsedView, gguf::ErrorView>(parsed(c)),
{
    let (nt, nm) = (c.tensors.len() as int, c.metadata.len() as int);
    let entries = put_entries(c.metadata, nm);
    let tensors = put_tensors(c.tensors, nt);
    lemma_split(d, 24, entries, tensors);
    lemma_read_entries(d, 24, c.metadata, nm);
    assert(c.metadata.take(nm) =~= c.metadata);
    let p = (24 + entries.len()) as int;
    lemma_read_tensors(d, p, c.tensors, nt);
    assert(c.tensors.take(nt) =~= c.tensors);
    assert forall|i: int| 0 <= i < nt implies gguf::data_end(
        #[trigger] c.tensors[i],
        data_start(c),
    ) <= d.len() by {
        assert(gguf::data_end(c.tensors[i], 0) <= c.data.len());
    }
    lemma_all_inside(c.tensors, data_start(c), d.len() as int, nt);
}

/// A file is read as what was written into it.
#[verifier::rlimit(40)]
pub proof fn law_written_file_is_read_back(c: Contents)
    requires
        writable_contents(c),
    ensures
        gguf::spec_parse(put_file(c)) == Ok::<gguf::ParsedView, gguf::ErrorView>(parsed(c)),
        put_file(c).len() == data_start(c) + c.data.len(),
{
    let d = put_file(c);
    let head = put_head(c);
    gguf::lemma_alignment_positive(c.metadata);
    lemma_align_up(head.len() as int, gguf::spec_alignment(c.metadata)->Ok_0 as int);
    assert(d.subrange(0, head.len() as int) =~= head);
    lemma_read_numbers(d, c);
    lemma_read_body(d, c);
}

proof fn lemma_tensor_is_found(v: gguf::ParsedView, i: int)
    requires
        0 <= i < v.tensors.len(),
        forall|a: int, b: int|
            0 <= a < b < v.tensors.len() ==> (#[trigger] v.tensors[a]).name != (
            #[trigger] v.tensors[b]).name,
    ensures
        v.spec_tensor_info(v.tensors[i].name) == Some(v.tensors[i]),
{
    let name = v.tensors[i].name;
    let k = choose|k: int| 0 <= k < v.tensors.len() && (#[trigger] v.tensors[k]).name == name;
    assert(v.tensors[i].name == name);
    if k < i {
        assert(v.tensors[k].name != v.tensors[i].name);
    } else if i < k {
        assert(v.tensors[i].name != v.tensors[k].name);
    }
}

proof fn lemma_data_start(c: Contents)
    requires
        writable_contents(c),
    ensures
        0 <= data_start(c) <= u64::MAX,
{
    gguf::lemma_alignment_positive(c.metadata);
    lemma_align_up(
        put_head(c).len() as int,
        gguf::spec_alignment(c.metadata)->Ok_0 as int,
    );
}

/// A written file whose last byte belongs to a tensor is refused wherever it is cut short.
#[verifier::rlimit(40)]
pub proof fn law_written_file_cut_short_is_refused(c: Contents, i: int, len: int)
    requires
        writable_contents(c),
        0 <= i < c.tensors.len(),
        gguf::data_end(c.tensors[i], 0) == c.data.len(),
        0 <= len < put_file(c).len(),
    ensures
        gguf::spec_parse(put_file(c).subrange(0, len)) is Err,
{
    law_written_file_is_read_back(c);
    lemma_data_start(c);
    lemma_tensor_is_found(parsed(c), i);
    lemma_cut_short(put_file(c), parsed(c), c.tensors[i], len);
}

proof fn lemma_cut_short(d: Seq<u8>, v: gguf::ParsedView, t: gguf::TensorView, len: int)
    requires
        gguf::spec_parse(d) == Ok::<gguf::ParsedView, gguf::ErrorView>(v),
        v.spec_tensor_info(t.name) == Some(t),
        gguf::data_end(t, v.data_offset as int) == d.len(),
        0 <= len < d.len(),
    ensures
        gguf::spec_parse(d.subrange(0, len)) is Err,
{
    gguf::law_truncated_file_is_refused(d, v, t.name, len);
}

} // verus!
