//! Parser of GGUF, the file format of model weights in the ggml ecosystem.
//!
//! A file holds, in this order:
//! 1. a header: the magic number `GGUF`, the version, the number of tensors and of metadata keys;
//! 2. metadata, key to value (architecture, context length, tokenizer...);
//! 3. tensor descriptions: name, dimensions, storage type, offset of the data;
//! 4. the data section, aligned to `general.alignment` (32 bytes unless the metadata say otherwise).
//!
//! No number of the file is trusted: the length of every string and array and every number of
//! records is held against the bytes that are left, and the data of every tensor has to lie inside
//! the file.

use vstd::prelude::*;
use vstd::utf8::*;

pub use crate::ggml::{BlockLayout, GGMLType};
use crate::ggml;

verus! {

/// The magic number `GGUF`, read as a little-endian number.
pub const GGUF_MAGIC: u32 = 0x4655_4747;

/// Alignment of the data section where the metadata name no other.
pub const DEFAULT_ALIGNMENT: u64 = 32;

/// The largest number of dimensions of a tensor in ggml.
pub const MAX_DIMENSIONS: usize = 4;

/// Arrays of the metadata are nested no deeper than this.
pub const MAX_VALUE_NESTING: usize = 8;

/// The shortest metadata record: length of the key (8), type (4), value (at least 1).
pub const MIN_KV_BYTES: usize = 13;

/// The shortest tensor record: length of the name (8), number of dimensions (4), type (4),
/// offset (8).
pub const MIN_TENSOR_INFO_BYTES: usize = 24;

/// Why a file is not accepted.
#[derive(Debug)]
pub enum GGUFError {
    /// The magic number is another one.
    InvalidMagic(u32),
    /// Only versions 2 and 3 are read.
    UnsupportedVersion(u32),
    /// A type of metadata value that the format does not have.
    InvalidValueType(u32),
    /// A text that is not UTF-8.
    Utf8Error(std::string::FromUtf8Error),
    /// The file ends in the middle of this part.
    Truncated(&'static str),
    /// More records than the rest of the file can hold.
    CountTooLarge { what: &'static str, count: u64 },
    /// Arrays of metadata are nested too deep.
    NestingTooDeep,
    /// The alignment is no power of two.
    InvalidAlignment(u64),
    DuplicateKey(String),
    DuplicateTensor(String),
    TooManyDimensions { name: String, dims: u32 },
    ElementCountOverflow(String),
    /// The weights do not fill whole blocks of the type.
    PartialBlock { name: String, elements: u64, tensor_type: &'static str },
    TensorOutOfBounds(String),
    TensorNotFound(String),
}

/// An error with its texts as sequences of characters.
#[verifier::ext_equal]
pub enum ErrorView {
    InvalidMagic(nat),
    UnsupportedVersion(nat),
    InvalidValueType(nat),
    Utf8Error,
    Truncated(Seq<char>),
    CountTooLarge { what: Seq<char>, count: nat },
    NestingTooDeep,
    InvalidAlignment(nat),
    DuplicateKey(Seq<char>),
    DuplicateTensor(Seq<char>),
    TooManyDimensions { name: Seq<char>, dims: nat },
    ElementCountOverflow(Seq<char>),
    PartialBlock { name: Seq<char>, elements: nat, tensor_type: Seq<char> },
    TensorOutOfBounds(Seq<char>),
    TensorNotFound(Seq<char>),
}

impl View for GGUFError {
    type V = ErrorView;

    open spec fn view(&self) -> ErrorView {
        match *self {
            GGUFError::InvalidMagic(m) => ErrorView::InvalidMagic(m as nat),
            GGUFError::UnsupportedVersion(v) => ErrorView::UnsupportedVersion(v as nat),
            GGUFError::InvalidValueType(t) => ErrorView::InvalidValueType(t as nat),
            GGUFError::Utf8Error(_) => ErrorView::Utf8Error,
            GGUFError::Truncated(what) => ErrorView::Truncated(what@),
            GGUFError::CountTooLarge { what, count } => ErrorView::CountTooLarge {
                what: what@,
                count: count as nat,
            },
            GGUFError::NestingTooDeep => ErrorView::NestingTooDeep,
            GGUFError::InvalidAlignment(a) => ErrorView::InvalidAlignment(a as nat),
            GGUFError::DuplicateKey(key) => ErrorView::DuplicateKey(key@),
            GGUFError::DuplicateTensor(name) => ErrorView::DuplicateTensor(name@),
            GGUFError::TooManyDimensions { name, dims } => ErrorView::TooManyDimensions {
                name: name@,
                dims: dims as nat,
            },
            GGUFError::ElementCountOverflow(name) => ErrorView::ElementCountOverflow(name@),
            GGUFError::PartialBlock { name, elements, tensor_type } => ErrorView::PartialBlock {
                name: name@,
                elements: elements as nat,
                tensor_type: tensor_type@,
            },
            GGUFError::TensorOutOfBounds(name) => ErrorView::TensorOutOfBounds(name@),
            GGUFError::TensorNotFound(name) => ErrorView::TensorNotFound(name@),
        }
    }
}

/// A value of the metadata. Floating-point values are held as their bits.
#[derive(Debug)]
pub enum GGUFValue {
    Uint8(u8),
    Int8(i8),
    Uint16(u16),
    Int16(i16),
    Uint32(u32),
    Int32(i32),
    Float32(u32),
    Bool(bool),
    String(String),
    Array(Vec<GGUFValue>),
    Uint64(u64),
    Int64(i64),
    Float64(u64),
}

/// A metadata value with its texts and arrays as sequences.
#[verifier::ext_equal]
pub enum MetaValue {
    Uint8(u8),
    Int8(i8),
    Uint16(u16),
    Int16(i16),
    Uint32(u32),
    Int32(i32),
    Float32(u32),
    Bool(bool),
    String(Seq<char>),
    Array(Seq<MetaValue>),
    Uint64(u64),
    Int64(i64),
    Float64(u64),
}

pub open spec fn value_view(v: GGUFValue) -> MetaValue
    decreases v,
{
    match v {
        GGUFValue::Uint8(x) => MetaValue::Uint8(x),
        GGUFValue::Int8(x) => MetaValue::Int8(x),
        GGUFValue::Uint16(x) => MetaValue::Uint16(x),
        GGUFValue::Int16(x) => MetaValue::Int16(x),
        GGUFValue::Uint32(x) => MetaValue::Uint32(x),
        GGUFValue::Int32(x) => MetaValue::Int32(x),
        GGUFValue::Float32(x) => MetaValue::Float32(x),
        GGUFValue::Bool(x) => MetaValue::Bool(x),
        GGUFValue::String(x) => MetaValue::String(x@),
        GGUFValue::Array(x) => MetaValue::Array(values_view(x@)),
        GGUFValue::Uint64(x) => MetaValue::Uint64(x),
        GGUFValue::Int64(x) => MetaValue::Int64(x),
        GGUFValue::Float64(x) => MetaValue::Float64(x),
    }
}

pub open spec fn values_view(s: Seq<GGUFValue>) -> Seq<MetaValue>
    decreases s,
{
    if s.len() == 0 {
        Seq::empty()
    } else {
        values_view(s.drop_last()).push(value_view(s.last()))
    }
}

impl View for GGUFValue {
    type V = MetaValue;

    open spec fn view(&self) -> MetaValue {
        value_view(*self)
    }
}

/// The number that `n` bytes from `pos` on spell, the lowest byte first.
pub open spec fn le_uint(d: Seq<u8>, pos: int, n: int) -> int
    decreases n,
{
    if n <= 0 {
        0
    } else {
        d[pos] + 256 * le_uint(d, pos + 1, n - 1)
    }
}

/// How many numbers `n` bytes can spell.
pub open spec fn byte_range(n: int) -> int
    decreases n,
{
    if n <= 0 {
        1
    } else {
        256 * byte_range(n - 1)
    }
}

proof fn lemma_le_uint_bound(d: Seq<u8>, pos: int, n: int)
    ensures
        0 <= le_uint(d, pos, n) < byte_range(n),
    decreases n,
{
    if n > 0 {
        lemma_le_uint_bound(d, pos + 1, n - 1);
    }
}

pub(crate) proof fn lemma_byte_range_values()
    ensures
        byte_range(1) == 0x100,
        byte_range(2) == 0x1_0000,
        byte_range(4) == 0x1_0000_0000,
        byte_range(8) == 0x1_0000_0000_0000_0000,
{
    reveal_with_fuel(byte_range, 9);
}

/// The number with the same `n` bytes in two's complement.
pub open spec fn signed(v: int, n: int) -> int {
    if v < byte_range(n) / 2 {
        v
    } else {
        v - byte_range(n)
    }
}

/// What reading one part of a file gives: the part and the position after it.
pub type Step<T> = Result<(T, int), ErrorView>;

/// Reads a little-endian number of `n` bytes.
pub open spec fn spec_uint(d: Seq<u8>, pos: int, n: int, what: Seq<char>) -> Step<int> {
    if pos + n <= d.len() {
        Ok((le_uint(d, pos, n), pos + n))
    } else {
        Err(ErrorView::Truncated(what))
    }
}

/// Reads a text: its length in bytes, then the bytes.
pub open spec fn spec_string(d: Seq<u8>, pos: int, what: Seq<char>) -> Step<Seq<char>> {
    match spec_uint(d, pos, 8, what) {
        Err(e) => Err(e),
        Ok((len, p)) => if p + len > d.len() {
            Err(ErrorView::Truncated(what))
        } else if valid_utf8(d.subrange(p, p + len)) {
            Ok((decode_utf8(d.subrange(p, p + len)), p + len))
        } else {
            Err(ErrorView::Utf8Error)
        },
    }
}

/// Reads a number of records for which the rest of the file has at least `min` bytes each.
pub open spec fn spec_count(d: Seq<u8>, pos: int, min: int, what: Seq<char>) -> Step<int> {
    match spec_uint(d, pos, 8, what) {
        Err(e) => Err(e),
        Ok((count, p)) => if count * min <= d.len() - p {
            Ok((count, p))
        } else {
            Err(ErrorView::CountTooLarge { what, count: count as nat })
        },
    }
}

/// The shortest value of a type, in bytes.
pub open spec fn spec_min_value_bytes(value_type: int) -> Option<int> {
    if value_type == 0 || value_type == 1 || value_type == 7 {
        Some(1)
    } else if value_type == 2 || value_type == 3 {
        Some(2)
    } else if 4 <= value_type <= 6 {
        Some(4)
    } else if value_type == 8 || 10 <= value_type <= 12 {
        Some(8)
    } else if value_type == 9 {
        Some(12)
    } else {
        None
    }
}

/// The value that a number of the given scalar type stands for.
pub open spec fn scalar_value(value_type: int, v: int) -> MetaValue {
    if value_type == 0 {
        MetaValue::Uint8(v as u8)
    } else if value_type == 1 {
        MetaValue::Int8(signed(v, 1) as i8)
    } else if value_type == 2 {
        MetaValue::Uint16(v as u16)
    } else if value_type == 3 {
        MetaValue::Int16(signed(v, 2) as i16)
    } else if value_type == 4 {
        MetaValue::Uint32(v as u32)
    } else if value_type == 5 {
        MetaValue::Int32(signed(v, 4) as i32)
    } else if value_type == 6 {
        MetaValue::Float32(v as u32)
    } else if value_type == 7 {
        MetaValue::Bool(v != 0)
    } else if value_type == 10 {
        MetaValue::Uint64(v as u64)
    } else if value_type == 11 {
        MetaValue::Int64(signed(v, 8) as i64)
    } else {
        MetaValue::Float64(v as u64)
    }
}

/// Reads a metadata value of the given type; `depth` arrays are open around it.
pub open spec fn spec_value(d: Seq<u8>, pos: int, value_type: int, depth: int) -> Step<MetaValue>
    decreases MAX_VALUE_NESTING + 1 - depth, 0int,
{
    let what = "значение метаданных"@;
    if value_type == 8 {
        match spec_string(d, pos, what) {
            Err(e) => Err(e),
            Ok((text, p)) => Ok((MetaValue::String(text), p)),
        }
    } else if value_type == 9 {
        if depth >= MAX_VALUE_NESTING {
            Err(ErrorView::NestingTooDeep)
        } else {
            match spec_uint(d, pos, 4, "тип элементов массива"@) {
                Err(e) => Err(e),
                Ok((element_type, p)) => match spec_min_value_bytes(element_type) {
                    None => Err(ErrorView::InvalidValueType(element_type as nat)),
                    Some(min) => match spec_count(d, p, min, "массив метаданных"@) {
                        Err(e) => Err(e),
                        Ok((len, q)) => match spec_values(d, q, element_type, depth + 1, len) {
                            Err(e) => Err(e),
                            Ok((items, end)) => Ok((MetaValue::Array(items), end)),
                        },
                    },
                },
            }
        }
    } else {
        match spec_min_value_bytes(value_type) {
            None => Err(ErrorView::InvalidValueType(value_type as nat)),
            Some(n) => match spec_uint(d, pos, n, what) {
                Err(e) => Err(e),
                Ok((v, p)) => Ok((scalar_value(value_type, v), p)),
            },
        }
    }
}

/// Reads `n` values of the given type, one after the other.
pub open spec fn spec_values(
    d: Seq<u8>,
    pos: int,
    value_type: int,
    depth: int,
    n: int,
) -> Step<Seq<MetaValue>>
    decreases MAX_VALUE_NESTING + 1 - depth, n + 1,
    when depth <= MAX_VALUE_NESTING
{
    if n <= 0 {
        Ok((Seq::empty(), pos))
    } else {
        match spec_values(d, pos, value_type, depth, n - 1) {
            Err(e) => Err(e),
            Ok((items, p)) => match spec_value(d, p, value_type, depth) {
                Err(e) => Err(e),
                Ok((item, q)) => Ok((items.push(item), q)),
            },
        }
    }
}

/// Where a reader stands after a failed number of records: behind the number, if there was one.
pub open spec fn count_stop(d: Seq<u8>, pos: int, what: Seq<char>) -> int {
    match spec_uint(d, pos, 8, what) {
        Err(_) => pos,
        Ok((_, p)) => p,
    }
}

/// Where a reader stands after a failed text: behind the length, if there was one, and behind the
/// bytes, if they were all there.
pub open spec fn string_stop(d: Seq<u8>, pos: int, what: Seq<char>) -> int {
    match spec_uint(d, pos, 8, what) {
        Err(_) => pos,
        Ok((len, p)) => if len > d.len() - p {
            p
        } else {
            p + len
        },
    }
}

/// Where a reader stands after a failed value: where it was, if the type itself was refused, and
/// else where the part that failed left it.
pub open spec fn value_stop(d: Seq<u8>, pos: int, value_type: int, depth: int) -> int
    decreases MAX_VALUE_NESTING + 1 - depth, 0int,
{
    if value_type == 8 {
        string_stop(d, pos, "значение метаданных"@)
    } else if value_type == 9 && depth < MAX_VALUE_NESTING {
        match spec_uint(d, pos, 4, "тип элементов массива"@) {
            Err(_) => pos,
            Ok((element_type, p)) => match spec_min_value_bytes(element_type) {
                None => p,
                Some(min) => match spec_count(d, p, min, "массив метаданных"@) {
                    Err(_) => count_stop(d, p, "массив метаданных"@),
                    Ok((len, q)) => values_stop(d, q, element_type, depth + 1, len),
                },
            },
        }
    } else {
        pos
    }
}

/// Where a reader stands after a row of values of which one failed.
pub open spec fn values_stop(d: Seq<u8>, pos: int, value_type: int, depth: int, n: int) -> int
    decreases MAX_VALUE_NESTING + 1 - depth, n + 1,
    when depth <= MAX_VALUE_NESTING
{
    if n <= 0 {
        pos
    } else {
        match spec_values(d, pos, value_type, depth, n - 1) {
            Err(_) => values_stop(d, pos, value_type, depth, n - 1),
            Ok((_, p)) => value_stop(d, p, value_type, depth),
        }
    }
}

/// One record of the metadata: key and value.
pub type Entry = (Seq<char>, MetaValue);

pub open spec fn spec_entry(d: Seq<u8>, pos: int) -> Step<Entry> {
    match spec_string(d, pos, "ключ метаданных"@) {
        Err(e) => Err(e),
        Ok((key, p)) => match spec_uint(d, p, 4, "тип значения"@) {
            Err(e) => Err(e),
            Ok((value_type, q)) => match spec_value(d, q, value_type, 0) {
                Err(e) => Err(e),
                Ok((value, end)) => Ok(((key, value), end)),
            },
        },
    }
}

/// Whether a key is among the records.
pub open spec fn has_key(entries: Seq<Entry>, key: Seq<char>) -> bool {
    exists|i: int| 0 <= i < entries.len() && (#[trigger] entries[i]).0 == key
}

/// Reads `n` records of metadata, no key twice.
pub open spec fn spec_entries(d: Seq<u8>, pos: int, n: int) -> Step<Seq<Entry>>
    decreases n,
{
    if n <= 0 {
        Ok((Seq::empty(), pos))
    } else {
        match spec_entries(d, pos, n - 1) {
            Err(e) => Err(e),
            Ok((entries, p)) => match spec_entry(d, p) {
                Err(e) => Err(e),
                Ok((entry, q)) => if has_key(entries, entry.0) {
                    Err(ErrorView::DuplicateKey(entry.0))
                } else {
                    Ok((entries.push(entry), q))
                },
            },
        }
    }
}

/// The value of a key, if the records hold it.
pub open spec fn lookup(entries: Seq<Entry>, key: Seq<char>) -> Option<MetaValue> {
    if has_key(entries, key) {
        let i = choose|i: int| 0 <= i < entries.len() && (#[trigger] entries[i]).0 == key;
        Some(entries[i].1)
    } else {
        None
    }
}

impl MetaValue {
    /// A whole number of any width, if it is not negative.
    pub open spec fn spec_u64(self) -> Option<u64> {
        match self {
            MetaValue::Uint8(v) => Some(v as u64),
            MetaValue::Uint16(v) => Some(v as u64),
            MetaValue::Uint32(v) => Some(v as u64),
            MetaValue::Uint64(v) => Some(v),
            MetaValue::Int8(v) => if v >= 0 { Some(v as u64) } else { None },
            MetaValue::Int16(v) => if v >= 0 { Some(v as u64) } else { None },
            MetaValue::Int32(v) => if v >= 0 { Some(v as u64) } else { None },
            MetaValue::Int64(v) => if v >= 0 { Some(v as u64) } else { None },
            _ => None,
        }
    }

    pub open spec fn spec_str(self) -> Option<Seq<char>> {
        match self {
            MetaValue::String(s) => Some(s),
            _ => None,
        }
    }
}

/// Powers of two, one included.
pub open spec fn is_power_of_two(n: int) -> bool
    decreases n,
{
    n == 1 || (n > 1 && n % 2 == 0 && is_power_of_two(n / 2))
}

/// The alignment that the metadata ask for.
pub open spec fn spec_alignment(entries: Seq<Entry>) -> Result<u64, ErrorView> {
    match lookup(entries, "general.alignment"@) {
        None => Ok(DEFAULT_ALIGNMENT),
        Some(value) => match value.spec_u64() {
            Some(a) => if is_power_of_two(a as int) {
                Ok(a)
            } else {
                Err(ErrorView::InvalidAlignment(a as nat))
            },
            None => Err(ErrorView::InvalidAlignment(0)),
        },
    }
}

/// A tensor description with its name and dimensions as sequences.
#[verifier::ext_equal]
pub struct TensorView {
    pub name: Seq<char>,
    pub dimensions: Seq<u64>,
    pub tensor_type: GGMLType,
    pub offset: u64,
    pub n_elements: u64,
    pub size_bytes: Option<u64>,
}

/// Reads `n` dimensions of a tensor.
pub open spec fn spec_dimensions(d: Seq<u8>, pos: int, n: int) -> Step<Seq<u64>>
    decreases n,
{
    if n <= 0 {
        Ok((Seq::empty(), pos))
    } else {
        match spec_dimensions(d, pos, n - 1) {
            Err(e) => Err(e),
            Ok((dims, p)) => match spec_uint(d, p, 8, "размерность тензора"@) {
                Err(e) => Err(e),
                Ok((dim, q)) => Ok((dims.push(dim as u64), q)),
            },
        }
    }
}

/// The product of the first `n` dimensions, taken from the left; nothing as soon as it does not
/// fit in a `u64`.
pub open spec fn product(dims: Seq<u64>, n: int) -> Option<u64>
    decreases n,
{
    if n <= 0 {
        Some(1)
    } else {
        match product(dims, n - 1) {
            None => None,
            Some(p) => if p * dims[n - 1] <= u64::MAX {
                Some((p * dims[n - 1]) as u64)
            } else {
                None
            },
        }
    }
}

/// The description made of what a tensor record holds.
pub open spec fn spec_describe(
    name: Seq<char>,
    dimensions: Seq<u64>,
    tensor_type: GGMLType,
    offset: u64,
) -> Result<TensorView, ErrorView> {
    match product(dimensions, dimensions.len() as int) {
        None => Err(ErrorView::ElementCountOverflow(name)),
        Some(n_elements) => {
            let size_bytes = tensor_type.spec_data_size(n_elements);
            if tensor_type.spec_layout() is Some && size_bytes is None {
                Err(
                    ErrorView::PartialBlock {
                        name,
                        elements: n_elements as nat,
                        tensor_type: tensor_type.spec_name(),
                    },
                )
            } else {
                Ok(TensorView { name, dimensions, tensor_type, offset, n_elements, size_bytes })
            }
        },
    }
}

/// Reads one tensor record.
pub open spec fn spec_tensor(d: Seq<u8>, pos: int) -> Step<TensorView> {
    match spec_string(d, pos, "имя тензора"@) {
        Err(e) => Err(e),
        Ok((name, p1)) => match spec_uint(d, p1, 4, "число измерений"@) {
            Err(e) => Err(e),
            Ok((dims, p2)) => if dims > MAX_DIMENSIONS {
                Err(ErrorView::TooManyDimensions { name, dims: dims as nat })
            } else {
                match spec_dimensions(d, p2, dims) {
                    Err(e) => Err(e),
                    Ok((dimensions, p3)) => match spec_uint(d, p3, 4, "тип тензора"@) {
                        Err(e) => Err(e),
                        Ok((type_id, p4)) => match spec_uint(d, p4, 8, "смещение тензора"@) {
                            Err(e) => Err(e),
                            Ok((offset, p5)) => match spec_describe(
                                name,
                                dimensions,
                                ggml::type_of_id(type_id as u32),
                                offset as u64,
                            ) {
                                Err(e) => Err(e),
                                Ok(tensor) => Ok((tensor, p5)),
                            },
                        },
                    },
                }
            },
        },
    }
}

pub open spec fn has_tensor(tensors: Seq<TensorView>, name: Seq<char>) -> bool {
    exists|i: int| 0 <= i < tensors.len() && (#[trigger] tensors[i]).name == name
}

/// Reads `n` tensor records, no name twice.
pub open spec fn spec_tensors(d: Seq<u8>, pos: int, n: int) -> Step<Seq<TensorView>>
    decreases n,
{
    if n <= 0 {
        Ok((Seq::empty(), pos))
    } else {
        match spec_tensors(d, pos, n - 1) {
            Err(e) => Err(e),
            Ok((tensors, p)) => match spec_tensor(d, p) {
                Err(e) => Err(e),
                Ok((tensor, q)) => if has_tensor(tensors, tensor.name) {
                    Err(ErrorView::DuplicateTensor(tensor.name))
                } else {
                    Ok((tensors.push(tensor), q))
                },
            },
        }
    }
}

/// The smallest multiple of `alignment` that is not below `value`.
pub open spec fn spec_align_up(value: int, alignment: int) -> int {
    (value + alignment - 1) - (value + alignment - 1) % alignment
}

/// Where the data of a tensor end, from the start of the file. A tensor of an unknown type is
/// held to its start only.
pub open spec fn data_end(tensor: TensorView, data_offset: int) -> int {
    data_offset + tensor.offset + match tensor.size_bytes {
        Some(size) => size as int,
        None => 0,
    }
}

/// The first of the first `n` tensors whose data leave the file.
pub open spec fn first_outside(
    tensors: Seq<TensorView>,
    data_offset: int,
    file_len: int,
    n: int,
) -> Option<Seq<char>>
    decreases n,
{
    if n <= 0 {
        None
    } else {
        match first_outside(tensors, data_offset, file_len, n - 1) {
            Some(name) => Some(name),
            None => if data_end(tensors[n - 1], data_offset) > file_len {
                Some(tensors[n - 1].name)
            } else {
                None
            },
        }
    }
}

/// What a file holds before its data section.
#[verifier::ext_equal]
pub struct ParsedView {
    pub version: u32,
    pub tensor_count: u64,
    pub metadata_kv_count: u64,
    pub metadata: Seq<Entry>,
    pub tensors: Seq<TensorView>,
    pub data_offset: u64,
    pub alignment: u64,
}

/// The part of a file after the header: metadata, tensors and where the data begin.
pub open spec fn spec_body(
    d: Seq<u8>,
    pos: int,
    version: int,
    tensor_count: int,
    kv_count: int,
) -> Result<ParsedView, ErrorView> {
    if kv_count * MIN_KV_BYTES > d.len() - pos {
        Err(ErrorView::CountTooLarge { what: "метаданных"@, count: kv_count as nat })
    } else {
        match spec_entries(d, pos, kv_count) {
            Err(e) => Err(e),
            Ok((metadata, p)) => match spec_alignment(metadata) {
                Err(e) => Err(e),
                Ok(alignment) => if tensor_count * MIN_TENSOR_INFO_BYTES > d.len() - p {
                    Err(ErrorView::CountTooLarge { what: "тензоров"@, count: tensor_count as nat })
                } else {
                    match spec_tensors(d, p, tensor_count) {
                        Err(e) => Err(e),
                        Ok((tensors, q)) => {
                            let data_offset = spec_align_up(q, alignment as int);
                            if q + alignment - 1 > u64::MAX {
                                Err(ErrorView::Truncated("начало секции данных"@))
                            } else {
                                match first_outside(
                                    tensors,
                                    data_offset,
                                    d.len() as int,
                                    tensors.len() as int,
                                ) {
                                    Some(name) => Err(ErrorView::TensorOutOfBounds(name)),
                                    None => Ok(
                                        ParsedView {
                                            version: version as u32,
                                            tensor_count: tensor_count as u64,
                                            metadata_kv_count: kv_count as u64,
                                            metadata,
                                            tensors,
                                            data_offset: data_offset as u64,
                                            alignment,
                                        },
                                    ),
                                }
                            }
                        },
                    }
                },
            },
        }
    }
}

/// What a whole file is read as.
pub open spec fn spec_parse(d: Seq<u8>) -> Result<ParsedView, ErrorView> {
    match spec_uint(d, 0, 4, "магическое число"@) {
        Err(e) => Err(e),
        Ok((magic, p1)) => if magic != GGUF_MAGIC {
            Err(ErrorView::InvalidMagic(magic as nat))
        } else {
            match spec_uint(d, p1, 4, "версия"@) {
                Err(e) => Err(e),
                Ok((version, p2)) => if !(2 <= version <= 3) {
                    Err(ErrorView::UnsupportedVersion(version as nat))
                } else {
                    match spec_uint(d, p2, 8, "число тензоров"@) {
                        Err(e) => Err(e),
                        Ok((tensor_count, p3)) => match spec_uint(
                            d,
                            p3,
                            8,
                            "число ключей метаданных"@,
                        ) {
                            Err(e) => Err(e),
                            Ok((kv_count, p4)) => spec_body(
                                d,
                                p4,
                                version,
                                tensor_count,
                                kv_count,
                            ),
                        },
                    }
                },
            }
        },
    }
}

/// Reads a file from front to back, never past its end.
pub struct Reader<'a> {
    data: &'a [u8],
    pos: usize,
}

impl<'a> Reader<'a> {
    pub closed spec fn bytes(self) -> Seq<u8> {
        self.data@
    }

    pub closed spec fn at(self) -> int {
        self.pos as int
    }

    pub closed spec fn wf(self) -> bool {
        self.pos <= self.data@.len()
    }

    /// A reader at the start of `data`.
    pub fn new(data: &'a [u8]) -> (r: Self)
        ensures
            r.wf(),
            r.bytes() == data@,
            r.at() == 0,
    {
        Reader { data, pos: 0 }
    }

    /// How many bytes are left.
    pub fn remaining(&self) -> (r: usize)
        requires
            self.wf(),
        ensures
            r == self.bytes().len() - self.at(),
            self.bytes().len() <= usize::MAX,
            self.at() >= 0,
    {
        self.data.len() - self.pos
    }

    /// How many bytes have been read.
    fn position(&self) -> (r: u64)
        requires
            self.wf(),
        ensures
            r == self.at(),
    {
        self.pos as u64
    }

    /// The next `len` bytes, or an error that names the part being read.
    pub fn take(&mut self, len: usize, what: &'static str) -> (r: Result<&'a [u8], GGUFError>)
        requires
            old(self).wf(),
        ensures
            final(self).wf(),
            final(self).bytes() == old(self).bytes(),
            match r {
                Ok(bytes) => old(self).at() + len <= old(self).bytes().len() && final(self).at()
                    == old(self).at() + len && bytes@ == old(self).bytes().subrange(
                    old(self).at(),
                    old(self).at() + len,
                ),
                Err(e) => old(self).at() + len > old(self).bytes().len() && e@
                    == ErrorView::Truncated(what@) && final(self).at() == old(self).at(),
            },
    {
        if len > self.remaining() {
            return Err(GGUFError::Truncated(what));
        }
        let bytes = vstd::slice::slice_subrange(self.data, self.pos, self.pos + len);
        self.pos = self.pos + len;
        Ok(bytes)
    }

    /// A little-endian number of `n` bytes.
    pub fn uint(&mut self, n: usize, what: &'static str) -> (r: Result<u64, GGUFError>)
        requires
            old(self).wf(),
            n <= 8,
        ensures
            final(self).wf(),
            final(self).bytes() == old(self).bytes(),
            match spec_uint(old(self).bytes(), old(self).at(), n as int, what@) {
                Ok((v, p)) => r is Ok && r->Ok_0 == v && final(self).at() == p && v < byte_range(
                    n as int,
                ),
                Err(e) => r is Err && r->Err_0@ == e && final(self).at() == old(self).at(),
            },
    {
        let ghost d = self.data@;
        let ghost start = self.pos as int;
        let bytes = self.take(n, what)?;
        let mut value: u64 = 0;
        let mut i: usize = n;
        proof {
            lemma_byte_range_values();
        }
        while i > 0
            invariant
                i <= n <= 8,
                0 <= start,
                bytes@.len() == n,
                bytes@ == d.subrange(start, start + n),
                start + n <= d.len(),
                value == le_uint(d, start + i, n - i),
                byte_range(8) == 0x1_0000_0000_0000_0000,
            decreases i,
        {
            i -= 1;
            proof {
                lemma_le_uint_bound(d, start + i, n - i);
                lemma_byte_range_monotonic(n - i, 8);
                assert(bytes@[i as int] == d[start + i]);
            }
            value = value * 256 + bytes[i] as u64;
        }
        proof {
            lemma_le_uint_bound(d, start, n as int);
        }
        Ok(value)
    }

    /// A number of four bytes.
    pub fn u32(&mut self, what: &'static str) -> (r: Result<u32, GGUFError>)
        requires
            old(self).wf(),
        ensures
            final(self).wf(),
            final(self).bytes() == old(self).bytes(),
            match spec_uint(old(self).bytes(), old(self).at(), 4, what@) {
                Ok((v, p)) => r is Ok && r->Ok_0 == v && final(self).at() == p,
                Err(e) => r is Err && r->Err_0@ == e && final(self).at() == old(self).at(),
            },
    {
        proof {
            lemma_byte_range_values();
        }
        Ok(self.uint(4, what)? as u32)
    }

    /// A number of eight bytes.
    pub fn u64(&mut self, what: &'static str) -> (r: Result<u64, GGUFError>)
        requires
            old(self).wf(),
        ensures
            final(self).wf(),
            final(self).bytes() == old(self).bytes(),
            match spec_uint(old(self).bytes(), old(self).at(), 8, what@) {
                Ok((v, p)) => r is Ok && r->Ok_0 == v && final(self).at() == p,
                Err(e) => r is Err && r->Err_0@ == e && final(self).at() == old(self).at(),
            },
    {
        self.uint(8, what)
    }

    /// Whether the rest of the file has at least `min_item_bytes` bytes for each of `count`
    /// records.
    fn holds(&self, count: u64, min_item_bytes: usize) -> (r: bool)
        requires
            self.wf(),
            min_item_bytes > 0,
        ensures
            r == (count * min_item_bytes <= self.bytes().len() - self.at()),
            r ==> count <= usize::MAX,
    {
        let left = self.remaining();
        proof {
            assert(count <= count * min_item_bytes) by (nonlinear_arith)
                requires
                    min_item_bytes >= 1,
            ;
        }
        match count.checked_mul(min_item_bytes as u64) {
            Some(bytes) => bytes <= left as u64,
            None => false,
        }
    }

    /// A number of records for which the rest of the file has at least `min_item_bytes` each.
    pub fn count(&mut self, min_item_bytes: usize, what: &'static str) -> (r: Result<
        usize,
        GGUFError,
    >)
        requires
            old(self).wf(),
            min_item_bytes > 0,
        ensures
            final(self).wf(),
            final(self).bytes() == old(self).bytes(),
            match spec_count(old(self).bytes(), old(self).at(), min_item_bytes as int, what@) {
                Ok((v, p)) => r is Ok && r->Ok_0 == v && final(self).at() == p,
                Err(e) => r is Err && r->Err_0@ == e && final(self).at() == count_stop(
                    old(self).bytes(),
                    old(self).at(),
                    what@,
                ),
            },
    {
        let count = self.u64(what)?;
        if self.holds(count, min_item_bytes) {
            Ok(count as usize)
        } else {
            Err(GGUFError::CountTooLarge { what, count })
        }
    }

    /// A text: its length in bytes, then the bytes.
    pub fn string(&mut self, what: &'static str) -> (r: Result<String, GGUFError>)
        requires
            old(self).wf(),
        ensures
            final(self).wf(),
            final(self).bytes() == old(self).bytes(),
            match spec_string(old(self).bytes(), old(self).at(), what@) {
                Ok((v, p)) => r is Ok && r->Ok_0@ == v && final(self).at() == p,
                Err(e) => r is Err && r->Err_0@ == e && final(self).at() == string_stop(
                    old(self).bytes(),
                    old(self).at(),
                    what@,
                ),
            },
    {
        let len = self.u64(what)?;
        if len > self.remaining() as u64 {
            return Err(GGUFError::Truncated(what));
        }
        let bytes = self.take(len as usize, what)?;
        match String::from_utf8(vstd::slice::slice_to_vec(bytes)) {
            Ok(text) => Ok(text),
            Err(e) => Err(GGUFError::Utf8Error(e)),
        }
    }
}

proof fn lemma_byte_range_monotonic(m: int, n: int)
    requires
        m <= n,
    ensures
        1 <= byte_range(m) <= byte_range(n),
    decreases n,
{
    if n > 0 {
        lemma_byte_range_monotonic(if m < n { m } else { n - 1 }, n - 1);
    }
}

/// The shortest value of a metadata type, in bytes.
pub fn min_value_bytes(value_type: u32) -> (r: Option<usize>)
    ensures
        match r {
            Some(n) => spec_min_value_bytes(value_type as int) == Some(n as int) && 1 <= n <= 12,
            None => spec_min_value_bytes(value_type as int) is None,
        },
{
    match value_type {
        0 | 1 | 7 => Some(1),
        2 | 3 => Some(2),
        4..=6 => Some(4),
        8 | 10..=12 => Some(8),
        9 => Some(12),
        _ => None,
    }
}

/// The value that a number of the given scalar type stands for.
fn scalar(value_type: u32, v: u64) -> (r: GGUFValue)
    requires
        value_type <= 12 && value_type != 8 && value_type != 9,
        v < byte_range(spec_min_value_bytes(value_type as int)->0),
    ensures
        r@ == scalar_value(value_type as int, v as int),
{
    proof {
        lemma_byte_range_values();
    }
    match value_type {
        0 => GGUFValue::Uint8(v as u8),
        1 => GGUFValue::Int8(
            if v < 0x80 {
                v as i8
            } else {
                (v as i64 - 0x100) as i8
            },
        ),
        2 => GGUFValue::Uint16(v as u16),
        3 => GGUFValue::Int16(
            if v < 0x8000 {
                v as i16
            } else {
                (v as i64 - 0x1_0000) as i16
            },
        ),
        4 => GGUFValue::Uint32(v as u32),
        5 => GGUFValue::Int32(
            if v < 0x8000_0000 {
                v as i32
            } else {
                (v as i64 - 0x1_0000_0000) as i32
            },
        ),
        6 => GGUFValue::Float32(v as u32),
        7 => GGUFValue::Bool(v != 0),
        10 => GGUFValue::Uint64(v),
        11 => GGUFValue::Int64(
            if v < 0x8000_0000_0000_0000 {
                v as i64
            } else {
                (v - 0x8000_0000_0000_0000) as i64 - 0x7fff_ffff_ffff_ffff - 1
            },
        ),
        _ => GGUFValue::Float64(v),
    }
}

proof fn lemma_values_error(d: Seq<u8>, pos: int, value_type: int, depth: int, k: int, n: int)
    requires
        depth <= MAX_VALUE_NESTING,
        k <= n,
        spec_values(d, pos, value_type, depth, k) is Err,
    ensures
        spec_values(d, pos, value_type, depth, n) == spec_values(d, pos, value_type, depth, k),
        values_stop(d, pos, value_type, depth, n) == values_stop(d, pos, value_type, depth, k),
    decreases n - k,
{
    if k < n {
        lemma_values_error(d, pos, value_type, depth, k, n - 1);
    }
}

/// A metadata value of the given type; `depth` arrays are open around it.
#[verifier::loop_isolation(false)]
fn read_value(reader: &mut Reader, value_type: u32, depth: usize) -> (r: Result<
    GGUFValue,
    GGUFError,
>)
    requires
        old(reader).wf(),
    ensures
        final(reader).wf(),
        final(reader).bytes() == old(reader).bytes(),
        match spec_value(old(reader).bytes(), old(reader).at(), value_type as int, depth as int) {
            Ok((v, p)) => r is Ok && r->Ok_0@ == v && final(reader).at() == p,
            Err(e) => r is Err && r->Err_0@ == e && final(reader).at() == value_stop(
                old(reader).bytes(),
                old(reader).at(),
                value_type as int,
                depth as int,
            ),
        },
    decreases
            if depth <= MAX_VALUE_NESTING {
                MAX_VALUE_NESTING + 1 - depth
            } else {
                0
            },
{
    if value_type == 8 {
        return Ok(GGUFValue::String(reader.string("значение метаданных")?));
    }
    if value_type == 9 {
        if depth >= MAX_VALUE_NESTING {
            return Err(GGUFError::NestingTooDeep);
        }
        let element_type = reader.u32("тип элементов массива")?;
        let min_bytes = match min_value_bytes(element_type) {
            Some(n) => n,
            None => return Err(GGUFError::InvalidValueType(element_type)),
        };
        let len = reader.count(min_bytes, "массив метаданных")?;
        let mut items: Vec<GGUFValue> = Vec::new();
        let ghost d = reader.bytes();
        let ghost start = reader.at();
        let mut i: usize = 0;
        while i < len
            invariant
                i <= len,
                depth < MAX_VALUE_NESTING,
                reader.wf(),
                reader.bytes() == d,
                spec_values(d, start, element_type as int, depth + 1, i as int) == Ok::<
                    (Seq<MetaValue>, int),
                    ErrorView,
                >((values_view(items@), reader.at())),
            decreases len - i,
        {
            let item = match read_value(reader, element_type, depth + 1) {
                Ok(item) => item,
                Err(e) => {
                    proof {
                        lemma_values_error(
                            d,
                            start,
                            element_type as int,
                            depth + 1,
                            i + 1,
                            len as int,
                        );
                    }
                    return Err(e);
                },
            };
            let ghost before = items@;
            items.push(item);
            proof {
                assert(items@.drop_last() =~= before);
            }
            i += 1;
        }
        return Ok(GGUFValue::Array(items));
    }
    match min_value_bytes(value_type) {
        Some(n) => {
            let v = reader.uint(n, "значение метаданных")?;
            Ok(scalar(value_type, v))
        },
        None => Err(GGUFError::InvalidValueType(value_type)),
    }
}

impl GGUFValue {
    pub fn as_str(&self) -> (r: Option<&str>)
        ensures
            match r {
                Some(s) => self@.spec_str() == Some(s@),
                None => self@.spec_str() is None,
            },
    {
        match self {
            GGUFValue::String(s) => Some(s.as_str()),
            _ => None,
        }
    }

    /// A whole number of any width, if it is not negative.
    pub fn as_u64(&self) -> (r: Option<u64>)
        ensures
            r == self@.spec_u64(),
    {
        match self {
            GGUFValue::Uint8(v) => Some(*v as u64),
            GGUFValue::Uint16(v) => Some(*v as u64),
            GGUFValue::Uint32(v) => Some(*v as u64),
            GGUFValue::Uint64(v) => Some(*v),
            GGUFValue::Int8(v) => if *v >= 0 {
                Some(*v as u64)
            } else {
                None
            },
            GGUFValue::Int16(v) => if *v >= 0 {
                Some(*v as u64)
            } else {
                None
            },
            GGUFValue::Int32(v) => if *v >= 0 {
                Some(*v as u64)
            } else {
                None
            },
            GGUFValue::Int64(v) => if *v >= 0 {
                Some(*v as u64)
            } else {
                None
            },
            _ => None,
        }
    }

    pub fn as_bool(&self) -> (r: Option<bool>)
        ensures
            match self@ {
                MetaValue::Bool(v) => r == Some(v),
                _ => r is None,
            },
    {
        match self {
            GGUFValue::Bool(v) => Some(*v),
            _ => None,
        }
    }

    pub fn as_array(&self) -> (r: Option<&[GGUFValue]>)
        ensures
            match self@ {
                MetaValue::Array(items) => r is Some && values_view(r->0@) == items,
                _ => r is None,
            },
    {
        match self {
            GGUFValue::Array(items) => Some(items.as_slice()),
            _ => None,
        }
    }
}

#[derive(Debug)]
pub struct GGUFTensorInfo {
    pub name: String,
    pub dimensions: Vec<u64>,
    pub tensor_type: GGMLType,
    /// Offset of the data from the start of the data section.
    pub offset: u64,
    /// Number of weights (the product of the dimensions).
    pub n_elements: u64,
    /// Size of the data in bytes; `None` for an unknown type.
    pub size_bytes: Option<u64>,
}

impl View for GGUFTensorInfo {
    type V = TensorView;

    open spec fn view(&self) -> TensorView {
        TensorView {
            name: self.name@,
            dimensions: self.dimensions@,
            tensor_type: self.tensor_type,
            offset: self.offset,
            n_elements: self.n_elements,
            size_bytes: self.size_bytes,
        }
    }
}

impl GGUFTensorInfo {
    pub fn total_elements(&self) -> (r: u64)
        ensures
            r == self.n_elements,
    {
        self.n_elements
    }
}

/// Metadata records in the order of the file.
pub open spec fn entries_view(s: Seq<(String, GGUFValue)>) -> Seq<Entry> {
    Seq::new(s.len(), |i: int| (s[i].0@, s[i].1@))
}

/// Tensor records in the order of the file.
pub open spec fn tensors_view(s: Seq<GGUFTensorInfo>) -> Seq<TensorView> {
    Seq::new(s.len(), |i: int| s[i]@)
}

/// The value of a key among records of which no two share a key.
fn find_value<'b>(entries: &'b Vec<(String, GGUFValue)>, key: &str) -> (r: Option<&'b GGUFValue>)
    requires
        distinct_keys(entries_view(entries@)),
    ensures
        match r {
            Some(v) => lookup(entries_view(entries@), key@) == Some(v@),
            None => lookup(entries_view(entries@), key@) is None,
        },
{
    let wanted = key.to_owned();
    let ghost view = entries_view(entries@);
    let mut i: usize = 0;
    while i < entries.len()
        invariant
            i <= entries@.len(),
            wanted@ == key@,
            view == entries_view(entries@),
            distinct_keys(view),
            forall|j: int| 0 <= j < i ==> (#[trigger] view[j]).0 != key@,
        decreases entries@.len() - i,
    {
        if entries[i].0 == wanted {
            assert(view[i as int].0 == key@);
            return Some(&entries[i].1);
        }
        assert(view[i as int].0 != key@);
        i += 1;
    }
    None
}

/// No two records share a key.
pub open spec fn distinct_keys(entries: Seq<Entry>) -> bool {
    forall|i: int, j: int|
        0 <= i < j < entries.len() ==> (#[trigger] entries[i]).0 != (#[trigger] entries[j]).0
}

/// No two tensors share a name.
pub open spec fn distinct_names(tensors: Seq<TensorView>) -> bool {
    forall|i: int, j: int|
        0 <= i < j < tensors.len() ==> (#[trigger] tensors[i]).name != (#[trigger] tensors[j]).name
}

proof fn lemma_entries_error(d: Seq<u8>, pos: int, k: int, n: int)
    requires
        k <= n,
        spec_entries(d, pos, k) is Err,
    ensures
        spec_entries(d, pos, n) == spec_entries(d, pos, k),
    decreases n - k,
{
    if k < n {
        lemma_entries_error(d, pos, k, n - 1);
    }
}

proof fn lemma_entries_distinct(d: Seq<u8>, pos: int, n: int)
    ensures
        spec_entries(d, pos, n) matches Ok((entries, p)) ==> distinct_keys(entries)
            && entries.len() == (if n <= 0 { 0 } else { n }),
    decreases n,
{
    if n > 0 {
        lemma_entries_distinct(d, pos, n - 1);
    }
}

/// The metadata records, no key twice.
#[verifier::loop_isolation(false)]
fn read_entries(reader: &mut Reader, n: usize) -> (r: Result<Vec<(String, GGUFValue)>, GGUFError>)
    requires
        old(reader).wf(),
    ensures
        final(reader).wf(),
        final(reader).bytes() == old(reader).bytes(),
        match spec_entries(old(reader).bytes(), old(reader).at(), n as int) {
            Ok((v, p)) => r is Ok && entries_view(r->Ok_0@) == v && final(reader).at() == p,
            Err(e) => r is Err && r->Err_0@ == e,
        },
{
    let ghost d = reader.bytes();
    let ghost start = reader.at();
    let mut entries: Vec<(String, GGUFValue)> = Vec::new();
    assert(entries_view(entries@) =~= Seq::<Entry>::empty());
    let mut i: usize = 0;
    while i < n
        invariant
            i <= n,
            reader.wf(),
            reader.bytes() == d,
            spec_entries(d, start, i as int) == Ok::<(Seq<Entry>, int), ErrorView>(
                (entries_view(entries@), reader.at()),
            ),
        decreases n - i,
    {
        let ghost view = entries_view(entries@);
        proof {
            lemma_entries_distinct(d, start, i as int);
            if spec_entries(d, start, i + 1) is Err {
                lemma_entries_error(d, start, i + 1, n as int);
            }
        }
        let key = reader.string("ключ метаданных")?;
        let value_type = reader.u32("тип значения")?;
        let value = read_value(reader, value_type, 0)?;
        if find_value(&entries, key.as_str()).is_some() {
            return Err(GGUFError::DuplicateKey(key));
        }
        entries.push((key, value));
        proof {
            assert(entries_view(entries@) =~= view.push((key@, value@)));
        }
        i += 1;
    }
    Ok(entries)
}

proof fn lemma_tensors_error(d: Seq<u8>, pos: int, k: int, n: int)
    requires
        k <= n,
        spec_tensors(d, pos, k) is Err,
    ensures
        spec_tensors(d, pos, n) == spec_tensors(d, pos, k),
    decreases n - k,
{
    if k < n {
        lemma_tensors_error(d, pos, k, n - 1);
    }
}

proof fn lemma_tensors_distinct(d: Seq<u8>, pos: int, n: int)
    ensures
        spec_tensors(d, pos, n) matches Ok((tensors, p)) ==> distinct_names(tensors)
            && tensors.len() == (if n <= 0 { 0 } else { n }),
    decreases n,
{
    if n > 0 {
        lemma_tensors_distinct(d, pos, n - 1);
    }
}

proof fn lemma_dimensions_error(d: Seq<u8>, pos: int, k: int, n: int)
    requires
        k <= n,
        spec_dimensions(d, pos, k) is Err,
    ensures
        spec_dimensions(d, pos, n) == spec_dimensions(d, pos, k),
    decreases n - k,
{
    if k < n {
        lemma_dimensions_error(d, pos, k, n - 1);
    }
}

/// The index of the tensor with this name.
fn find_tensor(tensors: &Vec<GGUFTensorInfo>, name: &str) -> (r: Option<usize>)
    ensures
        match r {
            Some(i) => i < tensors@.len() && tensors@[i as int].name@ == name@,
            None => !has_tensor(tensors_view(tensors@), name@),
        },
{
    let wanted = name.to_owned();
    let ghost view = tensors_view(tensors@);
    let mut i: usize = 0;
    while i < tensors.len()
        invariant
            i <= tensors@.len(),
            wanted@ == name@,
            view == tensors_view(tensors@),
            forall|j: int| 0 <= j < i ==> (#[trigger] view[j]).name != name@,
        decreases tensors@.len() - i,
    {
        if tensors[i].name == wanted {
            return Some(i);
        }
        assert(view[i as int].name != name@);
        i += 1;
    }
    None
}

#[verifier::loop_isolation(false)]
fn read_dimensions(reader: &mut Reader, n: u32) -> (r: Result<Vec<u64>, GGUFError>)
    requires
        old(reader).wf(),
    ensures
        final(reader).wf(),
        final(reader).bytes() == old(reader).bytes(),
        match spec_dimensions(old(reader).bytes(), old(reader).at(), n as int) {
            Ok((v, p)) => r is Ok && r->Ok_0@ == v && final(reader).at() == p,
            Err(e) => r is Err && r->Err_0@ == e,
        },
{
    let ghost d = reader.bytes();
    let ghost start = reader.at();
    let mut dims: Vec<u64> = Vec::new();
    let mut i: u32 = 0;
    while i < n
        invariant
            i <= n,
            reader.wf(),
            reader.bytes() == d,
            spec_dimensions(d, start, i as int) == Ok::<(Seq<u64>, int), ErrorView>(
                (dims@, reader.at()),
            ),
        decreases n - i,
    {
        proof {
            if spec_dimensions(d, start, i + 1) is Err {
                lemma_dimensions_error(d, start, i + 1, n as int);
            }
        }
        let dim = reader.u64("размерность тензора")?;
        dims.push(dim);
        i += 1;
    }
    Ok(dims)
}

proof fn lemma_product_none(dims: Seq<u64>, k: int, n: int)
    requires
        k <= n,
        product(dims, k) is None,
    ensures
        product(dims, n) is None,
    decreases n - k,
{
    if k < n {
        lemma_product_none(dims, k, n - 1);
    }
}

/// The product of the dimensions, unless it overflows on the way.
fn element_count(dims: &Vec<u64>) -> (r: Option<u64>)
    ensures
        r == product(dims@, dims@.len() as int),
{
    let mut total: u64 = 1;
    let mut i: usize = 0;
    while i < dims.len()
        invariant
            i <= dims@.len(),
            product(dims@, i as int) == Some(total),
        decreases dims@.len() - i,
    {
        match total.checked_mul(dims[i]) {
            Some(next) => {
                total = next;
            },
            None => {
                proof {
                    lemma_product_none(dims@, i + 1, dims@.len() as int);
                }
                return None;
            },
        }
        i += 1;
    }
    Some(total)
}

/// The description made of what a tensor record holds.
fn describe(name: String, dimensions: Vec<u64>, tensor_type: GGMLType, offset: u64) -> (r: Result<
    GGUFTensorInfo,
    GGUFError,
>)
    ensures
        match spec_describe(name@, dimensions@, tensor_type, offset) {
            Ok(v) => r is Ok && r->Ok_0@ == v,
            Err(e) => r is Err && r->Err_0@ == e,
        },
{
    let n_elements = match element_count(&dimensions) {
        Some(n) => n,
        None => return Err(GGUFError::ElementCountOverflow(name)),
    };
    let size_bytes = tensor_type.data_size(n_elements);
    if tensor_type.block_layout().is_some() && size_bytes.is_none() {
        return Err(
            GGUFError::PartialBlock {
                name,
                elements: n_elements,
                tensor_type: tensor_type.name(),
            },
        );
    }
    Ok(GGUFTensorInfo { name, dimensions, tensor_type, offset, n_elements, size_bytes })
}

/// One tensor record.
fn read_tensor(reader: &mut Reader) -> (r: Result<GGUFTensorInfo, GGUFError>)
    requires
        old(reader).wf(),
    ensures
        final(reader).wf(),
        final(reader).bytes() == old(reader).bytes(),
        match spec_tensor(old(reader).bytes(), old(reader).at()) {
            Ok((v, p)) => r is Ok && r->Ok_0@ == v && final(reader).at() == p,
            Err(e) => r is Err && r->Err_0@ == e,
        },
{
    let name = reader.string("имя тензора")?;
    let dims = reader.u32("число измерений")?;
    if dims as usize > MAX_DIMENSIONS {
        return Err(GGUFError::TooManyDimensions { name, dims });
    }
    let dimensions = read_dimensions(reader, dims)?;
    let tensor_type = GGMLType::from(reader.u32("тип тензора")?);
    let offset = reader.u64("смещение тензора")?;
    describe(name, dimensions, tensor_type, offset)
}

/// The tensor records, no name twice.
#[verifier::loop_isolation(false)]
fn read_tensors(reader: &mut Reader, n: usize) -> (r: Result<Vec<GGUFTensorInfo>, GGUFError>)
    requires
        old(reader).wf(),
    ensures
        final(reader).wf(),
        final(reader).bytes() == old(reader).bytes(),
        match spec_tensors(old(reader).bytes(), old(reader).at(), n as int) {
            Ok((v, p)) => r is Ok && tensors_view(r->Ok_0@) == v && final(reader).at() == p,
            Err(e) => r is Err && r->Err_0@ == e,
        },
{
    let ghost d = reader.bytes();
    let ghost start = reader.at();
    let mut tensors: Vec<GGUFTensorInfo> = Vec::new();
    assert(tensors_view(tensors@) =~= Seq::<TensorView>::empty());
    let mut i: usize = 0;
    while i < n
        invariant
            i <= n,
            reader.wf(),
            reader.bytes() == d,
            spec_tensors(d, start, i as int) == Ok::<(Seq<TensorView>, int), ErrorView>(
                (tensors_view(tensors@), reader.at()),
            ),
        decreases n - i,
    {
        let ghost view = tensors_view(tensors@);
        proof {
            if spec_tensors(d, start, i + 1) is Err {
                lemma_tensors_error(d, start, i + 1, n as int);
            }
        }
        let tensor = read_tensor(reader)?;
        match find_tensor(&tensors, tensor.name.as_str()) {
            Some(k) => {
                assert(view[k as int].name == tensor.name@);
                return Err(GGUFError::DuplicateTensor(tensor.name));
            },
            None => {},
        }
        let ghost seen = tensor@;
        tensors.push(tensor);
        proof {
            assert(tensors_view(tensors@) =~= view.push(seen));
        }
        i += 1;
    }
    Ok(tensors)
}

fn power_of_two(n: u64) -> (r: bool)
    ensures
        r == is_power_of_two(n as int),
{
    let mut rest: u64 = n;
    while rest > 1 && rest % 2 == 0
        invariant
            is_power_of_two(rest as int) == is_power_of_two(n as int),
        decreases rest,
    {
        rest = rest / 2;
    }
    rest == 1
}

/// The smallest multiple of `alignment`, a power of two, that is not below `value`; nothing if
/// the way there leaves `u64`.
pub fn align_up(value: u64, alignment: u64) -> (r: Option<u64>)
    requires
        is_power_of_two(alignment as int),
    ensures
        match r {
            Some(v) => v == spec_align_up(value as int, alignment as int) && value + alignment - 1
                <= u64::MAX,
            None => value + alignment - 1 > u64::MAX,
        },
{
    match value.checked_add(alignment - 1) {
        Some(sum) => Some(sum - sum % alignment),
        None => None,
    }
}

proof fn lemma_outside_kept(tensors: Seq<TensorView>, data_offset: int, len: int, k: int, n: int)
    requires
        k <= n,
        first_outside(tensors, data_offset, len, k) is Some,
    ensures
        first_outside(tensors, data_offset, len, n) == first_outside(tensors, data_offset, len, k),
    decreases n - k,
{
    if k < n {
        lemma_outside_kept(tensors, data_offset, len, k, n - 1);
    }
}

/// Holds the data of every tensor to the bounds of the file.
fn check_bounds(tensors: &Vec<GGUFTensorInfo>, data_offset: u64, file_len: u64) -> (r: Result<
    (),
    GGUFError,
>)
    ensures
        match first_outside(
            tensors_view(tensors@),
            data_offset as int,
            file_len as int,
            tensors@.len() as int,
        ) {
            None => r is Ok,
            Some(name) => r is Err && r->Err_0@ == ErrorView::TensorOutOfBounds(name),
        },
{
    let ghost view = tensors_view(tensors@);
    let mut i: usize = 0;
    while i < tensors.len()
        invariant
            i <= tensors@.len(),
            view == tensors_view(tensors@),
            first_outside(view, data_offset as int, file_len as int, i as int) is None,
        decreases tensors@.len() - i,
    {
        let tensor = &tensors[i];
        let size: u64 = match tensor.size_bytes {
            Some(size) => size,
            None => 0,
        };
        let end = match data_offset.checked_add(tensor.offset) {
            Some(start) => start.checked_add(size),
            None => None,
        };
        let inside = match end {
            Some(end) => end <= file_len,
            None => false,
        };
        assert(view[i as int] == tensor@);
        if !inside {
            proof {
                lemma_outside_kept(
                    view,
                    data_offset as int,
                    file_len as int,
                    i + 1,
                    tensors@.len() as int,
                );
            }
            return Err(GGUFError::TensorOutOfBounds(tensor.name.clone()));
        }
        i += 1;
    }
    Ok(())
}

/// The alignment that the metadata ask for.
fn read_alignment(metadata: &Vec<(String, GGUFValue)>) -> (r: Result<u64, GGUFError>)
    requires
        distinct_keys(entries_view(metadata@)),
    ensures
        match spec_alignment(entries_view(metadata@)) {
            Ok(a) => r is Ok && r->Ok_0 == a && is_power_of_two(a as int),
            Err(e) => r is Err && r->Err_0@ == e,
        },
{
    match find_value(metadata, "general.alignment") {
        None => {
            assert(is_power_of_two(32)) by {
                reveal_with_fuel(is_power_of_two, 6);
            }
            Ok(DEFAULT_ALIGNMENT)
        },
        Some(value) => match value.as_u64() {
            Some(a) => if power_of_two(a) {
                Ok(a)
            } else {
                Err(GGUFError::InvalidAlignment(a))
            },
            None => Err(GGUFError::InvalidAlignment(0)),
        },
    }
}

/// What a file holds before its data section.
#[derive(Debug)]
pub struct Parsed {
    pub version: u32,
    pub tensor_count: u64,
    pub metadata_kv_count: u64,
    pub metadata: Vec<(String, GGUFValue)>,
    pub tensors: Vec<GGUFTensorInfo>,
    pub data_offset: u64,
    pub alignment: u64,
}

impl View for Parsed {
    type V = ParsedView;

    open spec fn view(&self) -> ParsedView {
        ParsedView {
            version: self.version,
            tensor_count: self.tensor_count,
            metadata_kv_count: self.metadata_kv_count,
            metadata: entries_view(self.metadata@),
            tensors: tensors_view(self.tensors@),
            data_offset: self.data_offset,
            alignment: self.alignment,
        }
    }
}

/// Reads everything of a file but its data section, and holds the data to the file's bounds.
pub fn parse(data: &[u8]) -> (r: Result<Parsed, GGUFError>)
    ensures
        match spec_parse(data@) {
            Ok(v) => r is Ok && r->Ok_0@ == v,
            Err(e) => r is Err && r->Err_0@ == e,
        },
{
    let mut reader = Reader::new(data);
    let magic = reader.u32("магическое число")?;
    if magic != GGUF_MAGIC {
        return Err(GGUFError::InvalidMagic(magic));
    }
    let version = reader.u32("версия")?;
    if !(2 <= version && version <= 3) {
        return Err(GGUFError::UnsupportedVersion(version));
    }
    let tensor_count = reader.u64("число тензоров")?;
    let kv_count = reader.u64("число ключей метаданных")?;
    if !reader.holds(kv_count, MIN_KV_BYTES) {
        return Err(GGUFError::CountTooLarge { what: "метаданных", count: kv_count });
    }
    proof {
        lemma_entries_distinct(data@, reader.at(), kv_count as int);
    }
    let metadata = read_entries(&mut reader, kv_count as usize)?;
    let alignment = read_alignment(&metadata)?;
    if !reader.holds(tensor_count, MIN_TENSOR_INFO_BYTES) {
        return Err(GGUFError::CountTooLarge { what: "тензоров", count: tensor_count });
    }
    let tensors = read_tensors(&mut reader, tensor_count as usize)?;
    let data_offset = match align_up(reader.position(), alignment) {
        Some(offset) => offset,
        None => return Err(GGUFError::Truncated("начало секции данных")),
    };
    check_bounds(&tensors, data_offset, data.len() as u64)?;
    Ok(
        Parsed {
            version,
            tensor_count,
            metadata_kv_count: kv_count,
            metadata,
            tensors,
            data_offset,
            alignment,
        },
    )
}

/// A file whose description has been read. The weights stay where the caller has them: in
/// memory, or mapped from disk.
pub struct GGUFFile<'a> {
    pub version: u32,
    pub tensor_count: u64,
    pub metadata_kv_count: u64,
    /// Metadata records in the order of the file; no key occurs twice.
    pub metadata: Vec<(String, GGUFValue)>,
    /// Tensor records in the order of the file; no name occurs twice.
    pub tensors: Vec<GGUFTensorInfo>,
    /// Start of the data section from the start of the file.
    pub data_offset: u64,
    /// Alignment of the data section.
    pub alignment: u64,
    /// The whole file.
    pub bytes: &'a [u8],
}

/// The sum of the weights of the first `n` tensors.
pub open spec fn sum_elements(tensors: Seq<TensorView>, n: int) -> int
    decreases n,
{
    if n <= 0 {
        0
    } else {
        sum_elements(tensors, n - 1) + tensors[n - 1].n_elements
    }
}

/// The key of a value that belongs to an architecture.
pub open spec fn arch_key(arch: Seq<char>, suffix: Seq<char>) -> Seq<char> {
    arch + seq!['.'] + suffix
}

impl ParsedView {
    pub open spec fn spec_architecture(self) -> Option<Seq<char>> {
        match lookup(self.metadata, "general.architecture"@) {
            Some(v) => v.spec_str(),
            None => None,
        }
    }

    /// The value `<arch>.<suffix>` of the metadata.
    pub open spec fn spec_arch_value(self, suffix: Seq<char>) -> Option<MetaValue> {
        match self.spec_architecture() {
            Some(arch) => lookup(self.metadata, arch_key(arch, suffix)),
            None => None,
        }
    }

    pub open spec fn spec_arch_u64(self, suffix: Seq<char>) -> Option<u64> {
        match self.spec_arch_value(suffix) {
            Some(v) => v.spec_u64(),
            None => None,
        }
    }

    /// The tensor of this name.
    pub open spec fn spec_tensor_info(self, name: Seq<char>) -> Option<TensorView> {
        if has_tensor(self.tensors, name) {
            let i = choose|i: int|
                0 <= i < self.tensors.len() && (#[trigger] self.tensors[i]).name == name;
            Some(self.tensors[i])
        } else {
            None
        }
    }
}

impl<'a> View for GGUFFile<'a> {
    type V = ParsedView;

    open spec fn view(&self) -> ParsedView {
        ParsedView {
            version: self.version,
            tensor_count: self.tensor_count,
            metadata_kv_count: self.metadata_kv_count,
            metadata: entries_view(self.metadata@),
            tensors: tensors_view(self.tensors@),
            data_offset: self.data_offset,
            alignment: self.alignment,
        }
    }
}

impl<'a> GGUFFile<'a> {
    /// All bytes of the file.
    pub open spec fn content(self) -> Seq<u8> {
        self.bytes@
    }

    /// What is held is what the bytes describe.
    pub open spec fn wf(self) -> bool {
        spec_parse(self.content()) == Ok::<ParsedView, ErrorView>(self@)
    }

    /// Reads the description of a file.
    pub fn from_bytes(bytes: &'a [u8]) -> (r: Result<Self, GGUFError>)
        ensures
            match spec_parse(bytes@) {
                Ok(v) => r is Ok && r->Ok_0@ == v && r->Ok_0.content() == bytes@ && r->Ok_0.wf(),
                Err(e) => r is Err && r->Err_0@ == e,
            },
    {
        let parsed = parse(bytes)?;
        let file = GGUFFile {
            version: parsed.version,
            tensor_count: parsed.tensor_count,
            metadata_kv_count: parsed.metadata_kv_count,
            metadata: parsed.metadata,
            tensors: parsed.tensors,
            data_offset: parsed.data_offset,
            alignment: parsed.alignment,
            bytes,
        };
        assert(file@ == parsed@);
        Ok(file)
    }

    /// Size of the file in bytes.
    pub fn file_size(&self) -> (r: u64)
        ensures
            r == self.content().len(),
    {
        self.bytes.len() as u64
    }

    /// The metadata value of a key.
    pub fn value(&self, key: &str) -> (r: Option<&GGUFValue>)
        requires
            self.wf(),
        ensures
            match r {
                Some(v) => lookup(self@.metadata, key@) == Some(v@),
                None => lookup(self@.metadata, key@) is None,
            },
    {
        proof {
            lemma_parsed_distinct(self.content());
        }
        find_value(&self.metadata, key)
    }

    pub fn architecture(&self) -> (r: Option<&str>)
        requires
            self.wf(),
        ensures
            match r {
                Some(s) => self@.spec_architecture() == Some(s@),
                None => self@.spec_architecture() is None,
            },
    {
        match self.value("general.architecture") {
            Some(v) => v.as_str(),
            None => None,
        }
    }

    /// The value `<arch>.<suffix>` of the metadata, such as `llama.block_count`.
    pub fn arch_value(&self, suffix: &str) -> (r: Option<&GGUFValue>)
        requires
            self.wf(),
        ensures
            match r {
                Some(v) => self@.spec_arch_value(suffix@) == Some(v@),
                None => self@.spec_arch_value(suffix@) is None,
            },
    {
        match self.architecture() {
            Some(arch) => {
                let mut key = arch.to_owned();
                key.push('.');
                key.append(suffix);
                assert(key@ =~= arch_key(arch@, suffix@));
                self.value(key.as_str())
            },
            None => None,
        }
    }

    /// A whole number among the values of the architecture (arrays per layer give `None`).
    pub fn arch_u64(&self, suffix: &str) -> (r: Option<u64>)
        requires
            self.wf(),
        ensures
            r == self@.spec_arch_u64(suffix@),
    {
        match self.arch_value(suffix) {
            Some(v) => v.as_u64(),
            None => None,
        }
    }

    /// The context length that the model was trained for.
    pub fn context_length(&self) -> (r: Option<u64>)
        requires
            self.wf(),
        ensures
            r == self@.spec_arch_u64("context_length"@),
    {
        self.arch_u64("context_length")
    }

    pub fn embedding_length(&self) -> (r: Option<u64>)
        requires
            self.wf(),
        ensures
            r == self@.spec_arch_u64("embedding_length"@),
    {
        self.arch_u64("embedding_length")
    }

    pub fn block_count(&self) -> (r: Option<u64>)
        requires
            self.wf(),
        ensures
            r == self@.spec_arch_u64("block_count"@),
    {
        self.arch_u64("block_count")
    }

    pub fn head_count(&self) -> (r: Option<u64>)
        requires
            self.wf(),
        ensures
            r == self@.spec_arch_u64("attention.head_count"@),
    {
        self.arch_u64("attention.head_count")
    }

    pub fn head_count_kv(&self) -> (r: Option<u64>)
        requires
            self.wf(),
        ensures
            r == self@.spec_arch_u64("attention.head_count_kv"@),
    {
        self.arch_u64("attention.head_count_kv")
    }

    /// The number of weights of the model, held at the largest `u64`.
    pub fn parameter_count(&self) -> (r: u64)
        ensures
            r == if sum_elements(self@.tensors, self@.tensors.len() as int) > u64::MAX {
                u64::MAX as int
            } else {
                sum_elements(self@.tensors, self@.tensors.len() as int)
            },
    {
        let ghost view = self@.tensors;
        let mut sum: u64 = 0;
        let mut i: usize = 0;
        while i < self.tensors.len()
            invariant
                i <= self.tensors@.len(),
                view == tensors_view(self.tensors@),
                sum == if sum_elements(view, i as int) > u64::MAX {
                    u64::MAX as int
                } else {
                    sum_elements(view, i as int)
                },
            decreases self.tensors@.len() - i,
        {
            assert(view[i as int].n_elements == self.tensors@[i as int].n_elements);
            sum = sum.saturating_add(self.tensors[i].n_elements);
            i += 1;
        }
        sum
    }

    pub fn get_tensor_info(&self, name: &str) -> (r: Option<&GGUFTensorInfo>)
        requires
            self.wf(),
        ensures
            match r {
                Some(t) => self@.spec_tensor_info(name@) == Some(t@),
                None => self@.spec_tensor_info(name@) is None,
            },
    {
        proof {
            lemma_parsed_distinct(self.content());
        }
        match find_tensor(&self.tensors, name) {
            Some(i) => {
                assert(self@.tensors[i as int].name == name@);
                Some(&self.tensors[i])
            },
            None => None,
        }
    }

    /// The bytes of a tensor: all of them, inside the file. `None` if there is no such tensor or
    /// its type is unknown.
    pub fn get_tensor_data(&self, name: &str) -> (r: Option<&'a [u8]>)
        requires
            self.wf(),
        ensures
            match self@.spec_tensor_info(name@) {
                Some(t) => match t.size_bytes {
                    Some(size) => r is Some && data_end(t, self.data_offset as int)
                        <= self.content().len() && r->0@ == self.content().subrange(
                        self.data_offset + t.offset,
                        self.data_offset + t.offset + size,
                    ),
                    None => r is None,
                },
                None => r is None,
            },
    {
        let info = match self.get_tensor_info(name) {
            Some(info) => info,
            None => return None,
        };
        let size = match info.size_bytes {
            Some(size) => size,
            None => return None,
        };
        let total = self.bytes.len();
        proof {
            law_tensor_data_inside_file(self.content(), self@, name@);
        }
        let start: usize = (self.data_offset + info.offset) as usize;
        Some(vstd::slice::slice_subrange(self.bytes, start, start + size as usize))
    }
}

proof fn lemma_parsed_distinct(d: Seq<u8>)
    ensures
        spec_parse(d) matches Ok(v) ==> distinct_keys(v.metadata) && distinct_names(v.tensors),
{
    if let Ok(v) = spec_parse(d) {
        let kv_count = le_uint(d, 16, 8);
        let tensor_count = le_uint(d, 8, 8);
        lemma_entries_distinct(d, 24, kv_count);
        let p = spec_entries(d, 24, kv_count)->Ok_0.1;
        lemma_tensors_distinct(d, p, tensor_count);
    }
}

proof fn lemma_none_outside(tensors: Seq<TensorView>, data_offset: int, len: int, n: int)
    requires
        first_outside(tensors, data_offset, len, n) is None,
    ensures
        forall|i: int| 0 <= i < n ==> data_end(#[trigger] tensors[i], data_offset) <= len,
    decreases n,
{
    if n > 0 {
        lemma_none_outside(tensors, data_offset, len, n - 1);
    }
}

proof fn lemma_parsed_inside(d: Seq<u8>, v: ParsedView)
    requires
        spec_parse(d) == Ok::<ParsedView, ErrorView>(v),
    ensures
        forall|i: int|
            0 <= i < v.tensors.len() ==> data_end(#[trigger] v.tensors[i], v.data_offset as int)
                <= d.len(),
{
    let kv_count = le_uint(d, 16, 8);
    let tensor_count = le_uint(d, 8, 8);
    let (metadata, p) = spec_entries(d, 24, kv_count)->Ok_0;
    let (tensors, q) = spec_tensors(d, p, tensor_count)->Ok_0;
    lemma_alignment_positive(metadata);
    lemma_entries_forward(d, 24, kv_count);
    lemma_tensors_forward(d, p, tensor_count);
    let a = v.alignment as int;
    let sum = q + a - 1;
    assert(sum % a >= 0 && sum % a < a) by (nonlinear_arith)
        requires
            a > 0,
    ;
    assert(0 <= spec_align_up(q, a) <= u64::MAX);
    lemma_none_outside(tensors, v.data_offset as int, d.len() as int, tensors.len() as int);
}

/// The data of every tensor of an accepted file lie inside the file.
pub proof fn law_tensor_data_inside_file(d: Seq<u8>, v: ParsedView, name: Seq<char>)
    requires
        spec_parse(d) == Ok::<ParsedView, ErrorView>(v),
        v.spec_tensor_info(name) is Some,
    ensures
        data_end(v.spec_tensor_info(name)->0, v.data_offset as int) <= d.len(),
{
    lemma_parsed_inside(d, v);
    assert(has_tensor(v.tensors, name));
    let i = choose|i: int| 0 <= i < v.tensors.len() && (#[trigger] v.tensors[i]).name == name;
    assert(v.spec_tensor_info(name) == Some(v.tensors[i]));
    assert(data_end(v.tensors[i], v.data_offset as int) <= d.len());
}

pub(crate) proof fn lemma_alignment_positive(metadata: Seq<Entry>)
    ensures
        spec_alignment(metadata) matches Ok(a) ==> a > 0 && is_power_of_two(a as int),
{
    reveal_with_fuel(is_power_of_two, 6);
}

proof fn lemma_value_forward(d: Seq<u8>, pos: int, value_type: int, depth: int)
    requires
        depth <= MAX_VALUE_NESTING,
        pos >= 0,
    ensures
        spec_value(d, pos, value_type, depth) matches Ok((v, p)) ==> p >= pos,
    decreases MAX_VALUE_NESTING + 1 - depth, 0int,
{
    if value_type == 9 && depth < MAX_VALUE_NESTING {
        lemma_le_uint_bound(d, pos, 4);
        lemma_le_uint_bound(d, pos + 4, 8);
        let element_type = le_uint(d, pos, 4);
        lemma_values_forward(d, pos + 12, element_type, depth + 1, le_uint(d, pos + 4, 8));
    } else {
        lemma_le_uint_bound(d, pos, 8);
    }
}

proof fn lemma_values_forward(d: Seq<u8>, pos: int, value_type: int, depth: int, n: int)
    requires
        depth <= MAX_VALUE_NESTING,
        pos >= 0,
    ensures
        spec_values(d, pos, value_type, depth, n) matches Ok((v, p)) ==> p >= pos,
    decreases MAX_VALUE_NESTING + 1 - depth, n + 1,
{
    if n > 0 {
        lemma_values_forward(d, pos, value_type, depth, n - 1);
        if let Ok((items, p)) = spec_values(d, pos, value_type, depth, n - 1) {
            lemma_value_forward(d, p, value_type, depth);
        }
    }
}

proof fn lemma_entries_forward(d: Seq<u8>, pos: int, n: int)
    requires
        pos >= 0,
    ensures
        spec_entries(d, pos, n) matches Ok((v, p)) ==> p >= pos,
    decreases n,
{
    if n > 0 {
        lemma_entries_forward(d, pos, n - 1);
        if let Ok((entries, p)) = spec_entries(d, pos, n - 1) {
            lemma_le_uint_bound(d, p, 8);
            if let Ok((key, q)) = spec_string(d, p, "ключ метаданных"@) {
                lemma_value_forward(d, q + 4, le_uint(d, q, 4), 0);
            }
        }
    }
}

proof fn lemma_dimensions_forward(d: Seq<u8>, pos: int, n: int)
    requires
        pos >= 0,
    ensures
        spec_dimensions(d, pos, n) matches Ok((v, p)) ==> p >= pos,
    decreases n,
{
    if n > 0 {
        lemma_dimensions_forward(d, pos, n - 1);
    }
}

proof fn lemma_tensors_forward(d: Seq<u8>, pos: int, n: int)
    requires
        pos >= 0,
    ensures
        spec_tensors(d, pos, n) matches Ok((v, p)) ==> p >= pos,
    decreases n,
{
    if n > 0 {
        lemma_tensors_forward(d, pos, n - 1);
        if let Ok((tensors, p)) = spec_tensors(d, pos, n - 1) {
            lemma_le_uint_bound(d, p, 8);
            if let Ok((name, q)) = spec_string(d, p, "имя тензора"@) {
                lemma_dimensions_forward(d, q + 4, le_uint(d, q, 4));
            }
        }
    }
}

/// The data section of an accepted file begins at a multiple of the alignment, which is a power
/// of two, and no further behind the description than the alignment asks for.
pub proof fn law_data_section_is_aligned(d: Seq<u8>, v: ParsedView)
    requires
        spec_parse(d) == Ok::<ParsedView, ErrorView>(v),
    ensures
        is_power_of_two(v.alignment as int),
        v.data_offset as int % v.alignment as int == 0,
{
    let kv_count = le_uint(d, 16, 8);
    let tensor_count = le_uint(d, 8, 8);
    let (metadata, p) = spec_entries(d, 24, kv_count)->Ok_0;
    let (tensors, q) = spec_tensors(d, p, tensor_count)->Ok_0;
    lemma_alignment_positive(metadata);
    lemma_entries_forward(d, 24, kv_count);
    lemma_tensors_forward(d, p, tensor_count);
    let a = v.alignment as int;
    let sum = q + a - 1;
    vstd::arithmetic::div_mod::lemma_fundamental_div_mod(sum, a);
    vstd::arithmetic::div_mod::lemma_mod_bound(sum, a);
    assert(sum - sum % a == a * (sum / a));
    vstd::arithmetic::div_mod::lemma_mod_multiples_basic(sum / a, a);
    assert(a * (sum / a) == (sum / a) * a) by (nonlinear_arith);
}

/// The keys of the metadata of an accepted file are distinct, and so are the names of its tensors;
/// there are as many of each as the header says, and the file has room for them.
pub proof fn law_records_are_distinct_and_counted(d: Seq<u8>, v: ParsedView)
    requires
        spec_parse(d) == Ok::<ParsedView, ErrorView>(v),
    ensures
        distinct_keys(v.metadata),
        distinct_names(v.tensors),
        v.metadata.len() == v.metadata_kv_count,
        v.tensors.len() == v.tensor_count,
        v.metadata.len() * MIN_KV_BYTES <= d.len(),
        v.tensors.len() * MIN_TENSOR_INFO_BYTES <= d.len(),
{
    lemma_parsed_distinct(d);
    lemma_byte_range_values();
    lemma_le_uint_bound(d, 16, 8);
    lemma_le_uint_bound(d, 8, 8);
    let kv_count = le_uint(d, 16, 8);
    let tensor_count = le_uint(d, 8, 8);
    lemma_entries_distinct(d, 24, kv_count);
    let p = spec_entries(d, 24, kv_count)->Ok_0.1;
    lemma_entries_forward(d, 24, kv_count);
    lemma_tensors_distinct(d, p, tensor_count);
}

proof fn lemma_uint_extends(d: Seq<u8>, e: Seq<u8>, pos: int, n: int)
    requires
        0 <= pos,
        pos + n <= d.len(),
    ensures
        le_uint(d + e, pos, n) == le_uint(d, pos, n),
    decreases n,
{
    if n > 0 {
        lemma_uint_extends(d, e, pos + 1, n - 1);
    }
}

proof fn lemma_step_extends(d: Seq<u8>, e: Seq<u8>, pos: int, n: int, what: Seq<char>)
    requires
        0 <= pos,
        0 <= n,
    ensures
        spec_uint(d, pos, n, what) is Ok ==> spec_uint(d + e, pos, n, what) == spec_uint(
            d,
            pos,
            n,
            what,
        ) && spec_uint(d, pos, n, what)->Ok_0.0 >= 0,
{
    if pos + n <= d.len() {
        lemma_uint_extends(d, e, pos, n);
        lemma_le_uint_bound(d, pos, n);
    }
}

proof fn lemma_string_extends(d: Seq<u8>, e: Seq<u8>, pos: int, what: Seq<char>)
    requires
        0 <= pos,
    ensures
        spec_string(d, pos, what) is Ok ==> spec_string(d + e, pos, what) == spec_string(
            d,
            pos,
            what,
        ) && spec_string(d, pos, what)->Ok_0.1 >= pos,
{
    lemma_step_extends(d, e, pos, 8, what);
    if let Ok((len, p)) = spec_uint(d, pos, 8, what) {
        if p + len <= d.len() {
            assert((d + e).subrange(p, p + len) =~= d.subrange(p, p + len));
        }
    }
}

proof fn lemma_value_extends(d: Seq<u8>, e: Seq<u8>, pos: int, value_type: int, depth: int)
    requires
        depth <= MAX_VALUE_NESTING,
        pos >= 0,
    ensures
        spec_value(d, pos, value_type, depth) is Ok ==> spec_value(d + e, pos, value_type, depth)
            == spec_value(d, pos, value_type, depth),
    decreases MAX_VALUE_NESTING + 1 - depth, 0int,
{
    let what = "значение метаданных"@;
    if value_type == 9 {
        if depth < MAX_VALUE_NESTING {
            lemma_step_extends(d, e, pos, 4, "тип элементов массива"@);
            lemma_step_extends(d, e, pos + 4, 8, "массив метаданных"@);
            let element_type = le_uint(d, pos, 4);
            lemma_values_extend(d, e, pos + 12, element_type, depth + 1, le_uint(d, pos + 4, 8));
        }
    } else if value_type == 8 {
        lemma_string_extends(d, e, pos, what);
    } else if let Some(n) = spec_min_value_bytes(value_type) {
        lemma_step_extends(d, e, pos, n, what);
    }
}

proof fn lemma_values_extend(
    d: Seq<u8>,
    e: Seq<u8>,
    pos: int,
    value_type: int,
    depth: int,
    n: int,
)
    requires
        depth <= MAX_VALUE_NESTING,
        pos >= 0,
    ensures
        spec_values(d, pos, value_type, depth, n) is Ok ==> spec_values(
            d + e,
            pos,
            value_type,
            depth,
            n,
        ) == spec_values(d, pos, value_type, depth, n),
    decreases MAX_VALUE_NESTING + 1 - depth, n + 1,
{
    if n > 0 {
        lemma_values_extend(d, e, pos, value_type, depth, n - 1);
        lemma_values_forward(d, pos, value_type, depth, n - 1);
        if let Ok((items, p)) = spec_values(d, pos, value_type, depth, n - 1) {
            lemma_value_extends(d, e, p, value_type, depth);
        }
    }
}

proof fn lemma_entries_extend(d: Seq<u8>, e: Seq<u8>, pos: int, n: int)
    requires
        pos >= 0,
    ensures
        spec_entries(d, pos, n) is Ok ==> spec_entries(d + e, pos, n) == spec_entries(d, pos, n),
    decreases n,
{
    if n > 0 {
        lemma_entries_extend(d, e, pos, n - 1);
        lemma_entries_forward(d, pos, n - 1);
        if let Ok((entries, p)) = spec_entries(d, pos, n - 1) {
            lemma_string_extends(d, e, p, "ключ метаданных"@);
            if let Ok((key, q)) = spec_string(d, p, "ключ метаданных"@) {
                lemma_step_extends(d, e, q, 4, "тип значения"@);
                lemma_value_extends(d, e, q + 4, le_uint(d, q, 4), 0);
            }
        }
    }
}

proof fn lemma_dimensions_extend(d: Seq<u8>, e: Seq<u8>, pos: int, n: int)
    requires
        pos >= 0,
    ensures
        spec_dimensions(d, pos, n) is Ok ==> spec_dimensions(d + e, pos, n) == spec_dimensions(
            d,
            pos,
            n,
        ),
    decreases n,
{
    if n > 0 {
        lemma_dimensions_extend(d, e, pos, n - 1);
        lemma_dimensions_forward(d, pos, n - 1);
        if let Ok((dims, p)) = spec_dimensions(d, pos, n - 1) {
            lemma_step_extends(d, e, p, 8, "размерность тензора"@);
        }
    }
}

proof fn lemma_tensor_extends(d: Seq<u8>, e: Seq<u8>, pos: int)
    requires
        pos >= 0,
    ensures
        spec_tensor(d, pos) is Ok ==> spec_tensor(d + e, pos) == spec_tensor(d, pos),
{
    lemma_string_extends(d, e, pos, "имя тензора"@);
    if let Ok((name, p1)) = spec_string(d, pos, "имя тензора"@) {
        lemma_step_extends(d, e, p1, 4, "число измерений"@);
        let dims = le_uint(d, p1, 4);
        lemma_dimensions_extend(d, e, p1 + 4, dims);
        lemma_dimensions_forward(d, p1 + 4, dims);
        if let Ok((dimensions, p3)) = spec_dimensions(d, p1 + 4, dims) {
            lemma_step_extends(d, e, p3, 4, "тип тензора"@);
            lemma_step_extends(d, e, p3 + 4, 8, "смещение тензора"@);
        }
    }
}

proof fn lemma_tensors_extend(d: Seq<u8>, e: Seq<u8>, pos: int, n: int)
    requires
        pos >= 0,
    ensures
        spec_tensors(d, pos, n) is Ok ==> spec_tensors(d + e, pos, n) == spec_tensors(d, pos, n),
    decreases n,
{
    if n > 0 {
        lemma_tensors_extend(d, e, pos, n - 1);
        lemma_tensors_forward(d, pos, n - 1);
        if let Ok((tensors, p)) = spec_tensors(d, pos, n - 1) {
            lemma_tensor_extends(d, e, p);
        }
    }
}

proof fn lemma_outside_shrinks(tensors: Seq<TensorView>, data_offset: int, m: int, len: int, n: int)
    requires
        m <= len,
        first_outside(tensors, data_offset, m, n) is None,
    ensures
        first_outside(tensors, data_offset, len, n) is None,
    decreases n,
{
    if n > 0 {
        lemma_outside_shrinks(tensors, data_offset, m, len, n - 1);
    }
}

/// Bytes behind an accepted file change nothing of what it is read as.
pub proof fn law_longer_file_reads_the_same(d: Seq<u8>, e: Seq<u8>)
    requires
        spec_parse(d) is Ok,
    ensures
        spec_parse(d + e) == spec_parse(d),
{
    lemma_step_extends(d, e, 0, 4, "магическое число"@);
    lemma_step_extends(d, e, 4, 4, "версия"@);
    lemma_step_extends(d, e, 8, 8, "число тензоров"@);
    lemma_step_extends(d, e, 16, 8, "число ключей метаданных"@);
    let kv_count = le_uint(d, 16, 8);
    let tensor_count = le_uint(d, 8, 8);
    lemma_entries_extend(d, e, 24, kv_count);
    lemma_entries_forward(d, 24, kv_count);
    let (metadata, p) = spec_entries(d, 24, kv_count)->Ok_0;
    lemma_tensors_extend(d, e, p, tensor_count);
    let (tensors, q) = spec_tensors(d, p, tensor_count)->Ok_0;
    let data_offset = spec_align_up(q, spec_alignment(metadata)->Ok_0 as int);
    lemma_outside_shrinks(
        tensors,
        data_offset,
        d.len() as int,
        (d + e).len() as int,
        tensors.len() as int,
    );
}

/// A file is refused when it is cut off anywhere before the end of a tensor's data: one whose last
/// byte belongs to a tensor, whenever it is cut short.
pub proof fn law_truncated_file_is_refused(d: Seq<u8>, v: ParsedView, name: Seq<char>, len: int)
    requires
        spec_parse(d) == Ok::<ParsedView, ErrorView>(v),
        v.spec_tensor_info(name) is Some,
        0 <= len <= d.len(),
        len < data_end(v.spec_tensor_info(name)->0, v.data_offset as int),
    ensures
        spec_parse(d.subrange(0, len)) is Err,
{
    let cut = d.subrange(0, len);
    let rest = d.subrange(len, d.len() as int);
    assert(cut + rest =~= d);
    if spec_parse(cut) is Ok {
        law_longer_file_reads_the_same(cut, rest);
        law_tensor_data_inside_file(cut, v, name);
    }
}

/// Whether at most `n` arrays are nested in a value.
pub open spec fn nests_within(v: MetaValue, n: int) -> bool
    decreases v,
{
    match v {
        MetaValue::Array(items) => n > 0 && forall|i: int|
            0 <= i < items.len() ==> nests_within(#[trigger] items[i], n - 1),
        _ => true,
    }
}

proof fn lemma_values_nest(d: Seq<u8>, pos: int, value_type: int, depth: int, n: int)
    requires
        depth <= MAX_VALUE_NESTING,
    ensures
        spec_values(d, pos, value_type, depth, n) matches Ok((items, p)) ==> forall|i: int|
            0 <= i < items.len() ==> nests_within(#[trigger] items[i], MAX_VALUE_NESTING - depth),
    decreases MAX_VALUE_NESTING + 1 - depth, n + 1,
{
    if n > 0 {
        lemma_values_nest(d, pos, value_type, depth, n - 1);
        if let Ok((items, p)) = spec_values(d, pos, value_type, depth, n - 1) {
            lemma_value_nests(d, p, value_type, depth);
        }
    }
}

proof fn lemma_value_nests(d: Seq<u8>, pos: int, value_type: int, depth: int)
    requires
        depth <= MAX_VALUE_NESTING,
    ensures
        spec_value(d, pos, value_type, depth) matches Ok((v, p)) ==> nests_within(
            v,
            MAX_VALUE_NESTING - depth,
        ),
    decreases MAX_VALUE_NESTING + 1 - depth, 0int,
{
    if value_type == 9 && depth < MAX_VALUE_NESTING {
        if let Ok((element_type, p)) = spec_uint(d, pos, 4, "тип элементов массива"@) {
            if let Some(min) = spec_min_value_bytes(element_type) {
                if let Ok((len, q)) = spec_count(d, p, min, "массив метаданных"@) {
                    lemma_values_nest(d, q, element_type, depth + 1, len);
                }
            }
        }
    }
}

/// In a value of the metadata no more arrays are nested than the limit allows. An array beyond it,
/// and a type that the format does not have, are refused without anything being read.
pub proof fn law_nesting_is_limited(d: Seq<u8>, pos: int, value_type: int, depth: int)
    ensures
        depth <= MAX_VALUE_NESTING ==> (spec_value(d, pos, value_type, depth) matches Ok((v, p))
            ==> nests_within(v, MAX_VALUE_NESTING - depth)),
        value_type == 9 && depth >= MAX_VALUE_NESTING ==> spec_value(d, pos, value_type, depth)
            == Err::<(MetaValue, int), ErrorView>(ErrorView::NestingTooDeep) && value_stop(
            d,
            pos,
            value_type,
            depth,
        ) == pos,
        value_type > 12 ==> spec_value(d, pos, value_type, depth) == Err::<
            (MetaValue, int),
            ErrorView,
        >(ErrorView::InvalidValueType(value_type as nat)) && value_stop(
            d,
            pos,
            value_type,
            depth,
        ) == pos,
{
    if depth <= MAX_VALUE_NESTING {
        lemma_value_nests(d, pos, value_type, depth);
    }
}

} // verus!
