//! What a reader of a model file can rely on: how a file begins, what the numbers of a tensor are, and
//! which records the interface reads.

use vstd::prelude::*;

use crate::ggml::GGMLType;
use crate::gguf;
use crate::gguf_written;
use crate::inventory;

verus! {

proof fn lemma_four_bytes(d: Seq<u8>, pos: int)
    ensures
        gguf::le_uint(d, pos, 4) == d[pos] + 256 * d[pos + 1] + 0x1_0000 * d[pos + 2] + 0x100_0000
            * d[pos + 3],
{
    reveal_with_fuel(gguf::le_uint, 5);
}

proof fn lemma_eight_bytes(d: Seq<u8>, pos: int)
    ensures
        gguf::le_uint(d, pos, 8) == d[pos] + 256 * d[pos + 1] + 0x1_0000 * d[pos + 2] + 0x100_0000
            * d[pos + 3] + 0x1_0000_0000 * (d[pos + 4] + 256 * d[pos + 5] + 0x1_0000 * d[pos + 6]
            + 0x100_0000 * d[pos + 7]),
{
    reveal_with_fuel(gguf::le_uint, 9);
}

proof fn lemma_letters(a: u8, b: u8, c: u8, e: u8)
    ensures
        a + 256 * b + 0x1_0000 * c + 0x100_0000 * e == 0x4655_4747 <==> a == 71 && b == 71 && c == 85
            && e == 70,
        2 <= a + 256 * b + 0x1_0000 * c + 0x100_0000 * e <= 3 <==> (a == 2 || a == 3) && b == 0 && c
            == 0 && e == 0,
{
}

proof fn lemma_header(d: Seq<u8>)
    ensures
        gguf::spec_parse(d) matches Ok(v) ==> d.len() >= 24 && gguf::le_uint(d, 0, 4) == 0x4655_4747
            && 2 <= gguf::le_uint(d, 4, 4) <= 3 && v.version == gguf::le_uint(d, 4, 4) && v.tensor_count
            == gguf::le_uint(d, 8, 8) as u64 && v.metadata_kv_count == gguf::le_uint(d, 16, 8) as u64,
        d.len() >= 4 && gguf::le_uint(d, 0, 4) != 0x4655_4747 ==> (gguf::spec_parse(d) matches Err(e)
            && e is InvalidMagic),
        d.len() >= 8 && gguf::le_uint(d, 0, 4) == 0x4655_4747 && !(2 <= gguf::le_uint(d, 4, 4) <= 3)
            ==> (gguf::spec_parse(d) matches Err(e) && e is UnsupportedVersion),
{
}

/// A file that is read begins with the letters `GGUF` and a version of two or three in four bytes, the
/// lowest first; then come the number of tensors and that of the metadata, in eight bytes each.
pub proof fn law_file_begins_with_its_letters(d: Seq<u8>, v: gguf::ParsedView)
    requires
        gguf::spec_parse(d) == Ok::<gguf::ParsedView, gguf::ErrorView>(v),
    ensures
        d.len() >= 24,
        d[0] == 71 && d[1] == 71 && d[2] == 85 && d[3] == 70,
        d[4] == 2 || d[4] == 3,
        d[5] == 0 && d[6] == 0 && d[7] == 0,
        v.version == d[4],
        v.tensor_count == d[8] + 256 * d[9] + 0x1_0000 * d[10] + 0x100_0000 * d[11] + 0x1_0000_0000
            * (d[12] + 256 * d[13] + 0x1_0000 * d[14] + 0x100_0000 * d[15]),
        v.metadata_kv_count == d[16] + 256 * d[17] + 0x1_0000 * d[18] + 0x100_0000 * d[19]
            + 0x1_0000_0000 * (d[20] + 256 * d[21] + 0x1_0000 * d[22] + 0x100_0000 * d[23]),
{
    lemma_header(d);
    lemma_four_bytes(d, 0);
    lemma_four_bytes(d, 4);
    lemma_eight_bytes(d, 8);
    lemma_eight_bytes(d, 16);
    lemma_letters(d[0], d[1], d[2], d[3]);
    lemma_letters(d[4], d[5], d[6], d[7]);
}

/// A file that begins with other letters is refused for them, and one of another version for that.
pub proof fn law_other_files_are_refused(d: Seq<u8>)
    requires
        d.len() >= 8,
    ensures
        !(d[0] == 71 && d[1] == 71 && d[2] == 85 && d[3] == 70) ==> (gguf::spec_parse(
            d,
        ) matches Err(e) && e is InvalidMagic),
        d[0] == 71 && d[1] == 71 && d[2] == 85 && d[3] == 70 && !(d[5] == 0 && d[6] == 0 && d[7] == 0
            && (d[4] == 2 || d[4] == 3)) ==> (gguf::spec_parse(d) matches Err(e)
            && e is UnsupportedVersion),
{
    lemma_header(d);
    lemma_four_bytes(d, 0);
    lemma_four_bytes(d, 4);
    lemma_letters(d[0], d[1], d[2], d[3]);
    lemma_letters(d[4], d[5], d[6], d[7]);
}

/// The product of the dimensions of a tensor.
pub open spec fn volume(dimensions: Seq<u64>) -> int
    decreases dimensions.len(),
{
    if dimensions.len() == 0 {
        1
    } else {
        volume(dimensions.drop_last()) * dimensions.last()
    }
}

proof fn lemma_product(dims: Seq<u64>, n: int)
    requires
        0 <= n <= dims.len(),
    ensures
        gguf::product(dims, n) matches Some(p) ==> p == volume(dims.take(n)),
    decreases n,
{
    if n > 0 {
        lemma_product(dims, n - 1);
        assert(dims.take(n).drop_last() =~= dims.take(n - 1));
    }
}

/// What holds of the numbers of a tensor: it has at most four dimensions and as many weights as their
/// product, and its bytes are those of so many weights of its type.
pub open spec fn tensor_adds_up(t: gguf::TensorView) -> bool {
    &&& t.dimensions.len() <= 4
    &&& t.n_elements == volume(t.dimensions)
    &&& t.size_bytes is None <==> t.tensor_type is Unknown
    &&& !(t.tensor_type is Unknown) ==> t.size_bytes == t.tensor_type.spec_data_size(t.n_elements)
}

proof fn lemma_dimensions_counted(d: Seq<u8>, pos: int, n: int)
    requires
        n >= 0,
    ensures
        gguf::spec_dimensions(d, pos, n) matches Ok((dims, p)) ==> dims.len() == n,
    decreases n,
{
    if n > 0 {
        lemma_dimensions_counted(d, pos, n - 1);
    }
}

proof fn lemma_uint_not_negative(d: Seq<u8>, pos: int, n: int)
    ensures
        gguf::le_uint(d, pos, n) >= 0,
    decreases n,
{
    if n > 0 {
        lemma_uint_not_negative(d, pos + 1, n - 1);
    }
}

proof fn lemma_tensor_adds_up(d: Seq<u8>, pos: int)
    ensures
        gguf::spec_tensor(d, pos) matches Ok((t, p)) ==> tensor_adds_up(t),
{
    if let Ok((t, p)) = gguf::spec_tensor(d, pos) {
        let p1 = gguf::spec_string(d, pos, "имя тензора"@)->Ok_0.1;
        let n = gguf::le_uint(d, p1, 4);
        lemma_uint_not_negative(d, p1, 4);
        lemma_dimensions_counted(d, p1 + 4, n);
        lemma_product(t.dimensions, t.dimensions.len() as int);
        assert(t.dimensions.take(t.dimensions.len() as int) =~= t.dimensions);
    }
}

proof fn lemma_tensors_add_up(d: Seq<u8>, pos: int, n: int)
    ensures
        gguf::spec_tensors(d, pos, n) matches Ok((tensors, p)) ==> forall|i: int|
            0 <= i < tensors.len() ==> tensor_adds_up(#[trigger] tensors[i]),
    decreases n,
{
    if n > 0 {
        lemma_tensors_add_up(d, pos, n - 1);
        if let Ok((tensors, p)) = gguf::spec_tensors(d, pos, n - 1) {
            lemma_tensor_adds_up(d, p);
        }
    }
}

/// Every tensor of a file that is read has as many weights as its dimensions say, and as many bytes as
/// so many weights of its type take; its bytes lie in the data section, from its offset on.
pub proof fn law_tensors_add_up(d: Seq<u8>, v: gguf::ParsedView, i: int)
    requires
        gguf::spec_parse(d) == Ok::<gguf::ParsedView, gguf::ErrorView>(v),
        0 <= i < v.tensors.len(),
    ensures
        tensor_adds_up(v.tensors[i]),
        v.data_offset + v.tensors[i].offset <= d.len(),
        v.tensors[i].size_bytes matches Some(size) ==> v.data_offset + v.tensors[i].offset + size
            <= d.len(),
{
    let kv_count = gguf::le_uint(d, 16, 8);
    let tensor_count = gguf::le_uint(d, 8, 8);
    let (metadata, p) = gguf::spec_entries(d, 24, kv_count)->Ok_0;
    lemma_tensors_add_up(d, p, tensor_count);
    gguf::law_records_are_distinct_and_counted(d, v);
    let name = v.tensors[i].name;
    assert(gguf::has_tensor(v.tensors, name));
    let k = choose|k: int| 0 <= k < v.tensors.len() && (#[trigger] v.tensors[k]).name == name;
    assert(k == i);
    gguf::law_tensor_data_inside_file(d, v, name);
}

/// The weights of one, two, three and four dimensions, written out.
pub proof fn law_weights_of_a_tensor(a: u64, b: u64, c: u64, e: u64)
    ensures
        volume(seq![]) == 1,
        volume(seq![a]) == a,
        volume(seq![a, b]) == a * b,
        volume(seq![a, b, c]) == a * b * c,
        volume(seq![a, b, c, e]) == a * b * c * e,
{
    reveal_with_fuel(volume, 5);
    assert(seq![a].drop_last() =~= seq![]);
    assert(seq![a, b].drop_last() =~= seq![a]);
    assert(seq![a, b, c].drop_last() =~= seq![a, b]);
    assert(seq![a, b, c, e].drop_last() =~= seq![a, b, c]);
}

/// Dimensions whose product does not fit in 64 bits are refused, and so are weights that fill no whole
/// blocks of their type; everything else is described.
pub proof fn law_impossible_tensors_are_refused(
    name: Seq<char>,
    dimensions: Seq<u64>,
    tensor_type: GGMLType,
    offset: u64,
)
    requires
        forall|i: int| 0 <= i < dimensions.len() ==> #[trigger] dimensions[i] > 0,
    ensures
        gguf::spec_describe(name, dimensions, tensor_type, offset) matches Err(e) ==> (e
            == gguf::ErrorView::ElementCountOverflow(name) && volume(dimensions) > u64::MAX) || (
        e is PartialBlock && 0 <= volume(dimensions) <= u64::MAX && !(tensor_type is Unknown)
            && tensor_type.spec_data_size(volume(dimensions) as u64) is None),
        gguf::spec_describe(name, dimensions, tensor_type, offset) matches Ok(t) ==> t.name == name
            && t.dimensions == dimensions && t.tensor_type == tensor_type && t.offset == offset
            && t.n_elements == volume(dimensions),
{
    let n = dimensions.len() as int;
    assert(dimensions.take(n) =~= dimensions);
    lemma_product(dimensions, n);
    lemma_overflow(dimensions, n);
}

proof fn lemma_overflow(dims: Seq<u64>, n: int)
    requires
        0 <= n <= dims.len(),
        forall|i: int| 0 <= i < dims.len() ==> #[trigger] dims[i] > 0,
    ensures
        volume(dims.take(n)) >= 1,
        gguf::product(dims, n) is None ==> volume(dims.take(n)) > u64::MAX,
    decreases n,
{
    if n > 0 {
        lemma_overflow(dims, n - 1);
        lemma_product(dims, n - 1);
        let whole = dims.take(n);
        assert(whole.drop_last() =~= dims.take(n - 1));
        let a = volume(dims.take(n - 1));
        let b = dims[n - 1] as int;
        assert(whole.last() == dims[n - 1]);
        assert(a * b >= a) by (nonlinear_arith)
            requires
                a >= 1,
                b >= 1,
        ;
    }
}

proof fn lemma_found(entries: Seq<gguf::Entry>, i: int)
    requires
        0 <= i < entries.len(),
        gguf::distinct_keys(entries),
    ensures
        gguf::lookup(entries, entries[i].0) == Some(entries[i].1),
{
    let key = entries[i].0;
    assert(gguf::has_key(entries, key));
    let k = choose|k: int| 0 <= k < entries.len() && (#[trigger] entries[k]).0 == key;
    assert(entries[k].0 == entries[i].0);
    assert(k == i);
}

/// Every record of the metadata is found by its key, and no other key is found.
pub proof fn law_records_are_found_by_key(d: Seq<u8>, v: gguf::ParsedView, i: int, key: Seq<char>)
    requires
        gguf::spec_parse(d) == Ok::<gguf::ParsedView, gguf::ErrorView>(v),
    ensures
        0 <= i < v.metadata.len() ==> gguf::lookup(v.metadata, v.metadata[i].0) == Some(
            v.metadata[i].1,
        ),
        (forall|k: int| 0 <= k < v.metadata.len() ==> (#[trigger] v.metadata[k]).0 != key)
            ==> gguf::lookup(v.metadata, key) is None,
{
    gguf::law_records_are_distinct_and_counted(d, v);
    if 0 <= i < v.metadata.len() {
        lemma_found(v.metadata, i);
    }
}

/// Whole numbers of every width are read as numbers unless they are negative; nothing else is one.
pub proof fn law_whole_numbers(v: gguf::MetaValue)
    ensures
        v matches gguf::MetaValue::Uint8(x) ==> v.spec_u64() matches Some(n) && n == x,
        v matches gguf::MetaValue::Uint16(x) ==> v.spec_u64() matches Some(n) && n == x,
        v matches gguf::MetaValue::Uint32(x) ==> v.spec_u64() matches Some(n) && n == x,
        v matches gguf::MetaValue::Uint64(x) ==> v.spec_u64() matches Some(n) && n == x,
        v matches gguf::MetaValue::Int8(x) ==> if x >= 0 {
            v.spec_u64() matches Some(n) && n == x
        } else {
            v.spec_u64() is None
        },
        v matches gguf::MetaValue::Int16(x) ==> if x >= 0 {
            v.spec_u64() matches Some(n) && n == x
        } else {
            v.spec_u64() is None
        },
        v matches gguf::MetaValue::Int32(x) ==> if x >= 0 {
            v.spec_u64() matches Some(n) && n == x
        } else {
            v.spec_u64() is None
        },
        v matches gguf::MetaValue::Int64(x) ==> if x >= 0 {
            v.spec_u64() matches Some(n) && n == x
        } else {
            v.spec_u64() is None
        },
        v is Float32 || v is Float64 || v is Bool || v is String || v is Array ==> v.spec_u64() is None,
        v matches gguf::MetaValue::String(s) ==> v.spec_str() == Some(s),
        !(v is String) ==> v.spec_str() is None,
{
}

/// A file without an alignment of its own is aligned to 32 bytes, one with a whole number under
/// `general.alignment` to that number.
pub proof fn law_alignment_is_that_of_the_metadata(d: Seq<u8>, v: gguf::ParsedView, i: int)
    requires
        gguf::spec_parse(d) == Ok::<gguf::ParsedView, gguf::ErrorView>(v),
    ensures
        (forall|k: int|
            0 <= k < v.metadata.len() ==> (#[trigger] v.metadata[k]).0 != "general.alignment"@)
            ==> v.alignment == 32,
        0 <= i < v.metadata.len() && v.metadata[i].0 == "general.alignment"@ ==> (
        v.metadata[i].1.spec_u64() == Some(v.alignment)),
{
    gguf::law_records_are_distinct_and_counted(d, v);
    if 0 <= i < v.metadata.len() {
        lemma_found(v.metadata, i);
    }
}

/// The data section of a written file begins at the first multiple of the alignment behind the
/// description, and the file goes on with the data.
pub proof fn law_data_follow_the_description(c: gguf_written::Contents)
    requires
        gguf_written::writable_contents(c),
    ensures
        ({
            let v = gguf_written::parsed(c);
            let head = gguf_written::put_head(c);
            let file = gguf_written::put_file(c);
            &&& gguf::spec_parse(file) == Ok::<gguf::ParsedView, gguf::ErrorView>(v)
            &&& head.len() <= v.data_offset < head.len() + v.alignment
            &&& v.data_offset as int % v.alignment as int == 0
            &&& file.subrange(v.data_offset as int, file.len() as int) == c.data
            &&& file.len() == v.data_offset + c.data.len()
        }),
{
    gguf_written::law_written_file_is_read_back(c);
    let v = gguf_written::parsed(c);
    let file = gguf_written::put_file(c);
    gguf::law_data_section_is_aligned(file, v);
    gguf::lemma_alignment_positive(c.metadata);
    let head = gguf_written::put_head(c).len() as int;
    let a = v.alignment as int;
    vstd::arithmetic::div_mod::lemma_mod_bound(head + a - 1, a);
    assert(file.subrange(v.data_offset as int, file.len() as int) =~= c.data);
}

/// The weights of a model are those of its tensors: none without one, and those of each more.
pub proof fn law_weights_add_up(tensors: Seq<gguf::TensorView>, t: gguf::TensorView)
    ensures
        gguf::sum_elements(Seq::empty(), 0) == 0,
        gguf::sum_elements(tensors.push(t), (tensors.len() + 1) as int) == gguf::sum_elements(
            tensors,
            tensors.len() as int,
        ) + t.n_elements,
{
    lemma_sum_prefix(tensors, t, tensors.len() as int);
}

proof fn lemma_sum_prefix(tensors: Seq<gguf::TensorView>, t: gguf::TensorView, n: int)
    requires
        0 <= n <= tensors.len(),
    ensures
        gguf::sum_elements(tensors.push(t), n) == gguf::sum_elements(tensors, n),
    decreases n,
{
    if n > 0 {
        lemma_sum_prefix(tensors, t, n - 1);
    }
}

/// Whether the metadata hold this whole number under a key.
pub open spec fn holds_number(v: gguf::ParsedView, key: Seq<char>, n: u64) -> bool {
    exists|i: int|
        0 <= i < v.metadata.len() && (#[trigger] v.metadata[i]).0 == key
            && v.metadata[i].1.spec_u64() == Some(n)
}

proof fn lemma_number_found(v: gguf::ParsedView, arch: Seq<char>, suffix: Seq<char>, n: u64)
    requires
        gguf::distinct_keys(v.metadata),
        v.spec_architecture() == Some(arch),
        holds_number(v, arch + seq!['.'] + suffix, n),
    ensures
        v.spec_arch_u64(suffix) == Some(n),
{
    let key = arch + seq!['.'] + suffix;
    let i = choose|i: int|
        0 <= i < v.metadata.len() && (#[trigger] v.metadata[i]).0 == key
            && v.metadata[i].1.spec_u64() == Some(n);
    lemma_found(v.metadata, i);
}

/// The summary of a file reads its numbers under the keys of its architecture: `llama.context_length`
/// for a file of the architecture `llama`, and so on.
pub proof fn law_summary_reads_the_architecture(
    d: Seq<u8>,
    v: gguf::ParsedView,
    i: int,
    arch: Seq<char>,
    n: u64,
)
    requires
        gguf::spec_parse(d) == Ok::<gguf::ParsedView, gguf::ErrorView>(v),
        0 <= i < v.metadata.len(),
        v.metadata[i].0 == "general.architecture"@,
        v.metadata[i].1 == gguf::MetaValue::String(arch),
    ensures
        inventory::summary_of(v).architecture == Some(arch),
        holds_number(v, arch + seq!['.'] + "context_length"@, n) ==> inventory::summary_of(
            v,
        ).context_length == Some(n),
        holds_number(v, arch + seq!['.'] + "block_count"@, n) ==> inventory::summary_of(
            v,
        ).block_count == Some(n),
        holds_number(v, arch + seq!['.'] + "embedding_length"@, n) ==> inventory::summary_of(
            v,
        ).embedding_length == Some(n),
        holds_number(v, arch + seq!['.'] + "attention.head_count"@, n) ==> inventory::summary_of(
            v,
        ).head_count == Some(n),
        holds_number(v, arch + seq!['.'] + "attention.head_count_kv"@, n) ==> inventory::summary_of(
            v,
        ).head_count_kv == Some(n),
        holds_number(v, arch + seq!['.'] + "attention.key_length"@, n) ==> inventory::summary_of(
            v,
        ).key_length == Some(n),
        holds_number(v, arch + seq!['.'] + "attention.value_length"@, n) ==> inventory::summary_of(
            v,
        ).value_length == Some(n),
        holds_number(v, arch + seq!['.'] + "expert_count"@, n) ==> inventory::summary_of(
            v,
        ).expert_count == Some(n),
        holds_number(v, arch + seq!['.'] + "attention.sliding_window"@, n) ==> inventory::summary_of(
            v,
        ).uses_sliding_window,
        holds_number(v, arch + seq!['.'] + "attention.shared_kv_layers"@, n)
            ==> inventory::summary_of(v).shares_kv_between_layers == (n > 0),
{
    gguf::law_records_are_distinct_and_counted(d, v);
    lemma_found(v.metadata, i);
    assert forall|suffix: Seq<char>| #[trigger]
        holds_number(v, arch + seq!['.'] + suffix, n) implies v.spec_arch_u64(suffix) == Some(n) by {
        lemma_number_found(v, arch, suffix, n);
    }
}

/// A summary counts the weights and the tensors of its file, and has the template of the chat as it
/// stands under `tokenizer.chat_template`.
pub proof fn law_summary_counts_and_quotes(d: Seq<u8>, v: gguf::ParsedView, i: int, template: Seq<char>)
    requires
        gguf::spec_parse(d) == Ok::<gguf::ParsedView, gguf::ErrorView>(v),
    ensures
        inventory::summary_of(v).tensor_count == v.tensors.len(),
        gguf::sum_elements(v.tensors, v.tensors.len() as int) <= u64::MAX ==> inventory::summary_of(
            v,
        ).parameter_count == gguf::sum_elements(v.tensors, v.tensors.len() as int),
        0 <= i < v.metadata.len() && v.metadata[i].0 == "tokenizer.chat_template"@
            && v.metadata[i].1 == gguf::MetaValue::String(template) ==> inventory::summary_of(
            v,
        ).chat_template == Some(template),
{
    gguf::law_records_are_distinct_and_counted(d, v);
    lemma_sum_not_negative(v.tensors, v.tensors.len() as int);
    if 0 <= i < v.metadata.len() {
        lemma_found(v.metadata, i);
    }
}

proof fn lemma_sum_not_negative(tensors: Seq<gguf::TensorView>, n: int)
    ensures
        gguf::sum_elements(tensors, n) >= 0,
    decreases n,
{
    if n > 0 {
        lemma_sum_not_negative(tensors, n - 1);
    }
}

} // verus!
