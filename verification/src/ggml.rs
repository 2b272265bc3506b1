//! Storage types of ggml tensors: numbers, names and block sizes.

use vstd::prelude::*;

use crate::text;

verus! {

/// How a quantized block is laid out: how many weights it holds and how many bytes it takes.
#[derive(Debug, Clone, Copy, PartialEq, Eq, Structural)]
pub struct BlockLayout {
    pub elements_per_block: u64,
    pub bytes_per_block: u64,
}

/// Storage type of a tensor. The numbers are those of `enum ggml_type`; the block sizes are
/// those of `ggml_blck_size` and `ggml_type_size`.
#[derive(Debug, Clone, Copy, PartialEq, Eq, Hash, Structural)]
#[allow(non_camel_case_types)]
pub enum GGMLType {
    F32,
    F16,
    Q4_0,
    Q4_1,
    Q5_0,
    Q5_1,
    Q8_0,
    Q8_1,
    Q2_K,
    Q3_K,
    Q4_K,
    Q5_K,
    Q6_K,
    Q8_K,
    IQ2_XXS,
    IQ2_XS,
    IQ3_XXS,
    IQ1_S,
    IQ4_NL,
    IQ3_S,
    IQ2_S,
    IQ4_XS,
    I8,
    I16,
    I32,
    I64,
    F64,
    IQ1_M,
    BF16,
    TQ1_0,
    TQ2_0,
    MXFP4,
    NVFP4,
    Q1_0,
    /// A number that is not in the table: the type is retired, or newer than the table.
    Unknown(u32),
}

/// One row of the type table.
pub struct TypeRow {
    pub id: u32,
    pub name: &'static str,
    pub elements_per_block: u64,
    pub bytes_per_block: u64,
}

impl GGMLType {
    /// The number of the type in ggml.
    pub open spec fn spec_id(self) -> u32 {
        match self {
            GGMLType::Unknown(id) => id,
            GGMLType::F32 => 0,
            GGMLType::F16 => 1,
            GGMLType::Q4_0 => 2,
            GGMLType::Q4_1 => 3,
            GGMLType::Q5_0 => 6,
            GGMLType::Q5_1 => 7,
            GGMLType::Q8_0 => 8,
            GGMLType::Q8_1 => 9,
            GGMLType::Q2_K => 10,
            GGMLType::Q3_K => 11,
            GGMLType::Q4_K => 12,
            GGMLType::Q5_K => 13,
            GGMLType::Q6_K => 14,
            GGMLType::Q8_K => 15,
            GGMLType::IQ2_XXS => 16,
            GGMLType::IQ2_XS => 17,
            GGMLType::IQ3_XXS => 18,
            GGMLType::IQ1_S => 19,
            GGMLType::IQ4_NL => 20,
            GGMLType::IQ3_S => 21,
            GGMLType::IQ2_S => 22,
            GGMLType::IQ4_XS => 23,
            GGMLType::I8 => 24,
            GGMLType::I16 => 25,
            GGMLType::I32 => 26,
            GGMLType::I64 => 27,
            GGMLType::F64 => 28,
            GGMLType::IQ1_M => 29,
            GGMLType::BF16 => 30,
            GGMLType::TQ1_0 => 34,
            GGMLType::TQ2_0 => 35,
            GGMLType::MXFP4 => 39,
            GGMLType::NVFP4 => 40,
            GGMLType::Q1_0 => 41,
        }
    }

    /// The name of the type, as names of quantizations spell it.
    pub open spec fn spec_name(self) -> Seq<char> {
        match self {
            GGMLType::Unknown(_) => "unknown"@,
            GGMLType::F32 => "F32"@,
            GGMLType::F16 => "F16"@,
            GGMLType::Q4_0 => "Q4_0"@,
            GGMLType::Q4_1 => "Q4_1"@,
            GGMLType::Q5_0 => "Q5_0"@,
            GGMLType::Q5_1 => "Q5_1"@,
            GGMLType::Q8_0 => "Q8_0"@,
            GGMLType::Q8_1 => "Q8_1"@,
            GGMLType::Q2_K => "Q2_K"@,
            GGMLType::Q3_K => "Q3_K"@,
            GGMLType::Q4_K => "Q4_K"@,
            GGMLType::Q5_K => "Q5_K"@,
            GGMLType::Q6_K => "Q6_K"@,
            GGMLType::Q8_K => "Q8_K"@,
            GGMLType::IQ2_XXS => "IQ2_XXS"@,
            GGMLType::IQ2_XS => "IQ2_XS"@,
            GGMLType::IQ3_XXS => "IQ3_XXS"@,
            GGMLType::IQ1_S => "IQ1_S"@,
            GGMLType::IQ4_NL => "IQ4_NL"@,
            GGMLType::IQ3_S => "IQ3_S"@,
            GGMLType::IQ2_S => "IQ2_S"@,
            GGMLType::IQ4_XS => "IQ4_XS"@,
            GGMLType::I8 => "I8"@,
            GGMLType::I16 => "I16"@,
            GGMLType::I32 => "I32"@,
            GGMLType::I64 => "I64"@,
            GGMLType::F64 => "F64"@,
            GGMLType::IQ1_M => "IQ1_M"@,
            GGMLType::BF16 => "BF16"@,
            GGMLType::TQ1_0 => "TQ1_0"@,
            GGMLType::TQ2_0 => "TQ2_0"@,
            GGMLType::MXFP4 => "MXFP4"@,
            GGMLType::NVFP4 => "NVFP4"@,
            GGMLType::Q1_0 => "Q1_0"@,
        }
    }

    /// Weights in a block and bytes of a block; nothing for a type outside the table.
    pub open spec fn spec_layout(self) -> Option<BlockLayout> {
        match self {
            GGMLType::Unknown(_) => None,
            GGMLType::F32 => layout_of(1, 4),
            GGMLType::F16 => layout_of(1, 2),
            GGMLType::Q4_0 => layout_of(32, 18),
            GGMLType::Q4_1 => layout_of(32, 20),
            GGMLType::Q5_0 => layout_of(32, 22),
            GGMLType::Q5_1 => layout_of(32, 24),
            GGMLType::Q8_0 => layout_of(32, 34),
            GGMLType::Q8_1 => layout_of(32, 36),
            GGMLType::Q2_K => layout_of(256, 84),
            GGMLType::Q3_K => layout_of(256, 110),
            GGMLType::Q4_K => layout_of(256, 144),
            GGMLType::Q5_K => layout_of(256, 176),
            GGMLType::Q6_K => layout_of(256, 210),
            GGMLType::Q8_K => layout_of(256, 292),
            GGMLType::IQ2_XXS => layout_of(256, 66),
            GGMLType::IQ2_XS => layout_of(256, 74),
            GGMLType::IQ3_XXS => layout_of(256, 98),
            GGMLType::IQ1_S => layout_of(256, 50),
            GGMLType::IQ4_NL => layout_of(32, 18),
            GGMLType::IQ3_S => layout_of(256, 110),
            GGMLType::IQ2_S => layout_of(256, 82),
            GGMLType::IQ4_XS => layout_of(256, 136),
            GGMLType::I8 => layout_of(1, 1),
            GGMLType::I16 => layout_of(1, 2),
            GGMLType::I32 => layout_of(1, 4),
            GGMLType::I64 => layout_of(1, 8),
            GGMLType::F64 => layout_of(1, 8),
            GGMLType::IQ1_M => layout_of(256, 56),
            GGMLType::BF16 => layout_of(1, 2),
            GGMLType::TQ1_0 => layout_of(256, 54),
            GGMLType::TQ2_0 => layout_of(256, 66),
            GGMLType::MXFP4 => layout_of(32, 17),
            GGMLType::NVFP4 => layout_of(64, 36),
            GGMLType::Q1_0 => layout_of(128, 18),
        }
    }

    /// Size in bytes of `elements` weights: whole blocks only, and only where the size fits.
    pub open spec fn spec_data_size(self, elements: u64) -> Option<u64> {
        match self.spec_layout() {
            None => None,
            Some(layout) => {
                let size = (elements as int / layout.elements_per_block as int)
                    * layout.bytes_per_block;
                if elements as int % layout.elements_per_block as int != 0 || size > u64::MAX {
                    None
                } else {
                    Some(size as u64)
                }
            },
        }
    }

    /// The row of the table that describes the type.
    fn table_row(self) -> (r: Option<TypeRow>)
        ensures
            r is Some <==> self.spec_layout() is Some,
            r is Some ==> r->0.id == self.spec_id() && r->0.name@ == self.spec_name()
                && self.spec_layout() == layout_of(
                r->0.elements_per_block,
                r->0.bytes_per_block,
            ),
    {
        match self {
            GGMLType::Unknown(_) => None,
            GGMLType::F32 => Some(row(0, "F32", 1, 4)),
            GGMLType::F16 => Some(row(1, "F16", 1, 2)),
            GGMLType::Q4_0 => Some(row(2, "Q4_0", 32, 18)),
            GGMLType::Q4_1 => Some(row(3, "Q4_1", 32, 20)),
            GGMLType::Q5_0 => Some(row(6, "Q5_0", 32, 22)),
            GGMLType::Q5_1 => Some(row(7, "Q5_1", 32, 24)),
            GGMLType::Q8_0 => Some(row(8, "Q8_0", 32, 34)),
            GGMLType::Q8_1 => Some(row(9, "Q8_1", 32, 36)),
            GGMLType::Q2_K => Some(row(10, "Q2_K", 256, 84)),
            GGMLType::Q3_K => Some(row(11, "Q3_K", 256, 110)),
            GGMLType::Q4_K => Some(row(12, "Q4_K", 256, 144)),
            GGMLType::Q5_K => Some(row(13, "Q5_K", 256, 176)),
            GGMLType::Q6_K => Some(row(14, "Q6_K", 256, 210)),
            GGMLType::Q8_K => Some(row(15, "Q8_K", 256, 292)),
            GGMLType::IQ2_XXS => Some(row(16, "IQ2_XXS", 256, 66)),
            GGMLType::IQ2_XS => Some(row(17, "IQ2_XS", 256, 74)),
            GGMLType::IQ3_XXS => Some(row(18, "IQ3_XXS", 256, 98)),
            GGMLType::IQ1_S => Some(row(19, "IQ1_S", 256, 50)),
            GGMLType::IQ4_NL => Some(row(20, "IQ4_NL", 32, 18)),
            GGMLType::IQ3_S => Some(row(21, "IQ3_S", 256, 110)),
            GGMLType::IQ2_S => Some(row(22, "IQ2_S", 256, 82)),
            GGMLType::IQ4_XS => Some(row(23, "IQ4_XS", 256, 136)),
            GGMLType::I8 => Some(row(24, "I8", 1, 1)),
            GGMLType::I16 => Some(row(25, "I16", 1, 2)),
            GGMLType::I32 => Some(row(26, "I32", 1, 4)),
            GGMLType::I64 => Some(row(27, "I64", 1, 8)),
            GGMLType::F64 => Some(row(28, "F64", 1, 8)),
            GGMLType::IQ1_M => Some(row(29, "IQ1_M", 256, 56)),
            GGMLType::BF16 => Some(row(30, "BF16", 1, 2)),
            GGMLType::TQ1_0 => Some(row(34, "TQ1_0", 256, 54)),
            GGMLType::TQ2_0 => Some(row(35, "TQ2_0", 256, 66)),
            GGMLType::MXFP4 => Some(row(39, "MXFP4", 32, 17)),
            GGMLType::NVFP4 => Some(row(40, "NVFP4", 64, 36)),
            GGMLType::Q1_0 => Some(row(41, "Q1_0", 128, 18)),
        }
    }

    /// The number of the type in ggml.
    pub fn id(self) -> (r: u32)
        ensures
            r == self.spec_id(),
    {
        match self {
            GGMLType::Unknown(id) => id,
            known => match known.table_row() {
                Some(row) => row.id,
                None => u32::MAX,
            },
        }
    }

    /// The name of the type, as names of quantizations spell it (`Q4_K`, `TQ2_0`).
    pub fn name(self) -> (r: &'static str)
        ensures
            r@ == self.spec_name(),
    {
        match self.table_row() {
            Some(row) => row.name,
            None => "unknown",
        }
    }

    /// Layout of a block, or `None` for a type outside the table.
    pub fn block_layout(self) -> (r: Option<BlockLayout>)
        ensures
            r == self.spec_layout(),
            r is None <==> self is Unknown,
            self == GGMLType::F32 || self == GGMLType::I32 ==> r == layout_of(1, 4),
            self == GGMLType::F16 || self == GGMLType::BF16 || self == GGMLType::I16 ==> r
                == layout_of(1, 2),
            self == GGMLType::I64 || self == GGMLType::F64 ==> r == layout_of(1, 8),
            self == GGMLType::I8 ==> r == layout_of(1, 1),
            self == GGMLType::Q4_0 ==> r == layout_of(32, 18),
            self == GGMLType::Q8_0 ==> r == layout_of(32, 34),
            self == GGMLType::Q4_K ==> r == layout_of(256, 144),
            self == GGMLType::Q5_K ==> r == layout_of(256, 176),
            self == GGMLType::Q6_K ==> r == layout_of(256, 210),
    {
        match self.table_row() {
            Some(row) => Some(
                BlockLayout {
                    elements_per_block: row.elements_per_block,
                    bytes_per_block: row.bytes_per_block,
                },
            ),
            None => None,
        }
    }

    /// Size in bytes of `elements` weights. `None` if the type is unknown, if the weights do not
    /// fill whole blocks or if the size does not fit in a `u64`.
    pub fn data_size(self, elements: u64) -> (r: Option<u64>)
        ensures
            r == self.spec_data_size(elements),
    {
        match self.block_layout() {
            None => None,
            Some(layout) => {
                if elements % layout.elements_per_block != 0 {
                    return None;
                }
                (elements / layout.elements_per_block).checked_mul(layout.bytes_per_block)
            },
        }
    }
}

pub open spec fn layout_of(elements: u64, bytes: u64) -> Option<BlockLayout> {
    Some(BlockLayout { elements_per_block: elements, bytes_per_block: bytes })
}

fn row(id: u32, name: &'static str, elements: u64, bytes: u64) -> (r: TypeRow)
    ensures
        r.id == id,
        r.name@ == name@,
        r.elements_per_block == elements,
        r.bytes_per_block == bytes,
{
    TypeRow { id, name, elements_per_block: elements, bytes_per_block: bytes }
}

/// The type that a number stands for.
pub open spec fn type_of_id(id: u32) -> GGMLType {
    if id == 0 {
        GGMLType::F32
    } else if id == 1 {
        GGMLType::F16
    } else if id == 2 {
        GGMLType::Q4_0
    } else if id == 3 {
        GGMLType::Q4_1
    } else if id == 6 {
        GGMLType::Q5_0
    } else if id == 7 {
        GGMLType::Q5_1
    } else if id == 8 {
        GGMLType::Q8_0
    } else if id == 9 {
        GGMLType::Q8_1
    } else if id == 10 {
        GGMLType::Q2_K
    } else if id == 11 {
        GGMLType::Q3_K
    } else if id == 12 {
        GGMLType::Q4_K
    } else if id == 13 {
        GGMLType::Q5_K
    } else if id == 14 {
        GGMLType::Q6_K
    } else if id == 15 {
        GGMLType::Q8_K
    } else if id == 16 {
        GGMLType::IQ2_XXS
    } else if id == 17 {
        GGMLType::IQ2_XS
    } else if id == 18 {
        GGMLType::IQ3_XXS
    } else if id == 19 {
        GGMLType::IQ1_S
    } else if id == 20 {
        GGMLType::IQ4_NL
    } else if id == 21 {
        GGMLType::IQ3_S
    } else if id == 22 {
        GGMLType::IQ2_S
    } else if id == 23 {
        GGMLType::IQ4_XS
    } else if id == 24 {
        GGMLType::I8
    } else if id == 25 {
        GGMLType::I16
    } else if id == 26 {
        GGMLType::I32
    } else if id == 27 {
        GGMLType::I64
    } else if id == 28 {
        GGMLType::F64
    } else if id == 29 {
        GGMLType::IQ1_M
    } else if id == 30 {
        GGMLType::BF16
    } else if id == 34 {
        GGMLType::TQ1_0
    } else if id == 35 {
        GGMLType::TQ2_0
    } else if id == 39 {
        GGMLType::MXFP4
    } else if id == 40 {
        GGMLType::NVFP4
    } else if id == 41 {
        GGMLType::Q1_0
    } else {
        GGMLType::Unknown(id)
    }
}

impl vstd::std_specs::convert::FromSpecImpl<u32> for GGMLType {
    open spec fn obeys_from_spec() -> bool {
        true
    }

    open spec fn from_spec(id: u32) -> Self {
        type_of_id(id)
    }
}

impl From<u32> for GGMLType {
    fn from(id: u32) -> Self {
        match id {
            0 => GGMLType::F32,
            1 => GGMLType::F16,
            2 => GGMLType::Q4_0,
            3 => GGMLType::Q4_1,
            6 => GGMLType::Q5_0,
            7 => GGMLType::Q5_1,
            8 => GGMLType::Q8_0,
            9 => GGMLType::Q8_1,
            10 => GGMLType::Q2_K,
            11 => GGMLType::Q3_K,
            12 => GGMLType::Q4_K,
            13 => GGMLType::Q5_K,
            14 => GGMLType::Q6_K,
            15 => GGMLType::Q8_K,
            16 => GGMLType::IQ2_XXS,
            17 => GGMLType::IQ2_XS,
            18 => GGMLType::IQ3_XXS,
            19 => GGMLType::IQ1_S,
            20 => GGMLType::IQ4_NL,
            21 => GGMLType::IQ3_S,
            22 => GGMLType::IQ2_S,
            23 => GGMLType::IQ4_XS,
            24 => GGMLType::I8,
            25 => GGMLType::I16,
            26 => GGMLType::I32,
            27 => GGMLType::I64,
            28 => GGMLType::F64,
            29 => GGMLType::IQ1_M,
            30 => GGMLType::BF16,
            34 => GGMLType::TQ1_0,
            35 => GGMLType::TQ2_0,
            39 => GGMLType::MXFP4,
            40 => GGMLType::NVFP4,
            41 => GGMLType::Q1_0,
            other => GGMLType::Unknown(other),
        }
    }
}

/// Every number names a type that carries the number back.
pub proof fn law_type_of_id_keeps_id(id: u32)
    ensures
        type_of_id(id).spec_id() == id,
{
}

/// Every type of the table is found again by its number.
pub proof fn law_known_type_is_found_by_id(t: GGMLType)
    requires
        t.spec_layout() is Some,
    ensures
        type_of_id(t.spec_id()) == t,
{
}

/// Whole blocks only: a size that is given times the block's weights is the weights times the
/// block's bytes.
pub proof fn law_data_size_is_proportional(t: GGMLType, elements: u64)
    requires
        t.spec_data_size(elements) is Some,
    ensures
        t.spec_data_size(elements)->0 * t.spec_layout()->0.elements_per_block
            == elements * t.spec_layout()->0.bytes_per_block,
{
    let e = t.spec_layout()->0.elements_per_block as int;
    let b = t.spec_layout()->0.bytes_per_block as int;
    let q = elements as int / e;
    assert(elements == q * e) by (nonlinear_arith)
        requires
            q == elements as int / e,
            elements as int % e == 0,
            e > 0,
    ;
    assert((q * b) * e == (q * e) * b) by (nonlinear_arith);
}

/// The type of the table with this name, letters of either case, from the number `id` on.
pub open spec fn type_of_name(name: Seq<char>, id: int) -> Option<GGMLType>
    decreases 42 - id,
{
    if id < 0 || id >= 42 {
        None
    } else {
        let t = type_of_id(id as u32);
        if t.spec_layout() is Some && text::lower(t.spec_name()) == text::lower(name) {
            Some(t)
        } else {
            type_of_name(name, id + 1)
        }
    }
}

impl GGMLType {
    /// The type with this name, letters of either case.
    pub fn from_name(name: &str) -> (r: Option<GGMLType>)
        ensures
            r == type_of_name(name@, 0),
    {
        let mut id: u32 = 0;
        while id < 42
            invariant
                id <= 42,
                type_of_name(name@, id as int) == type_of_name(name@, 0),
            decreases 42 - id,
        {
            let t = GGMLType::from(id);
            if t.block_layout().is_some() && text::same_ignoring_case(t.name(), name) {
                return Some(t);
            }
            id += 1;
        }
        None
    }
}

/// The size of whole blocks of each type is what the parts of its block take: scales and minimums of
/// two bytes each, packed scales, sums, high bits and low bits of the weights.
pub proof fn law_size_of_blocks(t: GGMLType, blocks: int, elements: u64)
    requires
        blocks >= 0,
    ensures
        t == GGMLType::F32 && elements == blocks && blocks * (4) <= u64::MAX
            ==> t.spec_data_size(elements) == Some((blocks * (4)) as u64),
        t == GGMLType::F16 && elements == blocks && blocks * (2) <= u64::MAX
            ==> t.spec_data_size(elements) == Some((blocks * (2)) as u64),
        t == GGMLType::Q4_0 && elements == 32 * blocks && blocks * (2 + 16) <= u64::MAX
            ==> t.spec_data_size(elements) == Some((blocks * (2 + 16)) as u64),
        t == GGMLType::Q4_1 && elements == 32 * blocks && blocks * (2 + 2 + 16) <= u64::MAX
            ==> t.spec_data_size(elements) == Some((blocks * (2 + 2 + 16)) as u64),
        t == GGMLType::Q5_0 && elements == 32 * blocks && blocks * (2 + 4 + 16) <= u64::MAX
            ==> t.spec_data_size(elements) == Some((blocks * (2 + 4 + 16)) as u64),
        t == GGMLType::Q5_1 && elements == 32 * blocks && blocks * (2 + 2 + 4 + 16) <= u64::MAX
            ==> t.spec_data_size(elements) == Some((blocks * (2 + 2 + 4 + 16)) as u64),
        t == GGMLType::Q8_0 && elements == 32 * blocks && blocks * (2 + 32) <= u64::MAX
            ==> t.spec_data_size(elements) == Some((blocks * (2 + 32)) as u64),
        t == GGMLType::Q8_1 && elements == 32 * blocks && blocks * (2 + 2 + 32) <= u64::MAX
            ==> t.spec_data_size(elements) == Some((blocks * (2 + 2 + 32)) as u64),
        t == GGMLType::Q2_K && elements == 256 * blocks && blocks * (16 + 64 + 2 + 2) <= u64::MAX
            ==> t.spec_data_size(elements) == Some((blocks * (16 + 64 + 2 + 2)) as u64),
        t == GGMLType::Q3_K && elements == 256 * blocks && blocks * (32 + 64 + 12 + 2) <= u64::MAX
            ==> t.spec_data_size(elements) == Some((blocks * (32 + 64 + 12 + 2)) as u64),
        t == GGMLType::Q4_K && elements == 256 * blocks && blocks * (2 + 2 + 12 + 128) <= u64::MAX
            ==> t.spec_data_size(elements) == Some((blocks * (2 + 2 + 12 + 128)) as u64),
        t == GGMLType::Q5_K && elements == 256 * blocks && blocks * (2 + 2 + 12 + 32 + 128) <= u64::MAX
            ==> t.spec_data_size(elements) == Some((blocks * (2 + 2 + 12 + 32 + 128)) as u64),
        t == GGMLType::Q6_K && elements == 256 * blocks && blocks * (128 + 64 + 16 + 2) <= u64::MAX
            ==> t.spec_data_size(elements) == Some((blocks * (128 + 64 + 16 + 2)) as u64),
        t == GGMLType::Q8_K && elements == 256 * blocks && blocks * (4 + 256 + 32) <= u64::MAX
            ==> t.spec_data_size(elements) == Some((blocks * (4 + 256 + 32)) as u64),
        t == GGMLType::IQ2_XXS && elements == 256 * blocks && blocks * (2 + 64) <= u64::MAX
            ==> t.spec_data_size(elements) == Some((blocks * (2 + 64)) as u64),
        t == GGMLType::IQ2_XS && elements == 256 * blocks && blocks * (2 + 64 + 8) <= u64::MAX
            ==> t.spec_data_size(elements) == Some((blocks * (2 + 64 + 8)) as u64),
        t == GGMLType::IQ3_XXS && elements == 256 * blocks && blocks * (2 + 96) <= u64::MAX
            ==> t.spec_data_size(elements) == Some((blocks * (2 + 96)) as u64),
        t == GGMLType::IQ1_S && elements == 256 * blocks && blocks * (2 + 32 + 16) <= u64::MAX
            ==> t.spec_data_size(elements) == Some((blocks * (2 + 32 + 16)) as u64),
        t == GGMLType::IQ4_NL && elements == 32 * blocks && blocks * (2 + 16) <= u64::MAX
            ==> t.spec_data_size(elements) == Some((blocks * (2 + 16)) as u64),
        t == GGMLType::IQ3_S && elements == 256 * blocks && blocks * (2 + 64 + 8 + 32 + 4) <= u64::MAX
            ==> t.spec_data_size(elements) == Some((blocks * (2 + 64 + 8 + 32 + 4)) as u64),
        t == GGMLType::IQ2_S && elements == 256 * blocks && blocks * (2 + 64 + 8 + 8) <= u64::MAX
            ==> t.spec_data_size(elements) == Some((blocks * (2 + 64 + 8 + 8)) as u64),
        t == GGMLType::IQ4_XS && elements == 256 * blocks && blocks * (2 + 2 + 4 + 128) <= u64::MAX
            ==> t.spec_data_size(elements) == Some((blocks * (2 + 2 + 4 + 128)) as u64),
        t == GGMLType::I8 && elements == blocks && blocks * (1) <= u64::MAX
            ==> t.spec_data_size(elements) == Some((blocks * (1)) as u64),
        t == GGMLType::I16 && elements == blocks && blocks * (2) <= u64::MAX
            ==> t.spec_data_size(elements) == Some((blocks * (2)) as u64),
        t == GGMLType::I32 && elements == blocks && blocks * (4) <= u64::MAX
            ==> t.spec_data_size(elements) == Some((blocks * (4)) as u64),
        t == GGMLType::I64 && elements == blocks && blocks * (8) <= u64::MAX
            ==> t.spec_data_size(elements) == Some((blocks * (8)) as u64),
        t == GGMLType::F64 && elements == blocks && blocks * (8) <= u64::MAX
            ==> t.spec_data_size(elements) == Some((blocks * (8)) as u64),
        t == GGMLType::IQ1_M && elements == 256 * blocks && blocks * (32 + 16 + 8) <= u64::MAX
            ==> t.spec_data_size(elements) == Some((blocks * (32 + 16 + 8)) as u64),
        t == GGMLType::BF16 && elements == blocks && blocks * (2) <= u64::MAX
            ==> t.spec_data_size(elements) == Some((blocks * (2)) as u64),
        t == GGMLType::TQ1_0 && elements == 256 * blocks && blocks * (48 + 4 + 2) <= u64::MAX
            ==> t.spec_data_size(elements) == Some((blocks * (48 + 4 + 2)) as u64),
        t == GGMLType::TQ2_0 && elements == 256 * blocks && blocks * (64 + 2) <= u64::MAX
            ==> t.spec_data_size(elements) == Some((blocks * (64 + 2)) as u64),
        t == GGMLType::MXFP4 && elements == 32 * blocks && blocks * (1 + 16) <= u64::MAX
            ==> t.spec_data_size(elements) == Some((blocks * (1 + 16)) as u64),
        t == GGMLType::NVFP4 && elements == 64 * blocks && blocks * (4 + 32) <= u64::MAX
            ==> t.spec_data_size(elements) == Some((blocks * (4 + 32)) as u64),
        t == GGMLType::Q1_0 && elements == 128 * blocks && blocks * (2 + 16) <= u64::MAX
            ==> t.spec_data_size(elements) == Some((blocks * (2 + 16)) as u64),
{
    match t {
        GGMLType::F32 => lemma_whole_blocks(t, 1, 4, blocks, elements),
        GGMLType::F16 => lemma_whole_blocks(t, 1, 2, blocks, elements),
        GGMLType::Q4_0 => lemma_whole_blocks(t, 32, 18, blocks, elements),
        GGMLType::Q4_1 => lemma_whole_blocks(t, 32, 20, blocks, elements),
        GGMLType::Q5_0 => lemma_whole_blocks(t, 32, 22, blocks, elements),
        GGMLType::Q5_1 => lemma_whole_blocks(t, 32, 24, blocks, elements),
        GGMLType::Q8_0 => lemma_whole_blocks(t, 32, 34, blocks, elements),
        GGMLType::Q8_1 => lemma_whole_blocks(t, 32, 36, blocks, elements),
        GGMLType::Q2_K => lemma_whole_blocks(t, 256, 84, blocks, elements),
        GGMLType::Q3_K => lemma_whole_blocks(t, 256, 110, blocks, elements),
        GGMLType::Q4_K => lemma_whole_blocks(t, 256, 144, blocks, elements),
        GGMLType::Q5_K => lemma_whole_blocks(t, 256, 176, blocks, elements),
        GGMLType::Q6_K => lemma_whole_blocks(t, 256, 210, blocks, elements),
        GGMLType::Q8_K => lemma_whole_blocks(t, 256, 292, blocks, elements),
        GGMLType::IQ2_XXS => lemma_whole_blocks(t, 256, 66, blocks, elements),
        GGMLType::IQ2_XS => lemma_whole_blocks(t, 256, 74, blocks, elements),
        GGMLType::IQ3_XXS => lemma_whole_blocks(t, 256, 98, blocks, elements),
        GGMLType::IQ1_S => lemma_whole_blocks(t, 256, 50, blocks, elements),
        GGMLType::IQ4_NL => lemma_whole_blocks(t, 32, 18, blocks, elements),
        GGMLType::IQ3_S => lemma_whole_blocks(t, 256, 110, blocks, elements),
        GGMLType::IQ2_S => lemma_whole_blocks(t, 256, 82, blocks, elements),
        GGMLType::IQ4_XS => lemma_whole_blocks(t, 256, 136, blocks, elements),
        GGMLType::I8 => lemma_whole_blocks(t, 1, 1, blocks, elements),
        GGMLType::I16 => lemma_whole_blocks(t, 1, 2, blocks, elements),
        GGMLType::I32 => lemma_whole_blocks(t, 1, 4, blocks, elements),
        GGMLType::I64 => lemma_whole_blocks(t, 1, 8, blocks, elements),
        GGMLType::F64 => lemma_whole_blocks(t, 1, 8, blocks, elements),
        GGMLType::IQ1_M => lemma_whole_blocks(t, 256, 56, blocks, elements),
        GGMLType::BF16 => lemma_whole_blocks(t, 1, 2, blocks, elements),
        GGMLType::TQ1_0 => lemma_whole_blocks(t, 256, 54, blocks, elements),
        GGMLType::TQ2_0 => lemma_whole_blocks(t, 256, 66, blocks, elements),
        GGMLType::MXFP4 => lemma_whole_blocks(t, 32, 17, blocks, elements),
        GGMLType::NVFP4 => lemma_whole_blocks(t, 64, 36, blocks, elements),
        GGMLType::Q1_0 => lemma_whole_blocks(t, 128, 18, blocks, elements),
        _ => {},
    }
}

proof fn lemma_whole_blocks(t: GGMLType, weights: int, bytes: int, blocks: int, elements: u64)
    requires
        blocks >= 0,
        weights > 0,
        bytes >= 0,
        t.spec_layout() matches Some(layout) && layout.elements_per_block == weights
            && layout.bytes_per_block == bytes,
    ensures
        elements == weights * blocks && blocks * bytes <= u64::MAX ==> t.spec_data_size(elements) == Some(
            (blocks * bytes) as u64,
        ),
{
    if elements == weights * blocks {
        assert(elements as int / weights == blocks && elements as int % weights == 0)
            by (nonlinear_arith)
            requires
                elements == weights * blocks,
                weights > 0,
                blocks >= 0,
        ;
    }
}

/// Weights that fill no whole blocks have no size, nor have those of an unknown type.
#[verifier::spinoff_prover]
#[verifier::rlimit(50)]
pub proof fn law_partial_blocks_have_no_size(t: GGMLType, elements: u64)
    ensures
        t == GGMLType::Q4_0 && t.spec_data_size(elements) is Some ==> elements as int % 32 == 0,
        t == GGMLType::Q4_1 && t.spec_data_size(elements) is Some ==> elements as int % 32 == 0,
        t == GGMLType::Q5_0 && t.spec_data_size(elements) is Some ==> elements as int % 32 == 0,
        t == GGMLType::Q5_1 && t.spec_data_size(elements) is Some ==> elements as int % 32 == 0,
        t == GGMLType::Q8_0 && t.spec_data_size(elements) is Some ==> elements as int % 32 == 0,
        t == GGMLType::Q8_1 && t.spec_data_size(elements) is Some ==> elements as int % 32 == 0,
        t == GGMLType::Q2_K && t.spec_data_size(elements) is Some ==> elements as int % 256 == 0,
        t == GGMLType::Q3_K && t.spec_data_size(elements) is Some ==> elements as int % 256 == 0,
        t == GGMLType::Q4_K && t.spec_data_size(elements) is Some ==> elements as int % 256 == 0,
        t == GGMLType::Q5_K && t.spec_data_size(elements) is Some ==> elements as int % 256 == 0,
        t == GGMLType::Q6_K && t.spec_data_size(elements) is Some ==> elements as int % 256 == 0,
        t == GGMLType::Q8_K && t.spec_data_size(elements) is Some ==> elements as int % 256 == 0,
        t == GGMLType::IQ2_XXS && t.spec_data_size(elements) is Some ==> elements as int % 256 == 0,
        t == GGMLType::IQ2_XS && t.spec_data_size(elements) is Some ==> elements as int % 256 == 0,
        t == GGMLType::IQ3_XXS && t.spec_data_size(elements) is Some ==> elements as int % 256 == 0,
        t == GGMLType::IQ1_S && t.spec_data_size(elements) is Some ==> elements as int % 256 == 0,
        t == GGMLType::IQ4_NL && t.spec_data_size(elements) is Some ==> elements as int % 32 == 0,
        t == GGMLType::IQ3_S && t.spec_data_size(elements) is Some ==> elements as int % 256 == 0,
        t == GGMLType::IQ2_S && t.spec_data_size(elements) is Some ==> elements as int % 256 == 0,
        t == GGMLType::IQ4_XS && t.spec_data_size(elements) is Some ==> elements as int % 256 == 0,
        t == GGMLType::IQ1_M && t.spec_data_size(elements) is Some ==> elements as int % 256 == 0,
        t == GGMLType::TQ1_0 && t.spec_data_size(elements) is Some ==> elements as int % 256 == 0,
        t == GGMLType::TQ2_0 && t.spec_data_size(elements) is Some ==> elements as int % 256 == 0,
        t == GGMLType::MXFP4 && t.spec_data_size(elements) is Some ==> elements as int % 32 == 0,
        t == GGMLType::NVFP4 && t.spec_data_size(elements) is Some ==> elements as int % 64 == 0,
        t == GGMLType::Q1_0 && t.spec_data_size(elements) is Some ==> elements as int % 128 == 0,
        t is Unknown ==> t.spec_data_size(elements) is None,
{
}

/// The numbers and names under which files and quantizations know the types.
pub proof fn law_numbers_of_types(id: u32)
    ensures
        id == 0 ==> type_of_id(id) == GGMLType::F32 && type_of_id(id).spec_name() == "F32"@,
        id == 1 ==> type_of_id(id) == GGMLType::F16 && type_of_id(id).spec_name() == "F16"@,
        id == 2 ==> type_of_id(id) == GGMLType::Q4_0 && type_of_id(id).spec_name() == "Q4_0"@,
        id == 3 ==> type_of_id(id) == GGMLType::Q4_1 && type_of_id(id).spec_name() == "Q4_1"@,
        id == 6 ==> type_of_id(id) == GGMLType::Q5_0 && type_of_id(id).spec_name() == "Q5_0"@,
        id == 7 ==> type_of_id(id) == GGMLType::Q5_1 && type_of_id(id).spec_name() == "Q5_1"@,
        id == 8 ==> type_of_id(id) == GGMLType::Q8_0 && type_of_id(id).spec_name() == "Q8_0"@,
        id == 9 ==> type_of_id(id) == GGMLType::Q8_1 && type_of_id(id).spec_name() == "Q8_1"@,
        id == 10 ==> type_of_id(id) == GGMLType::Q2_K && type_of_id(id).spec_name() == "Q2_K"@,
        id == 11 ==> type_of_id(id) == GGMLType::Q3_K && type_of_id(id).spec_name() == "Q3_K"@,
        id == 12 ==> type_of_id(id) == GGMLType::Q4_K && type_of_id(id).spec_name() == "Q4_K"@,
        id == 13 ==> type_of_id(id) == GGMLType::Q5_K && type_of_id(id).spec_name() == "Q5_K"@,
        id == 14 ==> type_of_id(id) == GGMLType::Q6_K && type_of_id(id).spec_name() == "Q6_K"@,
        id == 15 ==> type_of_id(id) == GGMLType::Q8_K && type_of_id(id).spec_name() == "Q8_K"@,
        id == 16 ==> type_of_id(id) == GGMLType::IQ2_XXS && type_of_id(id).spec_name() == "IQ2_XXS"@,
        id == 17 ==> type_of_id(id) == GGMLType::IQ2_XS && type_of_id(id).spec_name() == "IQ2_XS"@,
        id == 18 ==> type_of_id(id) == GGMLType::IQ3_XXS && type_of_id(id).spec_name() == "IQ3_XXS"@,
        id == 19 ==> type_of_id(id) == GGMLType::IQ1_S && type_of_id(id).spec_name() == "IQ1_S"@,
        id == 20 ==> type_of_id(id) == GGMLType::IQ4_NL && type_of_id(id).spec_name() == "IQ4_NL"@,
        id == 21 ==> type_of_id(id) == GGMLType::IQ3_S && type_of_id(id).spec_name() == "IQ3_S"@,
        id == 22 ==> type_of_id(id) == GGMLType::IQ2_S && type_of_id(id).spec_name() == "IQ2_S"@,
        id == 23 ==> type_of_id(id) == GGMLType::IQ4_XS && type_of_id(id).spec_name() == "IQ4_XS"@,
        id == 24 ==> type_of_id(id) == GGMLType::I8 && type_of_id(id).spec_name() == "I8"@,
        id == 25 ==> type_of_id(id) == GGMLType::I16 && type_of_id(id).spec_name() == "I16"@,
        id == 26 ==> type_of_id(id) == GGMLType::I32 && type_of_id(id).spec_name() == "I32"@,
        id == 27 ==> type_of_id(id) == GGMLType::I64 && type_of_id(id).spec_name() == "I64"@,
        id == 28 ==> type_of_id(id) == GGMLType::F64 && type_of_id(id).spec_name() == "F64"@,
        id == 29 ==> type_of_id(id) == GGMLType::IQ1_M && type_of_id(id).spec_name() == "IQ1_M"@,
        id == 30 ==> type_of_id(id) == GGMLType::BF16 && type_of_id(id).spec_name() == "BF16"@,
        id == 34 ==> type_of_id(id) == GGMLType::TQ1_0 && type_of_id(id).spec_name() == "TQ1_0"@,
        id == 35 ==> type_of_id(id) == GGMLType::TQ2_0 && type_of_id(id).spec_name() == "TQ2_0"@,
        id == 39 ==> type_of_id(id) == GGMLType::MXFP4 && type_of_id(id).spec_name() == "MXFP4"@,
        id == 40 ==> type_of_id(id) == GGMLType::NVFP4 && type_of_id(id).spec_name() == "NVFP4"@,
        id == 41 ==> type_of_id(id) == GGMLType::Q1_0 && type_of_id(id).spec_name() == "Q1_0"@,
        !(id == 0 || id == 1 || id == 2 || id == 3 || id == 6 || id == 7 || id == 8 || id == 9 || id == 10 || id == 11 || id == 12 || id == 13 || id == 14 || id == 15 || id == 16 || id == 17 || id == 18 || id == 19 || id == 20 || id == 21 || id == 22 || id == 23 || id == 24 || id == 25 || id == 26 || id == 27 || id == 28 || id == 29 || id == 30 || id == 34 || id == 35 || id == 39 || id == 40 || id == 41) ==> type_of_id(id) == GGMLType::Unknown(id),
{
}

proof fn lemma_type_of_name(name: Seq<char>, id: int, k: int)
    requires
        0 <= id <= k < 42,
        type_of_id(k as u32).spec_layout() is Some,
        text::lower(type_of_id(k as u32).spec_name()) == text::lower(name),
    ensures
        type_of_name(name, id) is Some,
    decreases k - id,
{
    if id < k {
        lemma_type_of_name(name, id + 1, k);
    }
}

proof fn lemma_named_type(name: Seq<char>, id: int)
    ensures
        type_of_name(name, id) matches Some(t) ==> text::lower(t.spec_name()) == text::lower(name)
            && t.spec_layout() is Some,
    decreases 42 - id,
{
    if 0 <= id < 42 {
        lemma_named_type(name, id + 1);
    }
}

/// A type is found by its name, letters of either case, and only a type of that name is found.
pub proof fn law_type_is_found_by_its_name(name: Seq<char>, t: GGMLType)
    ensures
        !(t is Unknown) && text::lower(t.spec_name()) == text::lower(name) ==> type_of_name(
            name,
            0,
        ) is Some,
        type_of_name(name, 0) matches Some(found) ==> !(found is Unknown) && text::lower(
            found.spec_name(),
        ) == text::lower(name),
{
    lemma_named_type(name, 0);
    if !(t is Unknown) && text::lower(t.spec_name()) == text::lower(name) {
        law_known_type_is_found_by_id(t);
        lemma_type_of_name(name, 0, t.spec_id() as int);
    }
}

} // verus!
