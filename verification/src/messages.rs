//! The words for errors and types.

use vstd::prelude::*;

use crate::dataset::DatasetError;
use crate::gguf;
use crate::gguf::{GGMLType, GGUFError};
use crate::lora::LoraError;
use crate::text;

verus! {

/// A digit of a number to the base sixteen.
pub open spec fn hex_digit(d: int) -> char {
    if d == 0 {
        '0'
    } else if d == 1 {
        '1'
    } else if d == 2 {
        '2'
    } else if d == 3 {
        '3'
    } else if d == 4 {
        '4'
    } else if d == 5 {
        '5'
    } else if d == 6 {
        '6'
    } else if d == 7 {
        '7'
    } else if d == 8 {
        '8'
    } else if d == 9 {
        '9'
    } else if d == 10 {
        'a'
    } else if d == 11 {
        'b'
    } else if d == 12 {
        'c'
    } else if d == 13 {
        'd'
    } else if d == 14 {
        'e'
    } else {
        'f'
    }
}

/// The last `digits` digits of a number to the base sixteen.
pub open spec fn hex_of(n: int, digits: int) -> Seq<char>
    decreases digits,
{
    if digits <= 0 {
        Seq::empty()
    } else {
        hex_of(n / 16, digits - 1).push(hex_digit(n % 16))
    }
}

fn digit(d: u32) -> (r: char)
    requires
        d < 16,
    ensures
        r == hex_digit(d as int),
{
    match d {
        0 => '0',
        1 => '1',
        2 => '2',
        3 => '3',
        4 => '4',
        5 => '5',
        6 => '6',
        7 => '7',
        8 => '8',
        9 => '9',
        10 => 'a',
        11 => 'b',
        12 => 'c',
        13 => 'd',
        14 => 'e',
        _ => 'f',
    }
}

fn hex(n: u32, digits: usize) -> (r: String)
    ensures
        r@ == hex_of(n as int, digits as int),
    decreases digits,
{
    if digits == 0 {
        return String::new();
    }
    let mut s = hex(n / 16, digits - 1);
    s.push(digit(n % 16));
    s
}

/// The name of a storage type, with its number where the type is unknown.
pub open spec fn type_words(t: GGMLType) -> Seq<char> {
    match t {
        GGMLType::Unknown(id) => "unknown("@ + text::decimal_of(id as int) + ")"@,
        _ => t.spec_name(),
    }
}

/// The name of a storage type, with its number where the type is unknown.
pub fn type_text(t: GGMLType) -> (r: String)
    ensures
        r@ == type_words(t),
{
    match t {
        GGMLType::Unknown(id) => text::join3("unknown(", text::decimal(id as u64).as_str(), ")"),
        known => known.name().to_owned(),
    }
}

/// What is said of a file that cannot be read. `utf8` are the words for bytes that are no text.
pub open spec fn gguf_words(e: gguf::ErrorView, utf8: Seq<char>) -> Seq<char> {
    match e {
        gguf::ErrorView::InvalidMagic(m) => "Это не GGUF-файл: магическое число 0x"@ + hex_of(
            m as int,
            8,
        ) + " вместо 0x46554747"@,
        gguf::ErrorView::UnsupportedVersion(v) => "Версия GGUF "@ + text::decimal_of(v as int)
            + " не поддерживается (нужна 2 или 3)"@,
        gguf::ErrorView::InvalidValueType(t) => "Неизвестный тип значения метаданных: "@
            + text::decimal_of(t as int),
        gguf::ErrorView::Utf8Error => "Строка в файле не в кодировке UTF-8: "@ + utf8,
        gguf::ErrorView::Truncated(what) => "Файл обрывается при чтении: "@ + what,
        gguf::ErrorView::CountTooLarge { what, count } => "Слишком большое число записей ("@
            + text::decimal_of(count as int) + ") для "@ + what + ": файл повреждён"@,
        gguf::ErrorView::NestingTooDeep => "Слишком глубокая вложенность массивов в метаданных"@,
        gguf::ErrorView::InvalidAlignment(a) => "Недопустимое выравнивание "@ + text::decimal_of(
            a as int,
        ) + ": должно быть степенью двойки"@,
        gguf::ErrorView::DuplicateKey(key) => "Ключ метаданных «"@ + key + "» встречается дважды"@,
        gguf::ErrorView::DuplicateTensor(name) => "Тензор «"@ + name + "» встречается дважды"@,
        gguf::ErrorView::TooManyDimensions { name, dims } => "У тензора «"@ + name + "» "@
            + text::decimal_of(dims as int) + " измерений (максимум 4)"@,
        gguf::ErrorView::ElementCountOverflow(name) => "У тензора «"@ + name
            + "» переполняется число элементов"@,
        gguf::ErrorView::PartialBlock { name, elements, tensor_type } =>
            "Число элементов тензора «"@ + name + "» ("@ + text::decimal_of(elements as int)
            + ") не кратно размеру блока типа "@ + tensor_type,
        gguf::ErrorView::TensorNotFound(name) => "Тензор «"@ + name + "» не найден"@,
        gguf::ErrorView::TensorOutOfBounds(name) => "Данные тензора «"@ + name
            + "» выходят за пределы файла"@,
    }
}

fn join5(a: &str, b: &str, c: &str, d: &str, e: &str) -> (r: String)
    ensures
        r@ == a@ + b@ + c@ + d@ + e@,
{
    let start = text::join3(a, b, c);
    text::join3(start.as_str(), d, e)
}

/// What is said of a file that cannot be read. `utf8` are the words for bytes that are no text.
pub fn gguf_message(e: &GGUFError, utf8: &str) -> (r: String)
    ensures
        r@ == gguf_words(e@, utf8@),
{
    match e {
        GGUFError::InvalidMagic(m) => text::join3(
            "Это не GGUF-файл: магическое число 0x",
            hex(*m, 8).as_str(),
            " вместо 0x46554747",
        ),
        GGUFError::UnsupportedVersion(v) => text::join3(
            "Версия GGUF ",
            text::decimal(*v as u64).as_str(),
            " не поддерживается (нужна 2 или 3)",
        ),
        GGUFError::InvalidValueType(t) => text::join2(
            "Неизвестный тип значения метаданных: ",
            text::decimal(*t as u64).as_str(),
        ),
        GGUFError::Utf8Error(_) => text::join2("Строка в файле не в кодировке UTF-8: ", utf8),
        GGUFError::Truncated(what) => text::join2("Файл обрывается при чтении: ", *what),
        GGUFError::CountTooLarge { what, count } => join5(
            "Слишком большое число записей (",
            text::decimal(*count).as_str(),
            ") для ",
            *what,
            ": файл повреждён",
        ),
        GGUFError::NestingTooDeep =>
            "Слишком глубокая вложенность массивов в метаданных".to_owned(),
        GGUFError::InvalidAlignment(a) => text::join3(
            "Недопустимое выравнивание ",
            text::decimal(*a).as_str(),
            ": должно быть степенью двойки",
        ),
        GGUFError::DuplicateKey(key) => text::join3(
            "Ключ метаданных «",
            key.as_str(),
            "» встречается дважды",
        ),
        GGUFError::DuplicateTensor(name) => text::join3(
            "Тензор «",
            name.as_str(),
            "» встречается дважды",
        ),
        GGUFError::TooManyDimensions { name, dims } => join5(
            "У тензора «",
            name.as_str(),
            "» ",
            text::decimal(*dims as u64).as_str(),
            " измерений (максимум 4)",
        ),
        GGUFError::ElementCountOverflow(name) => text::join3(
            "У тензора «",
            name.as_str(),
            "» переполняется число элементов",
        ),
        GGUFError::PartialBlock { name, elements, tensor_type } => {
            let start = join5(
                "Число элементов тензора «",
                name.as_str(),
                "» (",
                text::decimal(*elements).as_str(),
                ") не кратно размеру блока типа ",
            );
            text::join2(start.as_str(), *tensor_type)
        },
        GGUFError::TensorNotFound(name) => text::join3("Тензор «", name.as_str(), "» не найден"),
        GGUFError::TensorOutOfBounds(name) => text::join3(
            "Данные тензора «",
            name.as_str(),
            "» выходят за пределы файла",
        ),
    }
}

/// What is said of layers that do not fit together.
pub fn lora_message(e: &LoraError) -> (r: String)
    ensures
        r@ == (match *e {
            LoraError::DimensionMismatch { expected, actual } => "Dimension mismatch: expected "@
                + text::decimal_of(expected as int) + ", got "@ + text::decimal_of(actual as int),
            LoraError::LayerNotFound(name) => "Layer '"@ + name@ + "' not found"@,
        }),
{
    match e {
        LoraError::DimensionMismatch { expected, actual } => {
            let start = text::join3(
                "Dimension mismatch: expected ",
                text::decimal(*expected as u64).as_str(),
                ", got ",
            );
            text::join2(start.as_str(), text::decimal(*actual as u64).as_str())
        },
        LoraError::LayerNotFound(name) => text::join3("Layer '", name.as_str(), "' not found"),
    }
}

/// What is said of a dataset that cannot be used.
pub fn dataset_message(e: &DatasetError) -> (r: String)
    ensures
        r@ == (match *e {
            DatasetError::Json(why) => "JSON parsing error: "@ + why@,
            DatasetError::UnknownFormat => "Unknown or unsupported dataset format"@,
            DatasetError::EmptyDataset => "Empty dataset provided"@,
        }),
{
    match e {
        DatasetError::Json(why) => text::join2("JSON parsing error: ", why.as_str()),
        DatasetError::UnknownFormat => "Unknown or unsupported dataset format".to_owned(),
        DatasetError::EmptyDataset => "Empty dataset provided".to_owned(),
    }
}

} // verus!
