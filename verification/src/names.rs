//! What names of files and repositories tell: the quantization, whether a file holds weights of the
//! model itself, the repository, and how large a model may be.

use vstd::prelude::*;
use vstd::utf8::*;

use crate::text;

verus! {

/// How many quantizations are known by name.
pub const KNOWN_QUANT_COUNT: usize = 56;

/// The known quantizations; of two of which one is part of the other, the longer comes first.
pub open spec fn quant_name(i: int) -> Seq<char> {
    if i == 0 {
        "UD-Q8_K_XL"@
    } else if i == 1 {
        "UD-Q6_K_XL"@
    } else if i == 2 {
        "UD-Q5_K_XL"@
    } else if i == 3 {
        "UD-Q4_K_XL"@
    } else if i == 4 {
        "UD-Q3_K_XL"@
    } else if i == 5 {
        "UD-Q2_K_XL"@
    } else if i == 6 {
        "UD-IQ4_XS"@
    } else if i == 7 {
        "UD-IQ4_NL"@
    } else if i == 8 {
        "UD-IQ3_XXS"@
    } else if i == 9 {
        "UD-IQ3_S"@
    } else if i == 10 {
        "UD-IQ2_XXS"@
    } else if i == 11 {
        "UD-IQ2_M"@
    } else if i == 12 {
        "UD-IQ1_S"@
    } else if i == 13 {
        "UD-IQ1_M"@
    } else if i == 14 {
        "Q8_K_XL"@
    } else if i == 15 {
        "Q6_K_XL"@
    } else if i == 16 {
        "Q5_K_XL"@
    } else if i == 17 {
        "Q4_K_XL"@
    } else if i == 18 {
        "Q3_K_XL"@
    } else if i == 19 {
        "Q2_K_XL"@
    } else if i == 20 {
        "Q8_0"@
    } else if i == 21 {
        "Q8_1"@
    } else if i == 22 {
        "Q6_K_L"@
    } else if i == 23 {
        "Q6_K_M"@
    } else if i == 24 {
        "Q6_K"@
    } else if i == 25 {
        "Q5_K_M"@
    } else if i == 26 {
        "Q5_K_S"@
    } else if i == 27 {
        "Q5_1"@
    } else if i == 28 {
        "Q5_0"@
    } else if i == 29 {
        "Q4_K_M"@
    } else if i == 30 {
        "Q4_K_S"@
    } else if i == 31 {
        "Q4_1"@
    } else if i == 32 {
        "Q4_0"@
    } else if i == 33 {
        "Q3_K_L"@
    } else if i == 34 {
        "Q3_K_M"@
    } else if i == 35 {
        "Q3_K_S"@
    } else if i == 36 {
        "Q3_1"@
    } else if i == 37 {
        "Q3_0"@
    } else if i == 38 {
        "Q2_K_L"@
    } else if i == 39 {
        "Q2_K"@
    } else if i == 40 {
        "Q2_0"@
    } else if i == 41 {
        "IQ4_NL"@
    } else if i == 42 {
        "IQ4_XS"@
    } else if i == 43 {
        "IQ3_M"@
    } else if i == 44 {
        "IQ3_S"@
    } else if i == 45 {
        "IQ3_XXS"@
    } else if i == 46 {
        "IQ2_M"@
    } else if i == 47 {
        "IQ2_S"@
    } else if i == 48 {
        "IQ2_XXS"@
    } else if i == 49 {
        "IQ1_M"@
    } else if i == 50 {
        "IQ1_S"@
    } else if i == 51 {
        "BF16"@
    } else if i == 52 {
        "FP16"@
    } else if i == 53 {
        "F16"@
    } else if i == 54 {
        "FP32"@
    } else {
        "F32"@
    }
}

/// A known quantization.
pub fn known_quant(i: usize) -> (r: &'static str)
    requires
        i < KNOWN_QUANT_COUNT,
    ensures
        r@ == quant_name(i as int),
{
    match i {
        0 => "UD-Q8_K_XL",
        1 => "UD-Q6_K_XL",
        2 => "UD-Q5_K_XL",
        3 => "UD-Q4_K_XL",
        4 => "UD-Q3_K_XL",
        5 => "UD-Q2_K_XL",
        6 => "UD-IQ4_XS",
        7 => "UD-IQ4_NL",
        8 => "UD-IQ3_XXS",
        9 => "UD-IQ3_S",
        10 => "UD-IQ2_XXS",
        11 => "UD-IQ2_M",
        12 => "UD-IQ1_S",
        13 => "UD-IQ1_M",
        14 => "Q8_K_XL",
        15 => "Q6_K_XL",
        16 => "Q5_K_XL",
        17 => "Q4_K_XL",
        18 => "Q3_K_XL",
        19 => "Q2_K_XL",
        20 => "Q8_0",
        21 => "Q8_1",
        22 => "Q6_K_L",
        23 => "Q6_K_M",
        24 => "Q6_K",
        25 => "Q5_K_M",
        26 => "Q5_K_S",
        27 => "Q5_1",
        28 => "Q5_0",
        29 => "Q4_K_M",
        30 => "Q4_K_S",
        31 => "Q4_1",
        32 => "Q4_0",
        33 => "Q3_K_L",
        34 => "Q3_K_M",
        35 => "Q3_K_S",
        36 => "Q3_1",
        37 => "Q3_0",
        38 => "Q2_K_L",
        39 => "Q2_K",
        40 => "Q2_0",
        41 => "IQ4_NL",
        42 => "IQ4_XS",
        43 => "IQ3_M",
        44 => "IQ3_S",
        45 => "IQ3_XXS",
        46 => "IQ2_M",
        47 => "IQ2_S",
        48 => "IQ2_XXS",
        49 => "IQ1_M",
        50 => "IQ1_S",
        51 => "BF16",
        52 => "FP16",
        53 => "F16",
        54 => "FP32",
        _ => "F32",
    }
}

/// The first known quantization from `i` on that a text is but for case.
pub open spec fn quant_named(s: Seq<char>, i: int) -> Option<Seq<char>>
    decreases KNOWN_QUANT_COUNT - i,
{
    if i >= KNOWN_QUANT_COUNT {
        None
    } else if text::lower(s) == text::lower(quant_name(i)) {
        Some(quant_name(i))
    } else {
        quant_named(s, i + 1)
    }
}

/// The first known quantization from `i` on that a text holds.
pub open spec fn quant_within(s: Seq<char>, i: int) -> Option<Seq<char>>
    decreases KNOWN_QUANT_COUNT - i,
{
    if i >= KNOWN_QUANT_COUNT {
        None
    } else if text::has_part(s, quant_name(i)) {
        Some(quant_name(i))
    } else {
        quant_within(s, i + 1)
    }
}

/// The quantization of a file: the folder's name is one, the folder's name holds one, the file's name
/// holds one; else the folder's name, or the file's name without its ending.
pub open spec fn spec_quant(path: Seq<char>) -> Seq<char> {
    let parts = text::pieces(path, '/');
    let folder = parts[0];
    let filename = parts.last();
    let in_folder = parts.len() > 1;
    if in_folder && quant_named(folder, 0) is Some {
        quant_named(folder, 0)->0
    } else if in_folder && quant_within(folder, 0) is Some {
        quant_within(folder, 0)->0
    } else if quant_within(filename, 0) is Some {
        quant_within(filename, 0)->0
    } else if in_folder {
        folder
    } else {
        text::without_suffixes(filename, ".gguf"@)
    }
}

fn find_named(s: &str) -> (r: Option<&'static str>)
    ensures
        match r {
            Some(q) => quant_named(s@, 0) == Some(q@),
            None => quant_named(s@, 0) is None,
        },
{
    let mut i: usize = 0;
    while i < KNOWN_QUANT_COUNT
        invariant
            i <= KNOWN_QUANT_COUNT,
            quant_named(s@, i as int) == quant_named(s@, 0),
        decreases KNOWN_QUANT_COUNT - i,
    {
        let q = known_quant(i);
        if text::same_ignoring_case(s, q) {
            return Some(q);
        }
        i += 1;
    }
    None
}

fn find_within(s: &str) -> (r: Option<&'static str>)
    ensures
        match r {
            Some(q) => quant_within(s@, 0) == Some(q@),
            None => quant_within(s@, 0) is None,
        },
{
    let mut i: usize = 0;
    while i < KNOWN_QUANT_COUNT
        invariant
            i <= KNOWN_QUANT_COUNT,
            quant_within(s@, i as int) == quant_within(s@, 0),
        decreases KNOWN_QUANT_COUNT - i,
    {
        let q = known_quant(i);
        if text::contains(s, q) {
            return Some(q);
        }
        i += 1;
    }
    None
}

/// The quantization of a GGUF file by its path.
pub fn extract_quant_from_path(p: &str) -> (r: String)
    ensures
        r@ == spec_quant(p@),
{
    let parts = text::split(p, '/');
    let n = parts.len();
    let ghost all = text::pieces(p@, '/');
    assert(all[0] == parts@[0]@);
    assert(all[n - 1] == parts@[n - 1]@);
    if n > 1 {
        if let Some(q) = find_named(parts[0].as_str()) {
            return q.to_owned();
        }
        if let Some(q) = find_within(parts[0].as_str()) {
            return q.to_owned();
        }
    }
    if let Some(q) = find_within(parts[n - 1].as_str()) {
        return q.to_owned();
    }
    if n > 1 {
        parts[0].clone()
    } else {
        proof {
            reveal_strlit(".gguf");
        }
        text::cut_suffixes(parts[n - 1].as_str(), ".gguf")
    }
}

/// Whether a path, in lower case, is that of a file beside the weights of the model itself: heads for
/// speculative decoding, a projector of images, a draft model, parts of a diffusion model, an adapter.
pub open spec fn auxiliary(path: Seq<char>, filename: Seq<char>) -> bool {
    ||| text::has_prefix(path, "mtp/"@)
    ||| text::has_part(path, "/mtp/"@)
    ||| text::has_part(path, "/mtp-"@)
    ||| text::has_part(path, "/mtp_"@)
    ||| text::has_prefix(filename, "mtp-"@)
    ||| text::has_prefix(filename, "mtp_"@)
    ||| text::has_part(filename, "-mtp-"@)
    ||| text::has_part(filename, "_mtp_"@)
    ||| text::has_part(path, "mmproj"@)
    ||| text::has_part(path, "draft"@)
    ||| text::has_part(path, "vae"@)
    ||| text::has_part(path, "text_encoder"@)
    ||| text::has_part(path, "adapter"@)
}

/// Whether a path and its file's name, both in lower case, are those of a file beside the weights.
pub fn is_auxiliary_name(path: &str, filename: &str) -> (r: bool)
    ensures
        r == auxiliary(path@, filename@),
{
    text::starts_with(path, "mtp/") || text::contains(path, "/mtp/") || text::contains(
        path,
        "/mtp-",
    ) || text::contains(path, "/mtp_") || text::starts_with(filename, "mtp-") || text::starts_with(
        filename,
        "mtp_",
    ) || text::contains(filename, "-mtp-") || text::contains(filename, "_mtp_") || text::contains(
        path,
        "mmproj",
    ) || text::contains(path, "draft") || text::contains(path, "vae") || text::contains(
        path,
        "text_encoder",
    ) || text::contains(path, "adapter")
}

pub open spec fn spec_auxiliary(path: Seq<char>) -> bool {
    auxiliary(text::lowered(path), text::lowered(text::last_piece(path, '/')))
}

/// Whether a path is that of a file beside the weights of the model itself.
pub fn is_auxiliary_gguf_file(path: &str) -> (r: bool)
    ensures
        r == spec_auxiliary(path@),
        is_ascii_chars(path@) ==> r == auxiliary(
            text::lower(path@),
            text::lower(text::last_piece(path@, '/')),
        ),
{
    proof {
        if is_ascii_chars(path@) {
            text::law_parts_of_ascii_are_ascii(path@, '/', ""@, ""@);
        }
    }
    let lower = text::to_lowercase(path);
    let filename = text::to_lowercase(text::after_last(path, '/').as_str());
    is_auxiliary_name(lower.as_str(), filename.as_str())
}

/// The name of a model without the quantization at its end, where it stands there.
pub open spec fn base_of(stem: Seq<char>, quant: Seq<char>) -> Seq<char> {
    if quant.len() == 0 {
        stem
    } else if text::has_suffix(stem, "-"@ + quant) {
        stem.take(stem.len() - ("-"@ + quant).len())
    } else if text::has_suffix(stem, "_"@ + quant) {
        stem.take(stem.len() - ("_"@ + quant).len())
    } else if text::has_suffix(stem, quant) {
        without_dashes(stem.take(stem.len() - quant.len()))
    } else {
        stem
    }
}

/// A text without the dashes and underscores at its end.
pub open spec fn without_dashes(s: Seq<char>) -> Seq<char>
    decreases s.len(),
{
    if s.len() > 0 && (s.last() == '-' || s.last() == '_') {
        without_dashes(s.drop_last())
    } else {
        s
    }
}

/// The repository of a file name: a few that are known, else the name of the model itself.
pub open spec fn repo_of(stem: Seq<char>, lower: Seq<char>, quant: Seq<char>) -> Seq<char> {
    if text::has_part(lower, "llama-3.2-1b-instruct"@) {
        "unsloth/Llama-3.2-1B-Instruct-GGUF"@
    } else if text::has_part(lower, "llama-3.2-3b-instruct"@) {
        "unsloth/Llama-3.2-3B-Instruct-GGUF"@
    } else if text::has_part(lower, "qwen2.5-1.5b-instruct"@) {
        "unsloth/Qwen2.5-1.5B-Instruct-GGUF"@
    } else if text::has_part(lower, "mistral-7b-instruct"@) {
        "unsloth/Mistral-7B-Instruct-v0.3-GGUF"@
    } else {
        let base = base_of(stem, quant);
        if base.contains('/') {
            base
        } else if text::has_suffix(base, "-GGUF"@) || text::has_suffix(base, "_GGUF"@) {
            "unsloth/"@ + base
        } else {
            "unsloth/"@ + base + "-GGUF"@
        }
    }
}

fn cut_dashes(s: &str) -> (r: String)
    ensures
        r@ == without_dashes(s@),
{
    let chars = text::to_chars(s);
    let mut end: usize = chars.len();
    assert(s@.take(end as int) =~= s@);
    while end > 0 && (chars[end - 1] == '-' || chars[end - 1] == '_')
        invariant
            end <= chars@.len(),
            chars@ == s@,
            without_dashes(s@.take(end as int)) == without_dashes(s@),
        decreases end,
    {
        assert(s@.take(end as int).drop_last() =~= s@.take(end - 1));
        end -= 1;
    }
    let r = text::from_chars(&chars, 0, end);
    assert(r@ =~= s@.take(end as int));
    r
}

fn cut_quant(stem: &str, quant: &str) -> (r: String)
    ensures
        r@ == base_of(stem@, quant@),
{
    if quant.is_empty() {
        return stem.to_owned();
    }
    if let Some(s) = text::strip_suffix(stem, text::join2("-", quant).as_str()) {
        return s;
    }
    if let Some(s) = text::strip_suffix(stem, text::join2("_", quant).as_str()) {
        return s;
    }
    if let Some(s) = text::strip_suffix(stem, quant) {
        return cut_dashes(s.as_str());
    }
    stem.to_owned()
}

/// The repository of a file by its name without folder and ending, the same in lower case, and the
/// quantization.
pub fn repo_of_name(stem: &str, lower: &str, quant: &str) -> (r: String)
    ensures
        r@ == repo_of(stem@, lower@, quant@),
{
    if text::contains(lower, "llama-3.2-1b-instruct") {
        return "unsloth/Llama-3.2-1B-Instruct-GGUF".to_owned();
    }
    if text::contains(lower, "llama-3.2-3b-instruct") {
        return "unsloth/Llama-3.2-3B-Instruct-GGUF".to_owned();
    }
    if text::contains(lower, "qwen2.5-1.5b-instruct") {
        return "unsloth/Qwen2.5-1.5B-Instruct-GGUF".to_owned();
    }
    if text::contains(lower, "mistral-7b-instruct") {
        return "unsloth/Mistral-7B-Instruct-v0.3-GGUF".to_owned();
    }
    let base = cut_quant(stem, quant);
    if text::contains_char(base.as_str(), '/') {
        base
    } else if text::ends_with(base.as_str(), "-GGUF") || text::ends_with(base.as_str(), "_GGUF") {
        text::join2("unsloth/", base.as_str())
    } else {
        text::join3("unsloth/", base.as_str(), "-GGUF")
    }
}

pub open spec fn spec_infer_repo_id(filename: Seq<char>) -> Seq<char> {
    let clean = text::without_prefix(filename, "models/"@);
    let stem = text::without_suffixes(clean, ".gguf"@);
    repo_of(stem, text::lowered(stem), spec_quant(clean))
}

/// The repository that a file comes from, by its name.
pub fn infer_repo_id_from_gguf_filename(filename: &str) -> (r: String)
    ensures
        r@ == spec_infer_repo_id(filename@),
        is_ascii_chars(filename@) ==> r@ == ({
            let clean = text::without_prefix(filename@, "models/"@);
            let stem = text::without_suffixes(clean, ".gguf"@);
            repo_of(stem, text::lower(stem), spec_quant(clean))
        }),
{
    proof {
        if is_ascii_chars(filename@) {
            text::law_parts_of_ascii_are_ascii(filename@, '/', "models/"@, ".gguf"@);
        }
    }
    let clean = text::cut_prefix(filename, "models/");
    proof {
        reveal_strlit(".gguf");
    }
    let stem = text::cut_suffixes(clean.as_str(), ".gguf");
    let lower = text::to_lowercase(stem.as_str());
    let quant = extract_quant_from_path(clean.as_str());
    repo_of_name(stem.as_str(), lower.as_str(), quant.as_str())
}

/// The name of a repository, in lower case, without its owner and its ending.
pub open spec fn clean_repo(repo: Seq<char>) -> Seq<char> {
    text::without_suffix(
        text::without_suffix(text::without_prefix(repo, "unsloth/"@), "-gguf"@),
        "_gguf"@,
    )
}

/// A character that parts the words of a name.
pub open spec fn as_dash(c: char) -> char {
    if c == '_' || c == '.' {
        '-'
    } else {
        c
    }
}

pub open spec fn dashed(s: Seq<char>) -> Seq<char> {
    Seq::new(s.len(), |i: int| as_dash(s[i]))
}

/// How many of the first `n` words are not empty.
pub open spec fn word_count(words: Seq<Seq<char>>, n: int) -> int
    decreases n,
{
    if n <= 0 {
        0
    } else {
        word_count(words, n - 1) + if words[n - 1].len() > 0 {
            1int
        } else {
            0
        }
    }
}

/// Whether a text holds every word.
pub open spec fn holds_words(s: Seq<char>, words: Seq<Seq<char>>) -> bool {
    forall|i: int|
        0 <= i < words.len() && (#[trigger] words[i]).len() > 0 ==> text::has_part(s, words[i])
}

/// Whether a file, a repository and a quantization, all in lower case, belong together.
pub open spec fn names_match(file: Seq<char>, repo: Seq<char>, quant: Seq<char>) -> bool {
    let clean = clean_repo(repo);
    let has_quant = text::has_suffix(file, "-"@ + quant + ".gguf"@) || text::has_suffix(
        file,
        "_"@ + quant + ".gguf"@,
    ) || text::has_suffix(file, "."@ + quant + ".gguf"@) || text::has_part(file, quant);
    let bare = text::replaced(
        text::replaced(file, "-"@ + quant, Seq::empty()),
        ".gguf"@,
        Seq::empty(),
    );
    let words = text::pieces(dashed(clean), '-');
    has_quant && (text::has_part(file, clean) || text::has_part(clean, bare) || (word_count(
        words,
        words.len() as int,
    ) >= 2 && holds_words(file, words)))
}

fn with_dashes(s: &str) -> (r: String)
    ensures
        r@ == dashed(s@),
{
    let chars = text::to_chars(s);
    let mut out = String::new();
    let mut i: usize = 0;
    assert(out@ =~= dashed(s@.take(0)));
    while i < chars.len()
        invariant
            i <= chars@.len(),
            chars@ == s@,
            out@ == dashed(s@.take(i as int)),
        decreases chars@.len() - i,
    {
        let c = chars[i];
        out.push(
            if c == '_' || c == '.' {
                '-'
            } else {
                c
            },
        );
        i += 1;
        assert(out@ =~= dashed(s@.take(i as int)));
    }
    assert(s@.take(i as int) =~= s@);
    out
}

/// Whether a text holds every word of a name that has at least two.
fn has_all_words(s: &str, name: &str) -> (r: bool)
    ensures
        r == ({
            let words = text::pieces(dashed(name@), '-');
            word_count(words, words.len() as int) >= 2 && holds_words(s@, words)
        }),
{
    let words = text::split(with_dashes(name).as_str(), '-');
    let ghost all = text::views(words@);
    let mut count: usize = 0;
    let mut i: usize = 0;
    while i < words.len()
        invariant
            i <= words@.len(),
            all == text::views(words@),
            all == text::pieces(dashed(name@), '-'),
            count <= i,
            count == word_count(all, i as int),
            forall|k: int|
                0 <= k < i && (#[trigger] all[k]).len() > 0 ==> text::has_part(s@, all[k]),
        decreases words@.len() - i,
    {
        assert(all[i as int] == words@[i as int]@);
        if !words[i].as_str().is_empty() {
            count += 1;
            if !text::contains(s, words[i].as_str()) {
                assert(!holds_words(s@, all));
                return false;
            }
        }
        i += 1;
    }
    count >= 2
}

/// Whether a file, a repository and a quantization, all in lower case, belong together.
pub fn lower_names_match(file: &str, repo: &str, quant: &str) -> (r: bool)
    ensures
        r == names_match(file@, repo@, quant@),
{
    let clean = text::cut_suffix(
        text::cut_suffix(text::cut_prefix(repo, "unsloth/").as_str(), "-gguf").as_str(),
        "_gguf",
    );
    let has_quant = text::ends_with(file, text::join3("-", quant, ".gguf").as_str())
        || text::ends_with(file, text::join3("_", quant, ".gguf").as_str()) || text::ends_with(
        file,
        text::join3(".", quant, ".gguf").as_str(),
    ) || text::contains(file, quant);
    if !has_quant {
        return false;
    }
    proof {
        reveal_strlit("-");
        reveal_strlit(".gguf");
        reveal_strlit("");
        assert(""@ =~= Seq::<char>::empty());
    }
    let bare = text::replace(
        text::replace(file, text::join2("-", quant).as_str(), "").as_str(),
        ".gguf",
        "",
    );
    if text::contains(file, clean.as_str()) || text::contains(clean.as_str(), bare.as_str()) {
        return true;
    }
    has_all_words(file, clean.as_str())
}

pub open spec fn spec_file_matches(
    filename: Seq<char>,
    repo_id: Seq<char>,
    quant: Seq<char>,
) -> bool {
    names_match(
        text::lowered(filename),
        text::lowered(repo_id),
        text::lowered(quant),
    )
}

/// Whether a file belongs to a repository and a quantization, by its name.
pub fn file_matches_repo_and_quant(filename: &str, repo_id: &str, quant: &str) -> (r: bool)
    ensures
        r == spec_file_matches(filename@, repo_id@, quant@),
        is_ascii_chars(filename@) && is_ascii_chars(repo_id@) && is_ascii_chars(quant@) ==> r
            == names_match(text::lower(filename@), text::lower(repo_id@), text::lower(quant@)),
{
    let file = text::to_lowercase(filename);
    let repo = text::to_lowercase(repo_id);
    let q = text::to_lowercase(quant);
    lower_names_match(file.as_str(), repo.as_str(), q.as_str())
}

/// Sizes of a model by the name of its repository, in lower case and without its owner: with four bits
/// and with eight bits per weight, and whether it fits a small card.
pub open spec fn sizes_of(name: Seq<char>) -> (u64, u64, bool) {
    if (text::has_part(name, "deepseek"@) || text::has_part(name, "r1"@) || text::has_part(
        name,
        "v3"@,
    )) && !text::has_part(name, "distill"@) && !text::has_part(name, "7b"@) && !text::has_part(
        name,
        "8b"@,
    ) && !text::has_part(name, "1.5b"@) && !text::has_part(name, "14b"@) && !text::has_part(
        name,
        "32b"@,
    ) && !text::has_part(name, "70b"@) {
        (376_000_000_000, 664_000_000_000, false)
    } else if text::has_part(name, "405b"@) {
        (240_000_000_000, 430_000_000_000, false)
    } else if text::has_part(name, "284b"@) || text::has_part(name, "deepseek-v4"@) {
        (155_000_000_000, 280_000_000_000, false)
    } else if text::has_part(name, "120b"@) || text::has_part(name, "128b"@) || text::has_part(name, "110b"@) {
        (70_000_000_000, 130_000_000_000, false)
    } else if text::has_part(name, "70b"@) || text::has_part(name, "72b"@) {
        (40_000_000_000, 75_000_000_000, false)
    } else if text::has_part(name, "32b"@) || text::has_part(name, "34b"@) || text::has_part(name, "30b"@) || text::has_part(name, "35b"@) || text::has_part(name, "glm-5"@) {
        (19_500_000_000, 35_000_000_000, false)
    } else if text::has_part(name, "14b"@) || text::has_part(name, "13b"@) || text::has_part(name, "12b"@) {
        (8_500_000_000, 15_000_000_000, false)
    } else if text::has_part(name, "8b"@) || text::has_part(name, "9b"@) || text::has_part(name, "7b"@) || text::has_part(name, "6.7b"@) {
        (4_800_000_000, 8_500_000_000, false)
    } else if text::has_part(name, "3.8-flash"@) || text::has_part(name, "qwen3.8"@) {
        (111_000_000_000, 195_000_000_000, false)
    } else if text::has_part(name, "3b"@) || text::has_part(name, "3.2b"@) || text::has_part(name, "3.8b"@) || text::has_part(name, "4b"@) {
        (2_100_000_000, 3_800_000_000, true)
    } else if text::has_part(name, "1.5b"@) || text::has_part(name, "1b"@) || text::has_part(name, "2b"@) || text::has_part(name, "0.5b"@) {
        (950_000_000, 1_700_000_000, true)
    } else {
        (4_800_000_000, 8_500_000_000, false)
    }
}

/// Sizes of a model by the name of its repository, in lower case and without its owner.
pub fn sizes_of_name(name: &str) -> (r: (u64, u64, bool))
    ensures
        r == sizes_of(name@),
        0 < r.0 < r.1,
        r.2 == (r.1 <= 4_000_000_000),
{
    if (text::contains(name, "deepseek") || text::contains(name, "r1") || text::contains(name, "v3"))
        && !text::contains(name, "distill") && !text::contains(name, "7b") && !text::contains(
        name,
        "8b",
    ) && !text::contains(name, "1.5b") && !text::contains(name, "14b") && !text::contains(
        name,
        "32b",
    ) && !text::contains(name, "70b") {
        (376_000_000_000, 664_000_000_000, false)
    } else if text::contains(name, "405b") {
        (240_000_000_000, 430_000_000_000, false)
    } else if text::contains(name, "284b") || text::contains(name, "deepseek-v4") {
        (155_000_000_000, 280_000_000_000, false)
    } else if text::contains(name, "120b") || text::contains(name, "128b") || text::contains(name, "110b") {
        (70_000_000_000, 130_000_000_000, false)
    } else if text::contains(name, "70b") || text::contains(name, "72b") {
        (40_000_000_000, 75_000_000_000, false)
    } else if text::contains(name, "32b") || text::contains(name, "34b") || text::contains(name, "30b") || text::contains(name, "35b") || text::contains(name, "glm-5") {
        (19_500_000_000, 35_000_000_000, false)
    } else if text::contains(name, "14b") || text::contains(name, "13b") || text::contains(name, "12b") {
        (8_500_000_000, 15_000_000_000, false)
    } else if text::contains(name, "8b") || text::contains(name, "9b") || text::contains(name, "7b") || text::contains(name, "6.7b") {
        (4_800_000_000, 8_500_000_000, false)
    } else if text::contains(name, "3.8-flash") || text::contains(name, "qwen3.8") {
        (111_000_000_000, 195_000_000_000, false)
    } else if text::contains(name, "3b") || text::contains(name, "3.2b") || text::contains(name, "3.8b") || text::contains(name, "4b") {
        (2_100_000_000, 3_800_000_000, true)
    } else if text::contains(name, "1.5b") || text::contains(name, "1b") || text::contains(name, "2b") || text::contains(name, "0.5b") {
        (950_000_000, 1_700_000_000, true)
    } else {
        (4_800_000_000, 8_500_000_000, false)
    }
}

/// Sizes of a model by the id of its repository: only what follows the last `/` counts, in lower
/// case.
pub open spec fn sizes_of_repo(repo_id: Seq<char>) -> (u64, u64, bool) {
    sizes_of(text::lowered(text::last_piece(repo_id, '/')))
}

/// An estimate of the sizes of a model with four and with eight bits per weight, and whether it fits a
/// small card.
pub fn estimate_model_quant_sizes(repo_id: &str) -> (r: (u64, u64, bool))
    ensures
        r == sizes_of_repo(repo_id@),
        is_ascii_chars(repo_id@) ==> r == sizes_of(
            text::lower(text::last_piece(repo_id@, '/')),
        ),
        0 < r.0 < r.1,
        r.2 == (r.1 <= 4_000_000_000),
{
    proof {
        if is_ascii_chars(repo_id@) {
            text::law_parts_of_ascii_are_ascii(repo_id@, '/', ""@, ""@);
        }
    }
    let name = text::to_lowercase(text::after_last(repo_id, '/').as_str());
    sizes_of_name(name.as_str())
}

/// The owner of a repository does not count for the estimate, whatever it is, nor does the case in
/// which the name is written.
pub proof fn law_estimate_reads_the_name_alone(
    owner: Seq<char>,
    name: Seq<char>,
    other: Seq<char>,
)
    ensures
        sizes_of_repo(owner + seq!['/'] + name) == sizes_of_repo(name),
        text::lowered(text::last_piece(name, '/')) == text::lowered(text::last_piece(other, '/'))
            ==> sizes_of_repo(name) == sizes_of_repo(other),
        is_ascii_chars(name) ==> sizes_of_repo(text::lower(name)) == sizes_of_repo(name),
{
    assert(owner + seq!['/'] + name =~= owner.push('/') + name);
    text::law_last_piece_ignores_the_front(owner, name, '/');
    if is_ascii_chars(name) {
        let small = text::lower(name);
        assert forall|i: int| 0 <= i < small.len() implies '\0' <= #[trigger] small[i]
            <= '\u{7f}' by {
            assert('\0' <= name[i] <= '\u{7f}');
        }
        text::law_parts_of_ascii_are_ascii(name, '/', ""@, ""@);
        text::law_parts_of_ascii_are_ascii(small, '/', ""@, ""@);
        text::lemma_pieces_of_lower(name, '/');
        let piece = text::last_piece(name, '/');
        assert(text::lower(text::lower(piece)) =~= text::lower(piece));
    }
}

/// The estimate with four bits per weight is above zero and below that with eight, and exactly the
/// models of at most four billion bytes with eight bits fit a small card.
pub proof fn law_estimated_sizes_are_in_order(name: Seq<char>)
    ensures
        0 < sizes_of(name).0 < sizes_of(name).1,
        sizes_of(name).2 == (sizes_of(name).1 <= 4_000_000_000),
{
}

} // verus!
