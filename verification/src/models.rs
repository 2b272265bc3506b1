//! Cards of models: the files of the models' folder and the recommended models.

use vstd::prelude::*;
use vstd::utf8::*;

use crate::decimals;
use crate::decimals::format_bytes;
use crate::paths;
use crate::text;

verus! {

/// The card of a model.
#[derive(Debug)]
pub struct ModelCard {
    pub id: String,
    pub name: String,
    pub filename: String,
    pub path: String,
    pub size_bytes: u64,
    pub size_formatted: String,
    pub parameters: String,
    pub quantization: String,
    pub context_length: u64,
    pub architecture: String,
    pub is_present: bool,
    pub recommended_vram_mb: u64,
}

#[derive(Debug)]
pub struct ModelListResponse {
    pub object: String,
    pub models: Vec<ModelCard>,
    pub data: Vec<OpenAIModelInfo>,
}

#[derive(Debug)]
pub struct OpenAIModelInfo {
    pub id: String,
    pub object: String,
    pub created: u64,
    pub owned_by: String,
}

#[verifier::ext_equal]
pub struct CardView {
    pub id: Seq<char>,
    pub name: Seq<char>,
    pub filename: Seq<char>,
    pub path: Seq<char>,
    pub size_bytes: u64,
    pub size_formatted: Seq<char>,
    pub parameters: Seq<char>,
    pub quantization: Seq<char>,
    pub context_length: u64,
    pub architecture: Seq<char>,
    pub is_present: bool,
    pub recommended_vram_mb: u64,
}

impl View for ModelCard {
    type V = CardView;

    open spec fn view(&self) -> CardView {
        CardView {
            id: self.id@,
            name: self.name@,
            filename: self.filename@,
            path: self.path@,
            size_bytes: self.size_bytes,
            size_formatted: self.size_formatted@,
            parameters: self.parameters@,
            quantization: self.quantization@,
            context_length: self.context_length,
            architecture: self.architecture@,
            is_present: self.is_present,
            recommended_vram_mb: self.recommended_vram_mb,
        }
    }
}

pub open spec fn cards_view(s: Seq<ModelCard>) -> Seq<CardView> {
    Seq::new(s.len(), |i: int| s[i]@)
}

/// A file of the models' folder, and what its header says, if it could be read.
#[derive(Debug)]
pub struct ModelFile {
    pub filename: String,
    pub path: String,
    pub size_bytes: u64,
    pub header: Option<ModelHeader>,
}

#[derive(Debug)]
pub struct ModelHeader {
    pub architecture: Option<String>,
    pub context_length: u64,
}

#[verifier::ext_equal]
pub struct FileView {
    pub filename: Seq<char>,
    pub path: Seq<char>,
    pub size_bytes: u64,
    pub header: Option<HeaderView>,
}

#[verifier::ext_equal]
pub struct HeaderView {
    pub architecture: Option<Seq<char>>,
    pub context_length: u64,
}

impl View for ModelHeader {
    type V = HeaderView;

    open spec fn view(&self) -> HeaderView {
        HeaderView {
            architecture: match self.architecture {
                Some(s) => Some(s@),
                None => None,
            },
            context_length: self.context_length,
        }
    }
}

impl View for ModelFile {
    type V = FileView;

    open spec fn view(&self) -> FileView {
        FileView {
            filename: self.filename@,
            path: self.path@,
            size_bytes: self.size_bytes,
            header: match self.header {
                Some(h) => Some(h@),
                None => None,
            },
        }
    }
}

pub open spec fn files_view(s: Seq<ModelFile>) -> Seq<FileView> {
    Seq::new(s.len(), |i: int| s[i]@)
}

/// The card of a file. Without a readable header only the file itself is known.
pub open spec fn file_card(f: FileView) -> CardView {
    let name = text::without_suffixes(f.filename, ".gguf"@);
    let base = CardView {
        id: text::lowered(name),
        name,
        filename: f.filename,
        path: f.path,
        size_bytes: f.size_bytes,
        size_formatted: decimals::spec_format_bytes(f.size_bytes as int),
        parameters: "Unknown"@,
        quantization: "Q4_K_M"@,
        context_length: 8192,
        architecture: "llama"@,
        is_present: true,
        recommended_vram_mb: 2600,
    };
    match f.header {
        None => base,
        Some(h) => CardView {
            parameters: if f.size_bytes > 3_000_000_000 {
                "7B"@
            } else if f.size_bytes > 1_500_000_000 {
                "3.2B"@
            } else {
                "1.5B"@
            },
            quantization: if text::has_part(f.filename, "Q4_K"@) {
                "Q4_K_M"@
            } else if text::has_part(f.filename, "Q8_0"@) {
                "Q8_0"@
            } else {
                "Q4_0"@
            },
            context_length: h.context_length,
            architecture: match h.architecture {
                Some(a) => a,
                None => "llama"@,
            },
            recommended_vram_mb: if f.size_bytes > 3_000_000_000 {
                3800
            } else {
                2600
            },
            ..base
        },
    }
}

/// The cards of the first `n` files that are models.
pub open spec fn file_cards(files: Seq<FileView>, n: int) -> Seq<CardView>
    decreases n,
{
    if n <= 0 {
        Seq::empty()
    } else {
        let before = file_cards(files, n - 1);
        if text::has_suffix(files[n - 1].filename, ".gguf"@) {
            before.push(file_card(files[n - 1]))
        } else {
            before
        }
    }
}

/// A recommended model.
pub struct CatalogEntry {
    pub id: &'static str,
    pub name: &'static str,
    pub filename: &'static str,
    pub size_bytes: u64,
    pub parameters: &'static str,
    pub quantization: &'static str,
    pub context_length: u64,
    pub architecture: &'static str,
    pub recommended_vram_mb: u64,
}

#[verifier::ext_equal]
pub struct CatalogView {
    pub id: Seq<char>,
    pub name: Seq<char>,
    pub filename: Seq<char>,
    pub size_bytes: u64,
    pub parameters: Seq<char>,
    pub quantization: Seq<char>,
    pub context_length: u64,
    pub architecture: Seq<char>,
    pub recommended_vram_mb: u64,
}

impl View for CatalogEntry {
    type V = CatalogView;

    open spec fn view(&self) -> CatalogView {
        CatalogView {
            id: self.id@,
            name: self.name@,
            filename: self.filename@,
            size_bytes: self.size_bytes,
            parameters: self.parameters@,
            quantization: self.quantization@,
            context_length: self.context_length,
            architecture: self.architecture@,
            recommended_vram_mb: self.recommended_vram_mb,
        }
    }
}

pub const CATALOG_SIZE: usize = 4;

/// The recommended models.
pub open spec fn catalog(i: int) -> CatalogView {
    if i == 0 {
        CatalogView {
            id: "llama-3.2-3b-instruct-q4_k_m"@,
            name: "Llama-3.2-3B-Instruct"@,
            filename: "Llama-3.2-3B-Instruct-Q4_K_M.gguf"@,
            size_bytes: 2_023_751_680,
            parameters: "3.21B"@,
            quantization: "Q4_K_M"@,
            context_length: 131072,
            architecture: "llama"@,
            recommended_vram_mb: 2600,
        }
    } else if i == 1 {
        CatalogView {
            id: "llama-3.2-1b-instruct-q4_k_m"@,
            name: "Llama-3.2-1B-Instruct"@,
            filename: "Llama-3.2-1B-Instruct-Q4_K_M.gguf"@,
            size_bytes: 805_306_368,
            parameters: "1.24B"@,
            quantization: "Q4_K_M"@,
            context_length: 131072,
            architecture: "llama"@,
            recommended_vram_mb: 1400,
        }
    } else if i == 2 {
        CatalogView {
            id: "qwen2.5-1.5b-instruct-q4_k_m"@,
            name: "Qwen2.5-1.5B-Instruct"@,
            filename: "Qwen2.5-1.5B-Instruct-Q4_K_M.gguf"@,
            size_bytes: 985_661_440,
            parameters: "1.54B"@,
            quantization: "Q4_K_M"@,
            context_length: 32768,
            architecture: "qwen2"@,
            recommended_vram_mb: 1600,
        }
    } else {
        CatalogView {
            id: "mistral-7b-instruct-v0.3-q4_k_m"@,
            name: "Mistral-7B-Instruct-v0.3"@,
            filename: "Mistral-7B-Instruct-v0.3-Q4_K_M.gguf"@,
            size_bytes: 4_368_497_664,
            parameters: "7.24B"@,
            quantization: "Q4_K_M"@,
            context_length: 32768,
            architecture: "mistral"@,
            recommended_vram_mb: 3800,
        }
    }
}

/// A recommended model.
pub fn catalog_entry(i: usize) -> (r: CatalogEntry)
    requires
        i < CATALOG_SIZE,
    ensures
        r@ == catalog(i as int),
{
    match i {
        0 => CatalogEntry {
            id: "llama-3.2-3b-instruct-q4_k_m",
            name: "Llama-3.2-3B-Instruct",
            filename: "Llama-3.2-3B-Instruct-Q4_K_M.gguf",
            size_bytes: 2_023_751_680,
            parameters: "3.21B",
            quantization: "Q4_K_M",
            context_length: 131072,
            architecture: "llama",
            recommended_vram_mb: 2600,
        },
        1 => CatalogEntry {
            id: "llama-3.2-1b-instruct-q4_k_m",
            name: "Llama-3.2-1B-Instruct",
            filename: "Llama-3.2-1B-Instruct-Q4_K_M.gguf",
            size_bytes: 805_306_368,
            parameters: "1.24B",
            quantization: "Q4_K_M",
            context_length: 131072,
            architecture: "llama",
            recommended_vram_mb: 1400,
        },
        2 => CatalogEntry {
            id: "qwen2.5-1.5b-instruct-q4_k_m",
            name: "Qwen2.5-1.5B-Instruct",
            filename: "Qwen2.5-1.5B-Instruct-Q4_K_M.gguf",
            size_bytes: 985_661_440,
            parameters: "1.54B",
            quantization: "Q4_K_M",
            context_length: 32768,
            architecture: "qwen2",
            recommended_vram_mb: 1600,
        },
        _ => CatalogEntry {
            id: "mistral-7b-instruct-v0.3-q4_k_m",
            name: "Mistral-7B-Instruct-v0.3",
            filename: "Mistral-7B-Instruct-v0.3-Q4_K_M.gguf",
            size_bytes: 4_368_497_664,
            parameters: "7.24B",
            quantization: "Q4_K_M",
            context_length: 32768,
            architecture: "mistral",
            recommended_vram_mb: 3800,
        },
    }
}

pub open spec fn catalog_card(c: CatalogView, models_dir: Seq<char>, is_present: bool) -> CardView {
    CardView {
        id: c.id,
        name: c.name,
        filename: c.filename,
        path: paths::joined(models_dir, c.filename),
        size_bytes: c.size_bytes,
        size_formatted: decimals::spec_format_bytes(c.size_bytes as int),
        parameters: c.parameters,
        quantization: c.quantization,
        context_length: c.context_length,
        architecture: c.architecture,
        is_present,
        recommended_vram_mb: c.recommended_vram_mb,
    }
}

/// Whether a file of this name is among them.
pub open spec fn has_filename(files: Seq<FileView>, filename: Seq<char>) -> bool {
    exists|i: int| 0 <= i < files.len() && (#[trigger] files[i]).filename == filename
}

/// The cards of the first `n` recommended models of which no file was found.
pub open spec fn catalog_cards(
    files: Seq<FileView>,
    models_dir: Seq<char>,
    present: Seq<bool>,
    n: int,
) -> Seq<CardView>
    decreases n,
{
    if n <= 0 {
        Seq::empty()
    } else {
        let before = catalog_cards(files, models_dir, present, n - 1);
        let c = catalog(n - 1);
        if has_filename(files, c.filename) {
            before
        } else {
            before.push(catalog_card(c, models_dir, present[n - 1]))
        }
    }
}

fn card_of_file(f: &ModelFile) -> (r: ModelCard)
    ensures
        r@ == file_card(f@),
{
    proof {
        reveal_strlit(".gguf");
    }
    let name = text::cut_suffixes(f.filename.as_str(), ".gguf");
    let id = text::to_lowercase(name.as_str());
    let size_formatted = format_bytes(f.size_bytes);
    match &f.header {
        None => ModelCard {
            id,
            name,
            filename: f.filename.clone(),
            path: f.path.clone(),
            size_bytes: f.size_bytes,
            size_formatted,
            parameters: "Unknown".to_owned(),
            quantization: "Q4_K_M".to_owned(),
            context_length: 8192,
            architecture: "llama".to_owned(),
            is_present: true,
            recommended_vram_mb: 2600,
        },
        Some(h) => {
            let parameters = if f.size_bytes > 3_000_000_000 {
                "7B".to_owned()
            } else if f.size_bytes > 1_500_000_000 {
                "3.2B".to_owned()
            } else {
                "1.5B".to_owned()
            };
            let quantization = if text::contains(f.filename.as_str(), "Q4_K") {
                "Q4_K_M".to_owned()
            } else if text::contains(f.filename.as_str(), "Q8_0") {
                "Q8_0".to_owned()
            } else {
                "Q4_0".to_owned()
            };
            let architecture = match &h.architecture {
                Some(a) => a.clone(),
                None => "llama".to_owned(),
            };
            ModelCard {
                id,
                name,
                filename: f.filename.clone(),
                path: f.path.clone(),
                size_bytes: f.size_bytes,
                size_formatted,
                parameters,
                quantization,
                context_length: h.context_length,
                architecture,
                is_present: true,
                recommended_vram_mb: if f.size_bytes > 3_000_000_000 {
                    3800
                } else {
                    2600
                },
            }
        },
    }
}

fn was_found(files: &Vec<ModelFile>, filename: &str) -> (r: bool)
    ensures
        r == has_filename(files_view(files@), filename@),
{
    let ghost view = files_view(files@);
    let mut i: usize = 0;
    while i < files.len()
        invariant
            i <= files@.len(),
            view == files_view(files@),
            forall|k: int| 0 <= k < i ==> (#[trigger] view[k]).filename != filename@,
        decreases files@.len() - i,
    {
        assert(view[i as int].filename == files@[i as int].filename@);
        if text::same(files[i].filename.as_str(), filename) {
            return true;
        }
        i += 1;
    }
    false
}

/// The cards of the models' folder: its files, then the recommended models of which it has no
/// file. `present` says of each recommended model whether its path exists.
pub fn discover_models(files: &Vec<ModelFile>, models_dir: &str, present: &Vec<bool>) -> (r: Vec<
    ModelCard,
>)
    requires
        present@.len() == CATALOG_SIZE,
    ensures
        cards_view(r@) == file_cards(files_view(files@), files@.len() as int) + catalog_cards(
            files_view(files@),
            models_dir@,
            present@,
            CATALOG_SIZE as int,
        ),
{
    let ghost view = files_view(files@);
    let mut out: Vec<ModelCard> = Vec::new();
    let mut i: usize = 0;
    assert(cards_view(out@) =~= Seq::empty());
    while i < files.len()
        invariant
            i <= files@.len(),
            view == files_view(files@),
            cards_view(out@) == file_cards(view, i as int),
        decreases files@.len() - i,
    {
        assert(view[i as int] == files@[i as int]@);
        if text::ends_with(files[i].filename.as_str(), ".gguf") {
            let ghost before = cards_view(out@);
            let card = card_of_file(&files[i]);
            let ghost item = card@;
            out.push(card);
            assert(cards_view(out@) =~= before.push(item));
        }
        i += 1;
    }
    let ghost found = cards_view(out@);
    let mut k: usize = 0;
    assert(found + catalog_cards(view, models_dir@, present@, 0) =~= found);
    while k < CATALOG_SIZE
        invariant
            k <= CATALOG_SIZE,
            present@.len() == CATALOG_SIZE,
            view == files_view(files@),
            cards_view(out@) == found + catalog_cards(view, models_dir@, present@, k as int),
        decreases CATALOG_SIZE - k,
    {
        let c = catalog_entry(k);
        if !was_found(files, c.filename) {
            let ghost before = cards_view(out@);
            let card = ModelCard {
                id: c.id.to_owned(),
                name: c.name.to_owned(),
                filename: c.filename.to_owned(),
                path: paths::join(models_dir, c.filename),
                size_bytes: c.size_bytes,
                size_formatted: format_bytes(c.size_bytes),
                parameters: c.parameters.to_owned(),
                quantization: c.quantization.to_owned(),
                context_length: c.context_length,
                architecture: c.architecture.to_owned(),
                is_present: present[k],
                recommended_vram_mb: c.recommended_vram_mb,
            };
            let ghost item = card@;
            assert(item =~= catalog_card(catalog(k as int), models_dir@, present@[k as int]));
            out.push(card);
            assert(cards_view(out@) =~= before.push(item));
        }
        assert(cards_view(out@) =~= found + catalog_cards(view, models_dir@, present@, k + 1));
        k += 1;
    }
    out
}

/// The id of a file with an ASCII name is the name without its ending, in lower case.
pub proof fn law_ascii_names_give_lower_case_ids(f: FileView)
    requires
        is_ascii_chars(f.filename),
    ensures
        file_card(f).id == text::lower(text::without_suffixes(f.filename, ".gguf"@)),
{
    text::law_parts_of_ascii_are_ascii(f.filename, '/', ""@, ".gguf"@);
    reveal_strlit("");
    assert(text::without_prefix(f.filename, ""@) =~= f.filename);
}

} // verus!
