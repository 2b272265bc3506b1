use serde_json::Value;
use slothforge::dataset::{
    AlpacaEntry, ChatMessage, DatasetEntry, DatasetError, DatasetFormat, DatasetLine,
    DatasetLoader, RawEntry, IGNORE_LABEL_ID,
};
use slothforge::ggml::GGMLType;
use slothforge::gguf::{
    align_up, min_value_bytes, GGUFError, GGUFFile, GGUFValue, Reader, GGUF_MAGIC,
    MAX_VALUE_NESTING,
};
use slothforge::tokenizer::{
    SimpleTokenizer, EOS_TOKEN_ID, IM_END_TOKEN_ID, IM_START_TOKEN_ID, PAD_TOKEN_ID,
};

// ---------- tokenizer ----------

#[test]
fn test_tokenizer_encode_decode() {
    let tokenizer = SimpleTokenizer::new();
    let text = "Hello world! <|im_start|>user\ntest<|im_end|>";
    let tokens = tokenizer.encode(text);
    assert!(!tokens.is_empty());
    assert!(tokens.contains(&IM_START_TOKEN_ID));
    assert!(tokens.contains(&IM_END_TOKEN_ID));

    let decoded = tokenizer.decode(&tokens);
    assert_eq!(decoded, text);
}

#[test]
fn tokens_are_bytes_and_special_tags() {
    let tokenizer = SimpleTokenizer::new();
    assert_eq!(
        tokenizer.encode("Hi<|im_end|>"),
        vec![3 + 72, 3 + 105, IM_END_TOKEN_ID]
    );
    assert_eq!(tokenizer.encode(""), Vec::<u32>::new());
    assert_eq!(tokenizer.decode(&[EOS_TOKEN_ID]), "</s>");
    assert_eq!(tokenizer.decode(&[3 + 0xff]), "\u{fffd}");
    assert_eq!(tokenizer.decode(&[999_999]), "");
}

#[test]
fn listed_tokens_are_decoded_by_their_numbers() {
    let tokenizer = SimpleTokenizer::from_tokens(&["один".to_string(), "два".to_string()]);
    assert_eq!(tokenizer.decode(&[1000, 1001]), "одиндва");
}

#[test]
fn text_beyond_ascii_is_encoded_byte_by_byte() {
    let tokenizer = SimpleTokenizer::new();
    assert_eq!(tokenizer.encode("я"), vec![3 + 0xd1, 3 + 0x8f]);
    let text = "привет<|im_end|> 🦥";
    assert_eq!(tokenizer.decode(&tokenizer.encode(text)), text);
}

#[test]
fn a_listed_text_has_the_number_of_its_last_place() {
    let tokens = ["a", "b", "a", "<s>"].map(|t| t.to_string());
    let tokenizer = SimpleTokenizer::from_tokens(&tokens);
    let number = |text: &str| {
        tokenizer
            .vocab
            .iter()
            .find(|(t, _)| t == text)
            .map(|(_, id)| *id)
    };
    assert_eq!(number("a"), Some(1002));
    assert_eq!(number("b"), Some(1001));
    assert_eq!(number("<s>"), Some(1003));
    assert_eq!(number("</s>"), Some(EOS_TOKEN_ID));
    assert_eq!(number("c"), None);
    assert_eq!(tokenizer.decode(&[1000, 1001, 1002, 1003, 1]), "aba<s><s>");
    assert_eq!(tokenizer.id_to_token.len(), SimpleTokenizer::new().id_to_token.len() + 4);
}

// ---------- datasets ----------

fn text_of(value: &Value, key: &str) -> Result<String, String> {
    match value.get(key) {
        Some(Value::String(s)) => Ok(s.clone()),
        Some(_) => Err(format!("{key} is not a text")),
        None => Err(format!("missing field `{key}`")),
    }
}

fn optional(value: &Value, key: &str) -> Option<String> {
    value.get(key).and_then(Value::as_str).map(str::to_string)
}

fn parse_line(line: &DatasetLine) -> Result<DatasetEntry, String> {
    let value: Value = serde_json::from_str(&line.text).map_err(|e| e.to_string())?;
    match line.format {
        DatasetFormat::Alpaca => Ok(DatasetEntry::Alpaca(AlpacaEntry {
            instruction: text_of(&value, "instruction")?,
            input: optional(&value, "input").unwrap_or_default(),
            output: text_of(&value, "output")?,
        })),
        DatasetFormat::ChatML => {
            let list = value
                .get("messages")
                .and_then(Value::as_array)
                .ok_or_else(|| "missing field `messages`".to_string())?;
            let mut messages = Vec::new();
            for item in list {
                messages.push(ChatMessage {
                    role: text_of(item, "role")?,
                    content: text_of(item, "content")?,
                });
            }
            Ok(DatasetEntry::ChatML(messages))
        }
        _ => Ok(DatasetEntry::Raw(RawEntry {
            prompt: optional(&value, "prompt"),
            completion: optional(&value, "completion"),
            text: optional(&value, "text"),
        })),
    }
}

#[test]
fn test_alpaca_parsing_and_sequence_packing() {
    let alpaca_json = r#"{"instruction": "Tell me a joke", "input": "", "output": "Sloth is fast!"}
{"instruction": "Calculate 2+2", "input": "", "output": "4"}"#;

    let tokenizer = SimpleTokenizer::new();
    let packed = DatasetLoader::load_from_str(
        alpaca_json,
        DatasetFormat::Alpaca,
        &tokenizer,
        512,
        true,
        parse_line,
    )
    .unwrap();

    assert!(!packed.is_empty());
    let first = &packed[0];
    assert_eq!(first.input_ids.len(), 512);
    assert_eq!(first.seq_lengths.len(), 2);
    assert_eq!(first.segment_ids[0], 0);
    assert_eq!(first.labels[0], IGNORE_LABEL_ID);
}

#[test]
fn test_chatml_parsing() {
    let chatml_json = r#"{"messages": [{"role": "system", "content": "You are helpful"}, {"role": "user", "content": "Hi"}, {"role": "assistant", "content": "Hello!"}]}"#;
    let samples =
        DatasetLoader::parse_samples(chatml_json, DatasetFormat::ChatML, parse_line).unwrap();
    assert_eq!(samples.len(), 1);
    assert!(samples[0].prompt.contains("You are helpful"));
    assert!(samples[0].completion.contains("Hello!"));
    assert_eq!(
        samples[0].prompt,
        "<|im_start|>system\nYou are helpful<|im_end|>\n<|im_start|>user\nHi<|im_end|>\n<|im_start|>assistant\n"
    );
    assert_eq!(
        samples[0].completion,
        "<|im_start|>assistant\nHello!<|im_end|>\n"
    );
}

#[test]
fn formats_of_lines_are_recognized() {
    let content = "{\"messages\": []}\n\n  {\"instruction\": \"x\"}  \r\n{\"text\": \"y\"}\n";
    let lines = DatasetLoader::dataset_lines(content, DatasetFormat::Auto);
    let formats: Vec<DatasetFormat> = lines.iter().map(|l| l.format).collect();
    assert_eq!(
        formats,
        [
            DatasetFormat::ChatML,
            DatasetFormat::Alpaca,
            DatasetFormat::RawJsonl
        ]
    );
    assert_eq!(lines[1].text, "{\"instruction\": \"x\"}");
}

#[test]
fn broken_and_empty_datasets_are_errors() {
    assert!(matches!(
        DatasetLoader::parse_samples("not json", DatasetFormat::Auto, parse_line),
        Err(DatasetError::Json(_))
    ));
    assert!(matches!(
        DatasetLoader::parse_samples("\n  \n", DatasetFormat::Auto, parse_line),
        Err(DatasetError::EmptyDataset)
    ));
    assert!(matches!(
        DatasetLoader::parse_samples("{}", DatasetFormat::RawJsonl, parse_line),
        Err(DatasetError::EmptyDataset)
    ));
    let tokenizer = SimpleTokenizer::new();
    for pack in [true, false] {
        assert!(matches!(
            DatasetLoader::load_from_str(
                "{}",
                DatasetFormat::RawJsonl,
                &tokenizer,
                16,
                pack,
                parse_line
            ),
            Err(DatasetError::EmptyDataset)
        ));
    }
}

#[test]
fn cyrillic_samples_are_loaded() {
    let rows = DatasetLoader::load_from_str(
        "{\"text\": \"я\"}",
        DatasetFormat::RawJsonl,
        &SimpleTokenizer::new(),
        4,
        false,
        parse_line,
    )
    .unwrap();
    assert_eq!(rows[0].input_ids, vec![3 + 0xd1, 3 + 0x8f, EOS_TOKEN_ID, PAD_TOKEN_ID]);
    assert_eq!(rows[0].labels, vec![212, 146, 2, IGNORE_LABEL_ID]);
    assert_eq!(rows[0].seq_lengths, vec![3]);
    assert_eq!(rows[0].position_ids, vec![0, 1, 2]);
    assert_eq!(rows[0].segment_ids, vec![0, 0, 0]);
}

#[test]
fn packing_keeps_the_cut_lengths() {
    let content = ["ab", "abcdef", "c", "abc"]
        .map(|text| format!("{{\"prompt\": \"p\", \"completion\": \"{text}\"}}"))
        .join("\n");
    let load = |pack: bool| {
        DatasetLoader::load_from_str(
            &content,
            DatasetFormat::Auto,
            &SimpleTokenizer::new(),
            6,
            pack,
            parse_line,
        )
        .unwrap()
    };
    for pack in [true, false] {
        let rows = load(pack);
        let mut lengths: Vec<usize> =
            rows.iter().flat_map(|row| row.seq_lengths.clone()).collect();
        lengths.sort();
        assert_eq!(lengths, [3, 4, 5, 6]);
        for row in &rows {
            for (label, id) in row.labels.iter().zip(&row.input_ids) {
                assert!(*label == IGNORE_LABEL_ID || *label == i64::from(*id));
            }
        }
        assert!(rows
            .iter()
            .any(|row| row.input_ids.windows(3).any(|part| part == [115, 102, EOS_TOKEN_ID])));
    }
}

#[test]
fn raw_lines_and_padding() {
    let tokenizer = SimpleTokenizer::new();
    let content = "{\"prompt\": \"ab\", \"completion\": \"c\"}\n{\"text\": \"d\"}";
    let rows = DatasetLoader::load_from_str(
        content,
        DatasetFormat::RawJsonl,
        &tokenizer,
        6,
        false,
        parse_line,
    )
    .unwrap();
    assert_eq!(rows.len(), 2);
    assert_eq!(
        rows[0].input_ids,
        vec![3 + 97, 3 + 98, 3 + 99, EOS_TOKEN_ID, PAD_TOKEN_ID, PAD_TOKEN_ID]
    );
    assert_eq!(rows[0].labels, vec![-100, -100, 102, 2, -100, -100]);
    assert_eq!(rows[0].position_ids, vec![0, 1, 2, 3]);
    assert_eq!(rows[0].seq_lengths, vec![4]);
    assert_eq!(rows[1].seq_lengths, vec![2]);

    let cut = DatasetLoader::load_from_str(
        content,
        DatasetFormat::RawJsonl,
        &tokenizer,
        3,
        false,
        parse_line,
    )
    .unwrap();
    assert_eq!(cut[0].input_ids, vec![100, 101, 102]);
}

#[test]
fn packing_opens_a_new_window_when_full() {
    let tokenizer = SimpleTokenizer::new();
    let content = "{\"text\": \"abc\"}\n{\"text\": \"de\"}\n{\"text\": \"f\"}";
    let packed = DatasetLoader::load_from_str(
        content,
        DatasetFormat::RawJsonl,
        &tokenizer,
        7,
        true,
        parse_line,
    )
    .unwrap();
    assert_eq!(packed.len(), 2);
    assert_eq!(packed[0].seq_lengths, vec![4, 3]);
    assert_eq!(packed[0].segment_ids, vec![0, 0, 0, 0, 1, 1, 1]);
    assert_eq!(packed[0].position_ids, vec![0, 1, 2, 3, 0, 1, 2]);
    assert_eq!(packed[1].seq_lengths, vec![2]);
    assert_eq!(packed[1].input_ids.len(), 7);
}

// ---------- gguf ----------

fn write_u32(buf: &mut Vec<u8>, v: u32) {
    buf.extend_from_slice(&v.to_le_bytes());
}

fn write_u64(buf: &mut Vec<u8>, v: u64) {
    buf.extend_from_slice(&v.to_le_bytes());
}

fn write_string(buf: &mut Vec<u8>, text: &str) {
    write_u64(buf, text.len() as u64);
    buf.extend_from_slice(text.as_bytes());
}

fn create_mock_gguf() -> Vec<u8> {
    let mut buf = Vec::new();
    write_u32(&mut buf, GGUF_MAGIC);
    write_u32(&mut buf, 3);
    write_u64(&mut buf, 1);
    write_u64(&mut buf, 3);

    write_string(&mut buf, "general.architecture");
    write_u32(&mut buf, 8);
    write_string(&mut buf, "llama");

    write_string(&mut buf, "llama.context_length");
    write_u32(&mut buf, 4);
    write_u32(&mut buf, 4096);

    write_string(&mut buf, "general.alignment");
    write_u32(&mut buf, 4);
    write_u32(&mut buf, 32);

    write_string(&mut buf, "token_embd.weight");
    write_u32(&mut buf, 2);
    write_u64(&mut buf, 4);
    write_u64(&mut buf, 4);
    write_u32(&mut buf, 0);
    write_u64(&mut buf, 0);

    while buf.len() % 32 != 0 {
        buf.push(0);
    }
    for i in 0..16 {
        buf.extend_from_slice(&(i as f32).to_le_bytes());
    }
    buf
}

#[test]
fn test_parse_mock_gguf() {
    let bytes = create_mock_gguf();
    let gguf = GGUFFile::from_bytes(&bytes).expect("файл должен разобраться");

    assert_eq!(gguf.version, 3);
    assert_eq!(gguf.tensor_count, 1);
    assert_eq!(gguf.architecture(), Some("llama"));
    assert_eq!(gguf.context_length(), Some(4096));
    assert_eq!(gguf.block_count(), None);
    assert_eq!(gguf.parameter_count(), 16);

    let t = gguf
        .get_tensor_info("token_embd.weight")
        .expect("тензор найден");
    assert_eq!(t.dimensions, vec![4, 4]);
    assert_eq!(t.tensor_type, GGMLType::F32);
    assert_eq!(t.size_bytes, Some(64));
    assert_eq!(t.total_elements(), 16);

    let data = gguf
        .get_tensor_data("token_embd.weight")
        .expect("данные тензора");
    assert_eq!(data.len(), 64);
    assert_eq!(f32::from_le_bytes(data[4..8].try_into().unwrap()), 1.0);
    assert_eq!(gguf.file_size(), bytes.len() as u64);
    assert!(gguf.get_tensor_info("other").is_none());
}

#[test]
fn type_ids_and_block_sizes_match_ggml() {
    assert_eq!(GGMLType::from(29), GGMLType::IQ1_M);
    assert_eq!(GGMLType::from(30), GGMLType::BF16);
    assert_eq!(GGMLType::from(35), GGMLType::TQ2_0);
    assert_eq!(GGMLType::from(4), GGMLType::Unknown(4));
    assert_eq!(GGMLType::TQ2_0.id(), 35);
    assert_eq!(GGMLType::Q6_K.data_size(256 * 3), Some(210 * 3));
    assert_eq!(GGMLType::Q4_0.data_size(32 * 10), Some(180));
    assert_eq!(GGMLType::IQ4_XS.data_size(256), Some(136));
    assert_eq!(GGMLType::Q4_K.data_size(100), None);
    assert_eq!(GGMLType::Unknown(99).data_size(256), None);
    let table: Vec<(u32, GGMLType, &str)> = vec![
        (0, GGMLType::F32, "F32"),
        (1, GGMLType::F16, "F16"),
        (2, GGMLType::Q4_0, "Q4_0"),
        (3, GGMLType::Q4_1, "Q4_1"),
        (6, GGMLType::Q5_0, "Q5_0"),
        (7, GGMLType::Q5_1, "Q5_1"),
        (8, GGMLType::Q8_0, "Q8_0"),
        (9, GGMLType::Q8_1, "Q8_1"),
        (10, GGMLType::Q2_K, "Q2_K"),
        (11, GGMLType::Q3_K, "Q3_K"),
        (12, GGMLType::Q4_K, "Q4_K"),
        (13, GGMLType::Q5_K, "Q5_K"),
        (14, GGMLType::Q6_K, "Q6_K"),
        (15, GGMLType::Q8_K, "Q8_K"),
        (16, GGMLType::IQ2_XXS, "IQ2_XXS"),
        (17, GGMLType::IQ2_XS, "IQ2_XS"),
        (18, GGMLType::IQ3_XXS, "IQ3_XXS"),
        (19, GGMLType::IQ1_S, "IQ1_S"),
        (20, GGMLType::IQ4_NL, "IQ4_NL"),
        (21, GGMLType::IQ3_S, "IQ3_S"),
        (22, GGMLType::IQ2_S, "IQ2_S"),
        (23, GGMLType::IQ4_XS, "IQ4_XS"),
        (24, GGMLType::I8, "I8"),
        (25, GGMLType::I16, "I16"),
        (26, GGMLType::I32, "I32"),
        (27, GGMLType::I64, "I64"),
        (28, GGMLType::F64, "F64"),
        (29, GGMLType::IQ1_M, "IQ1_M"),
        (30, GGMLType::BF16, "BF16"),
        (34, GGMLType::TQ1_0, "TQ1_0"),
        (35, GGMLType::TQ2_0, "TQ2_0"),
        (39, GGMLType::MXFP4, "MXFP4"),
        (40, GGMLType::NVFP4, "NVFP4"),
        (41, GGMLType::Q1_0, "Q1_0"),
    ];
    for (id, ty, name) in table {
        assert_eq!(GGMLType::from(id), ty);
        assert_eq!(ty.id(), id);
        assert_eq!(ty.name(), name);
        assert_eq!(GGMLType::from_name(&name.to_lowercase()), Some(ty));
    }
    assert_eq!(GGMLType::from_name("q9_9"), None);
}

#[test]
fn every_truncation_is_an_error_not_a_panic() {
    let full = create_mock_gguf();
    for len in 0..full.len() {
        assert!(
            GGUFFile::from_bytes(&full[..len]).is_err(),
            "обрезанный до {len} байт файл должен давать ошибку"
        );
    }
}

#[test]
fn a_failed_read_leaves_the_reader_where_it_was() {
    let bytes = [2u8, 0, 0, 0, 0, 0, 0, 0, 7];
    let mut reader = Reader::new(&bytes);
    assert!(reader.take(10, "x").is_err());
    assert_eq!(reader.remaining(), 9);
    assert!(reader.uint(4, "x").is_ok());
    assert!(reader.u64("x").is_err());
    assert_eq!(reader.remaining(), 5);

    let mut reader = Reader::new(&bytes);
    assert!(matches!(reader.count(1, "x"), Err(GGUFError::CountTooLarge { count: 2, .. })));
    assert_eq!(reader.remaining(), 1);
    let mut reader = Reader::new(&bytes);
    assert!(matches!(reader.string("x"), Err(GGUFError::Truncated("x"))));
    assert_eq!(reader.remaining(), 1);
}

fn header(tensors: u64, kvs: u64) -> Vec<u8> {
    let mut buf = Vec::new();
    write_u32(&mut buf, GGUF_MAGIC);
    write_u32(&mut buf, 3);
    write_u64(&mut buf, tensors);
    write_u64(&mut buf, kvs);
    buf
}

#[test]
fn rejects_huge_counts_and_lengths_without_allocating() {
    assert!(matches!(
        GGUFFile::from_bytes(&header(0, u64::MAX)),
        Err(GGUFError::CountTooLarge { .. })
    ));
    assert!(matches!(
        GGUFFile::from_bytes(&header(u64::MAX, 0)),
        Err(GGUFError::CountTooLarge { .. })
    ));

    let mut huge_string = header(0, 1);
    write_u64(&mut huge_string, u64::MAX);
    huge_string.extend_from_slice(&[0u8; 32]);
    assert!(matches!(
        GGUFFile::from_bytes(&huge_string),
        Err(GGUFError::Truncated(_))
    ));

    let mut huge_array = header(0, 1);
    write_string(&mut huge_array, "tokenizer.ggml.tokens");
    write_u32(&mut huge_array, 9);
    write_u32(&mut huge_array, 8);
    write_u64(&mut huge_array, 1 << 40);
    assert!(matches!(
        GGUFFile::from_bytes(&huge_array),
        Err(GGUFError::CountTooLarge { .. })
    ));
}

#[test]
fn rejects_invalid_alignment_and_structure() {
    for alignment in [0u32, 3, 48] {
        let mut buf = header(0, 1);
        write_string(&mut buf, "general.alignment");
        write_u32(&mut buf, 4);
        write_u32(&mut buf, alignment);
        assert!(
            matches!(
                GGUFFile::from_bytes(&buf),
                Err(GGUFError::InvalidAlignment(_))
            ),
            "выравнивание {alignment} должно отклоняться"
        );
    }

    let mut duplicate = header(0, 2);
    for _ in 0..2 {
        write_string(&mut duplicate, "general.name");
        write_u32(&mut duplicate, 8);
        write_string(&mut duplicate, "x");
    }
    assert!(matches!(
        GGUFFile::from_bytes(&duplicate),
        Err(GGUFError::DuplicateKey(_))
    ));

    let mut too_many_dims = header(1, 0);
    write_string(&mut too_many_dims, "t");
    write_u32(&mut too_many_dims, 5);
    too_many_dims.extend_from_slice(&[0u8; 64]);
    assert!(matches!(
        GGUFFile::from_bytes(&too_many_dims),
        Err(GGUFError::TooManyDimensions { .. })
    ));
}

#[test]
fn rejects_tensor_data_outside_file() {
    let mut buf = header(1, 0);
    write_string(&mut buf, "big.weight");
    write_u32(&mut buf, 1);
    write_u64(&mut buf, 1_000_000);
    write_u32(&mut buf, 0);
    write_u64(&mut buf, 0);
    assert!(matches!(
        GGUFFile::from_bytes(&buf),
        Err(GGUFError::TensorOutOfBounds(_))
    ));
}

/// A file of one entry: arrays in each other, with a number inside.
fn nested_arrays(depth: usize) -> Vec<u8> {
    let mut bytes = header(0, 1);
    write_string(&mut bytes, "deep");
    write_u32(&mut bytes, 9);
    for level in 1..=depth {
        write_u32(&mut bytes, if level < depth { 9 } else { 4 });
        write_u64(&mut bytes, 1);
    }
    write_u32(&mut bytes, 7);
    bytes
}

#[test]
fn arrays_nest_up_to_the_limit() {
    let bytes = nested_arrays(MAX_VALUE_NESTING);
    let file = GGUFFile::from_bytes(&bytes).unwrap();
    let mut value = file.value("deep").unwrap();
    for _ in 0..MAX_VALUE_NESTING {
        value = &value.as_array().unwrap()[0];
    }
    assert_eq!(value.as_u64(), Some(7));
    let bytes = nested_arrays(MAX_VALUE_NESTING + 1);
    assert!(matches!(GGUFFile::from_bytes(&bytes), Err(GGUFError::NestingTooDeep)));
}

#[test]
fn rejects_deeply_nested_arrays() {
    let mut buf = header(0, 1);
    write_string(&mut buf, "nested");
    write_u32(&mut buf, 9);
    for _ in 0..(MAX_VALUE_NESTING + 2) {
        write_u32(&mut buf, 9);
        write_u64(&mut buf, 1);
    }
    buf.extend_from_slice(&[0u8; 64]);
    assert!(GGUFFile::from_bytes(&buf).is_err());
}

#[test]
fn rejects_other_files_versions_and_values() {
    let mut other = create_mock_gguf();
    other[0] = b'X';
    assert!(matches!(
        GGUFFile::from_bytes(&other),
        Err(GGUFError::InvalidMagic(_))
    ));
    let mut newer = create_mock_gguf();
    newer[4] = 9;
    assert!(matches!(
        GGUFFile::from_bytes(&newer),
        Err(GGUFError::UnsupportedVersion(9))
    ));
    let mut unknown = header(0, 1);
    write_string(&mut unknown, "key");
    write_u32(&mut unknown, 77);
    unknown.extend_from_slice(&[0u8; 32]);
    assert!(matches!(
        GGUFFile::from_bytes(&unknown),
        Err(GGUFError::InvalidValueType(77))
    ));
    let mut bad_text = header(0, 1);
    write_u64(&mut bad_text, 2);
    bad_text.extend_from_slice(&[0xff, 0xfe]);
    bad_text.extend_from_slice(&[0u8; 32]);
    assert!(matches!(
        GGUFFile::from_bytes(&bad_text),
        Err(GGUFError::Utf8Error(_))
    ));
    let mut nested = header(0, 1);
    write_string(&mut nested, "n");
    write_u32(&mut nested, 9);
    for _ in 0..MAX_VALUE_NESTING {
        write_u32(&mut nested, 9);
        write_u64(&mut nested, 1);
    }
    nested.extend_from_slice(&[9, 0, 0, 0]);
    nested.extend_from_slice(&[0u8; 64]);
    assert!(GGUFFile::from_bytes(&nested).is_err());
}

fn tensor_only(name: &str, dims: &[u64], ty: u32, times: usize) -> Vec<u8> {
    let mut buf = header(times as u64, 0);
    for _ in 0..times {
        write_string(&mut buf, name);
        write_u32(&mut buf, dims.len() as u32);
        for d in dims {
            write_u64(&mut buf, *d);
        }
        write_u32(&mut buf, ty);
        write_u64(&mut buf, 0);
    }
    buf.extend_from_slice(&[0u8; 512]);
    buf
}

#[test]
fn tensors_are_checked_one_by_one() {
    assert!(matches!(
        GGUFFile::from_bytes(&tensor_only("t", &[4], 0, 2)),
        Err(GGUFError::DuplicateTensor(_))
    ));
    assert!(matches!(
        GGUFFile::from_bytes(&tensor_only("t", &[u64::MAX, 4], 0, 1)),
        Err(GGUFError::ElementCountOverflow(_))
    ));
    assert!(matches!(
        GGUFFile::from_bytes(&tensor_only("t", &[100], 12, 1)),
        Err(GGUFError::PartialBlock { .. })
    ));
    let bytes = tensor_only("t", &[7], 99, 1);
    let file = GGUFFile::from_bytes(&bytes).unwrap();
    assert_eq!(
        file.get_tensor_info("t").unwrap().tensor_type,
        GGMLType::Unknown(99)
    );
    assert_eq!(file.get_tensor_info("t").unwrap().size_bytes, None);
}

#[test]
fn values_of_the_header_are_read() {
    let mut buf = header(0, 3);
    write_string(&mut buf, "general.architecture");
    write_u32(&mut buf, 8);
    write_string(&mut buf, "qwen2");
    write_string(&mut buf, "qwen2.attention.head_count");
    write_u32(&mut buf, 10);
    write_u64(&mut buf, 12);
    write_string(&mut buf, "flags");
    write_u32(&mut buf, 9);
    write_u32(&mut buf, 7);
    write_u64(&mut buf, 2);
    buf.extend_from_slice(&[1, 0]);
    while buf.len() % 32 != 0 {
        buf.push(0);
    }
    let file = GGUFFile::from_bytes(&buf).unwrap();
    assert_eq!(file.head_count(), Some(12));
    assert_eq!(file.head_count_kv(), None);
    assert_eq!(file.arch_u64("attention.head_count"), Some(12));
    let flags = file.value("flags").unwrap().as_array().unwrap();
    assert_eq!(flags.len(), 2);
    assert_eq!(flags[0].as_bool(), Some(true));
    assert_eq!(GGUFValue::Int32(-1).as_u64(), None);
    assert_eq!(GGUFValue::Int8(5).as_u64(), Some(5));
    assert_eq!(GGUFValue::String("a".to_string()).as_str(), Some("a"));
}

#[test]
fn values_are_aligned_upwards() {
    assert_eq!(align_up(0, 32), Some(0));
    assert_eq!(align_up(33, 32), Some(64));
    assert_eq!(align_up(u64::MAX, 32), None);
    assert_eq!(min_value_bytes(8), Some(8));
    assert_eq!(min_value_bytes(99), None);
}
