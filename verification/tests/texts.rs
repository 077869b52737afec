use fastembed::batch::{
    encode_batch, encodings_to_batch, try_encode_batch, EncodedBatch, TextInput, TokenEncoding,
};
use fastembed::charsmap::is_map;
use fastembed::error::Error;
use fastembed::expression::{check_expression, check_solid};
use fastembed::growth::{check_normalizer, check_pre_tokenizer};
use fastembed::json::{document, Json};
use fastembed::tensor::Matrix;
use fastembed::tokenizer::{
    load_tokenizer, read_setup, read_special_tokens, try_load_tokenizer, TokenizerFiles,
};

fn minimal_tokenizer_bytes() -> Vec<u8> {
    // Minimal valid tokenizer.json (word-level model with a tiny vocab).
    br#"{
        "version": "1.0",
        "truncation": null,
        "padding": null,
        "added_tokens": [],
        "normalizer": null,
        "pre_tokenizer": {"type": "Whitespace"},
        "post_processor": null,
        "decoder": null,
        "model": {
            "type": "WordLevel",
            "unk_token": "[UNK]",
            "vocab": {"[UNK]": 0, "[PAD]": 1, "hello": 2}
        }
    }"#
    .to_vec()
}

fn tokenizer_files(tokenizer_config: &str) -> TokenizerFiles {
    TokenizerFiles {
        tokenizer_file: minimal_tokenizer_bytes(),
        config_file: br#"{"pad_token_id": 0}"#.to_vec(),
        special_tokens_map_file: b"{}".to_vec(),
        tokenizer_config_file: tokenizer_config.as_bytes().to_vec(),
    }
}

/// A tokenizer whose post-processor adds two tokens to a text and three to a pair.
fn bert_files(max_length: usize) -> TokenizerFiles {
    let mut files = tokenizer_files(&format!(
        r#"{{"model_max_length": {max_length}, "pad_token": "[PAD]"}}"#
    ));
    let text = String::from_utf8(files.tokenizer_file).unwrap().replace(
        r#""post_processor": null"#,
        r#""post_processor": {"type": "BertProcessing", "sep": ["[SEP]", 4], "cls": ["[CLS]", 3]}"#,
    );
    files.tokenizer_file = text.into_bytes();
    files
}

fn single(text: &str) -> TextInput {
    TextInput::Single(text.to_string())
}

fn row(matrix: &Matrix, i: usize) -> Vec<i64> {
    matrix.data[i * matrix.columns..(i + 1) * matrix.columns].to_vec()
}

#[test]
fn load_tokenizer_ok_with_complete_config() {
    let files = tokenizer_files(r#"{"model_max_length": 512, "pad_token": "[PAD]"}"#);
    assert!(load_tokenizer(files, 512).is_ok());
}

#[test]
fn load_tokenizer_errors_on_missing_pad_token() {
    let files = tokenizer_files(r#"{"model_max_length": 512}"#);
    let err = load_tokenizer(files, 512).unwrap_err();
    assert!(
        err.to_string().contains("pad_token"),
        "error message was: {}",
        err.to_string()
    );
}

#[test]
fn load_tokenizer_errors_on_missing_model_max_length() {
    let files = tokenizer_files(r#"{"pad_token": "[PAD]"}"#);
    let err = load_tokenizer(files, 512).unwrap_err();
    assert!(
        err.to_string().contains("model_max_length"),
        "error message was: {}",
        err.to_string()
    );
}

#[test]
fn load_tokenizer_accepts_added_token_object_as_pad_token() {
    let files = tokenizer_files(
        r#"{"model_max_length": 512, "pad_token": {"__type": "AddedToken", "content": "[PAD]", "lstrip": false}}"#,
    );
    let tokenizer = load_tokenizer(files, 512).unwrap();
    assert_eq!(tokenizer.get_padding().unwrap().pad_token, "[PAD]");
}

#[test]
fn load_tokenizer_resolves_pad_id_from_vocab_when_config_lacks_it() {
    let mut files = tokenizer_files(r#"{"model_max_length": 512, "pad_token": "[PAD]"}"#);
    files.config_file = b"{}".to_vec();
    let tokenizer = load_tokenizer(files, 512).unwrap();
    assert_eq!(tokenizer.get_padding().unwrap().pad_id, 1);
}

#[test]
fn encode_batch_pads_to_longest_and_masks_padding() {
    let files = tokenizer_files(r#"{"model_max_length": 512, "pad_token": "[PAD]"}"#);
    let tokenizer = load_tokenizer(files, 512).unwrap();
    let batch = encode_batch(&tokenizer, vec![single("hello"), single("hello hello")]).unwrap();
    assert_eq!((batch.input_ids.rows, batch.input_ids.columns), (2, 2));
    assert_eq!(row(&batch.attention_mask, 0), vec![1, 0]);
    assert_eq!(row(&batch.attention_mask, 1), vec![1, 1]);
    assert_eq!(row(&batch.input_ids, 0)[1], 0);
    assert_eq!(row(&batch.input_ids, 1), vec![2, 2]);
    assert!(encode_batch(&tokenizer, vec![]).is_err());
}

#[test]
fn an_empty_batch_has_no_tokens() {
    let files = tokenizer_files(r#"{"model_max_length": 512, "pad_token": "[PAD]"}"#);
    let tokenizer = load_tokenizer(files, 512).unwrap();
    let error = encode_batch(&tokenizer, vec![]).unwrap_err();
    assert_eq!(
        error.to_string(),
        "Tokenizer returned empty encodings for the batch"
    );
}

#[test]
fn an_unknown_pad_token_has_the_first_id() {
    let mut files = tokenizer_files(r#"{"model_max_length": 512, "pad_token": "[FILL]"}"#);
    files.config_file = b"{}".to_vec();
    let tokenizer = load_tokenizer(files, 512).unwrap();
    assert_eq!(tokenizer.get_padding().unwrap().pad_id, 0);
    assert_eq!(tokenizer.get_padding().unwrap().pad_token, "[FILL]");
}

#[test]
fn inputs_are_truncated_to_the_smaller_limit() {
    for (model, wanted, expected) in [
        ("512", 4, 4),
        ("3", 4, 3),
        ("1000000000000000019884624838656", 5, 5),
        ("2.9", 7, 2),
        ("-1", 7, 0),
    ] {
        let files = tokenizer_files(&format!(
            r#"{{"model_max_length": {model}, "pad_token": "[PAD]"}}"#
        ));
        let tokenizer = load_tokenizer(files, wanted).unwrap();
        let truncation = tokenizer.get_truncation().unwrap();
        assert_eq!((truncation.max_length, truncation.stride), (expected, 0));
        let batch = encode_batch(&tokenizer, vec![single("hello ".repeat(9).as_str())]).unwrap();
        assert_eq!(batch.input_ids.columns, expected);
    }
}

#[test]
fn files_that_cannot_be_read_are_named() {
    let files = || tokenizer_files(r#"{"model_max_length": 512, "pad_token": "[PAD]"}"#);
    let message = |files: TokenizerFiles| match load_tokenizer(files, 512) {
        Err(Error::Io(text)) => text,
        other => panic!("unexpected: {:?}", other.is_ok()),
    };
    let expected = |name: &str| {
        format!(
            "Error building TokenizerFiles for UserDefinedEmbeddingModel. Could not read {name} file."
        )
    };
    let mut broken = files();
    broken.config_file = b"x".to_vec();
    broken.special_tokens_map_file = b"x".to_vec();
    assert_eq!(message(broken), expected("config.json"));
    let mut broken = files();
    broken.special_tokens_map_file = b"x".to_vec();
    broken.tokenizer_config_file = b"x".to_vec();
    assert_eq!(message(broken), expected("special_tokens_map.json"));
    let mut broken = files();
    broken.tokenizer_config_file = b"x".to_vec();
    broken.tokenizer_file = b"x".to_vec();
    assert_eq!(message(broken), expected("tokenizer_config.json"));
    let mut broken = files();
    broken.tokenizer_file = b"x".to_vec();
    broken.tokenizer_config_file = b"{}".to_vec();
    assert_eq!(message(broken), expected("tokenizer.json"));
}

#[test]
fn special_tokens_are_added() {
    let mut files = tokenizer_files(r#"{"model_max_length": 512, "pad_token": "[PAD]"}"#);
    files.special_tokens_map_file = br#"{
        "cls_token": "[CLS]",
        "mask_token": {"content": "<mask>", "single_word": false, "lstrip": true,
            "rstrip": false, "normalized": false},
        "sep_token": {"content": "[SEP]"},
        "extra": ["[X]"]
    }"#
    .to_vec();
    let tokenizer = load_tokenizer(files, 512).unwrap();
    let added = tokenizer.get_added_tokens_decoder();
    let mut tokens: Vec<(String, bool, bool, bool)> = added
        .values()
        .map(|token| {
            (
                token.content.clone(),
                token.lstrip,
                token.normalized,
                token.special,
            )
        })
        .collect();
    tokens.sort();
    assert_eq!(
        tokens,
        vec![
            ("<mask>".to_string(), true, false, true),
            ("[CLS]".to_string(), false, true, true)
        ]
    );
    assert!(tokenizer.token_to_id("[CLS]").is_some());
    assert!(tokenizer.token_to_id("[SEP]").is_none());
}

#[test]
fn special_tokens_are_read_in_order() {
    let map: serde_json::Value = serde_json::from_str(
        r#"{"a": "one", "b": 2, "c": {"content": "three", "single_word": true, "lstrip": false,
            "rstrip": true, "normalized": true}, "d": {"content": "four"}}"#,
    )
    .unwrap();
    let tokens = read_special_tokens(&document(&map));
    assert_eq!(tokens.len(), 2);
    assert_eq!(tokens[0].content, "one");
    assert!(tokens[0].normalized && !tokens[0].single_word);
    assert!(!tokens[0].lstrip && !tokens[0].rstrip);
    assert_eq!(tokens[1].content, "three");
    assert!(tokens[1].single_word && tokens[1].rstrip && !tokens[1].lstrip);
    assert!(read_special_tokens(&Json::Text("one".to_string())).is_empty());
}

#[test]
fn setups_are_read_from_the_three_files() {
    let json = |text: &str| document(&serde_json::from_str(text).unwrap());
    let setup = read_setup(
        &json(r#"{"pad_token_id": 4294967298}"#),
        &json(r#"{"x": "<x>"}"#),
        &json(r#"{"model_max_length": 128, "pad_token": "<pad>"}"#),
        256,
    )
    .unwrap();
    assert_eq!(setup.limit, 128);
    assert_eq!(setup.pad_token, "<pad>");
    assert_eq!(setup.pad_id, Some(2));
    assert_eq!(setup.special_tokens.len(), 1);
    let error = read_setup(&json("{}"), &json("{}"), &json("{}"), 256).unwrap_err();
    assert_eq!(
        error.to_string(),
        "Invalid tokenizer configuration: \
         tokenizer_config.json is missing a numeric `model_max_length` field"
    );
    let error =
        read_setup(&json("{}"), &json("{}"), &json(r#"{"model_max_length": 1}"#), 256).unwrap_err();
    assert_eq!(
        error.to_string(),
        "Invalid tokenizer configuration: \
         tokenizer_config.json is missing a string `pad_token` field"
    );
}

#[test]
fn limits_must_leave_room_for_the_post_processor() {
    assert!(try_load_tokenizer(bert_files(1), 512).is_none());
    assert!(try_load_tokenizer(bert_files(512), 1).is_none());
    let tokenizer = try_load_tokenizer(bert_files(512), 2).unwrap().unwrap();
    let batch = try_encode_batch(&tokenizer, vec![single("hello")])
        .unwrap()
        .unwrap();
    assert_eq!(row(&batch.input_ids, 0), vec![3, 4]);
    let pair = TextInput::Pair("hello".to_string(), "hello".to_string());
    assert!(try_encode_batch(&tokenizer, vec![pair]).is_none());
    // A file that cannot be read is an error all the same.
    let mut broken = bert_files(1);
    broken.config_file = b"x".to_vec();
    assert!(try_load_tokenizer(broken, 512).unwrap().is_err());
}

#[test]
fn pairs_have_two_types() {
    let tokenizer = load_tokenizer(bert_files(512), 512).unwrap();
    let inputs = vec![
        TextInput::Pair("hello".to_string(), "hello hello".to_string()),
        single("hello"),
    ];
    let batch = encode_batch(&tokenizer, inputs).unwrap();
    assert_eq!(row(&batch.input_ids, 0), vec![3, 2, 4, 2, 2, 4]);
    assert_eq!(row(&batch.token_type_ids, 0), vec![0, 0, 0, 1, 1, 1]);
    assert_eq!(row(&batch.input_ids, 1), vec![3, 2, 4, 0, 0, 0]);
    assert_eq!(row(&batch.attention_mask, 1), vec![1, 1, 1, 0, 0, 0]);
    assert_eq!(row(&batch.token_type_ids, 1), vec![0; 6]);
}

#[test]
fn parts_of_inputs_must_be_longer_than_what_they_share() {
    let mut tokenizer = load_tokenizer(bert_files(512), 512).unwrap();
    let mut set = |max_length: usize, stride: usize, strategy: tokenizers::TruncationStrategy| {
        let params = tokenizers::TruncationParams {
            max_length,
            stride,
            strategy,
            ..Default::default()
        };
        tokenizer.with_truncation(Some(params)).unwrap();
        let long = "hello ".repeat(30);
        let pair = TextInput::Pair(long.clone(), long.clone());
        (
            try_encode_batch(&tokenizer, vec![single(&long)]).map(|batch| batch.is_ok()),
            try_encode_batch(&tokenizer, vec![pair]).map(|batch| batch.is_ok()),
        )
    };
    let longest = tokenizers::TruncationStrategy::LongestFirst;
    let second = tokenizers::TruncationStrategy::OnlySecond;
    assert_eq!(set(10, 4, longest), (Some(true), None));
    assert_eq!(set(10, 2, longest), (Some(true), Some(true)));
    assert_eq!(set(10, 8, longest), (None, None));
    assert_eq!(set(10, 1, second), (Some(false), None));
    assert_eq!(set(10, 0, second), (Some(false), Some(false)));
    assert_eq!(set(3, 0, longest), (Some(true), Some(true)));
    assert_eq!(set(2, 0, longest), (Some(true), None));
    tokenizer.with_truncation(None).unwrap();
    assert!(try_encode_batch(&tokenizer, vec![single("hello")]).unwrap().is_ok());
}

/// Files whose `tokenizer.json` differs in one place.
fn changed_files(from: &str, to: &str) -> TokenizerFiles {
    let mut files = tokenizer_files(r#"{"model_max_length": 512, "pad_token": "[PAD]"}"#);
    let text = String::from_utf8(files.tokenizer_file).unwrap();
    assert!(text.contains(from));
    files.tokenizer_file = text.replace(from, to).into_bytes();
    files
}

/// Files of a tokenizer that merges pairs.
fn merging_files(model: &str) -> TokenizerFiles {
    let mut files = tokenizer_files(r#"{"model_max_length": 512, "pad_token": "a"}"#);
    files.tokenizer_file = format!(r#"{{"version": "1.0", "model": {model}}}"#).into_bytes();
    files
}

#[test]
fn merges_must_fit_the_longest_token() {
    let vocab = r#""vocab": {"a": 0, "b": 1, "ab": 2}"#;
    for merges in [r#"["a b"]"#, r#"[["a", "b"]]"#, r##"["#version: 1", "a b"]"##] {
        for kind in [r#""type": "BPE", "#, ""] {
            let model = format!(r#"{{{kind}{vocab}, "merges": {merges}}}"#);
            let tokenizer = try_load_tokenizer(merging_files(&model), 512).unwrap().unwrap();
            let batch = try_encode_batch(&tokenizer, vec![single("ab")]).unwrap().unwrap();
            assert_eq!(batch.input_ids.data, vec![2]);
        }
    }
    for merges in [r#"["ab a"]"#, r#"[["a", "ab"]]"#, r#"["a b", "ab ab"]"#] {
        let model = format!(r#"{{"type": "BPE", {vocab}, "merges": {merges}}}"#);
        assert!(try_load_tokenizer(merging_files(&model), 512).is_none());
        let model = format!(r#"{{{vocab}, "merges": {merges}}}"#);
        assert!(try_load_tokenizer(merging_files(&model), 512).is_none());
    }
    // What is not in the vocabulary is an error.
    let model = format!(r#"{{"type": "BPE", {vocab}, "merges": ["abc def"]}}"#);
    assert!(try_load_tokenizer(merging_files(&model), 512).unwrap().is_err());
}

#[test]
fn merges_must_have_the_prefix() {
    let load = |vocab: &str, prefix: &str| {
        let model = format!(
            r#"{{"type": "BPE", "vocab": {{{vocab}}}, "merges": [["a", "xy"]],
                "continuing_subword_prefix": "{prefix}"}}"#
        );
        try_load_tokenizer(merging_files(&model), 512)
    };
    assert!(load(r#""a": 0, "xy": 1, "ay": 2"#, "x").unwrap().is_ok());
    assert!(load(r#""a": 0, "xy": 1, "ay": 2"#, "xyz").is_none());
    let model = |prefix: &str| {
        format!(
            r#"{{"type": "BPE", "vocab": {{"a": 0, "é!": 1, "a!": 2}}, "merges": ["a é!"],
                "continuing_subword_prefix": "{prefix}"}}"#
        )
    };
    assert!(try_load_tokenizer(merging_files(&model("é")), 512).unwrap().is_ok());
    assert!(try_load_tokenizer(merging_files(&model("x")), 512).is_none());
}

#[test]
fn ids_must_be_left_for_special_tokens() {
    let with_id = |id: &str| {
        let mut files = changed_files(r#""hello": 2"#, &format!(r#""hello": {id}"#));
        files.special_tokens_map_file = br#"{"a": "<a>", "b": "<b>"}"#.to_vec();
        files
    };
    assert!(try_load_tokenizer(with_id("4294967295"), 512).is_none());
    assert!(try_load_tokenizer(with_id("4294967293"), 512).is_none());
    let tokenizer = try_load_tokenizer(with_id("4294967292"), 512).unwrap().unwrap();
    assert_eq!(tokenizer.token_to_id("hello"), Some(4294967292));
    assert_eq!(tokenizer.token_to_id("<b>"), Some(4));
}

#[test]
fn descriptions_name_their_model_once() {
    let twice = changed_files(
        r#""model": {"#,
        r#""model": {"type": "WordLevel", "unk_token": "a", "vocab": {}}, "model": {"#,
    );
    assert!(try_load_tokenizer(twice, 512).is_none());
    let again = changed_files(
        r#""model": {"#,
        r#""\u006dode\u006C": {"type": "WordLevel", "unk_token": "a", "vocab": {}}, "model": {"#,
    );
    assert!(try_load_tokenizer(again, 512).is_none());
    let twice = changed_files(
        r#""normalizer": null"#,
        r#""normalizer": null, "norm\u0061lizer": {"type": "Lowercase"}"#,
    );
    assert!(try_load_tokenizer(twice, 512).is_none());
    let escaped = changed_files(r#""version""#, r#""v\u0065rsion""#);
    assert!(try_load_tokenizer(escaped, 512).unwrap().is_ok());
    let escaped = changed_files(r#""model""#, r#""m\u006fdel""#);
    assert!(try_load_tokenizer(escaped, 512).unwrap().is_ok());
    let value = changed_files(r#""unk_token": "[UNK]""#, r#""unk_token": "model""#);
    assert!(try_load_tokenizer(value, 512).unwrap().is_ok());
    let value = changed_files(r#""version": "1.0""#, r#""version": "model\n""#);
    assert!(try_load_tokenizer(value, 512).unwrap().is_err());
    let mut none = changed_files("1.0", "1.0");
    none.tokenizer_file = b"{}".to_vec();
    assert!(try_load_tokenizer(none, 512).unwrap().is_err());
    let mut cut = changed_files("1.0", "1.0");
    cut.tokenizer_file.pop();
    assert!(try_load_tokenizer(cut, 512).unwrap().is_err());
}

#[test]
fn descriptions_may_hold_what_no_document_holds() {
    let truncation = |note: &str| {
        changed_files(
            r#""truncation": null"#,
            &format!(
                r#""truncation": {{"direction": "Right", "max_length": 9, "stride": 0,
                    "strategy": "LongestFirst", "note": {note}}}"#
            ),
        )
    };
    assert!(try_load_tokenizer(truncation("1"), 512).unwrap().is_ok());
    assert!(try_load_tokenizer(truncation("1e999"), 512).is_none());
    assert!(try_load_tokenizer(truncation("1e"), 512).unwrap().is_err());
    let mut bytes = truncation("1");
    bytes.tokenizer_file.push(0xff);
    assert!(try_load_tokenizer(bytes, 512).is_none());
}

/// The expression with which texts are often split.
const SPLIT: &str = r"'s|'t|'re|'ve|'m|'ll|'d| ?\p{L}+| ?\p{N}+| ?[^\s\p{L}\p{N}]+|\s+(?!\S)|\s+";

#[test]
fn expressions_are_bounded() {
    for expression in [
        "",
        " ",
        r"\s+",
        " {2,}",
        r"\d{1,3}",
        r"[^\r\n\p{L}\p{N}]?\p{L}+",
        r"[A-Za-z_\-\]]*?",
        r"(?i:'s|'t|'re|'ve|'m|'ll|'d)|\s*[\r\n]+",
        r"^(?:ab|cd)?e$",
        r"a++b",
        "é+",
        SPLIT,
    ] {
        assert!(check_expression(expression, 10_000), "{expression}");
    }
    for expression in [
        "(a+)+$",
        "(a|b)*",
        "(a{1,9}){1,9}",
        r"(a)\1",
        r"\k<n>",
        "(?<n>a)",
        "(?<=a)b",
        "(?i)a",
        "(?i:a+)",
        "(?i:[a])",
        "((a))",
        "a**",
        "a{2}{3}",
        "a{2}+",
        "a{3,2}",
        "a{,2}",
        "{2}",
        "*a",
        "(*FAIL)",
        "(a",
        "a)",
        "[]a]",
        "[[a]]",
        "[a",
        "a\\",
        r"\x41",
        r"\p{",
        r"\pL",
        "a{2",
    ] {
        assert!(!check_expression(expression, 1), "{expression}");
    }
    // What comes after a repetition is tried as often as there are characters, at most.
    assert!(check_expression("a*b", 1_000_000));
    assert!(!check_expression("a*b", 4_000_000));
    assert!(check_expression("a*b*c", 1_000));
    assert!(!check_expression("a*b*c", 2_000));
    assert!(check_expression("a*b*c*d", 100));
    assert!(!check_expression("a*b*c*d", 1_000));
    assert!(check_expression("a*", u64::MAX));
    assert!(check_expression("a{1,100}b{1,100}c", u64::MAX));
}

#[test]
fn expressions_are_put_to_texts() {
    let pattern = |expression: &str| {
        Json::Object(vec![("Regex".to_string(), Json::Text(expression.to_string()))])
    };
    let split = |expression: &str| {
        Json::Object(vec![
            ("type".to_string(), Json::Text("Split".to_string())),
            ("pattern".to_string(), pattern(expression)),
        ])
    };
    let of_type = |name: &str| {
        Json::Object(vec![("type".to_string(), Json::Text(name.to_string()))])
    };
    let text = "a".repeat(1_000);
    assert!(check_pre_tokenizer(&Json::Null, &split("a*b*c"), &text));
    assert!(check_pre_tokenizer(&of_type("Strip"), &split("a*b*c"), &text));
    assert!(!check_pre_tokenizer(&of_type("NFD"), &split("a*b*c"), &text));
    assert!(!check_pre_tokenizer(&of_type("NFKD"), &split("a*b*c"), &text));
    let both = Json::Array(vec![of_type("ByteLevel"), split("a*b*c")]);
    assert!(!check_pre_tokenizer(&Json::Null, &both, &text));
    assert!(check_pre_tokenizer(&Json::Null, &both, "a"));
    assert!(check_normalizer(&split("a*b*c"), &text));
    assert!(!check_normalizer(&split("a*b*c*d"), &text));
    assert!(check_normalizer(&Json::Null, &text));
    assert!(check_normalizer(&Json::Array(vec![Json::Null, pattern("a+")]), &text));
    assert!(!check_normalizer(&Json::Array(vec![Json::Null, pattern("(a+)+")]), &text));
}

#[test]
fn expressions_that_retry_too_often_are_not_run() {
    let split = |expression: &str| {
        let expression = expression.replace('\\', r"\\");
        changed_files(
            r#"{"type": "Whitespace"}"#,
            &format!(
                r#"{{"type": "Split", "pattern": {{"Regex": "{expression}"}},
                    "behavior": "Removed", "invert": false}}"#
            ),
        )
    };
    let encode = |expression: &str, text: &str| {
        let tokenizer = try_load_tokenizer(split(expression), 512).unwrap().unwrap();
        try_encode_batch(&tokenizer, vec![single(text)])
            .map(|batch| batch.unwrap().input_ids.data)
    };
    let endless = format!("{}b", "a".repeat(40));
    assert_eq!(encode("(a+)+$", &endless), None);
    assert_eq!(encode("a+$", &endless), Some(vec![0]));
    assert_eq!(encode(r"\s+", "hello \t hello"), Some(vec![2, 2]));
    // All that is admitted can be run.
    let many = "a".repeat(1_000);
    assert_eq!(encode("a*b*c", &many), Some(vec![0]));
    assert_eq!(encode("a*?b*?c", &many), Some(vec![0]));
    assert_eq!(encode("a{1,99}a{1,99}a{2,}?b", &many[..200]), Some(vec![0]));
    assert_eq!(encode("(?i:ss|st|ff)?x", "ssstffx"), Some(vec![0]));
    let pair = |expression: &str, first: &str, second: &str| {
        let tokenizer = try_load_tokenizer(split(expression), 512).unwrap().unwrap();
        let input = TextInput::Pair(first.to_string(), second.to_string());
        try_encode_batch(&tokenizer, vec![input]).is_some()
    };
    let long = "a".repeat(3_000);
    assert!(pair("a*b*c", "a", "b"));
    assert!(!pair("a*b*c", &long, "b"));
    assert!(!pair("a*b*c", "a", &long));

    let replace = |expression: &str, content: &str| {
        let expression = expression.replace('\\', r"\\");
        changed_files(
            r#""normalizer": null"#,
            &format!(
                r#""normalizer": {{"type": "Replace", "pattern": {{"Regex": "{expression}"}},
                    "content": "{content}"}}"#
            ),
        )
    };
    let tokenizer = try_load_tokenizer(replace("x+", "hello"), 512).unwrap().unwrap();
    let batch = try_encode_batch(&tokenizer, vec![single("xxx x")]).unwrap().unwrap();
    assert_eq!(batch.input_ids.data, vec![2, 2]);
    let tokenizer = try_load_tokenizer(replace("(a+)+$", ""), 512).unwrap().unwrap();
    assert!(try_encode_batch(&tokenizer, vec![single(&endless)]).is_none());
    // Tokens are normalized as they are added.
    let mut files = replace("(a+)+$", "");
    files.special_tokens_map_file = format!(r#"{{"a": "{endless}"}}"#).into_bytes();
    assert!(try_load_tokenizer(files, 512).is_none());
    let mut files = replace("a+", "");
    files.special_tokens_map_file = format!(r#"{{"a": "{endless}"}}"#).into_bytes();
    assert!(try_load_tokenizer(files, 512).unwrap().is_ok());
    let added = |expression: &str| {
        let mut files = replace(expression, "");
        let text = String::from_utf8(files.tokenizer_file).unwrap().replace(
            r#""added_tokens": []"#,
            &format!(
                r#""added_tokens": [{{"id": 3, "content": "{endless}", "single_word": false,
                    "lstrip": false, "rstrip": false, "normalized": true, "special": true}}]"#
            ),
        );
        files.tokenizer_file = text.into_bytes();
        try_load_tokenizer(files, 512).map(|tokenizer| tokenizer.is_ok())
    };
    assert_eq!(added("(a+)+$"), None);
    assert_eq!(added("a+"), Some(true));
}

#[test]
fn expressions_match_something() {
    for expression in ["a", "a+", "ab?", r"\s{2,}", "(?:a|b)c*", "a|b+", "(a|b)", "^a", "(?!b)a", "é"] {
        assert!(check_solid(expression), "{expression}");
    }
    for expression in
        ["", "a*", "a?", "a|", "|a", "a|b*", "(a|)", "(?:a*|b)", "(a)?", "^", r"\b", "(?=a)", "a{0,2}", "a{2}?", "(a", "é?", "漢*", "(?:é)?"]
    {
        assert!(!check_solid(expression), "{expression}");
    }
}

#[test]
fn normalizers_put_nothing_before_a_text() {
    let encode = |normalizer: &str| {
        let files = changed_files(
            r#""normalizer": null"#,
            &format!(
                r#""normalizer": {{"type": "Sequence", "normalizers": [
                    {normalizer}, {{"type": "Lowercase"}}]}}"#
            ),
        );
        let tokenizer = try_load_tokenizer(files, 512)?.unwrap();
        try_encode_batch(&tokenizer, vec![single("hello")]).map(|b| b.unwrap().input_ids.data)
    };
    let replace = |pattern: &str, content: &str| {
        format!(r#"{{"type": "Replace", "pattern": {pattern}, "content": "{content}"}}"#)
    };
    assert_eq!(encode(&replace(r#"{"Regex": "x+"}"#, "y")), Some(vec![2]));
    assert_eq!(encode(&replace(r#"{"Regex": "x*"}"#, "y")), None);
    assert_eq!(encode(&replace(r#"{"Regex": "x*"}"#, "")), Some(vec![2]));
    assert_eq!(encode(&replace(r#"{"String": "e"}"#, "e")), Some(vec![2]));
    assert_eq!(encode(&replace(r#"{"String": ""}"#, "y")), None);
    assert_eq!(encode(r#"{"type": "Prepend", "prepend": "h"}"#), Some(vec![0]));
    assert_eq!(encode(r#"{"type": "Prepend", "prepend": ""}"#), None);
    // Normalizers are told from each other by the names of what they have.
    assert_eq!(encode(r#"{"pattern": {"String": "hello"}, "content": "x"}"#), Some(vec![0]));
    assert_eq!(encode(r#"[{"String": "hello"}, "x"]"#), None);
    assert_eq!(encode(r#"["x"]"#), None);
    assert_eq!(encode(r#"{"type": "Split", "prepend": "h"}"#), None);
}

#[test]
fn inputs_are_filled_up_within_memory() {
    let files = changed_files("1.0", "1.0");
    let mut tokenizer = try_load_tokenizer(files, 512).unwrap().unwrap();
    let mut columns = |length: usize, multiple: Option<usize>| {
        tokenizer.with_padding(Some(tokenizers::PaddingParams {
            strategy: tokenizers::PaddingStrategy::Fixed(length),
            pad_to_multiple_of: multiple,
            ..Default::default()
        }));
        try_encode_batch(&tokenizer, vec![single("hello")]).map(|b| b.unwrap().input_ids.columns)
    };
    assert_eq!(columns(4, None), Some(4));
    assert_eq!(columns(4, Some(3)), Some(6));
    assert_eq!(columns(usize::MAX, None), None);
    assert_eq!(columns(4, Some(usize::MAX)), None);
}

#[test]
fn common_expressions_split_texts() {
    let expression = SPLIT.replace('\\', r"\\");
    let files = changed_files(
        r#"{"type": "Whitespace"}"#,
        &format!(
            r#"{{"type": "Sequence", "pretokenizers": [
                {{"type": "Split", "pattern": {{"Regex": "{expression}"}},
                    "behavior": "Isolated", "invert": false}},
                {{"type": "ByteLevel", "add_prefix_space": false, "trim_offsets": true,
                    "use_regex": false}}]}}"#
        ),
    );
    let tokenizer = try_load_tokenizer(files, 4096).unwrap().unwrap();
    let text = format!("hello{}hello", " ".repeat(10_000));
    let batch = try_encode_batch(&tokenizer, vec![single(&text)]).unwrap().unwrap();
    assert_eq!(batch.input_ids.data, vec![2, 0, 0]);
}

/// A text in Base64.
fn base64(bytes: &[u8]) -> String {
    let alphabet = b"ABCDEFGHIJKLMNOPQRSTUVWXYZabcdefghijklmnopqrstuvwxyz0123456789+/";
    let mut text = String::new();
    for group in bytes.chunks(3) {
        let mut number = 0u32;
        for i in 0..3 {
            number = number * 256 + u32::from(*group.get(i).unwrap_or(&0));
        }
        for i in 0..4 {
            if i <= group.len() {
                text.push(alphabet[(number >> (18 - 6 * i)) as usize % 64] as char);
            } else {
                text.push('=');
            }
        }
    }
    text
}

/// A map of 256 units that replaces `a` with the text at `place`.
fn replacing(place: u32, texts: &[u8]) -> Vec<u8> {
    let mut units = [0u32; 256];
    units[97] = 97 | 1 << 8 | 1 << 10;
    units[96] = 1 << 31 | place;
    let mut map = 1024u32.to_le_bytes().to_vec();
    for unit in units {
        map.extend_from_slice(&unit.to_le_bytes());
    }
    map.extend_from_slice(texts);
    map
}

#[test]
fn maps_must_be_complete() {
    assert!(is_map(&base64(&replacing(0, b"hello\0"))));
    assert!(is_map(&base64(&replacing(6, b"hello\0"))));
    assert!(!is_map(&base64(&replacing(7, b"hello\0"))));
    assert!(is_map(&base64(&replacing(2, "éh\0".as_bytes()))));
    assert!(!is_map(&base64(&replacing(1, "éh\0".as_bytes()))));
    assert!(!is_map(&base64(&replacing(0, &[0xff]))));
    assert!(!is_map(&base64(&replacing(0, b"")[..1000])));
    assert!(!is_map(&base64(&replacing(0, b"")[..3])));
    assert!(!is_map(&base64(&[0; 8])));
    assert!(!is_map(""));
    // A unit that leads beyond the others.
    let mut beyond = replacing(0, b"hello\0");
    beyond[4..8].copy_from_slice(&(1u32 << 18).to_le_bytes());
    assert!(!is_map(&base64(&beyond)));
    let text = base64(&replacing(0, b"x\0"));
    assert!(is_map(&text));
    assert!(!is_map(&text[..text.len() - 1]));
    assert!(!is_map(&text.replacen('A', "!", 1)));
    assert!(text.ends_with("AA==") || text.ends_with('=') || is_map(&text));
}

#[test]
fn precompiled_normalizers_replace_texts() {
    let load = |map: &str| {
        let normalizer = format!(r#"{{"type": "Precompiled", "precompiled_charsmap": "{map}"}}"#);
        let files = changed_files(r#""normalizer": null"#, &format!(r#""normalizer": {normalizer}"#));
        let nested = changed_files(
            r#""normalizer": null"#,
            &format!(r#""normalizer": {{"type": "Sequence", "normalizers": [{normalizer}]}}"#),
        );
        (try_load_tokenizer(files, 512), try_load_tokenizer(nested, 512))
    };
    let (alone, nested) = load(&base64(&replacing(0, b"hello\0")));
    for tokenizer in [alone, nested] {
        let tokenizer = tokenizer.unwrap().unwrap();
        let batch = try_encode_batch(&tokenizer, vec![single("a x hello")]).unwrap().unwrap();
        assert_eq!(batch.input_ids.data, vec![2, 0, 2]);
    }
    for map in [String::new(), "!".to_string(), base64(&replacing(9, b""))] {
        let (alone, nested) = load(&map);
        assert!(alone.is_none() && nested.is_none());
    }
    let missing = changed_files(r#""normalizer": null"#, r#""normalizer": {"type": "Precompiled"}"#);
    assert!(try_load_tokenizer(missing, 512).is_none());
}

#[test]
fn templates_must_define_their_tokens() {
    let cls = r#"{"SpecialToken": {"id": "[CLS]", "type_id": 0}}"#;
    let a = r#"{"Sequence": {"id": "A", "type_id": 0}}"#;
    let b = r#"{"Sequence": {"id": "B", "type_id": 1}}"#;
    let template = |single: &str, pair: &str, tokens: &str| {
        format!(
            r#"{{"type": "TemplateProcessing", "single": [{single}], "pair": [{pair}],
                "special_tokens": {{{tokens}}}}}"#
        )
    };
    let encode = |processor: &str, inputs: Vec<TextInput>| {
        let files = changed_files(
            r#""post_processor": null"#,
            &format!(r#""post_processor": {processor}"#),
        );
        let tokenizer = try_load_tokenizer(files, 512).unwrap().unwrap();
        try_encode_batch(&tokenizer, inputs).map(|batch| batch.unwrap().input_ids.data)
    };
    let token = r#""[CLS]": {"id": "[CLS]", "ids": [7], "tokens": ["[CLS]"]}"#;
    let good = template(&format!("{cls}, {a}"), &format!("{a}, {cls}, {b}"), token);
    let pair = || TextInput::Pair("hello".to_string(), "hello hello".to_string());
    assert_eq!(encode(&good, vec![single("hello")]), Some(vec![7, 2]));
    assert_eq!(encode(&good, vec![pair()]), Some(vec![2, 7, 2, 2]));
    let undefined = template(&format!("{cls}, {a}"), &format!("{a}, {b}"), "");
    assert_eq!(encode(&undefined, vec![single("hello")]), None);
    let undefined = template(a, &format!("{a}, {b}, {cls}"), "");
    assert_eq!(encode(&undefined, vec![single("hello")]), None);
    let second = template(b, &format!("{a}, {b}"), token);
    assert_eq!(encode(&second, vec![single("hello")]), None);
    let sequence =
        |parts: &str| format!(r#"{{"type": "Sequence", "processors": [{parts}]}}"#);
    assert_eq!(encode(&sequence(&good), vec![single("hello")]), Some(vec![7, 2]));
    assert_eq!(
        encode(&sequence(&format!("{good}, {good}")), vec![single("hello")]),
        None
    );
}

#[test]
fn all_parts_work_together() {
    let map = base64(&replacing(0, b"b\0"));
    let mut files = tokenizer_files(r#"{"model_max_length": 6, "pad_token": "<pad>"}"#);
    files.config_file = b"{}".to_vec();
    files.special_tokens_map_file = br#"{"pad_token": "<pad>", "eos_token": "</s>"}"#.to_vec();
    files.tokenizer_file = format!(
        r#"{{
            "version": "1.0",
            "added_tokens": [{{"id": 1, "content": "</s>", "single_word": false, "lstrip": false,
                "rstrip": false, "normalized": false, "special": true}}],
            "normalizer": {{"type": "Sequence", "normalizers": [
                {{"type": "Precompiled", "precompiled_charsmap": "{map}"}},
                {{"type": "Lowercase"}}
            ]}},
            "pre_tokenizer": {{"type": "Sequence", "pretokenizers": [
                {{"type": "WhitespaceSplit"}},
                {{"type": "Metaspace", "replacement": "_", "prepend_scheme": "always"}}
            ]}},
            "post_processor": {{"type": "TemplateProcessing",
                "single": [{{"Sequence": {{"id": "A", "type_id": 0}}}},
                    {{"SpecialToken": {{"id": "</s>", "type_id": 0}}}}],
                "pair": [{{"Sequence": {{"id": "A", "type_id": 0}}}},
                    {{"Sequence": {{"id": "B", "type_id": 1}}}}],
                "special_tokens": {{"</s>": {{"id": "</s>", "ids": [1], "tokens": ["</s>"]}}}}}},
            "model": {{"type": "Unigram", "unk_id": 2, "vocab": [
                ["<pad>", 0.0], ["</s>", 0.0], ["<unk>", -9.0], ["_b", -1.0], ["_c", -2.0]]}}
        }}"#
    )
    .into_bytes();
    let tokenizer = try_load_tokenizer(files, 512).unwrap().unwrap();
    let inputs = vec![single("a C"), single("a a a a a a a a a"), single("b")];
    let batch = try_encode_batch(&tokenizer, inputs).unwrap().unwrap();
    assert_eq!(batch.input_ids.columns, 6);
    assert_eq!(row(&batch.input_ids, 0), vec![3, 4, 1, 0, 0, 0]);
    assert_eq!(row(&batch.input_ids, 1), vec![3, 3, 3, 3, 3, 1]);
    assert_eq!(row(&batch.attention_mask, 2), vec![1, 1, 0, 0, 0, 0]);
}

#[test]
fn pieces_of_fixed_length_have_a_length() {
    let encode = |length: usize| {
        let files = changed_files(
            r#"{"type": "Whitespace"}"#,
            &format!(r#"{{"type": "FixedLength", "length": {length}}}"#),
        );
        let tokenizer = try_load_tokenizer(files, 512).unwrap().unwrap();
        try_encode_batch(&tokenizer, vec![single("hellohello")])
            .map(|batch| batch.unwrap().input_ids.data)
    };
    assert_eq!(encode(5), Some(vec![2, 2]));
    assert_eq!(encode(0), None);
}

#[test]
fn tokens_that_vanish_are_not_looked_for() {
    let mut files = changed_files(
        r#""normalizer": null"#,
        r#""normalizer": {"type": "Strip", "strip_left": true, "strip_right": true}"#,
    );
    let tokenizer = try_load_tokenizer(files.clone(), 512).unwrap().unwrap();
    assert!(try_encode_batch(&tokenizer, vec![single("é")]).is_some());
    files.special_tokens_map_file = br#"{"a": " "}"#.to_vec();
    let tokenizer = try_load_tokenizer(files, 512).unwrap().unwrap();
    assert!(try_encode_batch(&tokenizer, vec![single("é")]).is_none());
}

#[test]
fn white_space_does_not_take_what_is_taken() {
    let load = |space: &str| {
        let mut files = changed_files("1.0", "1.0");
        files.special_tokens_map_file = format!(
            r#"{{"a": {{"content": "<a>", "single_word": false, "lstrip": false, "rstrip": true,
                "normalized": false}}, "b": {{"content": " ", "single_word": false, {space},
                "normalized": false}}}}"#
        )
        .into_bytes();
        let tokenizer = try_load_tokenizer(files, 512).unwrap().unwrap();
        try_encode_batch(&tokenizer, vec![single("<a>   hello")]).map(|batch| batch.is_ok())
    };
    assert_eq!(load(r#""lstrip": true, "rstrip": false"#), None);
    assert_eq!(load(r#""lstrip": false, "rstrip": false"#), Some(true));
    assert_eq!(load(r#""lstrip": true, "rstrip": true"#), Some(true));
    assert_eq!(load(r#""lstrip": false, "rstrip": true"#), Some(true));
}

#[test]
fn tokens_are_looked_for_as_they_were_added() {
    let token = |id: u32, content: &str, rstrip: bool, normalized: bool| {
        format!(
            r#"{{"id": {id}, "content": "{content}", "single_word": false, "lstrip": false,
                "rstrip": {rstrip}, "normalized": {normalized}, "special": true}}"#
        )
    };
    let added = format!(
        r#""added_tokens": [{}, {}]"#,
        token(3, " ", false, true),
        token(4, "x", true, false)
    );
    let mut files = changed_files(r#""added_tokens": []"#, &added);
    files.tokenizer_file = String::from_utf8(files.tokenizer_file)
        .unwrap()
        .replace(
            r#""normalizer": null"#,
            r#""normalizer": {"type": "Replace", "pattern": {"String": " "}, "content": "_"}"#,
        )
        .into_bytes();
    let tokenizer = try_load_tokenizer(files.clone(), 512).unwrap().unwrap();
    assert!(try_encode_batch(&tokenizer, vec![single("x  ")]).is_some());
    files.special_tokens_map_file = br#"{"a": {"content": " ", "single_word": false,
        "lstrip": true, "rstrip": false, "normalized": false}}"#
        .to_vec();
    let tokenizer = try_load_tokenizer(files, 512).unwrap().unwrap();
    assert!(try_encode_batch(&tokenizer, vec![single("x  ")]).is_none());
}

#[test]
fn inputs_that_cannot_be_encoded_are_reported() {
    let mut files = tokenizer_files(r#"{"model_max_length": 512, "pad_token": "[PAD]"}"#);
    files.tokenizer_file = String::from_utf8(files.tokenizer_file)
        .unwrap()
        .replace(r#""unk_token": "[UNK]""#, r#""unk_token": "<none>""#)
        .into_bytes();
    let tokenizer = load_tokenizer(files, 512).unwrap();
    match encode_batch(&tokenizer, vec![single("goodbye")]) {
        Err(Error::Tokenization(text)) => {
            assert!(text.starts_with("Failed to encode the batch: "), "{text}")
        }
        other => panic!("unexpected: {other:?}"),
    }
}

fn encoding(ids: &[u32]) -> TokenEncoding {
    TokenEncoding {
        ids: ids.to_vec(),
        type_ids: vec![7; ids.len()],
        attention_mask: vec![1; ids.len()],
    }
}

#[test]
fn encodings_make_up_a_batch() {
    let batch = encodings_to_batch(&[encoding(&[1, 2, 3]), encoding(&[4, 5, u32::MAX])]).unwrap();
    assert_eq!((batch.input_ids.rows, batch.input_ids.columns), (2, 3));
    assert_eq!(batch.input_ids.data, vec![1, 2, 3, 4, 5, 4294967295]);
    assert_eq!(batch.attention_mask.data, vec![1; 6]);
    assert_eq!(batch.token_type_ids.data, vec![7; 6]);
    let empty = encodings_to_batch(&[encoding(&[]), encoding(&[])]).unwrap();
    assert_eq!((empty.input_ids.rows, empty.input_ids.columns), (2, 0));
}

#[test]
fn encodings_can_be_uneven() {
    let message = |encodings: &[TokenEncoding]| match encodings_to_batch(encodings) {
        Err(Error::InvalidShape(text)) => text,
        other => panic!("unexpected: {other:?}"),
    };
    assert_eq!(
        message(&[encoding(&[1, 2]), encoding(&[1])]),
        "ShapeError/OutOfBounds: out of bounds indexing"
    );
    assert_eq!(
        message(&[encoding(&[1]), encoding(&[1, 2])]),
        "ShapeError/IncompatibleShape: incompatible shapes"
    );
    let mut partial = encoding(&[1, 2]);
    partial.attention_mask.pop();
    assert_eq!(
        message(&[partial]),
        "ShapeError/OutOfBounds: out of bounds indexing"
    );
    let mut partial = encoding(&[1, 2]);
    partial.type_ids.push(0);
    assert_eq!(
        message(&[partial]),
        "ShapeError/IncompatibleShape: incompatible shapes"
    );
    assert!(matches!(
        encodings_to_batch(&[]),
        Err(Error::EmptyTokenizations)
    ));
}

fn names(inputs: &[(String, Matrix)]) -> Vec<String> {
    inputs.iter().map(|input| input.0.clone()).collect()
}

fn two_rows() -> EncodedBatch {
    encodings_to_batch(&[encoding(&[1, 2]), encoding(&[3, 4])]).unwrap()
}

#[test]
fn sessions_get_what_they_declare() {
    let mut batch = two_rows();
    let inputs = batch.session_inputs(false);
    assert_eq!(names(&inputs), vec!["input_ids", "attention_mask"]);
    assert_eq!(inputs[0].1.data, vec![1, 2, 3, 4]);
    assert_eq!(batch.token_type_ids.data, vec![7; 4]);
    let inputs = batch.session_inputs(true);
    assert_eq!(
        names(&inputs),
        vec!["input_ids", "attention_mask", "token_type_ids"]
    );
    assert_eq!(inputs[2].1.data, vec![7; 4]);
    assert_eq!((inputs[2].1.rows, inputs[2].1.columns), (2, 2));
    assert_eq!(batch.input_ids.data, vec![1, 2, 3, 4]);
    assert_eq!(batch.attention_mask.data, vec![1; 4]);
    assert_eq!((batch.token_type_ids.rows, batch.token_type_ids.columns), (0, 0));
    assert!(batch.token_type_ids.data.is_empty());
    let mut batch = two_rows();
    let inputs = batch.session_inputs_with_attention_mask(false, true);
    assert_eq!(names(&inputs), vec!["input_ids", "token_type_ids"]);
    let inputs = batch.session_inputs_with_attention_mask(false, false);
    assert_eq!(names(&inputs), vec!["input_ids"]);
}
