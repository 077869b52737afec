use fastembed::error::Error;
use fastembed::hub::{get_cache_dir, hf_cache_dir, hub_settings, read_token};
use fastembed::json::{document, Json};
use fastembed::session::{session_settings, SessionSetting};
use fastembed::weights::{read_index, shard_files, WeightAction, WeightEvent, WeightSearch};
use std::collections::BTreeMap;

fn some(text: &str) -> Option<String> {
    Some(text.to_string())
}

#[test]
fn init_session_builder_applies_config_entry() {
    let settings = session_settings(
        Some(1),
        Ok(8),
        vec![("session.disable_prepacking".into(), "1".into())],
        false,
    );
    assert!(settings.is_ok());
    let settings = settings.unwrap();
    assert_eq!(settings.len(), 4);
    assert!(matches!(settings[0], SessionSetting::ExecutionProviders));
    assert!(matches!(settings[1], SessionSetting::FullOptimization));
    assert!(matches!(settings[2], SessionSetting::IntraThreads(1)));
    match &settings[3] {
        SessionSetting::ConfigEntry(key, value) => {
            assert_eq!(key, "session.disable_prepacking");
            assert_eq!(value, "1");
        }
        other => panic!("unexpected: {other:?}"),
    }
}

#[test]
fn sessions_take_the_threads_that_are_there() {
    let settings = session_settings(None, Ok(8), vec![], true).unwrap();
    assert_eq!(settings.len(), 5);
    assert!(matches!(settings[2], SessionSetting::IntraThreads(8)));
    assert!(matches!(settings[3], SessionSetting::MemoryPattern(false)));
    assert!(matches!(settings[4], SessionSetting::ParallelExecution(false)));
    let error = session_settings(None, Err("unknown".to_string()), vec![], true).unwrap_err();
    assert_eq!(error.to_string(), "I/O error: unknown");
    assert!(session_settings(Some(2), Err("unknown".to_string()), vec![], true).is_ok());
}

#[test]
fn models_are_kept_where_it_is_configured() {
    assert_eq!(get_cache_dir(None), ".fastembed_cache");
    assert_eq!(get_cache_dir(some("/models")), "/models");
    assert_eq!(hf_cache_dir(None, "default"), "default");
    assert_eq!(hf_cache_dir(Some("home"), "default"), "home");
}

#[test]
fn the_hub_is_reached_as_configured() {
    let settings = hub_settings(None, "cache", None, None, some("stored"), true);
    assert_eq!(settings.cache_dir, "cache");
    assert_eq!(settings.endpoint, "https://huggingface.co");
    assert_eq!(settings.token, some("stored"));
    assert!(settings.progress);
    let settings = hub_settings(
        Some("home"),
        "cache",
        some("https://mirror"),
        some(" \tabc\u{3000}\n"),
        some("stored"),
        false,
    );
    assert_eq!(settings.cache_dir, "home");
    assert_eq!(settings.endpoint, "https://mirror");
    assert_eq!(settings.token, some("abc"));
    assert!(!settings.progress);
    let settings = hub_settings(None, "cache", None, some(" \n"), None, false);
    assert_eq!(settings.token, None);
}

#[test]
fn tokens_are_trimmed_and_not_blank() {
    assert_eq!(read_token(&some("  a b\r\n")), some("a b"));
    assert_eq!(read_token(&some("\u{a0}\u{2028}")), None);
    assert_eq!(read_token(&some("")), None);
    assert_eq!(read_token(&None), None);
}

fn index(text: &str) -> Json {
    document(&serde_json::from_str(text).unwrap())
}

#[test]
fn shards_are_in_order_and_each_once() {
    let names = shard_files(&index(
        r#"{"weight_map": {"a": "m-2", "b": "m-1", "c": "m-2", "d": 4, "e": "m-10", "f": "m-1"}}"#,
    ))
    .unwrap();
    assert_eq!(names, vec!["m-1", "m-10", "m-2"]);
    assert!(shard_files(&index(r#"{"weight_map": {}}"#)).unwrap().is_empty());
    let error = shard_files(&index(r#"{"weight_map": []}"#)).unwrap_err();
    assert_eq!(
        error.to_string(),
        "model.safetensors.index.json has no `weight_map` object"
    );
    let error = shard_files(&index("{}")).unwrap_err();
    assert_eq!(
        error.to_string(),
        "model.safetensors.index.json has no `weight_map` object"
    );
    let error = read_index(b"{").unwrap_err();
    assert_eq!(
        error.to_string(),
        "Failed to parse model.safetensors.index.json: \
         EOF while parsing an object at line 1 column 1"
    );
    assert_eq!(
        read_index(br#"{"weight_map": {"a": "m"}}"#).unwrap(),
        vec!["m"]
    );
}

/// Answers a search from a repository whose files are here by their names.
fn search(repository: &BTreeMap<&str, &str>, asked: &mut Vec<String>) -> Result<Vec<String>, Error> {
    let (mut state, mut action) = WeightSearch::<String>::begin();
    loop {
        let event = match action {
            WeightAction::Get(name) => {
                asked.push(name.clone());
                if repository.contains_key(name.as_str()) {
                    WeightEvent::Found(name)
                } else {
                    WeightEvent::NotFound(format!("no {name}"))
                }
            }
            WeightAction::Read(path) => match repository[path.as_str()] {
                "" => WeightEvent::Unreadable("blank".to_string()),
                text => WeightEvent::Content(text.as_bytes().to_vec()),
            },
            WeightAction::Done(paths) => return Ok(paths),
            WeightAction::Fail(error) => return Err(error),
        };
        (state, action) = state.advance(event);
    }
}

#[test]
fn one_file_holds_all_weights() {
    let repository = BTreeMap::from([
        ("model.safetensors", "x"),
        ("model.safetensors.index.json", "x"),
    ]);
    let mut asked = Vec::new();
    assert_eq!(search(&repository, &mut asked).unwrap(), vec!["model.safetensors"]);
    assert_eq!(asked, vec!["model.safetensors"]);
}

#[test]
fn an_index_names_the_files() {
    let repository = BTreeMap::from([
        (
            "model.safetensors.index.json",
            r#"{"weight_map": {"x": "b", "y": "a", "z": "b"}}"#,
        ),
        ("a", "x"),
        ("b", "x"),
    ]);
    let mut asked = Vec::new();
    assert_eq!(search(&repository, &mut asked).unwrap(), vec!["a", "b"]);
    assert_eq!(
        asked,
        vec!["model.safetensors", "model.safetensors.index.json", "a", "b"]
    );
    let repository =
        BTreeMap::from([("model.safetensors.index.json", r#"{"weight_map": {}}"#)]);
    assert!(search(&repository, &mut Vec::new()).unwrap().is_empty());
}

#[test]
fn missing_weights_are_named() {
    let error = search(&BTreeMap::new(), &mut Vec::new()).unwrap_err();
    assert_eq!(
        error.to_string(),
        "Failed to retrieve model file 'model.safetensors or model.safetensors.index.json'"
    );
    match error {
        Error::ModelRetrieval { reason, .. } => {
            assert_eq!(reason, "no model.safetensors.index.json")
        }
        other => panic!("unexpected: {other:?}"),
    }
    let repository = BTreeMap::from([
        (
            "model.safetensors.index.json",
            r#"{"weight_map": {"x": "b", "y": "a"}}"#,
        ),
        ("a", "x"),
    ]);
    let error = search(&repository, &mut Vec::new()).unwrap_err();
    assert_eq!(error.to_string(), "Failed to retrieve model file 'b'");
    let repository = BTreeMap::from([("model.safetensors.index.json", "")]);
    let error = search(&repository, &mut Vec::new()).unwrap_err();
    assert_eq!(error.to_string(), "I/O error: blank");
    let repository = BTreeMap::from([("model.safetensors.index.json", "[]")]);
    let error = search(&repository, &mut Vec::new()).unwrap_err();
    assert_eq!(
        error.to_string(),
        "model.safetensors.index.json has no `weight_map` object"
    );
}

#[test]
fn errors_say_what_went_wrong() {
    let text = || "x".to_string();
    for (error, expected) in [
        (Error::TokenizerConfig(text()), "Invalid tokenizer configuration: x"),
        (Error::Tokenization(text()), "Failed to tokenize input: x"),
        (
            Error::EmptyTokenizations,
            "Tokenizer returned empty encodings for the batch",
        ),
        (Error::Ort(text()), "ONNX runtime error: x"),
        (Error::OrtBuilder(text()), "Failed to build ONNX session: x"),
        (Error::OrtSession(text()), "ONNX session error: x"),
        (
            Error::OutputKeyMissing { key: text() },
            "Output tensor 'x' not found",
        ),
        (Error::TensorExtraction(text()), "Failed to extract tensor: x"),
        (Error::ImageDecode(text()), "Failed to decode image: x"),
        (
            Error::PreprocessorConfig(text()),
            "Invalid preprocessor configuration: x",
        ),
        (Error::ImageTransform(text()), "Image transform error: x"),
        (Error::InvalidShape(text()), "Invalid tensor shape: x"),
        (Error::InvalidArgument(text()), "Invalid argument: x"),
        (Error::Io(text()), "I/O error: x"),
        (Error::Other(text()), "x"),
    ] {
        assert_eq!(error.to_string(), expected);
    }
}

#[test]
fn documents_hold_what_values_hold() {
    let json = index(r#"{"a": [null, true, -3, 0.5, "x"], "b": {"c": 18446744073709551615}}"#);
    match json.array_at("a") {
        Some(items) => {
            assert_eq!(items.len(), 5);
            assert!(matches!(items[0], Json::Null));
            assert!(matches!(items[1], Json::Bool(true)));
            match (&items[2], &items[3]) {
                (Json::Number(three), Json::Number(half)) => {
                    assert_eq!((three.unsigned, three.signed), (None, Some(-3)));
                    assert_eq!(f64::from_bits(three.double), -3.0);
                    assert_eq!((half.unsigned, half.signed), (None, None));
                    assert_eq!(f64::from_bits(half.double), 0.5);
                }
                other => panic!("unexpected: {other:?}"),
            }
        }
        None => panic!("no array"),
    }
    let inner = json.at("b").unwrap();
    assert_eq!(inner.unsigned_at("c"), Some(u64::MAX));
    assert_eq!(inner.double_at("c").map(f64::from_bits), Some(u64::MAX as f64));
    assert_eq!(inner.text_at("c"), None);
    assert_eq!(inner.bool_at("c"), None);
    assert!(json.at("z").is_none());
    assert!(Json::Null.at("a").is_none());
    assert!(index(r#"{"k": "v"}"#).is_text_at("k", "v"));
    assert!(!index(r#"{"k": "v"}"#).is_text_at("k", "w"));
    assert!(index(r#"{"k": true}"#).is_true_at("k"));
    assert!(!index(r#"{"k": false}"#).is_true_at("k"));
}
