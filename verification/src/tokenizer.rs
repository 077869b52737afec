//! Tokenizers from the files of a model.

use crate::description;
use crate::error::{Error, ErrorModel};
use crate::float;
use crate::growth;
use crate::integer;
use crate::json;
use crate::json::{Json, JsonNumber, JsonTree};
use crate::text;
use crate::vocabulary;
use tokenizers::{PostProcessor, Tokenizer};
use vstd::prelude::*;
use vstd::utf8::*;

verus! {

/// The files that describe a tokenizer.
#[derive(Debug, Clone, PartialEq, Eq)]
pub struct TokenizerFiles {
    pub tokenizer_file: Vec<u8>,
    pub config_file: Vec<u8>,
    pub special_tokens_map_file: Vec<u8>,
    pub tokenizer_config_file: Vec<u8>,
}

/// [`TokenizerFiles`] with sequences.
pub struct FilesModel {
    pub tokenizer_file: Seq<u8>,
    pub config_file: Seq<u8>,
    pub special_tokens_map_file: Seq<u8>,
    pub tokenizer_config_file: Seq<u8>,
}

impl View for TokenizerFiles {
    type V = FilesModel;

    open spec fn view(&self) -> FilesModel {
        FilesModel {
            tokenizer_file: self.tokenizer_file@,
            config_file: self.config_file@,
            special_tokens_map_file: self.special_tokens_map_file@,
            tokenizer_config_file: self.tokenizer_config_file@,
        }
    }
}

/// A token with a meaning of its own.
#[derive(Debug)]
pub struct SpecialToken {
    pub content: String,
    /// Whether it must not be part of a word.
    pub single_word: bool,
    /// Whether it takes the white space before it.
    pub lstrip: bool,
    /// Whether it takes the white space after it.
    pub rstrip: bool,
    /// Whether it is looked for in normalized text.
    pub normalized: bool,
}

/// A [`SpecialToken`] with a sequence.
pub struct SpecialTokenModel {
    pub content: Seq<char>,
    pub single_word: bool,
    pub lstrip: bool,
    pub rstrip: bool,
    pub normalized: bool,
}

impl View for SpecialToken {
    type V = SpecialTokenModel;

    open spec fn view(&self) -> SpecialTokenModel {
        SpecialTokenModel {
            content: self.content@,
            single_word: self.single_word,
            lstrip: self.lstrip,
            rstrip: self.rstrip,
            normalized: self.normalized,
        }
    }
}

/// The special token that an entry of a `special_tokens_map.json` describes: a text,
/// or an object with all that there is to say.
pub open spec fn special_token(entry: JsonTree) -> Option<SpecialTokenModel> {
    match entry {
        JsonTree::Text(content) => Some(
            SpecialTokenModel {
                content,
                single_word: false,
                lstrip: false,
                rstrip: false,
                normalized: true,
            },
        ),
        JsonTree::Object(_) => match (
            entry.at("content"@).as_text(),
            entry.at("single_word"@).as_bool(),
            entry.at("lstrip"@).as_bool(),
            entry.at("rstrip"@).as_bool(),
            entry.at("normalized"@).as_bool(),
        ) {
            (
                Some(content),
                Some(single_word),
                Some(lstrip),
                Some(rstrip),
                Some(normalized),
            ) => Some(SpecialTokenModel { content, single_word, lstrip, rstrip, normalized }),
            _ => None,
        },
        _ => None,
    }
}

/// The special tokens that entries describe, in their order.
pub open spec fn special_tokens_in(entries: Seq<(Seq<char>, JsonTree)>) -> Seq<SpecialTokenModel>
    decreases entries.len(),
{
    if entries.len() == 0 {
        seq![]
    } else {
        let before = special_tokens_in(entries.drop_last());
        match special_token(entries.last().1) {
            Some(token) => before.push(token),
            None => before,
        }
    }
}

/// The special tokens of a `special_tokens_map.json`.
pub open spec fn special_tokens(map: JsonTree) -> Seq<SpecialTokenModel> {
    match map {
        JsonTree::Object(entries) => special_tokens_in(entries),
        _ => seq![],
    }
}

/// Tokens with sequences.
pub open spec fn token_models(tokens: Seq<SpecialToken>) -> Seq<SpecialTokenModel> {
    tokens.map_values(|token: SpecialToken| token@)
}

/// Reads the special token that an entry describes.
fn read_special_token(entry: &Json) -> (token: Option<SpecialToken>)
    ensures
        match token {
            Some(token) => special_token(entry@) == Some(token@),
            None => special_token(entry@) is None,
        },
{
    match entry {
        Json::Text(content) => Some(
            SpecialToken {
                content: content.clone(),
                single_word: false,
                lstrip: false,
                rstrip: false,
                normalized: true,
            },
        ),
        Json::Object(_) => {
            match (
                entry.text_at("content"),
                entry.bool_at("single_word"),
                entry.bool_at("lstrip"),
                entry.bool_at("rstrip"),
                entry.bool_at("normalized"),
            ) {
                (
                    Some(content),
                    Some(single_word),
                    Some(lstrip),
                    Some(rstrip),
                    Some(normalized),
                ) => Some(
                    SpecialToken {
                        content: content.clone(),
                        single_word,
                        lstrip,
                        rstrip,
                        normalized,
                    },
                ),
                _ => None,
            }
        },
        _ => None,
    }
}

/// Reads the special tokens of a `special_tokens_map.json`.
pub fn read_special_tokens(map: &Json) -> (tokens: Vec<SpecialToken>)
    ensures
        token_models(tokens@) == special_tokens(map@),
{
    let mut tokens: Vec<SpecialToken> = Vec::new();
    if let Json::Object(entries) = map {
        let ghost all = map@->Object_0;
        let mut i: usize = 0;
        assert(token_models(tokens@) =~= special_tokens_in(all.take(0)));
        while i < entries.len()
            invariant
                i <= entries@.len(),
                *map == Json::Object(*entries),
                all == map@->Object_0,
                all.len() == entries@.len(),
                token_models(tokens@) == special_tokens_in(all.take(i as int)),
            decreases entries@.len() - i,
        {
            let ghost before = tokens@;
            assert(all.take(i + 1).drop_last() =~= all.take(i as int));
            assert(all.take(i + 1).last() == all[i as int]);
            if let Some(token) = read_special_token(&entries[i].1) {
                tokens.push(token);
                assert(token_models(tokens@) =~= token_models(before).push(token@));
            }
            i += 1;
        }
        assert(all.take(i as int) =~= all);
    } else {
        assert(token_models(tokens@) =~= seq![]);
    }
    tokens
}

/// The error of a file that cannot be read.
pub open spec fn unreadable(file: Seq<char>) -> ErrorModel {
    ErrorModel::Io(
        "Error building TokenizerFiles for UserDefinedEmbeddingModel. Could not read "@ + file
            + " file."@,
    )
}

/// Makes the error of a file that cannot be read.
fn unreadable_error(file: &str) -> (error: Error)
    ensures
        error@ == unreadable(file@),
{
    let head = text::joined(
        "Error building TokenizerFiles for UserDefinedEmbeddingModel. Could not read ",
        file,
    );
    Error::Io(text::joined(head.as_str(), " file."))
}

/// What the configuration of a tokenizer asks for.
#[derive(Debug)]
pub struct Setup {
    /// The most tokens of an input.
    pub limit: usize,
    /// The token that fills up the inputs of a batch.
    pub pad_token: String,
    /// The id of that token, where it is given.
    pub pad_id: Option<u32>,
    /// The special tokens.
    pub special_tokens: Vec<SpecialToken>,
}

/// [`Setup`] with sequences.
#[verifier::ext_equal]
pub struct SetupModel {
    pub limit: usize,
    pub pad_token: Seq<char>,
    pub pad_id: Option<u32>,
    pub special_tokens: Seq<SpecialTokenModel>,
}

impl View for Setup {
    type V = SetupModel;

    open spec fn view(&self) -> SetupModel {
        SetupModel {
            limit: self.limit,
            pad_token: self.pad_token@,
            pad_id: self.pad_id,
            special_tokens: token_models(self.special_tokens@),
        }
    }
}

/// The token that fills up, from a `tokenizer_config.json`: a text, or an object that
/// holds it.
pub open spec fn pad_token(config: JsonTree) -> Option<Seq<char>> {
    let entry = config.at("pad_token"@);
    match entry.as_text() {
        Some(text) => Some(text),
        None => entry.at("content"@).as_text(),
    }
}

/// What the three configuration files of a tokenizer ask for, or what is wrong with
/// them. The limit is the smaller one of `max_length` and of what the model allows,
/// which is read in single precision: it may be a number beyond all integers.
pub open spec fn setup_of(
    config: JsonTree,
    special_tokens_map: JsonTree,
    tokenizer_config: JsonTree,
    max_length: usize,
) -> Result<SetupModel, ErrorModel> {
    match (
        tokenizer_config.at("model_max_length"@).as_double(),
        pad_token(tokenizer_config),
    ) {
        (None, _) => Err(
            ErrorModel::TokenizerConfig(
                "tokenizer_config.json is missing a numeric `model_max_length` field"@,
            ),
        ),
        (_, None) => Err(
            ErrorModel::TokenizerConfig(
                "tokenizer_config.json is missing a string `pad_token` field"@,
            ),
        ),
        (Some(length), Some(pad_token)) => {
            let allowed = float::whole_single(float::narrowed(length));
            Ok(
                SetupModel {
                    limit: if max_length <= allowed {
                        max_length
                    } else {
                        allowed
                    },
                    pad_token,
                    pad_id: match config.at("pad_token_id"@).as_unsigned() {
                        Some(id) => Some(integer::low_bits(id as int)),
                        None => None,
                    },
                    special_tokens: special_tokens(special_tokens_map),
                },
            )
        },
    }
}

/// Reads what the three configuration files of a tokenizer ask for.
pub fn read_setup(
    config: &Json,
    special_tokens_map: &Json,
    tokenizer_config: &Json,
    max_length: usize,
) -> (setup: Result<Setup, Error>)
    ensures
        match setup {
            Ok(setup) => setup_of(config@, special_tokens_map@, tokenizer_config@, max_length)
                == Ok::<SetupModel, ErrorModel>(setup@),
            Err(error) => setup_of(config@, special_tokens_map@, tokenizer_config@, max_length)
                == Err::<SetupModel, ErrorModel>(error@),
        },
{
    let length: u64 = match tokenizer_config.double_at("model_max_length") {
        Some(length) => length,
        None => return Err(
            Error::TokenizerConfig(
                "tokenizer_config.json is missing a numeric `model_max_length` field".to_string(),
            ),
        ),
    };
    let allowed: usize = float::single_to_usize(float::narrow(length));
    let limit: usize = if max_length <= allowed {
        max_length
    } else {
        allowed
    };
    let found: Option<&String> = match tokenizer_config.at("pad_token") {
        Some(Json::Text(text)) => Some(text),
        Some(entry) => entry.text_at("content"),
        None => None,
    };
    let pad_token: String = match found {
        Some(text) => text.clone(),
        None => return Err(
            Error::TokenizerConfig(
                "tokenizer_config.json is missing a string `pad_token` field".to_string(),
            ),
        ),
    };
    let pad_id: Option<u32> = match config.unsigned_at("pad_token_id") {
        Some(id) => Some(integer::low_bits_of(id)),
        None => None,
    };
    Ok(
        Setup { limit, pad_token, pad_id, special_tokens: read_special_tokens(special_tokens_map) },
    )
}

#[verifier::external_type_specification]
#[verifier::external_body]
pub struct ExTokenizer(tokenizers::Tokenizer);

/// How a tokenizer truncates inputs.
#[derive(Debug, Clone, Copy, PartialEq, Eq, Structural)]
pub struct Truncation {
    /// The most tokens of an input.
    pub limit: usize,
    /// How many tokens the parts of a longer input have in common.
    pub stride: usize,
    /// Whether the longer text of a pair is truncated first; otherwise one text alone
    /// is.
    pub longest_first: bool,
}

/// How far a tokenizer fills up inputs, beyond the longest of a batch.
#[derive(Debug, Clone, Copy, PartialEq, Eq, Structural)]
pub struct Filling {
    /// The fixed length that inputs are filled up to, and 0 where there is none.
    pub length: usize,
    /// The number that the length is filled up to a multiple of, and 0 where there is
    /// none.
    pub multiple: usize,
}

/// What a tokenizer is made of.
pub struct Settings {
    /// The text that it was read from.
    pub file: Seq<u8>,
    /// The token and its id that fill up the shorter inputs of a batch on the right
    /// until they are as long as the longest, where it fills up in this way.
    pub padding: Option<(Seq<char>, u32)>,
    /// How far it fills up inputs.
    pub filling: Filling,
    /// How it truncates inputs, where it does.
    pub truncation: Option<Truncation>,
    /// The special tokens that were added since it was read, in order.
    pub added: Seq<SpecialTokenModel>,
}

/// A token of the added vocabulary of a tokenizer.
#[derive(Debug)]
pub struct Pattern {
    /// The token as it was added.
    pub content: String,
    /// The token as it was normalized last, and as it was added where it never was.
    pub form: String,
    /// Whether it is looked for in normalized text, and in its normalized form.
    pub normalized: bool,
    /// Whether it takes the white space before it.
    pub lstrip: bool,
    /// Whether it takes the white space after it.
    pub rstrip: bool,
}

/// A [`Pattern`] with sequences.
pub struct PatternModel {
    pub content: Seq<char>,
    pub form: Seq<char>,
    pub normalized: bool,
    pub lstrip: bool,
    pub rstrip: bool,
}

impl View for Pattern {
    type V = PatternModel;

    open spec fn view(&self) -> PatternModel {
        PatternModel {
            content: self.content@,
            form: self.form@,
            normalized: self.normalized,
            lstrip: self.lstrip,
            rstrip: self.rstrip,
        }
    }
}

/// What a `tokenizers::Tokenizer` holds.
pub uninterp spec fn settings_of(tokenizer: tokenizers::Tokenizer) -> Settings;

/// Whether `tokenizers::Tokenizer::from_bytes` reads a tokenizer from a text.
pub uninterp spec fn readable(file: Seq<u8>) -> bool;

/// Whether `serde_json::from_slice` reads a `serde_json::value::RawValue` from a text.
pub uninterp spec fn json_syntax(text: Seq<u8>) -> bool;

/// The id that `token_to_id` of a tokenizer gives for a token, from the text that the
/// tokenizer was read from and the special tokens that were added since.
pub uninterp spec fn token_id(
    file: Seq<u8>,
    added: Seq<SpecialTokenModel>,
    token: Seq<char>,
) -> Option<u32>;

/// Why `add_special_tokens` of a tokenizer does not take a token, if it does not, from
/// the text that the tokenizer was read from and the special tokens that were added
/// since.
pub uninterp spec fn refusal(
    file: Seq<u8>,
    added: Seq<SpecialTokenModel>,
    token: SpecialTokenModel,
) -> Option<Seq<char>>;

/// How many tokens the post-processor of a tokenizer adds to an input, or to a pair
/// of them.
pub uninterp spec fn reserved(file: Seq<u8>, pair: bool) -> usize;

/// What `serde_json::to_value` makes of the normalizer of a tokenizer, which is that of
/// the text that the tokenizer was read from: null where it has none.
pub uninterp spec fn normalizer_of(file: Seq<u8>) -> JsonTree;

/// What `serde_json::to_value` makes of the pre-tokenizer of a tokenizer, which is that
/// of the text that the tokenizer was read from: null where it has none.
pub uninterp spec fn pre_tokenizer_of(file: Seq<u8>) -> JsonTree;

/// What `serde_json::to_value` makes of the post-processor of a tokenizer, which is that
/// of the text that the tokenizer was read from: null where it has none.
pub uninterp spec fn post_processor_of(file: Seq<u8>) -> JsonTree;

/// The tokens of the added vocabulary of a tokenizer, each as it was added and with what
/// `simple_id_to_token` gives for it, from the text that the tokenizer was read from and
/// the special tokens that were added since.
pub uninterp spec fn patterns_of(file: Seq<u8>, added: Seq<SpecialTokenModel>) -> Set<
    PatternModel,
>;

/// `serde_json::from_slice` into a `serde_json::value::RawValue`: whether bytes are a JSON
/// text in UTF-8 depends on the bytes alone. `tokenizers::Tokenizer::from_bytes` reads no
/// tokenizer from a text in UTF-8 that is not one.
#[verifier::external_body]
fn is_json(bytes: &[u8]) -> (fits: bool)
    ensures
        fits == json_syntax(bytes@),
        !fits && valid_utf8(bytes@) ==> !readable(bytes@),
{
    serde_json::from_slice::<&serde_json::value::RawValue>(bytes).is_ok()
}

/// `tokenizers::Tokenizer::from_bytes`: whether a text is that of a tokenizer depends
/// on the text alone. Nothing is said of how the error reads. The text must be one that
/// a tokenizer can be read from: with a merge that exceeds the longest token, with no
/// ids left, with a normalizer that is not in order, or with an added token on which a
/// regular expression of the normalizer exceeds the retries that its engine allows the
/// function panics.
#[verifier::external_body]
fn from_bytes(file: &[u8]) -> (tokenizer: Option<Tokenizer>)
    requires
        description::can_be_read(file@),
    ensures
        match tokenizer {
            Some(tokenizer) => {
                &&& readable(file@)
                &&& settings_of(tokenizer).file == file@
                &&& settings_of(tokenizer).added == Seq::<SpecialTokenModel>::empty()
            },
            None => !readable(file@),
        },
{
    Tokenizer::from_bytes(file).ok()
}

/// `get_normalizer` of `tokenizers::Tokenizer`, put through `serde_json::to_value`.
#[verifier::external_body]
pub(crate) fn normalizer(tokenizer: &Tokenizer) -> (value: serde_json::Value)
    ensures
        json::json_of(value) == normalizer_of(settings_of(*tokenizer).file),
{
    serde_json::to_value(tokenizer.get_normalizer()).unwrap_or_default()
}

/// `get_pre_tokenizer` of `tokenizers::Tokenizer`, put through `serde_json::to_value`.
#[verifier::external_body]
pub(crate) fn pre_tokenizer(tokenizer: &Tokenizer) -> (value: serde_json::Value)
    ensures
        json::json_of(value) == pre_tokenizer_of(settings_of(*tokenizer).file),
{
    serde_json::to_value(tokenizer.get_pre_tokenizer()).unwrap_or_default()
}

/// `get_post_processor` of `tokenizers::Tokenizer`, put through `serde_json::to_value`.
#[verifier::external_body]
pub(crate) fn post_processor(tokenizer: &Tokenizer) -> (value: serde_json::Value)
    ensures
        json::json_of(value) == post_processor_of(settings_of(*tokenizer).file),
{
    serde_json::to_value(tokenizer.get_post_processor()).unwrap_or_default()
}

/// Patterns with sequences.
pub open spec fn pattern_models(patterns: Seq<Pattern>) -> Seq<PatternModel> {
    patterns.map_values(|pattern: Pattern| pattern@)
}

/// `get_added_vocabulary` of `tokenizers::Tokenizer`: the tokens of its
/// `get_added_tokens_decoder`, in no particular order, each with what `simple_id_to_token`
/// gives for its id.
#[verifier::external_body]
pub(crate) fn patterns(tokenizer: &Tokenizer) -> (patterns: Vec<Pattern>)
    ensures
        pattern_models(patterns@).to_set() == patterns_of(
            settings_of(*tokenizer).file,
            settings_of(*tokenizer).added,
        ),
{
    let added = tokenizer.get_added_vocabulary();
    added.get_added_tokens_decoder().iter().map(|(id, token)| Pattern {
        content: token.content.clone(),
        form: added.simple_id_to_token(*id).unwrap_or_default(),
        normalized: token.normalized,
        lstrip: token.lstrip,
        rstrip: token.rstrip,
    }).collect()
}

/// `token_to_id` of `tokenizers::Tokenizer`.
#[verifier::external_body]
fn token_to_id(tokenizer: &Tokenizer, token: &str) -> (id: Option<u32>)
    ensures
        id == token_id(settings_of(*tokenizer).file, settings_of(*tokenizer).added, token@),
{
    tokenizer.token_to_id(token)
}

/// `added_tokens` of the post-processor of a `tokenizers::Tokenizer`, and 0 where it
/// has none: the post-processor is that of the text that the tokenizer was read from.
#[verifier::external_body]
pub(crate) fn added_tokens(tokenizer: &Tokenizer, pair: bool) -> (count: usize)
    ensures
        count == reserved(settings_of(*tokenizer).file, pair),
{
    tokenizer.get_post_processor().map_or(0, |processor| processor.added_tokens(pair))
}

/// `get_truncation` of `tokenizers::Tokenizer`.
#[verifier::external_body]
pub(crate) fn truncation(tokenizer: &Tokenizer) -> (truncation: Option<Truncation>)
    ensures
        truncation == settings_of(*tokenizer).truncation,
{
    tokenizer.get_truncation().map(|params| Truncation {
        limit: params.max_length,
        stride: params.stride,
        longest_first: params.strategy == tokenizers::TruncationStrategy::LongestFirst,
    })
}

/// `get_padding` of `tokenizers::Tokenizer`: the length of its strategy, where that is
/// fixed, and its `pad_to_multiple_of`.
#[verifier::external_body]
pub(crate) fn filling(tokenizer: &Tokenizer) -> (filling: Filling)
    ensures
        filling == settings_of(*tokenizer).filling,
{
    Filling {
        length: match tokenizer.get_padding().map(|params| &params.strategy) {
            Some(tokenizers::PaddingStrategy::Fixed(length)) => *length,
            _ => 0,
        },
        multiple: tokenizer.get_padding().and_then(|params| params.pad_to_multiple_of).unwrap_or(0),
    }
}

/// `with_padding` of `tokenizers::Tokenizer`, to the longest input of a batch and
/// otherwise by default: on the right, and to no multiple.
#[verifier::external_body]
fn set_padding(tokenizer: &mut Tokenizer, pad_token: String, pad_id: u32)
    ensures
        settings_of(*final(tokenizer)) == (Settings {
            padding: Some((pad_token@, pad_id)),
            filling: Filling { length: 0, multiple: 0 },
            ..settings_of(*old(tokenizer))
        }),
{
    tokenizer.with_padding(Some(tokenizers::PaddingParams {
        strategy: tokenizers::PaddingStrategy::BatchLongest,
        pad_token,
        pad_id,
        ..Default::default()
    }));
}

/// `with_truncation` of `tokenizers::Tokenizer`, by default but for the length. It
/// fails only where the parts of an input are to have tokens in common, which by
/// default they are not, and must not be called with a length that the tokens of
/// the post-processor exceed.
#[verifier::external_body]
fn set_truncation(tokenizer: &mut Tokenizer, max_length: usize) -> (set: Result<(), String>)
    requires
        reserved(settings_of(*old(tokenizer)).file, false) <= max_length,
    ensures
        set is Ok,
        settings_of(*final(tokenizer)) == (Settings {
            truncation: Some(
                Truncation { limit: max_length, stride: 0, longest_first: true },
            ),
            ..settings_of(*old(tokenizer))
        }),
{
    tokenizer
        .with_truncation(Some(tokenizers::TruncationParams { max_length, ..Default::default() }))
        .map(|_| ())
        .map_err(|error| error.to_string())
}

/// Whether the normalizer of a tokenizer that is read from `file` can be put to tokens.
pub open spec fn tokens_fit(file: Seq<u8>, tokens: Seq<SpecialTokenModel>) -> bool {
    forall|i: int|
        0 <= i < tokens.len() ==> growth::normalizer_fits(
            json::json_text(file)->Ok_0.at("normalizer"@),
            (#[trigger] tokens[i]).content,
        )
}

/// `add_special_tokens` of `tokenizers::Tokenizer` with one token: whether it takes the
/// token, and what its error says if not, depends on the tokenizer and the token
/// alone. There must be an id left for the token, the normalizer must be in order, and its
/// regular expressions must keep to the retries that their engine allows on the tokens that
/// were added, or the function panics.
#[verifier::external_body]
fn add_special_token(tokenizer: &mut Tokenizer, token: &SpecialToken) -> (added: Result<
    (),
    String,
>)
    requires
        description::can_be_read(settings_of(*old(tokenizer)).file),
        vocabulary::ids_left(
            json::json_text(settings_of(*old(tokenizer)).file)->Ok_0,
            settings_of(*old(tokenizer)).added.len() + 1,
        ),
        tokens_fit(
            settings_of(*old(tokenizer)).file,
            settings_of(*old(tokenizer)).added.push(token@),
        ),
    ensures
        refusal(
            settings_of(*old(tokenizer)).file,
            settings_of(*old(tokenizer)).added,
            token@,
        ) == (match added {
            Ok(_) => None,
            Err(text) => Some(text@),
        }),
        added is Ok ==> settings_of(*final(tokenizer)) == (Settings {
            added: settings_of(*old(tokenizer)).added.push(token@),
            ..settings_of(*old(tokenizer))
        }),
{
    tokenizer
        .add_special_tokens([tokenizers::AddedToken {
            content: token.content.clone(),
            single_word: token.single_word,
            lstrip: token.lstrip,
            rstrip: token.rstrip,
            normalized: token.normalized,
            special: true,
        }])
        .map(|_| ())
        .map_err(|error| error.to_string())
}

/// Why a tokenizer does not take all special tokens from the one at `start` on, one
/// after another, if it does not.
pub open spec fn first_refusal(file: Seq<u8>, tokens: Seq<SpecialTokenModel>, start: nat) -> Option<
    Seq<char>,
>
    decreases tokens.len() - start,
{
    if start >= tokens.len() {
        None
    } else {
        match refusal(file, tokens.take(start as int), tokens[start as int]) {
            Some(text) => Some(text),
            None => first_refusal(file, tokens, start + 1),
        }
    }
}

/// What comes of the three configuration files of a tokenizer, or why nothing does.
pub open spec fn documents(files: FilesModel) -> Result<(JsonTree, JsonTree, JsonTree), ErrorModel> {
    match (
        json::json_text(files.config_file),
        json::json_text(files.special_tokens_map_file),
        json::json_text(files.tokenizer_config_file),
    ) {
        (Err(_), _, _) => Err(unreadable("config.json"@)),
        (_, Err(_), _) => Err(unreadable("special_tokens_map.json"@)),
        (_, _, Err(_)) => Err(unreadable("tokenizer_config.json"@)),
        (Ok(config), Ok(map), Ok(tokenizer_config)) => Ok((config, map, tokenizer_config)),
    }
}

/// What the files of a tokenizer ask for, or what is wrong with them.
pub open spec fn files_setup(files: FilesModel, max_length: usize) -> Result<
    SetupModel,
    ErrorModel,
> {
    match documents(files) {
        Err(error) => Err(error),
        Ok((config, map, tokenizer_config)) => if !readable(files.tokenizer_file) {
            Err(unreadable("tokenizer.json"@))
        } else {
            setup_of(config, map, tokenizer_config, max_length)
        },
    }
}

/// What a tokenizer that is read from `file` holds once it is set up.
pub open spec fn set_up(file: Seq<u8>, setup: SetupModel) -> Settings {
    Settings {
        file,
        padding: Some(
            (
                setup.pad_token,
                match (setup.pad_id, token_id(file, seq![], setup.pad_token)) {
                    (Some(id), _) => id,
                    (None, Some(id)) => id,
                    (None, None) => 0,
                },
            ),
        ),
        filling: Filling { length: 0, multiple: 0 },
        truncation: Some(Truncation { limit: setup.limit, stride: 0, longest_first: true }),
        added: setup.special_tokens,
    }
}

/// Whether a tokenizer can be read from its file, as far as it comes to that.
pub open spec fn file_fits(files: FilesModel) -> bool {
    documents(files) is Ok && (json_syntax(files.tokenizer_file) || !valid_utf8(
        files.tokenizer_file,
    )) ==> description::can_be_read(files.tokenizer_file)
}

/// Whether the limit of a tokenizer leaves room for the tokens of its
/// post-processor, there are ids left for its special tokens, and its normalizer can be put
/// to them, as far as it comes to that.
pub open spec fn setup_fits(files: FilesModel, max_length: usize) -> bool {
    files_setup(files, max_length) matches Ok(setup) ==> {
        &&& reserved(files.tokenizer_file, false) <= setup.limit
        &&& vocabulary::ids_left(
            json::json_text(files.tokenizer_file)->Ok_0,
            setup.special_tokens.len(),
        )
        &&& tokens_fit(files.tokenizer_file, setup.special_tokens)
    }
}

/// Whether a tokenizer can be loaded from its files.
pub open spec fn files_fit(files: FilesModel, max_length: usize) -> bool {
    file_fits(files) && setup_fits(files, max_length)
}

/// Whether a tokenizer, or an error, is what the files of a tokenizer give.
pub open spec fn loaded(
    tokenizer: Result<Tokenizer, Error>,
    files: FilesModel,
    max_length: usize,
) -> bool {
    match files_setup(files, max_length) {
        Err(expected) => tokenizer matches Err(error) && error@ == expected,
        Ok(setup) => match first_refusal(files.tokenizer_file, setup.special_tokens, 0) {
            Some(text) => tokenizer matches Err(error) && error@ == ErrorModel::TokenizerConfig(
                text,
            ),
            None => tokenizer matches Ok(tokenizer) && settings_of(tokenizer) == set_up(
                files.tokenizer_file,
                setup,
            ),
        },
    }
}

/// A tokenizer as it was read, and what its files ask for.
fn read_files(files: &TokenizerFiles, max_length: usize) -> (read: Result<
    (Tokenizer, Setup),
    Error,
>)
    requires
        file_fits(files@),
    ensures
        match (read, files_setup(files@, max_length)) {
            (Ok((tokenizer, setup)), Ok(expected)) => {
                &&& setup@ == expected
                &&& description::can_be_read(files.tokenizer_file@)
                &&& settings_of(tokenizer).file == files.tokenizer_file@
                &&& settings_of(tokenizer).added == Seq::<SpecialTokenModel>::empty()
            },
            (Err(error), Err(expected)) => error@ == expected,
            _ => false,
        },
{
    let config = match json::parse(files.config_file.as_slice()) {
        Ok(config) => json::document(&config),
        Err(_) => return Err(unreadable_error("config.json")),
    };
    let special_tokens_map = match json::parse(files.special_tokens_map_file.as_slice()) {
        Ok(map) => json::document(&map),
        Err(_) => return Err(unreadable_error("special_tokens_map.json")),
    };
    let tokenizer_config = match json::parse(files.tokenizer_config_file.as_slice()) {
        Ok(config) => json::document(&config),
        Err(_) => return Err(unreadable_error("tokenizer_config.json")),
    };
    if text::is_utf8(files.tokenizer_file.as_slice()) && !is_json(files.tokenizer_file.as_slice()) {
        return Err(unreadable_error("tokenizer.json"));
    }
    let tokenizer = match from_bytes(files.tokenizer_file.as_slice()) {
        Some(tokenizer) => tokenizer,
        None => return Err(unreadable_error("tokenizer.json")),
    };
    match read_setup(&config, &special_tokens_map, &tokenizer_config, max_length) {
        Ok(setup) => Ok((tokenizer, setup)),
        Err(error) => Err(error),
    }
}

/// Sets up a tokenizer as its files ask for.
fn set_up_tokenizer(tokenizer: Tokenizer, setup: Setup) -> (result: Result<Tokenizer, Error>)
    requires
        settings_of(tokenizer).added == Seq::<SpecialTokenModel>::empty(),
        reserved(settings_of(tokenizer).file, false) <= setup.limit,
        description::can_be_read(settings_of(tokenizer).file),
        vocabulary::ids_left(
            json::json_text(settings_of(tokenizer).file)->Ok_0,
            setup@.special_tokens.len(),
        ),
        tokens_fit(settings_of(tokenizer).file, setup@.special_tokens),
    ensures
        match first_refusal(settings_of(tokenizer).file, setup@.special_tokens, 0) {
            Some(text) => result matches Err(error) && error@ == ErrorModel::TokenizerConfig(text),
            None => result matches Ok(result) && settings_of(result) == set_up(
                settings_of(tokenizer).file,
                setup@,
            ),
        },
{
    let ghost file = settings_of(tokenizer).file;
    let ghost wanted = setup@;
    let Setup { limit, pad_token, pad_id, special_tokens } = setup;
    let mut ready = tokenizer;
    let pad_id: u32 = match pad_id {
        Some(id) => id,
        None => match token_to_id(&ready, pad_token.as_str()) {
            Some(id) => id,
            None => 0,
        },
    };
    set_padding(&mut ready, pad_token, pad_id);
    if let Err(text) = set_truncation(&mut ready, limit) {
        return Err(Error::TokenizerConfig(text));
    }
    let ghost tokens = wanted.special_tokens;
    assert(tokens.take(0) =~= seq![]);
    let mut i: usize = 0;
    while i < special_tokens.len()
        invariant
            i <= special_tokens@.len(),
            file == settings_of(tokenizer).file,
            wanted == setup@,
            tokens == wanted.special_tokens,
            tokens == token_models(special_tokens@),
            description::can_be_read(file),
            vocabulary::ids_left(json::json_text(file)->Ok_0, tokens.len()),
            tokens_fit(file, tokens),
            first_refusal(file, tokens, 0) == first_refusal(file, tokens, i as nat),
            settings_of(ready) == (Settings {
                added: tokens.take(i as int),
                ..set_up(file, wanted)
            }),
        decreases special_tokens@.len() - i,
    {
        assert(special_tokens@[i as int]@ == tokens[i as int]);
        assert forall|j: int| 0 <= j <= i implies growth::normalizer_fits(
            json::json_text(file)->Ok_0.at("normalizer"@),
            (#[trigger] tokens.take(i as int).push(tokens[i as int])[j]).content,
        ) by {
            assert(tokens.take(i as int).push(tokens[i as int])[j] == tokens[j]);
        }
        if let Err(text) = add_special_token(&mut ready, &special_tokens[i]) {
            return Err(Error::TokenizerConfig(text));
        }
        assert(tokens.take(i as int).push(tokens[i as int]) =~= tokens.take(i + 1));
        i += 1;
    }
    assert(tokens.take(i as int) =~= tokens);
    Ok(ready)
}

/// Loads a tokenizer from its files. Inputs will be truncated to `max_length` tokens,
/// or to what the model allows, and the inputs of a batch will be filled up.
pub fn load_tokenizer(tokenizer_files: TokenizerFiles, max_length: usize) -> (tokenizer: Result<
    Tokenizer,
    Error,
>)
    requires
        files_fit(tokenizer_files@, max_length),
    ensures
        loaded(tokenizer, tokenizer_files@, max_length),
{
    match read_files(&tokenizer_files, max_length) {
        Ok((tokenizer, setup)) => set_up_tokenizer(tokenizer, setup),
        Err(error) => Err(error),
    }
}

/// Whether the files of a tokenizer are documents.
fn has_documents(files: &TokenizerFiles) -> (fits: bool)
    ensures
        fits == documents(files@) is Ok,
{
    json::parse(files.config_file.as_slice()).is_ok() && json::parse(
        files.special_tokens_map_file.as_slice(),
    ).is_ok() && json::parse(files.tokenizer_config_file.as_slice()).is_ok()
}

/// Whether the normalizer of a tokenizer can be put to tokens.
fn check_tokens(description: &Json, tokens: &Vec<SpecialToken>) -> (fits: bool)
    ensures
        fits == (forall|i: int|
            0 <= i < tokens@.len() ==> growth::normalizer_fits(
                description@.at("normalizer"@),
                (#[trigger] token_models(tokens@)[i]).content,
            )),
{
    let normalizer = match description.at("normalizer") {
        Some(normalizer) => normalizer,
        None => return true,
    };
    let mut i: usize = 0;
    while i < tokens.len()
        invariant
            i <= tokens@.len(),
            normalizer@ == description@.at("normalizer"@),
            forall|j: int|
                0 <= j < i ==> growth::normalizer_fits(
                    normalizer@,
                    (#[trigger] token_models(tokens@)[j]).content,
                ),
        decreases tokens@.len() - i,
    {
        assert(token_models(tokens@)[i as int] == tokens@[i as int]@);
        if !growth::check_normalizer(normalizer, tokens[i].content.as_str()) {
            return false;
        }
        i += 1;
    }
    true
}

/// Whether a tokenizer can be loaded from its files.
fn check_files(files: &TokenizerFiles, max_length: usize) -> (fits: bool)
    ensures
        fits == files_fit(files@, max_length),
{
    if !has_documents(files) {
        return true;
    }
    if text::is_utf8(files.tokenizer_file.as_slice()) && !is_json(files.tokenizer_file.as_slice()) {
        return true;
    }
    let description = match json::parse(files.tokenizer_file.as_slice()) {
        Ok(description) => json::document(&description),
        Err(_) => return false,
    };
    if !description::check_description(files.tokenizer_file.as_slice(), &description) {
        return false;
    }
    match read_files(files, max_length) {
        Ok((tokenizer, setup)) => added_tokens(&tokenizer, false) <= setup.limit
            && vocabulary::check_ids(&description, setup.special_tokens.len()) && check_tokens(
            &description,
            &setup.special_tokens,
        ),
        Err(_) => true,
    }
}

/// Loads a tokenizer as [`load_tokenizer`] does, but gives nothing where the tokenizer
/// cannot be read from its file, where the limit leaves no room for the tokens of the
/// post-processor, where no ids are left for the special tokens, or where the normalizer
/// cannot be put to them.
pub fn try_load_tokenizer(tokenizer_files: TokenizerFiles, max_length: usize) -> (tokenizer:
    Option<Result<Tokenizer, Error>>)
    ensures
        match tokenizer {
            Some(tokenizer) => files_fit(tokenizer_files@, max_length) && loaded(
                tokenizer,
                tokenizer_files@,
                max_length,
            ),
            None => !files_fit(tokenizer_files@, max_length),
        },
{
    if check_files(&tokenizer_files, max_length) {
        Some(load_tokenizer(tokenizer_files, max_length))
    } else {
        None
    }
}

/// A tokenizer that was loaded fills up the shorter inputs of a batch, and truncates
/// each input to `max_length` tokens, or to what the model allows where that is less. The
/// token that fills up is that of `tokenizer_config.json`: a text, or the content of an
/// object. Its id is the lower half of `pad_token_id` in `config.json`, else that of the
/// token in the tokenizer as it was read, else 0.
pub proof fn loaded_tokenizers_pad_and_truncate(
    tokenizer: Tokenizer,
    files: FilesModel,
    max_length: usize,
)
    requires
        files_fit(files, max_length),
        loaded(Ok(tokenizer), files, max_length),
    ensures
        ({
            let config = json::json_text(files.tokenizer_config_file)->Ok_0;
            let length = config.at("model_max_length"@).as_double();
            &&& length is Some
            &&& settings_of(tokenizer).padding matches Some((token, _)) && pad_token(config)
                == Some(token)
            &&& settings_of(tokenizer).truncation matches Some(truncation) && {
                &&& truncation.stride == 0
                &&& truncation.limit <= max_length
                &&& truncation.limit <= float::whole_single(float::narrowed(length->0))
                &&& reserved(settings_of(tokenizer).file, false) <= truncation.limit
            }
        }),
        ({
            let config = json::json_text(files.config_file)->Ok_0;
            let tokenizer_config = json::json_text(files.tokenizer_config_file)->Ok_0;
            let entry = tokenizer_config.at("pad_token"@);
            let (token, id) = settings_of(tokenizer).padding->0;
            &&& entry is Text ==> token == entry->Text_0
            &&& !(entry is Text) ==> entry.at("content"@) == JsonTree::Text(token)
            &&& match config.at("pad_token_id"@) {
                JsonTree::Number(JsonNumber { unsigned: Some(number), .. }) => id == number
                    % 0x1_0000_0000,
                _ => match token_id(files.tokenizer_file, Seq::empty(), token) {
                    Some(own) => id == own,
                    None => id == 0,
                },
            }
        }),
        ({
            let tokenizer_config = json::json_text(files.tokenizer_config_file)->Ok_0;
            let limit = settings_of(tokenizer).truncation->0.limit;
            tokenizer_config.at("model_max_length"@) matches JsonTree::Number(number) && {
                let allowed = float::whole_single(float::narrowed(number.double));
                &&& allowed <= max_length ==> limit == allowed
                &&& max_length <= allowed ==> limit == max_length
            }
        }),
        settings_of(tokenizer).truncation->0.longest_first,
        settings_of(tokenizer).filling.length == 0,
        settings_of(tokenizer).filling.multiple == 0,
        settings_of(tokenizer).file == files.tokenizer_file,
{
}

/// The special tokens of a `special_tokens_map.json` are those of its entries, in order. An
/// entry that is a text is a token that may be part of a word, takes no white space, and is
/// looked for in normalized text. One that is an object says all of this of its `content`;
/// where it leaves something out, and where an entry is neither, it is no token.
pub proof fn each_entry_is_a_special_token(
    entries: Seq<(Seq<char>, JsonTree)>,
    key: Seq<char>,
    entry: JsonTree,
)
    ensures
        special_tokens(JsonTree::Object(Seq::empty())).len() == 0,
        !(entry is Object) ==> special_tokens(entry).len() == 0,
        ({
            let before = special_tokens(JsonTree::Object(entries));
            let after = special_tokens(JsonTree::Object(entries.push((key, entry))));
            match entry {
                JsonTree::Text(text) => {
                    &&& after.len() == before.len() + 1
                    &&& after.drop_last() == before
                    &&& after.last().content == text
                    &&& !after.last().single_word
                    &&& !after.last().lstrip
                    &&& !after.last().rstrip
                    &&& after.last().normalized
                },
                JsonTree::Object(_) => if entry.at("content"@) is Text && entry.at("single_word"@)
                    is Bool && entry.at("lstrip"@) is Bool && entry.at("rstrip"@) is Bool
                    && entry.at("normalized"@) is Bool {
                    &&& after.len() == before.len() + 1
                    &&& after.drop_last() == before
                    &&& entry.at("content"@) == JsonTree::Text(after.last().content)
                    &&& entry.at("single_word"@) == JsonTree::Bool(after.last().single_word)
                    &&& entry.at("lstrip"@) == JsonTree::Bool(after.last().lstrip)
                    &&& entry.at("rstrip"@) == JsonTree::Bool(after.last().rstrip)
                    &&& entry.at("normalized"@) == JsonTree::Bool(after.last().normalized)
                } else {
                    after == before
                },
                _ => after == before,
            }
        }),
{
    let longer = entries.push((key, entry));
    assert(longer.drop_last() =~= entries);
    assert(longer.last() == (key, entry));
    let before = special_tokens_in(entries);
    let after = special_tokens_in(longer);
    if special_token(entry) is Some {
        assert(after.drop_last() =~= before);
    }
}

/// A tokenizer that was loaded knows the special tokens of its `special_tokens_map.json`, all
/// of them and in their order, and took each of them.
pub proof fn loaded_tokenizers_know_their_special_tokens(
    tokenizer: Tokenizer,
    files: FilesModel,
    max_length: usize,
)
    requires
        loaded(Ok(tokenizer), files, max_length),
    ensures
        ({
            let tokens = special_tokens(json::json_text(files.special_tokens_map_file)->Ok_0);
            &&& settings_of(tokenizer).added == tokens
            &&& forall|i: int|
                0 <= i < tokens.len() ==> refusal(
                    files.tokenizer_file,
                    tokens.take(i),
                    #[trigger] tokens[i],
                ) is None
        }),
{
    let tokens = files_setup(files, max_length)->Ok_0.special_tokens;
    assert forall|i: int| 0 <= i < tokens.len() implies refusal(
        files.tokenizer_file,
        tokens.take(i),
        #[trigger] tokens[i],
    ) is None by {
        lemma_no_refusal(files.tokenizer_file, tokens, 0, i as nat);
    }
}

/// Where no token from the one at `start` on is refused, none of them is.
proof fn lemma_no_refusal(file: Seq<u8>, tokens: Seq<SpecialTokenModel>, start: nat, i: nat)
    requires
        first_refusal(file, tokens, start) is None,
        start <= i < tokens.len(),
    ensures
        refusal(file, tokens.take(i as int), tokens[i as int]) is None,
    decreases i - start,
{
    if start < i {
        lemma_no_refusal(file, tokens, start + 1, i);
    }
}

/// A token that the tokenizer refuses after it took the ones before it makes loading fail,
/// and the error says why it was refused.
pub proof fn refused_tokens_are_reported(
    tokenizer: Result<Tokenizer, Error>,
    files: FilesModel,
    max_length: usize,
    i: int,
)
    requires
        loaded(tokenizer, files, max_length),
        files_setup(files, max_length) is Ok,
        ({
            let tokens = special_tokens(json::json_text(files.special_tokens_map_file)->Ok_0);
            &&& 0 <= i < tokens.len()
            &&& refusal(files.tokenizer_file, tokens.take(i), tokens[i]) is Some
            &&& forall|j: int|
                0 <= j < i ==> refusal(
                    files.tokenizer_file,
                    tokens.take(j),
                    #[trigger] tokens[j],
                ) is None
        }),
    ensures
        ({
            let tokens = special_tokens(json::json_text(files.special_tokens_map_file)->Ok_0);
            tokenizer matches Err(error) && error@ == ErrorModel::TokenizerConfig(
                refusal(files.tokenizer_file, tokens.take(i), tokens[i])->0,
            )
        }),
{
    let tokens = files_setup(files, max_length)->Ok_0.special_tokens;
    lemma_refusal(files.tokenizer_file, tokens, 0, i as nat);
}

/// The first token that is refused.
proof fn lemma_refusal(file: Seq<u8>, tokens: Seq<SpecialTokenModel>, start: nat, i: nat)
    requires
        start <= i < tokens.len(),
        refusal(file, tokens.take(i as int), tokens[i as int]) is Some,
        forall|j: int|
            start <= j < i ==> refusal(file, tokens.take(j), #[trigger] tokens[j]) is None,
    ensures
        first_refusal(file, tokens, start) == refusal(
            file,
            tokens.take(i as int),
            tokens[i as int],
        ),
    decreases i - start,
{
    if start < i {
        assert(refusal(file, tokens.take(start as int), tokens[start as int]) is None);
        lemma_refusal(file, tokens, start + 1, i);
    }
}

/// Files that can be read, and that have what they must have, make a tokenizer if it refuses
/// none of its special tokens.
pub proof fn sound_files_make_a_tokenizer(
    tokenizer: Result<Tokenizer, Error>,
    files: FilesModel,
    max_length: usize,
)
    requires
        loaded(tokenizer, files, max_length),
        json::json_text(files.config_file) is Ok,
        readable(files.tokenizer_file),
        ({
            let map = json::json_text(files.special_tokens_map_file);
            let config = json::json_text(files.tokenizer_config_file);
            let tokens = special_tokens(map->Ok_0);
            &&& map is Ok && config is Ok
            &&& config->Ok_0.at("model_max_length"@) is Number
            &&& config->Ok_0.at("pad_token"@) is Text || config->Ok_0.at("pad_token"@).at(
                "content"@,
            ) is Text
            &&& forall|j: int|
                0 <= j < tokens.len() ==> refusal(
                    files.tokenizer_file,
                    tokens.take(j),
                    #[trigger] tokens[j],
                ) is None
        }),
    ensures
        tokenizer is Ok,
{
    let tokens = special_tokens(json::json_text(files.special_tokens_map_file)->Ok_0);
    lemma_nothing_refused(files.tokenizer_file, tokens, 0);
}

/// Where no token is refused, there is no refusal.
proof fn lemma_nothing_refused(file: Seq<u8>, tokens: Seq<SpecialTokenModel>, start: nat)
    requires
        forall|j: int|
            start <= j < tokens.len() ==> refusal(file, tokens.take(j), #[trigger] tokens[j])
                is None,
    ensures
        first_refusal(file, tokens, start) is None,
    decreases tokens.len() - start,
{
    if start < tokens.len() {
        assert(refusal(file, tokens.take(start as int), tokens[start as int]) is None);
        lemma_nothing_refused(file, tokens, start + 1);
    }
}

/// Loading fails where a file cannot be read, and where `tokenizer_config.json` lacks what it
/// must have. The error names the first file that cannot be read, in the order of
/// `config.json`, `special_tokens_map.json`, `tokenizer_config.json` and `tokenizer.json`,
/// and otherwise what is lacking, `model_max_length` before `pad_token`.
pub proof fn what_is_wrong_with_files_is_told(
    tokenizer: Result<Tokenizer, Error>,
    files: FilesModel,
    max_length: usize,
)
    requires
        loaded(tokenizer, files, max_length),
    ensures
        ({
            let head =
                "Error building TokenizerFiles for UserDefinedEmbeddingModel. Could not read "@;
            let config = json::json_text(files.config_file);
            let map = json::json_text(files.special_tokens_map_file);
            let tokenizer_config = json::json_text(files.tokenizer_config_file);
            let length = tokenizer_config->Ok_0.at("model_max_length"@);
            let token = tokenizer_config->Ok_0.at("pad_token"@);
            if config is Err {
                tokenizer matches Err(error) && error@ == ErrorModel::Io(
                    head + "config.json"@ + " file."@,
                )
            } else if map is Err {
                tokenizer matches Err(error) && error@ == ErrorModel::Io(
                    head + "special_tokens_map.json"@ + " file."@,
                )
            } else if tokenizer_config is Err {
                tokenizer matches Err(error) && error@ == ErrorModel::Io(
                    head + "tokenizer_config.json"@ + " file."@,
                )
            } else if !readable(files.tokenizer_file) {
                tokenizer matches Err(error) && error@ == ErrorModel::Io(
                    head + "tokenizer.json"@ + " file."@,
                )
            } else if !(length is Number) {
                tokenizer matches Err(error) && error@ == ErrorModel::TokenizerConfig(
                    "tokenizer_config.json is missing a numeric `model_max_length` field"@,
                )
            } else if !(token is Text) && !(token.at("content"@) is Text) {
                tokenizer matches Err(error) && error@ == ErrorModel::TokenizerConfig(
                    "tokenizer_config.json is missing a string `pad_token` field"@,
                )
            } else {
                files_setup(files, max_length) is Ok
            }
        }),
{
}

/// A tokenizer can be loaded where its files are no documents, which is told. Where they are,
/// its description must be one that it can be read from, unless it is a text that is no
/// document; and where the files have what they must have, the limit must leave room for the
/// tokens of the post-processor, there must be ids left for the special tokens, and the
/// normalizer must be one that can be put to them.
pub proof fn files_that_can_be_loaded(files: FilesModel, max_length: usize)
    ensures
        json::json_text(files.config_file) is Err ==> files_fit(files, max_length),
        json::json_text(files.special_tokens_map_file) is Err ==> files_fit(files, max_length),
        json::json_text(files.tokenizer_config_file) is Err ==> files_fit(files, max_length),
        json::json_text(files.config_file) is Ok && json::json_text(files.special_tokens_map_file)
            is Ok && json::json_text(files.tokenizer_config_file) is Ok ==> {
            let description = json::json_text(files.tokenizer_file)->Ok_0;
            let config = json::json_text(files.tokenizer_config_file)->Ok_0;
            let tokens = special_tokens(json::json_text(files.special_tokens_map_file)->Ok_0);
            let complete = readable(files.tokenizer_file) && config.at("model_max_length"@)
                is Number && (config.at("pad_token"@) is Text || config.at("pad_token"@).at(
                "content"@,
            ) is Text);
            let allowed = float::whole_single(
                float::narrowed(config.at("model_max_length"@)->Number_0.double),
            );
            files_fit(files, max_length) <==> {
                &&& description::can_be_read(files.tokenizer_file) || (valid_utf8(
                    files.tokenizer_file,
                ) && !json_syntax(files.tokenizer_file))
                &&& complete ==> {
                    &&& reserved(files.tokenizer_file, false) <= max_length
                    &&& reserved(files.tokenizer_file, false) <= allowed
                    &&& vocabulary::ids_left(description, tokens.len())
                    &&& forall|i: int|
                        0 <= i < tokens.len() ==> growth::normalizer_fits(
                            description.at("normalizer"@),
                            (#[trigger] tokens[i]).content,
                        )
                }
            }
        },
{
}

/// A tokenizer is loaded with care as it is without, where it can be loaded, and not at all
/// where it cannot.
pub proof fn loading_with_care_gives_the_same(
    files: TokenizerFiles,
    max_length: usize,
    tokenizer: Option<Result<Tokenizer, Error>>,
)
    requires
        call_ensures(try_load_tokenizer, (files, max_length), tokenizer),
    ensures
        files_fit(files@, max_length) ==> (tokenizer matches Some(tokenizer) && loaded(
            tokenizer,
            files@,
            max_length,
        )),
        !files_fit(files@, max_length) ==> tokenizer is None,
{
}

}
