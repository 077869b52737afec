//! Batches of tokenized inputs.

use crate::error::{Error, ErrorModel};
use crate::growth;
use crate::json;
use crate::json::Json;
use crate::parts;
use crate::parts::Part;
use crate::tensor;
use crate::tensor::{Matrix, MatrixModel};
use crate::text;
use crate::tokenizer;
use crate::tokenizer::{
    added_tokens, FilesModel, Filling, Pattern, PatternModel, Settings, SpecialTokenModel, Truncation,
};
use tokenizers::Tokenizer;
use vstd::prelude::*;

verus! {

/// An input of a model: a text, or a pair of texts.
#[derive(Debug, Clone)]
pub enum TextInput {
    Single(String),
    Pair(String, String),
}

/// What a tokenizer makes of an input.
#[derive(Debug)]
pub struct TokenEncoding {
    pub ids: Vec<u32>,
    pub type_ids: Vec<u32>,
    pub attention_mask: Vec<u32>,
}

/// One tokenized batch: tensors with a row for each input.
#[derive(Debug)]
pub struct EncodedBatch {
    pub input_ids: Matrix,
    pub attention_mask: Matrix,
    pub token_type_ids: Matrix,
}

/// An [`EncodedBatch`] with sequences.
#[verifier::ext_equal]
pub struct BatchModel {
    pub input_ids: MatrixModel,
    pub attention_mask: MatrixModel,
    pub token_type_ids: MatrixModel,
}

impl View for EncodedBatch {
    type V = BatchModel;

    open spec fn view(&self) -> BatchModel {
        BatchModel {
            input_ids: self.input_ids@,
            attention_mask: self.attention_mask@,
            token_type_ids: self.token_type_ids@,
        }
    }
}

/// Rows laid out one after another.
pub open spec fn laid_out(rows: Seq<Seq<u32>>) -> Seq<i64>
    decreases rows.len(),
{
    if rows.len() == 0 {
        seq![]
    } else {
        laid_out(rows.drop_last()) + rows.last().map_values(|x: u32| x as i64)
    }
}

/// The ids of the encodings.
pub open spec fn ids(encodings: Seq<TokenEncoding>) -> Seq<Seq<u32>> {
    encodings.map_values(|encoding: TokenEncoding| encoding.ids@)
}

/// The attention masks of the encodings.
pub open spec fn attention_masks(encodings: Seq<TokenEncoding>) -> Seq<Seq<u32>> {
    encodings.map_values(|encoding: TokenEncoding| encoding.attention_mask@)
}

/// The type ids of the encodings.
pub open spec fn type_ids(encodings: Seq<TokenEncoding>) -> Seq<Seq<u32>> {
    encodings.map_values(|encoding: TokenEncoding| encoding.type_ids@)
}

/// The batch that encodings make up, or why they do not: it has a row for each
/// encoding and a column for each token of the first one.
pub open spec fn batch_of(encodings: Seq<TokenEncoding>) -> Result<BatchModel, ErrorModel> {
    if encodings.len() == 0 {
        Err(ErrorModel::EmptyTokenizations)
    } else {
        let rows = encodings.len() as usize;
        let columns = encodings[0].ids@.len() as usize;
        match (
            tensor::matrix_of(rows, columns, laid_out(ids(encodings))),
            tensor::matrix_of(rows, columns, laid_out(attention_masks(encodings))),
            tensor::matrix_of(rows, columns, laid_out(type_ids(encodings))),
        ) {
            (Err(text), _, _) => Err(ErrorModel::InvalidShape(text)),
            (_, Err(text), _) => Err(ErrorModel::InvalidShape(text)),
            (_, _, Err(text)) => Err(ErrorModel::InvalidShape(text)),
            (Ok(input_ids), Ok(attention_mask), Ok(token_type_ids)) => Ok(
                BatchModel { input_ids, attention_mask, token_type_ids },
            ),
        }
    }
}

/// Adds a row.
fn extend(data: &mut Vec<i64>, row: &Vec<u32>)
    ensures
        final(data)@ == old(data)@ + row@.map_values(|x: u32| x as i64),
{
    let ghost before = data@;
    let mut i: usize = 0;
    assert(row@.take(0).map_values(|x: u32| x as i64) =~= seq![]);
    assert(data@ =~= before + row@.take(0).map_values(|x: u32| x as i64));
    while i < row.len()
        invariant
            i <= row@.len(),
            data@ == before + row@.take(i as int).map_values(|x: u32| x as i64),
        decreases row@.len() - i,
    {
        data.push(row[i] as i64);
        assert(row@.take(i + 1).map_values(|x: u32| x as i64) =~= row@.take(
            i as int,
        ).map_values(|x: u32| x as i64).push(row@[i as int] as i64));
        i += 1;
    }
    assert(row@.take(i as int) =~= row@);
}

/// Laying out one row more.
proof fn lemma_one_row_more(rows: Seq<Seq<u32>>, i: int)
    requires
        0 <= i < rows.len(),
    ensures
        laid_out(rows.take(i + 1)) == laid_out(rows.take(i)) + rows[i].map_values(
            |x: u32| x as i64,
        ),
{
    assert(rows.take(i + 1).drop_last() =~= rows.take(i));
    assert(rows.take(i + 1).last() == rows[i]);
}

/// Makes a batch of encodings.
pub fn encodings_to_batch(encodings: &[TokenEncoding]) -> (batch: Result<EncodedBatch, Error>)
    ensures
        match batch {
            Ok(batch) => batch_of(encodings@) == Ok::<BatchModel, ErrorModel>(batch@),
            Err(error) => batch_of(encodings@) == Err::<BatchModel, ErrorModel>(error@),
        },
{
    if encodings.len() == 0 {
        return Err(Error::EmptyTokenizations);
    }
    let rows: usize = encodings.len();
    let columns: usize = encodings[0].ids.len();
    let mut all_ids: Vec<i64> = Vec::new();
    let mut all_masks: Vec<i64> = Vec::new();
    let mut all_types: Vec<i64> = Vec::new();
    let mut i: usize = 0;
    assert(all_ids@ =~= laid_out(ids(encodings@).take(0)));
    assert(all_masks@ =~= laid_out(attention_masks(encodings@).take(0)));
    assert(all_types@ =~= laid_out(type_ids(encodings@).take(0)));
    while i < encodings.len()
        invariant
            i <= encodings@.len(),
            all_ids@ == laid_out(ids(encodings@).take(i as int)),
            all_masks@ == laid_out(attention_masks(encodings@).take(i as int)),
            all_types@ == laid_out(type_ids(encodings@).take(i as int)),
        decreases encodings@.len() - i,
    {
        extend(&mut all_ids, &encodings[i].ids);
        extend(&mut all_masks, &encodings[i].attention_mask);
        extend(&mut all_types, &encodings[i].type_ids);
        proof {
            lemma_one_row_more(ids(encodings@), i as int);
            lemma_one_row_more(attention_masks(encodings@), i as int);
            lemma_one_row_more(type_ids(encodings@), i as int);
        }
        i += 1;
    }
    proof {
        assert(ids(encodings@).take(i as int) =~= ids(encodings@));
        assert(attention_masks(encodings@).take(i as int) =~= attention_masks(encodings@));
        assert(type_ids(encodings@).take(i as int) =~= type_ids(encodings@));
    }
    let input_ids = match tensor::from_shape_vec(rows, columns, all_ids) {
        Ok(matrix) => matrix,
        Err(text) => return Err(Error::InvalidShape(text)),
    };
    let attention_mask = match tensor::from_shape_vec(rows, columns, all_masks) {
        Ok(matrix) => matrix,
        Err(text) => return Err(Error::InvalidShape(text)),
    };
    let token_type_ids = match tensor::from_shape_vec(rows, columns, all_types) {
        Ok(matrix) => matrix,
        Err(text) => return Err(Error::InvalidShape(text)),
    };
    Ok(EncodedBatch { input_ids, attention_mask, token_type_ids })
}

/// Whether an encoding says of each of its tokens all that there is to say.
pub open spec fn complete(encoding: TokenEncoding) -> bool {
    encoding.type_ids@.len() == encoding.ids@.len() && encoding.attention_mask@.len()
        == encoding.ids@.len()
}

/// Whether encodings are complete and have as many tokens each.
pub open spec fn even(encodings: Seq<TokenEncoding>) -> bool {
    forall|i: int|
        0 <= i < encodings.len() ==> complete(#[trigger] encodings[i]) && encodings[i].ids@.len()
            == encodings[0].ids@.len()
}

/// Rows of one length, laid out one after another.
proof fn lemma_even_rows(rows: Seq<Seq<u32>>, length: nat)
    requires
        forall|i: int| 0 <= i < rows.len() ==> (#[trigger] rows[i]).len() == length,
    ensures
        laid_out(rows).len() == rows.len() * length,
        forall|row: int, column: int|
            0 <= row < rows.len() && 0 <= column < length ==> #[trigger] laid_out(rows)[row * length
                + column] == #[trigger] rows[row][column],
    decreases rows.len(),
{
    if rows.len() > 0 {
        let before = rows.drop_last();
        lemma_even_rows(before, length);
        assert(rows.len() * length == before.len() * length + length) by (nonlinear_arith)
            requires
                rows.len() == before.len() + 1,
        ;
        assert forall|row: int, column: int|
            0 <= row < rows.len() && 0 <= column < length implies #[trigger] laid_out(rows)[row
            * length + column] == #[trigger] rows[row][column] by {
            if row < before.len() {
                assert(0 <= row * length + column < before.len() * length) by (nonlinear_arith)
                    requires
                        0 <= row < before.len(),
                        0 <= column < length,
                ;
                assert(laid_out(before)[row * length + column] == before[row][column]);
            } else {
                assert(row * length == before.len() * length);
            }
        }
    }
}

/// Encodings of one length make up a batch: its tensors have a row for each encoding
/// and a column for each token, and hold there what the encoding says of the token.
pub proof fn batch_keeps_every_token(
    encodings: Seq<TokenEncoding>,
    row: int,
    column: int,
)
    requires
        even(encodings),
        0 <= row < encodings.len() <= usize::MAX,
        encodings[0].ids@.len() <= usize::MAX,
        tensor::plane_fits(encodings.len() as usize, encodings[0].ids@.len() as usize),
        0 <= column < encodings[row].ids@.len(),
    ensures
        batch_of(encodings) matches Ok(batch) && {
            &&& batch.input_ids.rows == encodings.len()
            &&& batch.input_ids.columns == encodings[0].ids@.len()
            &&& batch.attention_mask.rows == encodings.len()
            &&& batch.attention_mask.columns == encodings[0].ids@.len()
            &&& batch.token_type_ids.rows == encodings.len()
            &&& batch.token_type_ids.columns == encodings[0].ids@.len()
            &&& batch.input_ids.at(row, column) == encodings[row].ids@[column]
            &&& batch.attention_mask.at(row, column) == encodings[row].attention_mask@[column]
            &&& batch.token_type_ids.at(row, column) == encodings[row].type_ids@[column]
        },
{
    let length = encodings[0].ids@.len();
    lemma_even_rows(ids(encodings), length);
    lemma_even_rows(attention_masks(encodings), length);
    lemma_even_rows(type_ids(encodings), length);
    assert(complete(encodings[row]));
    assert(ids(encodings)[row][column] == encodings[row].ids@[column]);
    assert(attention_masks(encodings)[row][column] == encodings[row].attention_mask@[column]);
    assert(type_ids(encodings)[row][column] == encodings[row].type_ids@[column]);
}

/// Encodings of one length fail to make up a batch only where there are none, or
/// where no array may have the shape.
pub proof fn even_encodings_make_a_batch(encodings: Seq<TokenEncoding>)
    requires
        even(encodings),
        0 < encodings.len() <= usize::MAX,
        encodings[0].ids@.len() <= usize::MAX,
        tensor::plane_fits(encodings.len() as usize, encodings[0].ids@.len() as usize),
    ensures
        batch_of(encodings) is Ok,
{
    let length = encodings[0].ids@.len();
    lemma_even_rows(ids(encodings), length);
    lemma_even_rows(attention_masks(encodings), length);
    lemma_even_rows(type_ids(encodings), length);
}

/// Whether the first `own` tokens of an encoding are its own, and the others fill it
/// up with `pad_id`.
pub open spec fn filled_from(encoding: TokenEncoding, own: nat, pad_id: u32) -> bool {
    &&& own <= encoding.ids@.len()
    &&& forall|k: int|
        0 <= k < encoding.ids@.len() ==> #[trigger] encoding.attention_mask@[k] == (if k < own {
            1
        } else {
            0u32
        })
    &&& forall|k: int|
        own <= k < encoding.ids@.len() ==> #[trigger] encoding.ids@[k] == pad_id
            && encoding.type_ids@[k] == 0
}

/// Whether the shorter encodings are filled up with `pad_id` until they are as long as
/// the longest.
pub open spec fn filled_up(encodings: Seq<TokenEncoding>, pad_id: u32) -> bool {
    &&& even(encodings)
    &&& forall|i: int|
        0 <= i < encodings.len() ==> exists|own: nat|
            filled_from(#[trigger] encodings[i], own, pad_id)
    &&& encodings.len() > 0 ==> exists|i: int|
        0 <= i < encodings.len() && filled_from(
            #[trigger] encodings[i],
            encodings[i].ids@.len(),
            pad_id,
        )
}

/// Whether at most the first `most` tokens of an encoding are its own, and the others fill
/// it up with `pad_id`.
pub open spec fn keeps_to(encoding: TokenEncoding, most: nat, pad_id: u32) -> bool {
    exists|own: nat| own <= most && #[trigger] filled_from(encoding, own, pad_id)
}

/// Whether an input can be truncated. The limit leaves room for the tokens that the
/// post-processor adds, and each part that a longer text is cut into is longer than what
/// it has in common with the next one.
pub open spec fn can_truncate(truncation: Truncation, reserved: usize, pair: bool) -> bool {
    let room = truncation.limit - reserved;
    &&& room >= 0
    &&& room == 0 || (if pair {
        truncation.stride == 0 || (truncation.longest_first && truncation.stride < room / 2)
    } else {
        truncation.stride < room
    })
}

/// Whether the inputs can be truncated as a tokenizer is set to.
pub open spec fn can_truncate_all(settings: Settings, inputs: Seq<TextInput>) -> bool {
    settings.truncation matches Some(truncation) ==> forall|i: int|
        0 <= i < inputs.len() ==> can_truncate(
            truncation,
            tokenizer::reserved(settings.file, #[trigger] inputs[i] is Pair),
            inputs[i] is Pair,
        )
}

/// Whether the regular expressions of a tokenizer that is read from `file` are bounded with
/// what they come across in a text.
pub open spec fn text_fits(file: Seq<u8>, text: Seq<char>) -> bool {
    let normalizer = tokenizer::normalizer_of(file);
    growth::normalizer_fits(normalizer, text) && growth::pre_tokenizer_fits(
        normalizer,
        tokenizer::pre_tokenizer_of(file),
        text,
    )
}

/// Whether the regular expressions of a tokenizer that is read from `file` are bounded with
/// what they come across in an input.
pub open spec fn input_fits(file: Seq<u8>, input: TextInput) -> bool {
    match input {
        TextInput::Single(text) => text_fits(file, text@),
        TextInput::Pair(first, second) => text_fits(file, first@) && text_fits(file, second@),
    }
}

/// Whether a tokenizer can put its parts to the inputs and truncate them.
pub open spec fn inputs_fit(settings: Settings, inputs: Seq<TextInput>) -> bool {
    &&& can_truncate_all(settings, inputs)
    &&& forall|i: int| 0 <= i < inputs.len() ==> input_fits(settings.file, #[trigger] inputs[i])
}

/// The text that a tokenizer looks for: a token in its normalized form, or as it was added.
pub open spec fn sought(pattern: PatternModel) -> Seq<char> {
    if pattern.normalized {
        pattern.form
    } else {
        pattern.content
    }
}

/// Whether a tokenizer can look for a token: what it looks for is not empty, and not white
/// space that takes the white space before it, but not that after it. What follows a token
/// that took the white space after it would then end before it starts.
pub open spec fn can_look_for(pattern: PatternModel) -> bool {
    sought(pattern) != ""@ && (pattern.lstrip && !pattern.rstrip ==> text::trimmed(sought(pattern))
        != ""@)
}

/// Whether memory can hold an input that is filled up: what is said of a token takes less
/// than 128 bytes.
pub open spec fn can_fill(filling: Filling) -> bool {
    128 * (filling.length + filling.multiple) <= isize::MAX
}

/// Whether a tokenizer can encode texts: its parts are in order, its post-processor has
/// one template at most, it can look for all that it looks for, and fill up inputs.
pub open spec fn parts_fit(settings: Settings) -> bool {
    let post_processor = tokenizer::post_processor_of(settings.file);
    &&& can_fill(settings.filling)
    &&& parts::in_order(Part::Normalizer, tokenizer::normalizer_of(settings.file))
    &&& parts::in_order(Part::PreTokenizer, tokenizer::pre_tokenizer_of(settings.file))
    &&& parts::in_order(Part::PostProcessor, post_processor)
    &&& parts::templates(post_processor) <= 1
    &&& forall|pattern: PatternModel| #[trigger]
        tokenizer::patterns_of(settings.file, settings.added).contains(pattern) ==> can_look_for(
            pattern,
        )
}

/// The texts of inputs.
pub open spec fn texts(inputs: Seq<TextInput>) -> Seq<(Seq<char>, Option<Seq<char>>)> {
    inputs.map_values(
        |input: TextInput|
            match input {
                TextInput::Single(text) => (text@, None::<Seq<char>>),
                TextInput::Pair(first, second) => (first@, Some(second@)),
            },
    )
}

/// The ids, the type ids and the attention masks of encodings.
pub open spec fn encoding_models(encodings: Seq<TokenEncoding>) -> Seq<
    (Seq<u32>, Seq<u32>, Seq<u32>),
> {
    encodings.map_values(
        |encoding: TokenEncoding|
            (encoding.ids@, encoding.type_ids@, encoding.attention_mask@),
    )
}

/// Whether `encode_batch` of a tokenizer may give `outcome` for texts and pairs of them:
/// the ids, the type ids and the attention mask of each, or what its error says. The
/// tokenizer is given by the text that it was read from, the special tokens that were
/// added since, and how it truncates and fills up.
pub uninterp spec fn may_encode_to(
    file: Seq<u8>,
    added: Seq<SpecialTokenModel>,
    truncation: Option<Truncation>,
    padding: Option<(Seq<char>, u32)>,
    texts: Seq<(Seq<char>, Option<Seq<char>>)>,
    outcome: Result<Seq<(Seq<u32>, Seq<u32>, Seq<u32>)>, Seq<char>>,
) -> bool;

/// Whether a tokenizer may give `outcome` for inputs.
pub open spec fn may_give(
    settings: Settings,
    inputs: Seq<TextInput>,
    outcome: Result<Seq<(Seq<u32>, Seq<u32>, Seq<u32>)>, Seq<char>>,
) -> bool {
    may_encode_to(
        settings.file,
        settings.added,
        settings.truncation,
        settings.padding,
        texts(inputs),
        outcome,
    )
}

/// Whether no encoding has more tokens of its own than the limit of a tokenizer that fills
/// up and truncates, and whose post-processor uses no text more than once.
pub open spec fn keep_to_limit(settings: Settings, encodings: Seq<TokenEncoding>) -> bool {
    match (settings.padding, settings.truncation) {
        (Some((_, pad_id)), Some(truncation)) => parts::uses_texts_once(
            tokenizer::post_processor_of(settings.file),
        ) ==> forall|i: int|
            0 <= i < encodings.len() ==> keeps_to(
                #[trigger] encodings[i],
                truncation.limit as nat,
                pad_id,
            ),
        _ => true,
    }
}

/// What holds of the encodings of inputs.
pub open spec fn encodes(
    settings: Settings,
    inputs: Seq<TextInput>,
    encodings: Seq<TokenEncoding>,
) -> bool {
    &&& may_give(settings, inputs, Ok(encoding_models(encodings)))
    &&& encodings.len() == inputs.len()
    &&& forall|i: int| 0 <= i < encodings.len() ==> complete(#[trigger] encodings[i])
    &&& settings.padding matches Some((_, pad_id)) ==> filled_up(encodings, pad_id)
    &&& keep_to_limit(settings, encodings)
}

/// `encode_batch` of `tokenizers::Tokenizer`, with special tokens: gives what the
/// tokenizer may give for the inputs, an encoding for each of them, filled up as the
/// tokenizer is set to, and nothing for no inputs. Where the tokenizer truncates, and its
/// post-processor uses no text more than once, no input has more tokens of its own than
/// the limit. Which tokens an input has is left to
/// the relation, as models may drop merges at random. The function panics where the
/// tokenizer cannot encode texts, where an input cannot be truncated, or where a regular
/// expression of the tokenizer exceeds the retries that its engine allows on an input.
#[verifier::external_body]
fn encode(tokenizer: &Tokenizer, inputs: Vec<TextInput>) -> (encodings: Result<
    Vec<TokenEncoding>,
    String,
>)
    requires
        parts_fit(tokenizer::settings_of(*tokenizer)),
        inputs_fit(tokenizer::settings_of(*tokenizer), inputs@),
    ensures
        may_encode_to(
            tokenizer::settings_of(*tokenizer).file,
            tokenizer::settings_of(*tokenizer).added,
            tokenizer::settings_of(*tokenizer).truncation,
            tokenizer::settings_of(*tokenizer).padding,
            texts(inputs@),
            match encodings {
                Ok(encodings) => Ok(encoding_models(encodings@)),
                Err(text) => Err(text@),
            },
        ),
        encodings matches Ok(encodings) ==> encodes(
            tokenizer::settings_of(*tokenizer),
            inputs@,
            encodings@,
        ),
        inputs@.len() == 0 ==> encodings is Ok,
{
    let inputs: Vec<tokenizers::EncodeInput> = inputs.into_iter().map(|input| match input {
        TextInput::Single(text) => text.into(),
        TextInput::Pair(first, second) => (first, second).into(),
    }).collect();
    let encodings = tokenizer.encode_batch(inputs, true).map_err(|error| error.to_string())?;
    Ok(encodings.iter().map(|encoding| TokenEncoding {
        ids: encoding.get_ids().to_vec(),
        type_ids: encoding.get_type_ids().to_vec(),
        attention_mask: encoding.get_attention_mask().to_vec(),
    }).collect())
}

/// Whether a batch, or an error, may come out when inputs are tokenized.
pub open spec fn encoded(
    settings: Settings,
    inputs: Seq<TextInput>,
    batch: Result<EncodedBatch, Error>,
) -> bool {
    match batch {
        Ok(batch) => exists|encodings: Seq<TokenEncoding>| #[trigger]
            encodes(settings, inputs, encodings) && batch_of(encodings) == Ok::<
                BatchModel,
                ErrorModel,
            >(batch@),
        Err(error) => {
            ||| inputs.len() > 0 && exists|reason: Seq<char>| #[trigger]
                may_give(settings, inputs, Err(reason)) && error@ == ErrorModel::Tokenization(
                    "Failed to encode the batch: "@ + reason,
                )
            ||| exists|encodings: Seq<TokenEncoding>| #[trigger]
                encodes(settings, inputs, encodings) && batch_of(encodings) == Err::<
                    BatchModel,
                    ErrorModel,
                >(error@)
        },
    }
}

/// Tokenizes inputs into a batch.
pub fn encode_batch(tokenizer: &Tokenizer, inputs: Vec<TextInput>) -> (batch: Result<
    EncodedBatch,
    Error,
>)
    requires
        parts_fit(tokenizer::settings_of(*tokenizer)),
        inputs_fit(tokenizer::settings_of(*tokenizer), inputs@),
    ensures
        encoded(tokenizer::settings_of(*tokenizer), inputs@, batch),
{
    let ghost all = inputs@;
    match encode(tokenizer, inputs) {
        Ok(encodings) => encodings_to_batch(encodings.as_slice()),
        Err(text) => {
            assert(may_give(tokenizer::settings_of(*tokenizer), all, Err(text@)));
            Err(Error::Tokenization(text::joined("Failed to encode the batch: ", text.as_str())))
        },
    }
}

/// Whether a tokenizer can look for all tokens of a list.
fn check_patterns(patterns: &Vec<Pattern>) -> (fits: bool)
    ensures
        fits == (forall|pattern: PatternModel| #[trigger]
            tokenizer::pattern_models(patterns@).to_set().contains(pattern) ==> can_look_for(
                pattern,
            )),
{
    let ghost all = tokenizer::pattern_models(patterns@);
    let mut i: usize = 0;
    while i < patterns.len()
        invariant
            i <= patterns@.len(),
            all == tokenizer::pattern_models(patterns@),
            forall|j: int| 0 <= j < i ==> can_look_for(#[trigger] all[j]),
        decreases patterns@.len() - i,
    {
        let pattern = &patterns[i];
        assert(all[i as int] == pattern@);
        let text = if pattern.normalized {
            pattern.form.as_str()
        } else {
            pattern.content.as_str()
        };
        if text::same_text(text, "") || (pattern.lstrip && !pattern.rstrip && text::same_text(
            text::trim(text).as_str(),
            "",
        )) {
            assert(all.to_set().contains(all[i as int]));
            return false;
        }
        i += 1;
    }
    assert forall|pattern: PatternModel| #[trigger]
        all.to_set().contains(pattern) implies can_look_for(pattern) by {
        let j = choose|j: int| 0 <= j < all.len() && all[j] == pattern;
        assert(can_look_for(all[j]));
    }
    true
}

/// Whether a tokenizer can encode texts.
fn check_parts(tokenizer: &Tokenizer) -> (fits: bool)
    ensures
        fits == parts_fit(tokenizer::settings_of(*tokenizer)),
{
    let filling = tokenizer::filling(tokenizer);
    if 128 * (filling.length as u128 + filling.multiple as u128) > isize::MAX as u128 {
        return false;
    }
    let normalizer = json::document(&tokenizer::normalizer(tokenizer));
    let pre_tokenizer = json::document(&tokenizer::pre_tokenizer(tokenizer));
    let post_processor = json::document(&tokenizer::post_processor(tokenizer));
    parts::check_part(Part::Normalizer, &normalizer) && parts::check_part(
        Part::PreTokenizer,
        &pre_tokenizer,
    ) && parts::check_part(Part::PostProcessor, &post_processor) && parts::count_templates(
        &post_processor,
    ) <= 1 && check_patterns(&tokenizer::patterns(tokenizer))
}

/// Whether the regular expressions of a normalizer and a pre-tokenizer are bounded with what
/// they come across in a text.
fn check_text(normalizer: &Json, pre_tokenizer: &Json, text: &str) -> (fits: bool)
    ensures
        fits == (growth::normalizer_fits(normalizer@, text@) && growth::pre_tokenizer_fits(
            normalizer@,
            pre_tokenizer@,
            text@,
        )),
{
    growth::check_normalizer(normalizer, text) && growth::check_pre_tokenizer(
        normalizer,
        pre_tokenizer,
        text,
    )
}

/// Whether an input can be truncated.
fn check_truncation(truncation: Truncation, reserved: usize, pair: bool) -> (fits: bool)
    ensures
        fits == can_truncate(truncation, reserved, pair),
{
    if reserved > truncation.limit {
        return false;
    }
    let room: usize = truncation.limit - reserved;
    room == 0 || if pair {
        truncation.stride == 0 || (truncation.longest_first && truncation.stride < room / 2)
    } else {
        truncation.stride < room
    }
}

/// Whether the inputs can be truncated as a tokenizer is set to.
fn check_truncations(tokenizer: &Tokenizer, inputs: &Vec<TextInput>) -> (fits: bool)
    ensures
        fits == can_truncate_all(tokenizer::settings_of(*tokenizer), inputs@),
{
    let truncation = match tokenizer::truncation(tokenizer) {
        Some(truncation) => truncation,
        None => return true,
    };
    let ghost settings = tokenizer::settings_of(*tokenizer);
    let single: usize = added_tokens(tokenizer, false);
    let pair: usize = added_tokens(tokenizer, true);
    let mut i: usize = 0;
    while i < inputs.len()
        invariant
            i <= inputs@.len(),
            settings == tokenizer::settings_of(*tokenizer),
            settings.truncation == Some(truncation),
            single == tokenizer::reserved(settings.file, false),
            pair == tokenizer::reserved(settings.file, true),
            forall|j: int|
                0 <= j < i ==> can_truncate(
                    truncation,
                    tokenizer::reserved(settings.file, #[trigger] inputs@[j] is Pair),
                    inputs@[j] is Pair,
                ),
        decreases inputs@.len() - i,
    {
        let fits: bool = match &inputs[i] {
            TextInput::Single(_) => check_truncation(truncation, single, false),
            TextInput::Pair(_, _) => check_truncation(truncation, pair, true),
        };
        assert(fits == can_truncate(
            truncation,
            tokenizer::reserved(settings.file, inputs@[i as int] is Pair),
            inputs@[i as int] is Pair,
        ));
        if !fits {
            return false;
        }
        i += 1;
    }
    true
}

/// Whether a tokenizer can put its parts to the inputs and truncate them.
fn check_inputs(tokenizer: &Tokenizer, inputs: &Vec<TextInput>) -> (fits: bool)
    ensures
        fits == inputs_fit(tokenizer::settings_of(*tokenizer), inputs@),
{
    if !check_truncations(tokenizer, inputs) {
        return false;
    }
    let ghost file = tokenizer::settings_of(*tokenizer).file;
    let normalizer = json::document(&tokenizer::normalizer(tokenizer));
    let pre_tokenizer = json::document(&tokenizer::pre_tokenizer(tokenizer));
    let mut i: usize = 0;
    while i < inputs.len()
        invariant
            i <= inputs@.len(),
            file == tokenizer::settings_of(*tokenizer).file,
            normalizer@ == tokenizer::normalizer_of(file),
            pre_tokenizer@ == tokenizer::pre_tokenizer_of(file),
            forall|j: int| 0 <= j < i ==> input_fits(file, #[trigger] inputs@[j]),
        decreases inputs@.len() - i,
    {
        let fits: bool = match &inputs[i] {
            TextInput::Single(text) => check_text(&normalizer, &pre_tokenizer, text.as_str()),
            TextInput::Pair(first, second) => check_text(
                &normalizer,
                &pre_tokenizer,
                first.as_str(),
            ) && check_text(&normalizer, &pre_tokenizer, second.as_str()),
        };
        assert(fits == input_fits(file, inputs@[i as int]));
        if !fits {
            return false;
        }
        i += 1;
    }
    true
}

/// Tokenizes inputs into a batch as [`encode_batch`] does, but gives nothing where the
/// tokenizer cannot encode texts, where an input cannot be truncated, or where a regular
/// expression may have to try too often on an input.
pub fn try_encode_batch(tokenizer: &Tokenizer, inputs: Vec<TextInput>) -> (batch: Option<
    Result<EncodedBatch, Error>,
>)
    ensures
        ({
            let settings = tokenizer::settings_of(*tokenizer);
            match batch {
                Some(batch) => parts_fit(settings) && inputs_fit(settings, inputs@) && encoded(
                    settings,
                    inputs@,
                    batch,
                ),
                None => !parts_fit(settings) || !inputs_fit(settings, inputs@),
            }
        }),
{
    if check_parts(tokenizer) && check_inputs(tokenizer, &inputs) {
        Some(encode_batch(tokenizer, inputs))
    } else {
        None
    }
}

/// A tokenizer that fills up batches never gives one of uneven rows: what it encodes
/// makes up a batch with a row for each input, unless there is no input or no array
/// may have the shape.
pub proof fn filled_up_inputs_make_a_batch(
    settings: Settings,
    inputs: Seq<TextInput>,
    encodings: Seq<TokenEncoding>,
)
    requires
        settings.padding is Some,
        encodes(settings, inputs, encodings),
        encodings.len() <= usize::MAX,
        encodings.len() > 0 ==> encodings[0].ids@.len() <= usize::MAX && tensor::plane_fits(
            encodings.len() as usize,
            encodings[0].ids@.len() as usize,
        ),
    ensures
        inputs.len() == 0 ==> batch_of(encodings) == Err::<BatchModel, ErrorModel>(
            ErrorModel::EmptyTokenizations,
        ),
        inputs.len() > 0 ==> (batch_of(encodings) matches Ok(batch) && batch.input_ids.rows
            == inputs.len() && batch.attention_mask.rows == inputs.len()
            && batch.token_type_ids.rows == inputs.len()),
{
    if inputs.len() > 0 {
        even_encodings_make_a_batch(encodings);
    }
}

/// The rows of a batch are no longer than the limit of a tokenizer that truncates and
/// fills up, and whose post-processor uses no text more than once.
pub proof fn rows_keep_to_the_limit(
    settings: Settings,
    inputs: Seq<TextInput>,
    encodings: Seq<TokenEncoding>,
)
    requires
        settings.padding is Some,
        settings.truncation is Some,
        parts::uses_texts_once(tokenizer::post_processor_of(settings.file)),
        encodes(settings, inputs, encodings),
        encodings.len() > 0,
    ensures
        encodings[0].ids@.len() <= settings.truncation->0.limit,
        batch_of(encodings) matches Ok(batch) ==> batch.input_ids.columns
            <= settings.truncation->0.limit,
{
    let pad_id = (settings.padding->0).1;
    let limit = settings.truncation->0.limit as nat;
    let i = choose|i: int|
        0 <= i < encodings.len() && filled_from(
            #[trigger] encodings[i],
            encodings[i].ids@.len(),
            pad_id,
        );
    let encoding = encodings[i];
    assert(keeps_to(encoding, limit, pad_id));
    let own = choose|own: nat| own <= limit && #[trigger] filled_from(encoding, own, pad_id);
    if own < encoding.ids@.len() {
        assert(encoding.attention_mask@[own as int] == 1);
        assert(encoding.attention_mask@[own as int] == 0);
    }
}

/// The rows of a batch of a tokenizer that was loaded have no more tokens than
/// `max_length`, if its post-processor uses no text more than once.
pub proof fn loaded_tokenizers_keep_to_the_limit(
    tokenizer: Tokenizer,
    files: FilesModel,
    max_length: usize,
    inputs: Seq<TextInput>,
    encodings: Seq<TokenEncoding>,
)
    requires
        tokenizer::loaded(Ok(tokenizer), files, max_length),
        parts::uses_texts_once(tokenizer::post_processor_of(files.tokenizer_file)),
        encodes(tokenizer::settings_of(tokenizer), inputs, encodings),
        encodings.len() > 0,
    ensures
        encodings[0].ids@.len() <= max_length,
{
    rows_keep_to_the_limit(tokenizer::settings_of(tokenizer), inputs, encodings);
}

/// What fills up a row is masked out, and carries the id that the tokenizer is set to;
/// what does not is the input's own.
pub proof fn padding_is_masked(
    settings: Settings,
    inputs: Seq<TextInput>,
    encodings: Seq<TokenEncoding>,
    row: int,
    column: int,
)
    requires
        settings.padding is Some,
        encodes(settings, inputs, encodings),
        0 <= row < encodings.len() <= usize::MAX,
        encodings[0].ids@.len() <= usize::MAX,
        tensor::plane_fits(encodings.len() as usize, encodings[0].ids@.len() as usize),
        0 <= column < encodings[0].ids@.len(),
    ensures
        batch_of(encodings) matches Ok(batch) && {
            let mask = batch.attention_mask.at(row, column);
            &&& mask == 0 || mask == 1
            &&& mask == 0 ==> batch.input_ids.at(row, column) == (settings.padding->0).1
                && batch.token_type_ids.at(row, column) == 0
            &&& mask == 0 ==> forall|later: int|
                column <= later < encodings[0].ids@.len()
                    ==> #[trigger] batch.attention_mask.at(row, later) == 0
        },
{
    let pad_id = (settings.padding->0).1;
    assert(encodings[row].ids@.len() == encodings[0].ids@.len());
    batch_keeps_every_token(encodings, row, column);
    let own = choose|own: nat| filled_from(encodings[row], own, pad_id);
    assert(filled_from(encodings[row], own, pad_id));
    let batch = batch_of(encodings)->Ok_0;
    assert(encodings[row].attention_mask@[column] == (if column < own {
        1
    } else {
        0u32
    }));
    assert(column >= own ==> encodings[row].ids@[column] == pad_id);
    if column >= own {
        assert forall|later: int|
            column <= later < encodings[0].ids@.len() implies #[trigger] batch.attention_mask.at(
            row,
            later,
        ) == 0 by {
            batch_keeps_every_token(encodings, row, later);
            assert(encodings[row].attention_mask@[later] == (if later < own {
                1
            } else {
                0u32
            }));
        }
    }
}

/// The tensors that a model takes, under their names.
pub open spec fn named(inputs: Seq<(String, Matrix)>) -> Seq<(Seq<char>, MatrixModel)> {
    inputs.map_values(|input: (String, Matrix)| (input.0@, input.1@))
}

/// The tensors of a batch that a model asks for.
pub open spec fn asked_for(batch: BatchModel, mask: bool, types: bool) -> Seq<
    (Seq<char>, MatrixModel),
> {
    let ids = seq![("input_ids"@, batch.input_ids)];
    let with_mask = if mask {
        ids.push(("attention_mask"@, batch.attention_mask))
    } else {
        ids
    };
    if types {
        with_mask.push(("token_type_ids"@, batch.token_type_ids))
    } else {
        with_mask
    }
}

/// A batch whose type ids are handed out.
pub open spec fn without_types(batch: BatchModel) -> BatchModel {
    BatchModel {
        token_type_ids: MatrixModel { rows: 0, columns: 0, data: Seq::empty() },
        ..batch
    }
}

impl EncodedBatch {
    /// The inputs of a session. The type ids are moved out and attached only when the
    /// model declares them; ids and attention mask stay with the batch.
    pub fn session_inputs(&mut self, need_token_type_ids: bool) -> (inputs: Vec<(String, Matrix)>)
        ensures
            named(inputs@) == asked_for(old(self)@, true, need_token_type_ids),
            final(self)@ == (if need_token_type_ids {
                without_types(old(self)@)
            } else {
                old(self)@
            }),
            inputs@.len() == 2 + (if need_token_type_ids {
                1int
            } else {
                0
            }),
            inputs@[0].0@ == "input_ids"@,
            inputs@[0].1.rows == old(self).input_ids.rows,
            inputs@[0].1.columns == old(self).input_ids.columns,
            inputs@[0].1.data@ == old(self).input_ids.data@,
            inputs@[1].0@ == "attention_mask"@,
            inputs@[1].1.rows == old(self).attention_mask.rows,
            inputs@[1].1.columns == old(self).attention_mask.columns,
            inputs@[1].1.data@ == old(self).attention_mask.data@,
            need_token_type_ids ==> {
                &&& inputs@.last().0@ == "token_type_ids"@
                &&& inputs@.last().1.rows == old(self).token_type_ids.rows
                &&& inputs@.last().1.columns == old(self).token_type_ids.columns
                &&& inputs@.last().1.data@ == old(self).token_type_ids.data@
            },
            final(self).input_ids == old(self).input_ids,
            final(self).attention_mask == old(self).attention_mask,
            !need_token_type_ids ==> final(self).token_type_ids == old(self).token_type_ids,
            need_token_type_ids ==> final(self).token_type_ids.data@.len() == 0
                && final(self).token_type_ids.rows == 0 && final(self).token_type_ids.columns == 0,
    {
        self.session_inputs_with_attention_mask(true, need_token_type_ids)
    }

    /// The inputs of a session, with the attention mask only when the model declares
    /// it.
    pub fn session_inputs_with_attention_mask(
        &mut self,
        need_attention_mask: bool,
        need_token_type_ids: bool,
    ) -> (inputs: Vec<(String, Matrix)>)
        ensures
            named(inputs@) == asked_for(old(self)@, need_attention_mask, need_token_type_ids),
            final(self)@ == (if need_token_type_ids {
                without_types(old(self)@)
            } else {
                old(self)@
            }),
            inputs@.len() == 1 + (if need_attention_mask {
                1int
            } else {
                0
            }) + (if need_token_type_ids {
                1int
            } else {
                0
            }),
            inputs@[0].0@ == "input_ids"@,
            inputs@[0].1.rows == old(self).input_ids.rows,
            inputs@[0].1.columns == old(self).input_ids.columns,
            inputs@[0].1.data@ == old(self).input_ids.data@,
            need_attention_mask ==> {
                &&& inputs@[1].0@ == "attention_mask"@
                &&& inputs@[1].1.rows == old(self).attention_mask.rows
                &&& inputs@[1].1.columns == old(self).attention_mask.columns
                &&& inputs@[1].1.data@ == old(self).attention_mask.data@
            },
            need_token_type_ids ==> {
                &&& inputs@.last().0@ == "token_type_ids"@
                &&& inputs@.last().1.rows == old(self).token_type_ids.rows
                &&& inputs@.last().1.columns == old(self).token_type_ids.columns
                &&& inputs@.last().1.data@ == old(self).token_type_ids.data@
            },
            final(self).input_ids == old(self).input_ids,
            final(self).attention_mask == old(self).attention_mask,
            !need_token_type_ids ==> final(self).token_type_ids == old(self).token_type_ids,
            need_token_type_ids ==> final(self).token_type_ids.data@.len() == 0
                && final(self).token_type_ids.rows == 0 && final(self).token_type_ids.columns == 0,
    {
        let mut inputs: Vec<(String, Matrix)> = Vec::new();
        inputs.push(("input_ids".to_string(), self.input_ids.copy()));
        if need_attention_mask {
            inputs.push(("attention_mask".to_string(), self.attention_mask.copy()));
        }
        if need_token_type_ids {
            let mut token_type_ids = Matrix::empty();
            std::mem::swap(&mut token_type_ids, &mut self.token_type_ids);
            inputs.push(("token_type_ids".to_string(), token_type_ids));
        }
        assert(named(inputs@) =~= asked_for(old(self)@, need_attention_mask, need_token_type_ids));
        inputs
    }
}

/// A model that asks for the attention mask gets it right after the ids, under its name and
/// with its rows, columns and values; one that asks for the type ids gets them last, under
/// theirs. It gets nothing that it does not ask for.
pub proof fn sessions_get_each_tensor_under_its_name(batch: BatchModel, mask: bool, types: bool)
    ensures
        asked_for(batch, mask, types).len() == 1 + (if mask {
            1int
        } else {
            0
        }) + (if types {
            1int
        } else {
            0
        }),
        asked_for(batch, mask, types)[0].0 == "input_ids"@,
        asked_for(batch, mask, types)[0].1.rows == batch.input_ids.rows,
        asked_for(batch, mask, types)[0].1.columns == batch.input_ids.columns,
        asked_for(batch, mask, types)[0].1.data == batch.input_ids.data,
        mask ==> {
            let (name, tensor) = asked_for(batch, mask, types)[1];
            &&& name == "attention_mask"@
            &&& tensor.rows == batch.attention_mask.rows
            &&& tensor.columns == batch.attention_mask.columns
            &&& tensor.data == batch.attention_mask.data
        },
        types ==> {
            let (name, tensor) = asked_for(batch, mask, types).last();
            &&& name == "token_type_ids"@
            &&& tensor.rows == batch.token_type_ids.rows
            &&& tensor.columns == batch.token_type_ids.columns
            &&& tensor.data == batch.token_type_ids.data
        },
{
}

/// Whatever a model asks for, it gets the ids first, and the batch keeps its ids and
/// its attention mask; type ids that were handed out leave nothing behind.
pub proof fn sessions_leave_ids_and_mask(batch: BatchModel, mask: bool, types: bool)
    ensures
        asked_for(batch, mask, types)[0] == ("input_ids"@, batch.input_ids),
        without_types(batch).input_ids == batch.input_ids,
        without_types(batch).attention_mask == batch.attention_mask,
        without_types(batch).token_type_ids.rows == 0,
        without_types(batch).token_type_ids.columns == 0,
        without_types(batch).token_type_ids.data.len() == 0,
        asked_for(without_types(batch), mask, false) == asked_for(batch, mask, false),
{
}

/// Rows are laid out one after another, each value of a row at its place.
pub proof fn rows_follow_each_other(earlier: Seq<Seq<u32>>, later: Seq<Seq<u32>>, row: Seq<u32>)
    ensures
        laid_out(earlier + later) == laid_out(earlier) + laid_out(later),
        laid_out(seq![row]).len() == row.len(),
        forall|i: int| 0 <= i < row.len() ==> #[trigger] laid_out(seq![row])[i] == row[i],
        laid_out(seq![]).len() == 0,
    decreases later.len(),
{
    let single = seq![row];
    assert(single.drop_last() =~= seq![]);
    reveal_with_fuel(laid_out, 2);
    assert(laid_out(single) =~= row.map_values(|x: u32| x as i64));
    if later.len() == 0 {
        assert(earlier + later =~= earlier);
        assert(laid_out(earlier) + laid_out(later) =~= laid_out(earlier));
    } else {
        let all = earlier + later;
        assert(all.drop_last() =~= earlier + later.drop_last());
        assert(all.last() == later.last());
        rows_follow_each_other(earlier, later.drop_last(), row);
        assert(laid_out(all) =~= laid_out(earlier) + laid_out(later));
    }
}

/// No encodings make up no batch. Others make up one if an array may have a row for each
/// encoding and a column for each token of the first, and there are as many ids, mask values
/// and type ids as it has places; otherwise the first of them that has not tells what is
/// wrong: that no array may have the shape, that it lacks values, or that it has too many.
pub proof fn encodings_that_make_no_batch_tell_why(encodings: Seq<TokenEncoding>)
    requires
        encodings.len() <= usize::MAX,
        encodings.len() > 0 ==> encodings[0].ids@.len() <= usize::MAX,
    ensures
        encodings.len() == 0 ==> batch_of(encodings) == Err::<BatchModel, ErrorModel>(
            ErrorModel::EmptyTokenizations,
        ),
        encodings.len() > 0 ==> {
            let (rows, columns) = (encodings.len() as usize, encodings[0].ids@.len() as usize);
            let places = rows * columns;
            let ids = laid_out(
                Seq::new(encodings.len(), |i: int| encodings[i].ids@),
            );
            let masks = laid_out(
                Seq::new(encodings.len(), |i: int| encodings[i].attention_mask@),
            );
            let types = laid_out(
                Seq::new(encodings.len(), |i: int| encodings[i].type_ids@),
            );
            let odd = if ids.len() != places {
                ids
            } else if masks.len() != places {
                masks
            } else {
                types
            };
            if !tensor::plane_fits(rows, columns) {
                batch_of(encodings) == Err::<BatchModel, ErrorModel>(
                    ErrorModel::InvalidShape("ShapeError/Overflow: arithmetic overflow"@),
                )
            } else if odd.len() < places {
                batch_of(encodings) == Err::<BatchModel, ErrorModel>(
                    ErrorModel::InvalidShape("ShapeError/OutOfBounds: out of bounds indexing"@),
                )
            } else if odd.len() > places {
                batch_of(encodings) == Err::<BatchModel, ErrorModel>(
                    ErrorModel::InvalidShape("ShapeError/IncompatibleShape: incompatible shapes"@),
                )
            } else {
                batch_of(encodings) matches Ok(batch) && {
                    &&& batch.input_ids.rows == rows && batch.input_ids.columns == columns
                    &&& batch.attention_mask.rows == rows && batch.attention_mask.columns
                        == columns
                    &&& batch.token_type_ids.rows == rows && batch.token_type_ids.columns
                        == columns
                    &&& batch.input_ids.data == ids
                    &&& batch.attention_mask.data == masks
                    &&& batch.token_type_ids.data == types
                }
            }
        },
{
    assert(Seq::new(encodings.len(), |i: int| encodings[i].ids@) =~= ids(encodings));
    assert(Seq::new(encodings.len(), |i: int| encodings[i].attention_mask@) =~= attention_masks(
        encodings,
    ));
    assert(Seq::new(encodings.len(), |i: int| encodings[i].type_ids@) =~= type_ids(encodings));
}

/// Inputs that are tokenized give a batch with a row for each of them, made of the ids, the
/// masks and the type ids that the tokenizer gives for them; or what the tokenizer says is
/// wrong, behind words that tell what failed; or, where there are none, the error
/// that tells so; or what is wrong with the shape of the batch.
pub proof fn tokenizing_gives_a_row_for_each_input(
    tokenizer: Tokenizer,
    inputs: Vec<TextInput>,
    batch: Result<EncodedBatch, Error>,
)
    requires
        call_ensures(encode_batch, (&tokenizer, inputs), batch),
        inputs@.len() <= usize::MAX,
    ensures
        match batch {
            Ok(batch) => {
                &&& inputs@.len() > 0
                &&& batch.input_ids.rows == inputs@.len()
                &&& batch.attention_mask.rows == inputs@.len()
                &&& batch.token_type_ids.rows == inputs@.len()
                &&& batch.attention_mask.columns == batch.input_ids.columns
                &&& batch.token_type_ids.columns == batch.input_ids.columns
                &&& exists|encodings: Seq<TokenEncoding>| #[trigger]
                    encodes(tokenizer::settings_of(tokenizer), inputs@, encodings)
                        && batch.input_ids.data@ == laid_out(
                        Seq::new(encodings.len(), |i: int| encodings[i].ids@),
                    ) && batch.attention_mask.data@ == laid_out(
                        Seq::new(encodings.len(), |i: int| encodings[i].attention_mask@),
                    ) && batch.token_type_ids.data@ == laid_out(
                        Seq::new(encodings.len(), |i: int| encodings[i].type_ids@),
                    )
            },
            Err(error) => {
                let settings = tokenizer::settings_of(tokenizer);
                ||| inputs@.len() == 0 && error is EmptyTokenizations
                ||| inputs@.len() > 0 && error is InvalidShape
                ||| inputs@.len() > 0 && (error matches Error::Tokenization(text) && exists|
                    reason: Seq<char>,
                | #[trigger]
                    may_give(settings, inputs@, Err(reason)) && text@
                        == "Failed to encode the batch: "@ + reason)
            },
        },
{
    let settings = tokenizer::settings_of(tokenizer);
    assert(encoded(settings, inputs@, batch));
    match batch {
        Ok(batch) => {
            let encodings = choose|encodings: Seq<TokenEncoding>| #[trigger]
                encodes(settings, inputs@, encodings) && batch_of(encodings) == Ok::<
                    BatchModel,
                    ErrorModel,
                >(batch@);
            assert(batch_of(encodings) == Ok::<BatchModel, ErrorModel>(batch@));
            assert(Seq::new(encodings.len(), |i: int| encodings[i].ids@) =~= ids(encodings));
            assert(Seq::new(encodings.len(), |i: int| encodings[i].attention_mask@)
                =~= attention_masks(encodings));
            assert(Seq::new(encodings.len(), |i: int| encodings[i].type_ids@) =~= type_ids(
                encodings,
            ));
        },
        Err(error) => {
            if exists|encodings: Seq<TokenEncoding>| #[trigger]
                encodes(settings, inputs@, encodings) && batch_of(encodings) == Err::<
                    BatchModel,
                    ErrorModel,
                >(error@) {
                let encodings = choose|encodings: Seq<TokenEncoding>| #[trigger]
                    encodes(settings, inputs@, encodings) && batch_of(encodings) == Err::<
                        BatchModel,
                        ErrorModel,
                    >(error@);
                assert(batch_of(encodings) == Err::<BatchModel, ErrorModel>(error@));
            }
        },
    }
}

/// An input can be truncated if the limit leaves room for the tokens of the post-processor,
/// and each part of a longer text goes beyond what it has in common with the one before: by a
/// token at least where it is a text of its own, and by a token of each text where the longer
/// one of a pair is truncated first. A tokenizer whose parts have nothing in common can
/// truncate wherever there is room.
pub proof fn inputs_are_truncated_where_there_is_room(
    truncation: Truncation,
    reserved: usize,
    pair: bool,
)
    ensures
        truncation.limit < reserved ==> !can_truncate(truncation, reserved, pair),
        truncation.limit == reserved ==> can_truncate(truncation, reserved, pair),
        truncation.limit > reserved && truncation.stride == 0 ==> can_truncate(
            truncation,
            reserved,
            pair,
        ),
        truncation.limit > reserved && truncation.stride > 0 && !pair ==> (can_truncate(
            truncation,
            reserved,
            pair,
        ) <==> reserved + truncation.stride + 1 <= truncation.limit),
        truncation.limit > reserved && truncation.stride > 0 && pair ==> (can_truncate(
            truncation,
            reserved,
            pair,
        ) <==> truncation.longest_first && reserved + 2 * (truncation.stride + 1)
            <= truncation.limit),
{
}

/// A tokenizer looks for a token in its normalized form where it looks in normalized text,
/// and as it was added otherwise. It can look for no empty text, and not for white space that
/// takes that before it but not that after it.
pub proof fn tokens_that_are_looked_for(pattern: PatternModel, wanted: Seq<char>)
    requires
        pattern.normalized ==> wanted == pattern.form,
        !pattern.normalized ==> wanted == pattern.content,
    ensures
        wanted.len() == 0 ==> !can_look_for(pattern),
        wanted.len() > 0 && (pattern.rstrip || !pattern.lstrip) ==> can_look_for(pattern),
        wanted.len() > 0 && pattern.lstrip && !pattern.rstrip ==> (can_look_for(pattern)
            <==> exists|i: int|
            0 <= i < wanted.len() && !text::is_white_space(#[trigger] wanted[i])),
{
    let (start, end) = text::trimming_leaves_out_white_space(wanted);
    let rest = text::trimmed(wanted);
    reveal_strlit("");
    assert((wanted.len() == 0) == (wanted == ""@)) by {
        if wanted.len() == 0 {
            assert(wanted =~= ""@);
        }
    }
    assert((rest.len() == 0) == (rest == ""@)) by {
        if rest.len() == 0 {
            assert(rest =~= ""@);
        }
    }
    if start < end {
        assert(!text::is_white_space(wanted[start]));
    }
}

/// A tokenizer can encode texts if memory holds what it fills up, its three parts are in
/// order, its post-processor has no two templates, and it can look for all tokens that were
/// added. It can put its parts to inputs if it can truncate each of them, and its regular
/// expressions are bounded with each text of them.
pub proof fn tokenizers_that_can_encode(settings: Settings, inputs: Seq<TextInput>)
    ensures
        parts_fit(settings) <==> {
            &&& 128 * (settings.filling.length + settings.filling.multiple) <= isize::MAX
            &&& parts::in_order(Part::Normalizer, tokenizer::normalizer_of(settings.file))
            &&& parts::in_order(Part::PreTokenizer, tokenizer::pre_tokenizer_of(settings.file))
            &&& parts::in_order(Part::PostProcessor, tokenizer::post_processor_of(settings.file))
            &&& parts::templates(tokenizer::post_processor_of(settings.file)) < 2
            &&& forall|pattern: PatternModel|
                tokenizer::patterns_of(settings.file, settings.added).contains(pattern)
                    ==> #[trigger] can_look_for(pattern)
        },
        inputs_fit(settings, inputs) <==> forall|i: int|
            0 <= i < inputs.len() ==> {
                let normalizer = tokenizer::normalizer_of(settings.file);
                let pre_tokenizer = tokenizer::pre_tokenizer_of(settings.file);
                let pair = #[trigger] inputs[i] is Pair;
                &&& settings.truncation matches Some(truncation) ==> can_truncate(
                    truncation,
                    tokenizer::reserved(settings.file, pair),
                    pair,
                )
                &&& match inputs[i] {
                    TextInput::Single(text) => growth::normalizer_fits(normalizer, text@)
                        && growth::pre_tokenizer_fits(normalizer, pre_tokenizer, text@),
                    TextInput::Pair(first, second) => growth::normalizer_fits(normalizer, first@)
                        && growth::pre_tokenizer_fits(normalizer, pre_tokenizer, first@)
                        && growth::normalizer_fits(normalizer, second@)
                        && growth::pre_tokenizer_fits(normalizer, pre_tokenizer, second@),
                }
            },
{
    let normalizer = tokenizer::normalizer_of(settings.file);
    let pre_tokenizer = tokenizer::pre_tokenizer_of(settings.file);
    if inputs_fit(settings, inputs) {
        assert forall|i: int| 0 <= i < inputs.len() implies input_fits(
            settings.file,
            #[trigger] inputs[i],
        ) && (settings.truncation matches Some(truncation) ==> can_truncate(
            truncation,
            tokenizer::reserved(settings.file, inputs[i] is Pair),
            inputs[i] is Pair,
        )) by {}
    }
    assert forall|pattern: PatternModel|
        parts_fit(settings) && tokenizer::patterns_of(settings.file, settings.added).contains(
            pattern,
        ) implies #[trigger] can_look_for(pattern) by {
        assert(tokenizer::patterns_of(settings.file, settings.added).contains(pattern));
    }
}

/// Inputs are tokenized with care as they are without, where the tokenizer can encode texts and
/// can be put to the inputs, and not at all where it cannot.
pub proof fn tokenizing_with_care_gives_the_same(
    tokenizer: Tokenizer,
    inputs: Vec<TextInput>,
    batch: Option<Result<EncodedBatch, Error>>,
)
    requires
        call_ensures(try_encode_batch, (&tokenizer, inputs), batch),
    ensures
        ({
            let settings = tokenizer::settings_of(tokenizer);
            &&& parts_fit(settings) && inputs_fit(settings, inputs@) ==> (batch matches Some(batch)
                && encoded(settings, inputs@, batch))
            &&& !parts_fit(settings) || !inputs_fit(settings, inputs@) ==> batch is None
        }),
{
}

}
