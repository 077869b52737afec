//! What the models of values show: all that the values hold, each under its own name.

use crate::batch;
use crate::batch::{EncodedBatch, TextInput, TokenEncoding};
use crate::compose;
use crate::error::{Error, ErrorModel};
use crate::json::{Json, JsonTree};
use crate::picture::{FilterType, Picture, PictureModel, Samples, SamplesModel};
use crate::session;
use crate::session::{SessionSetting, SettingModel};
use crate::tensor::{Arithmetic, ArithmeticModel, Matrix, Tensor};
use crate::tokenizer;
use crate::tokenizer::{Pattern, Setup, SpecialToken, TokenizerFiles};
use crate::transform;
use crate::transform::{DataModel, TransformData};
use crate::weights;
use crate::weights::{
    ActionModel, EventModel, SearchModel, WeightAction, WeightEvent, WeightSearch,
};
use vstd::prelude::*;

verus! {

/// The model of an error is of the same variant, and has its texts.
pub proof fn errors_are_shown(error: Error)
    ensures
        match error {
            Error::ModelRetrieval { file, reason } => error@ == (ErrorModel::ModelRetrieval {
                file: file@,
                reason: reason@,
            }),
            Error::TokenizerConfig(text) => error@ == ErrorModel::TokenizerConfig(text@),
            Error::Tokenization(text) => error@ == ErrorModel::Tokenization(text@),
            Error::EmptyTokenizations => error@ == ErrorModel::EmptyTokenizations,
            Error::Ort(text) => error@ == ErrorModel::Ort(text@),
            Error::OrtBuilder(text) => error@ == ErrorModel::OrtBuilder(text@),
            Error::OrtSession(text) => error@ == ErrorModel::OrtSession(text@),
            Error::OutputKeyMissing { key } => error@ == (ErrorModel::OutputKeyMissing {
                key: key@,
            }),
            Error::TensorExtraction(text) => error@ == ErrorModel::TensorExtraction(text@),
            Error::ImageDecode(text) => error@ == ErrorModel::ImageDecode(text@),
            Error::PreprocessorConfig(text) => error@ == ErrorModel::PreprocessorConfig(text@),
            Error::ImageTransform(text) => error@ == ErrorModel::ImageTransform(text@),
            Error::InvalidShape(text) => error@ == ErrorModel::InvalidShape(text@),
            Error::InvalidArgument(text) => error@ == ErrorModel::InvalidArgument(text@),
            Error::Io(text) => error@ == ErrorModel::Io(text@),
            Error::Other(text) => error@ == ErrorModel::Other(text@),
        },
{
}

/// The tree of a document has its values, its texts, its items and its entries, in order.
pub proof fn documents_are_shown(json: Json)
    ensures
        match json {
            Json::Null => json@ == JsonTree::Null,
            Json::Bool(value) => json@ == JsonTree::Bool(value),
            Json::Number(number) => json@ == JsonTree::Number(number),
            Json::Text(text) => json@ == JsonTree::Text(text@),
            Json::Array(items) => json@ matches JsonTree::Array(trees) && trees.len()
                == items@.len() && forall|i: int|
                0 <= i < trees.len() ==> #[trigger] trees[i] == items@[i]@,
            Json::Object(entries) => json@ matches JsonTree::Object(trees) && trees.len()
                == entries@.len() && forall|i: int|
                0 <= i < trees.len() ==> (#[trigger] trees[i]).0 == entries@[i].0@ && trees[i].1
                    == entries@[i].1@,
        },
{
}

/// The model of a picture has its size, its channels and its samples.
pub proof fn pictures_are_shown(picture: Picture)
    ensures
        picture@.width == picture.width,
        picture@.height == picture.height,
        picture@.channels == picture.channels,
        match picture.samples {
            Samples::Eight(samples) => picture@.samples == SamplesModel::Eight(samples@),
            Samples::Sixteen(samples) => picture@.samples == SamplesModel::Sixteen(samples@),
        },
{
}

/// The models of a tensor and of a matrix have their shape and their elements, and the model
/// of a tensor what is computed with it, in order.
pub proof fn tensors_are_shown(tensor: Tensor, matrix: Matrix)
    ensures
        tensor@.channels == tensor.channels,
        tensor@.height == tensor.height,
        tensor@.width == tensor.width,
        tensor@.values == tensor.values@,
        tensor@.arithmetic.len() == tensor.arithmetic@.len(),
        forall|i: int|
            0 <= i < tensor.arithmetic@.len() ==> match #[trigger] tensor.arithmetic@[i] {
                Arithmetic::Rescale { scale } => tensor@.arithmetic[i]
                    == (ArithmeticModel::Rescale { scale }),
                Arithmetic::Normalize { mean, std } => tensor@.arithmetic[i]
                    == (ArithmeticModel::Normalize { mean: mean@, std: std@ }),
            },
        matrix@.rows == matrix.rows,
        matrix@.columns == matrix.columns,
        matrix@.data == matrix.data@,
{
}

/// The elements of a tensor stand channel by channel and row by row, those of a matrix row by
/// row.
pub proof fn elements_stand_row_by_row(
    tensor: Tensor,
    matrix: Matrix,
    channel: int,
    row: int,
    column: int,
)
    ensures
        tensor@.at(channel, row, column) == tensor.values@[channel * tensor.height * tensor.width
            + row * tensor.width + column],
        matrix@.at(row, column) == matrix.data@[row * matrix.columns + column],
{
    assert((channel * tensor.height + row) * tensor.width == channel * tensor.height * tensor.width
        + row * tensor.width) by (nonlinear_arith);
}

/// What a step gets or gives is shown as the picture or the tensor that it is, or as its
/// error.
pub proof fn what_steps_give_is_shown(
    data: TransformData,
    tensor: Tensor,
    picture: Picture,
    error: Error,
)
    ensures
        match data {
            TransformData::Image(picture) => data@ == DataModel::Image(picture@),
            TransformData::NdArray(tensor) => data@ == DataModel::NdArray(tensor@),
        },
        transform::data_model(Ok(data)) == Ok::<DataModel, ErrorModel>(data@),
        transform::data_model(Err(error)) == Err::<DataModel, ErrorModel>(error@),
        transform::resized_model(Ok(picture)) == Ok::<PictureModel, ErrorModel>(picture@),
        transform::resized_model(Err(error)) == Err::<PictureModel, ErrorModel>(error@),
        compose::tensor_model(Ok(tensor)) == Ok::<DataModel, ErrorModel>(
            DataModel::NdArray(tensor@),
        ),
        compose::tensor_model(Err(error)) == Err::<DataModel, ErrorModel>(error@),
{
}

/// What may come out of a function that resizes is what it may return for a picture, a width,
/// a height and a filter; and it takes what it takes of every value that shows the picture.
pub proof fn functions_that_resize_are_shown<
    R: Fn(Picture, u32, u32, FilterType) -> Result<Picture, Error>,
>(
    resize: R,
    image: Picture,
    width: u32,
    height: u32,
    filter: FilterType,
    resized: Result<Picture, Error>,
)
    ensures
        call_ensures(resize, (image, width, height, filter), resized) ==> transform::resampler(
            resize,
        )(
            image@,
            width,
            height,
            filter,
            match resized {
                Ok(picture) => Ok(picture@),
                Err(error) => Err(error@),
            },
        ),
        transform::taker(resize)(image@, width, height, filter) ==> call_requires(
            resize,
            (image, width, height, filter),
        ),
{
    if call_ensures(resize, (image, width, height, filter), resized) {
        assert(transform::resized_model(resized) == match resized {
            Ok(picture) => Ok::<PictureModel, ErrorModel>(picture@),
            Err(error) => Err(error@),
        });
    }
}

/// What may come out of a function that resizes came out of it.
pub proof fn what_resizing_gives_was_returned<
    R: Fn(Picture, u32, u32, FilterType) -> Result<Picture, Error>,
>(
    resize: R,
    picture: PictureModel,
    width: u32,
    height: u32,
    filter: FilterType,
    result: Result<PictureModel, ErrorModel>,
) -> (call: (Picture, Result<Picture, Error>))
    requires
        transform::resampler(resize)(picture, width, height, filter, result),
    ensures
        call.0@ == picture,
        call_ensures(resize, (call.0, width, height, filter), call.1),
        match (call.1, result) {
            (Ok(resized), Ok(model)) => resized@ == model,
            (Err(error), Err(model)) => error@ == model,
            _ => false,
        },
{
    let (image, resized) = choose|image: Picture, resized: Result<Picture, Error>| #[trigger]
        call_ensures(resize, (image, width, height, filter), resized) && image@ == picture
            && transform::resized_model(resized) == result;
    (image, resized)
}

/// The model of a batch has its three tensors.
pub proof fn batches_are_shown(batch: EncodedBatch)
    ensures
        batch@.input_ids == batch.input_ids@,
        batch@.attention_mask == batch.attention_mask@,
        batch@.token_type_ids == batch.token_type_ids@,
{
}

/// Inputs are handed to a tokenizer in order, each with its one text or its two, and what is
/// said of encodings is their ids, their type ids and their masks, in order.
pub proof fn inputs_are_shown(inputs: Seq<TextInput>, encodings: Seq<TokenEncoding>)
    ensures
        batch::texts(inputs).len() == inputs.len(),
        forall|i: int|
            0 <= i < inputs.len() ==> #[trigger] batch::texts(inputs)[i] == (match inputs[i] {
                TextInput::Single(text) => (text@, None::<Seq<char>>),
                TextInput::Pair(first, second) => (first@, Some(second@)),
            }),
        batch::encoding_models(encodings).len() == encodings.len(),
        forall|i: int|
            0 <= i < encodings.len() ==> #[trigger] batch::encoding_models(encodings)[i] == (
                encodings[i].ids@,
                encodings[i].type_ids@,
                encodings[i].attention_mask@,
            ),
{
}

/// The tensors that a session gets are shown in order, each under its name.
pub proof fn session_inputs_are_shown(inputs: Seq<(String, Matrix)>)
    ensures
        batch::named(inputs).len() == inputs.len(),
        forall|i: int|
            0 <= i < inputs.len() ==> #[trigger] batch::named(inputs)[i] == (
                inputs[i].0@,
                inputs[i].1@,
            ),
{
}

/// The settings of a session are shown in order, each as it is.
pub proof fn settings_are_shown(settings: Seq<SessionSetting>)
    ensures
        session::settings_model(settings).len() == settings.len(),
        forall|i: int|
            0 <= i < settings.len() ==> match settings[i] {
                SessionSetting::ExecutionProviders => #[trigger] session::settings_model(
                    settings,
                )[i] == SettingModel::ExecutionProviders,
                SessionSetting::FullOptimization => session::settings_model(settings)[i]
                    == SettingModel::FullOptimization,
                SessionSetting::IntraThreads(threads) => session::settings_model(settings)[i]
                    == SettingModel::IntraThreads(threads),
                SessionSetting::ConfigEntry(key, value) => session::settings_model(settings)[i]
                    == SettingModel::ConfigEntry(key@, value@),
                SessionSetting::MemoryPattern(enabled) => session::settings_model(settings)[i]
                    == SettingModel::MemoryPattern(enabled),
                SessionSetting::ParallelExecution(enabled) => session::settings_model(settings)[i]
                    == SettingModel::ParallelExecution(enabled),
            },
{
}

/// The model of the files of a tokenizer has what each of them holds.
pub proof fn files_are_shown(files: TokenizerFiles)
    ensures
        files@.tokenizer_file == files.tokenizer_file@,
        files@.config_file == files.config_file@,
        files@.special_tokens_map_file == files.special_tokens_map_file@,
        files@.tokenizer_config_file == files.tokenizer_config_file@,
{
}

/// The models of special tokens, of what a tokenizer is set up with, and of the tokens that it
/// looks for have all that these have, in order.
pub proof fn tokens_are_shown(
    token: SpecialToken,
    tokens: Seq<SpecialToken>,
    setup: Setup,
    pattern: Pattern,
    patterns: Seq<Pattern>,
)
    ensures
        token@.content == token.content@,
        token@.single_word == token.single_word,
        token@.lstrip == token.lstrip,
        token@.rstrip == token.rstrip,
        token@.normalized == token.normalized,
        tokenizer::token_models(tokens).len() == tokens.len(),
        forall|i: int|
            0 <= i < tokens.len() ==> #[trigger] tokenizer::token_models(tokens)[i] == tokens[i]@,
        setup@.limit == setup.limit,
        setup@.pad_token == setup.pad_token@,
        setup@.pad_id == setup.pad_id,
        setup@.special_tokens == tokenizer::token_models(setup.special_tokens@),
        pattern@.content == pattern.content@,
        pattern@.form == pattern.form@,
        pattern@.normalized == pattern.normalized,
        pattern@.lstrip == pattern.lstrip,
        pattern@.rstrip == pattern.rstrip,
        tokenizer::pattern_models(patterns).len() == patterns.len(),
        forall|i: int|
            0 <= i < patterns.len() ==> #[trigger] tokenizer::pattern_models(patterns)[i]
                == patterns[i]@,
{
}

/// The models of a search for weights, of what was found out for it, and of what is to be done
/// for it are of the same variants, and have their texts, their bytes and their paths.
pub proof fn searches_are_shown<P>(
    search: WeightSearch<P>,
    event: WeightEvent<P>,
    action: WeightAction<P>,
    names: Seq<String>,
)
    ensures
        weights::texts(names).len() == names.len(),
        forall|i: int| 0 <= i < names.len() ==> #[trigger] weights::texts(names)[i] == names[i]@,
        match search {
            WeightSearch::Single => search@ == SearchModel::<P>::Single,
            WeightSearch::Index => search@ == SearchModel::<P>::Index,
            WeightSearch::Reading => search@ == SearchModel::<P>::Reading,
            WeightSearch::Shards { names, paths } => search@ == (SearchModel::Shards {
                names: weights::texts(names@),
                paths: paths@,
            }),
            WeightSearch::Ended => search@ == SearchModel::<P>::Ended,
        },
        match event {
            WeightEvent::Found(path) => event@ == EventModel::Found(path),
            WeightEvent::NotFound(reason) => event@ == EventModel::<P>::NotFound(reason@),
            WeightEvent::Content(bytes) => event@ == EventModel::<P>::Content(bytes@),
            WeightEvent::Unreadable(reason) => event@ == EventModel::<P>::Unreadable(reason@),
        },
        match action {
            WeightAction::Get(name) => action@ == ActionModel::<P>::Get(name@),
            WeightAction::Read(path) => action@ == ActionModel::Read(path),
            WeightAction::Done(paths) => action@ == ActionModel::Done(paths@),
            WeightAction::Fail(error) => action@ == ActionModel::<P>::Fail(error@),
        },
{
}

}
