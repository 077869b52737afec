//! Preprocessors from the transform descriptions of DeepGHS checkpoints.

use crate::compose;
use crate::compose::{Compose, Plan, Stage};
use crate::error::{Error, ErrorModel};
use crate::float;
use crate::integer;
use crate::json;
use crate::json::{Json, JsonTree};
use crate::picture;
use crate::picture::PictureModel;
use crate::preprocess;
use crate::steps;
use crate::steps::{
    CenterCrop, ConvertToRGB, Normalize, PILToNDarray, Rescale, ResizeDeepGhs, Step,
};
use crate::tensor::Tensor;
use crate::text;
use crate::transform;
use crate::transform::{DataModel, Resampler};
use vstd::prelude::*;

verus! {

/// Whether the five stages are those that are supported.
pub open spec fn supported(stages: Seq<JsonTree>) -> bool {
    &&& stages.len() == 5
    &&& stages[0].at("type"@) == JsonTree::Text("convert_rgb"@)
    &&& stages[0].at("force_background"@) == JsonTree::Text("white"@)
    &&& stages[1].at("type"@) == JsonTree::Text("resize"@)
    &&& stages[1].at("interpolation"@) == JsonTree::Text("bicubic"@)
    &&& stages[1].at("antialias"@) == JsonTree::Bool(true)
    &&& stages[2].at("type"@) == JsonTree::Text("center_crop"@)
    &&& stages[3].at("type"@) == JsonTree::Text("maybe_to_tensor"@)
    &&& stages[4].at("type"@) == JsonTree::Text("normalize"@)
}

/// The numbers in single precision that the last stage has for the channels.
pub open spec fn channels(stage: JsonTree, key: Seq<char>) -> Result<Seq<u32>, Seq<char>> {
    match stage.at(key).as_array() {
        None => Err("DeepGHS "@ + key + " is missing"@),
        Some(items) => if items.len() != 3 {
            Err("DeepGHS "@ + key + " must have three channels"@)
        } else if !preprocess::all_numbers(items) {
            Err("DeepGHS "@ + key + " must be numeric"@)
        } else {
            Ok(preprocess::singles(items))
        },
    }
}

/// Whether a number in single precision is 0, be it positive or negative.
pub open spec fn is_zero(single: u32) -> bool {
    single == 0 || single == 0x8000_0000
}

/// The plan of five supported stages, or what is wrong with them.
pub open spec fn stages_plan(stages: Seq<JsonTree>) -> Result<Plan, Seq<char>> {
    match (
        stages[1].at("size"@).as_unsigned(),
        stages[1].at("max_size"@).as_unsigned(),
        stages[2].at("size"@).as_unsigned(),
    ) {
        (None, _, _) => Err("DeepGHS resize size is missing"@),
        (_, None, _) => Err("DeepGHS maximum size is missing"@),
        (_, _, None) => Err("DeepGHS crop size is missing"@),
        (Some(size), Some(max_size), Some(crop)) => {
            let size = integer::low_bits(size as int);
            let max_size = integer::low_bits(max_size as int);
            let crop = integer::low_bits(crop as int);
            if size == 0 || max_size == 0 || crop == 0 {
                Err("DeepGHS image size must be positive"@)
            } else {
                match (channels(stages[4], "mean"@), channels(stages[4], "std"@)) {
                    (Err(text), _) => Err(text),
                    (_, Err(text)) => Err(text),
                    (Ok(mean), Ok(std)) => if exists|i: int|
                        0 <= i < std.len() && is_zero(#[trigger] std[i]) {
                        Err("DeepGHS standard deviation is zero"@)
                    } else {
                        Ok(
                            Plan {
                                resize: Some(Step::ResizeDeepGhs { size, max_size }),
                                crop: Some((crop, crop)),
                                scale: Some(preprocess::BYTE_SCALE),
                                normal: Some((mean, std)),
                            },
                        )
                    },
                }
            }
        },
    }
}

/// The plan of a transform description, or what is wrong with it.
pub open spec fn deepghs_plan(config: JsonTree) -> Result<Plan, Seq<char>> {
    match config.at("stages"@).as_array() {
        None => Err("DeepGHS stages are missing"@),
        Some(stages) => if !supported(stages) {
            Err("unsupported DeepGHS preprocessing stages"@)
        } else {
            stages_plan(stages)
        },
    }
}

/// Whether the five stages are those that are supported.
fn is_supported(stages: &Vec<Json>) -> (fits: bool)
    ensures
        fits == supported(stages@.map_values(|stage: Json| stage@)),
{
    stages.len() == 5 && stages[0].is_text_at("type", "convert_rgb") && stages[0].is_text_at(
        "force_background",
        "white",
    ) && stages[1].is_text_at("type", "resize") && stages[1].is_text_at(
        "interpolation",
        "bicubic",
    ) && stages[1].is_true_at("antialias") && stages[2].is_text_at("type", "center_crop")
        && stages[3].is_text_at("type", "maybe_to_tensor") && stages[4].is_text_at(
        "type",
        "normalize",
    )
}

/// A text around a key.
fn about(key: &str, tail: &str) -> (text: String)
    ensures
        text@ == "DeepGHS "@ + key@ + tail@,
{
    let head = text::joined("DeepGHS ", key);
    text::joined(head.as_str(), tail)
}

/// Reads the numbers in single precision that the last stage has for the channels.
fn read_channels(stage: &Json, key: &str) -> (read: Result<Vec<u32>, String>)
    ensures
        match read {
            Ok(read) => channels(stage@, key@) == Ok::<Seq<u32>, Seq<char>>(read@),
            Err(text) => channels(stage@, key@) == Err::<Seq<u32>, Seq<char>>(text@),
        },
{
    match stage.array_at(key) {
        None => Err(about(key, " is missing")),
        Some(items) => {
            assert(stage@.at(key@)->Array_0 =~= items@.map_values(|item: Json| item@));
            if items.len() != 3 {
                return Err(about(key, " must have three channels"));
            }
            match preprocess::read_singles(items) {
                Some(numbers) => Ok(numbers),
                None => Err(about(key, " must be numeric")),
            }
        },
    }
}

/// Whether one of the numbers is 0.
fn contains_zero(singles: &Vec<u32>) -> (found: bool)
    ensures
        found == exists|i: int| 0 <= i < singles@.len() && is_zero(#[trigger] singles@[i]),
{
    let mut i: usize = 0;
    while i < singles.len()
        invariant
            i <= singles@.len(),
            forall|j: int| 0 <= j < i ==> !is_zero(#[trigger] singles@[j]),
        decreases singles@.len() - i,
    {
        if singles[i] == 0 || singles[i] == 0x8000_0000 {
            assert(is_zero(singles@[i as int]));
            return true;
        }
        i += 1;
    }
    false
}

/// Makes the preprocessor that a transform description asks for.
pub fn compose_from_stages(config: &Json) -> (compose: Result<Compose, Error>)
    ensures
        preprocess::composed(compose, deepghs_plan(config@)),
{
    let stages = match config.array_at("stages") {
        Some(stages) => stages,
        None => return Err(Error::PreprocessorConfig("DeepGHS stages are missing".to_string())),
    };
    let ghost trees = stages@.map_values(|stage: Json| stage@);
    assert(config@.at("stages"@)->Array_0 =~= trees);
    if !is_supported(stages) {
        return Err(
            Error::PreprocessorConfig("unsupported DeepGHS preprocessing stages".to_string()),
        );
    }
    assert(trees[1] == stages@[1]@ && trees[2] == stages@[2]@ && trees[4] == stages@[4]@);
    let size: u32 = match stages[1].unsigned_at("size") {
        Some(size) => integer::low_bits_of(size),
        None => return Err(
            Error::PreprocessorConfig("DeepGHS resize size is missing".to_string()),
        ),
    };
    let max_size: u32 = match stages[1].unsigned_at("max_size") {
        Some(max_size) => integer::low_bits_of(max_size),
        None => return Err(
            Error::PreprocessorConfig("DeepGHS maximum size is missing".to_string()),
        ),
    };
    let crop: u32 = match stages[2].unsigned_at("size") {
        Some(crop) => integer::low_bits_of(crop),
        None => return Err(Error::PreprocessorConfig("DeepGHS crop size is missing".to_string())),
    };
    if size == 0 || max_size == 0 || crop == 0 {
        return Err(Error::PreprocessorConfig("DeepGHS image size must be positive".to_string()));
    }
    let mean = match read_channels(&stages[4], "mean") {
        Ok(mean) => mean,
        Err(text) => return Err(Error::PreprocessorConfig(text)),
    };
    let std = match read_channels(&stages[4], "std") {
        Ok(std) => std,
        Err(text) => return Err(Error::PreprocessorConfig(text)),
    };
    if contains_zero(&std) {
        return Err(Error::PreprocessorConfig("DeepGHS standard deviation is zero".to_string()));
    }
    let ghost plan = deepghs_plan(config@)->Ok_0;
    let mut transforms: Vec<Stage> = Vec::new();
    transforms.push(Stage::ConvertToRGB(ConvertToRGB));
    transforms.push(Stage::ResizeDeepGhs(ResizeDeepGhs { size, max_size }));
    transforms.push(Stage::CenterCrop(CenterCrop { size: (crop, crop) }));
    transforms.push(Stage::PILToNDarray(PILToNDarray));
    transforms.push(Stage::Rescale(Rescale { scale: preprocess::BYTE_SCALE }));
    transforms.push(Stage::Normalize(Normalize { mean, std }));
    assert(compose::steps_of(transforms@) =~= plan.steps());
    Ok(Compose::new(transforms))
}

/// A preprocessor of a transform description gives square tensors of the size of
/// its crop, whatever the picture, and normalizes by three means and three standard
/// deviations, none of the latter 0.
pub proof fn stages_give_square_tensors(config: JsonTree, width: u32, height: u32)
    requires
        deepghs_plan(config) is Ok,
    ensures
        ({
            let plan = deepghs_plan(config)->Ok_0;
            let stages = config.at("stages"@)->Array_0;
            let side = integer::low_bits(stages[2].at("size"@).as_unsigned()->0 as int);
            &&& plan.wf()
            &&& plan.size(width, height) == (side, side)
            &&& side > 0
            &&& plan.normal matches Some((mean, std)) && {
                &&& mean.len() == 3
                &&& std.len() == 3
                &&& forall|i: int| 0 <= i < 3 ==> !is_zero(#[trigger] std[i])
            }
        }),
{
}

/// Whatever the picture that a preprocessor of a transform description is applied to, of
/// whatever sides and aspect ratio, and with whatever resizer that does not fail, a tensor
/// of three channels comes out whose sides are that of the crop, if memory can hold it.
pub proof fn stages_preprocess_every_picture(
    config: JsonTree,
    picture: PictureModel,
    resize: Resampler,
    result: Result<DataModel, ErrorModel>,
)
    requires
        deepghs_plan(config) is Ok,
        deepghs_plan(config)->Ok_0.outcome(picture, resize, result),
        transform::unfailing(resize),
        ({
            let stages = config.at("stages"@)->Array_0;
            let side = integer::low_bits(stages[2].at("size"@).as_unsigned()->0 as int);
            picture::room(side, side)
        }),
    ensures
        ({
            let stages = config.at("stages"@)->Array_0;
            let side = integer::low_bits(stages[2].at("size"@).as_unsigned()->0 as int);
            result matches Ok(DataModel::NdArray(tensor)) && {
                &&& tensor.channels == 3
                &&& tensor.height == side
                &&& tensor.width == side
                &&& tensor.values.len() == 3 * side * side
            }
        }),
{
    let plan = deepghs_plan(config)->Ok_0;
    let side = plan.size(picture.width, picture.height).0;
    let converted = picture.converted();
    stages_give_square_tensors(config, picture.width, picture.height);
    assert(0 <= 3 * side * side <= isize::MAX) by (nonlinear_arith)
        requires
            16 * side * side <= isize::MAX,
            side >= 0,
    ;
    assert(3 * (side * side) == 3 * side * side) by (nonlinear_arith);
    let resized = choose|resized: PictureModel| #[trigger]
        plan.resize_outcome(converted, resize, Ok(DataModel::Image(resized))) && result
            == plan.finished(plan.tensor(resized));
    assert(result == plan.finished(plan.tensor(resized)));
}

/// Whether a preprocessor of a transform description can be applied to a picture of the
/// size given: no side is 0, the height is within the bounds of resizing, and so is the
/// width where the longer side that is asked for is not small, and memory can hold what
/// comes about.
pub open spec fn stages_take(config: JsonTree, width: u32, height: u32) -> bool {
    let stages = config.at("stages"@)->Array_0;
    let size = integer::low_bits(stages[1].at("size"@).as_unsigned()->0 as int);
    let max_size = integer::low_bits(stages[1].at("max_size"@).as_unsigned()->0 as int);
    let side = integer::low_bits(stages[2].at("size"@).as_unsigned()->0 as int);
    let target = steps::deepghs_target(size, max_size, width, height);
    let longest = integer::larger(target.0, target.1);
    &&& width > 0 && 0 < height <= picture::LONGEST_SIDE
    &&& picture::side_resizable(width, longest)
    &&& longest <= picture::LONGEST_SIDE
    &&& picture::room(width, height)
    &&& picture::room(longest, height)
    &&& picture::room(longest, longest)
    &&& picture::room(side, side)
}

/// The size that DeepGHS checkpoints ask for has no side longer than the longest.
pub proof fn deepghs_sizes_keep_to_the_longest(size: u32, max_size: u32, width: u32, height: u32)
    requires
        width > 0,
        height > 0,
    ensures
        transform::deepghs_size(size, max_size, width, height).0 <= max_size,
        transform::deepghs_size(size, max_size, width, height).1 <= max_size,
{
    let (short, long): (u32, u32) = if width < height {
        (width, height)
    } else {
        (height, width)
    };
    let scaled = (size * long) as int / short as int;
    assert(size <= scaled) by (nonlinear_arith)
        requires
            0 <= size,
            0 < short <= long,
            scaled == (size * long) as int / short as int,
    ;
    if scaled > max_size {
        assert(0 <= (max_size * size) as int / scaled <= max_size) by (nonlinear_arith)
            requires
                0 <= size <= scaled,
                0 <= max_size < scaled,
        ;
    }
}

/// A smaller picture needs no more room.
proof fn lemma_less_room(width: u32, height: u32, most: u32, highest: u32)
    requires
        width <= most,
        height <= highest,
        picture::room(most, highest),
    ensures
        picture::room(width, height),
{
    assert(16 * width * height <= 16 * most * highest) by (nonlinear_arith)
        requires
            0 <= width <= most,
            0 <= height <= highest,
    ;
}

/// A preprocessor of a transform description can be applied to every picture whose height
/// is within the bounds of resizing, whatever its width and its aspect ratio, if the longest
/// side that the description allows is small, and memory can hold what comes about.
pub proof fn stages_take_every_picture(config: JsonTree, width: u32, height: u32)
    requires
        deepghs_plan(config) is Ok,
        width > 0,
        0 < height <= picture::LONGEST_SIDE,
        picture::room(width, height),
        ({
            let stages = config.at("stages"@)->Array_0;
            let max_size = integer::low_bits(stages[1].at("max_size"@).as_unsigned()->0 as int);
            let side = integer::low_bits(stages[2].at("size"@).as_unsigned()->0 as int);
            &&& max_size <= picture::SAFE_SIDE
            &&& picture::room(max_size, height)
            &&& picture::room(max_size, max_size)
            &&& picture::room(side, side)
        }),
    ensures
        stages_take(config, width, height),
{
    let stages = config.at("stages"@)->Array_0;
    let size = integer::low_bits(stages[1].at("size"@).as_unsigned()->0 as int);
    let max_size = integer::low_bits(stages[1].at("max_size"@).as_unsigned()->0 as int);
    let target = steps::deepghs_target(size, max_size, width, height);
    let longest = integer::larger(target.0, target.1);
    deepghs_sizes_keep_to_the_longest(size, max_size, width, height);
    lemma_less_room(longest, height, max_size, height);
    lemma_less_room(longest, longest, max_size, max_size);
}

/// What a preprocessor of a transform description can be applied to is within what memory
/// and the limits on resizing allow its plan.
pub proof fn stages_fit_what_they_take(config: JsonTree, width: u32, height: u32)
    requires
        deepghs_plan(config) is Ok,
        stages_take(config, width, height),
    ensures
        deepghs_plan(config)->Ok_0.fits(width, height),
{
    let stages = config.at("stages"@)->Array_0;
    let size = integer::low_bits(stages[1].at("size"@).as_unsigned()->0 as int);
    let max_size = integer::low_bits(stages[1].at("max_size"@).as_unsigned()->0 as int);
    let target = steps::deepghs_target(size, max_size, width, height);
    let longest = integer::larger(target.0, target.1);
    lemma_less_room(target.0, height, longest, height);
    lemma_less_room(target.0, target.1, longest, longest);
}

/// A preprocessor of a transform description makes every picture that it can be applied to,
/// of whatever sides and aspect ratio, a tensor of three channels whose sides are that of
/// the crop, and does not fail.
pub proof fn stages_make_every_picture_a_tensor(
    compose: Compose,
    config: JsonTree,
    picture: PictureModel,
    tensor: Result<Tensor, Error>,
)
    requires
        preprocess::composed(Ok(compose), deepghs_plan(config)),
        picture.wf(),
        stages_take(config, picture.width, picture.height),
    ensures
        compose::sizes_fit(compose.steps(), Some((picture.width, picture.height))),
        compose.gives_for(
            picture,
            transform::resampler(picture::default_resize),
            compose::tensor_model(tensor),
        ) ==> {
            let stages = config.at("stages"@)->Array_0;
            let side = integer::low_bits(stages[2].at("size"@).as_unsigned()->0 as int);
            tensor matches Ok(tensor) && {
                &&& tensor@.channels == 3
                &&& tensor@.height == side
                &&& tensor@.width == side
                &&& tensor@.values.len() == 3 * side * side
            }
        },
{
    let plan = deepghs_plan(config)->Ok_0;
    let resize = transform::resampler(picture::default_resize);
    let result = compose::tensor_model(tensor);
    stages_fit_what_they_take(config, picture.width, picture.height);
    compose::plans_fit_as_their_steps(plan, picture.width, picture.height);
    if compose.gives_for(picture, resize, result) {
        assert(plan.outcome(picture, resize, result));
        transform::default_resizing_never_fails();
        stages_preprocess_every_picture(config, picture, resize, result);
    }
}

impl Compose {
    /// Makes the preprocessor that the text of a transform description with five
    /// stages asks for, as DeepGHS bundles it with SigLIP checkpoints.
    pub fn from_deepghs_bytes(bytes: &[u8]) -> (compose: Result<Compose, Error>)
        ensures
            preprocess::composed(
                compose,
                match json::json_text(bytes@) {
                    Ok(config) => deepghs_plan(config),
                    Err(text) => Err(text),
                },
            ),
    {
        match json::parse(bytes) {
            Ok(config) => compose_from_stages(&json::document(&config)),
            Err(text) => Err(Error::PreprocessorConfig(text)),
        }
    }
}

/// A preprocessor of a transform description does what the five stages of the description
/// say: it resizes by the sizes of the second, crops to a square of the size of the third,
/// multiplies by 1/255, and normalizes by the three means and the three standard deviations
/// of the last, in single precision. None of the sizes is 0, nor is a standard deviation.
pub proof fn stages_are_followed(config: JsonTree)
    requires
        deepghs_plan(config) is Ok,
    ensures
        ({
            let plan = deepghs_plan(config)->Ok_0;
            let stages = config.at("stages"@)->Array_0;
            let size = stages[1].at("size"@).as_unsigned();
            let max_size = stages[1].at("max_size"@).as_unsigned();
            let crop = stages[2].at("size"@).as_unsigned();
            let means = stages[4].at("mean"@);
            let stds = stages[4].at("std"@);
            &&& config.at("stages"@) is Array && stages.len() == 5
            &&& stages[0].at("type"@) == JsonTree::Text("convert_rgb"@)
            &&& stages[0].at("force_background"@) == JsonTree::Text("white"@)
            &&& stages[1].at("type"@) == JsonTree::Text("resize"@)
            &&& stages[1].at("interpolation"@) == JsonTree::Text("bicubic"@)
            &&& stages[1].at("antialias"@) == JsonTree::Bool(true)
            &&& stages[2].at("type"@) == JsonTree::Text("center_crop"@)
            &&& stages[3].at("type"@) == JsonTree::Text("maybe_to_tensor"@)
            &&& stages[4].at("type"@) == JsonTree::Text("normalize"@)
            &&& size is Some && max_size is Some && crop is Some
            &&& plan.resize matches Some(Step::ResizeDeepGhs { size: short, max_size: long }) && {
                &&& short == size->0 % 0x1_0000_0000 && short > 0
                &&& long == max_size->0 % 0x1_0000_0000 && long > 0
            }
            &&& plan.crop matches Some((width, height)) && width == height && width == crop->0
                % 0x1_0000_0000 && width > 0
            &&& plan.scale == Some(0x3B80_8081u32)
            &&& means is Array && means->Array_0.len() == 3
            &&& stds is Array && stds->Array_0.len() == 3
            &&& plan.normal matches Some((mean, std)) && {
                &&& mean.len() == 3 && std.len() == 3
                &&& forall|i: int|
                    0 <= i < 3 ==> (#[trigger] means->Array_0[i] matches JsonTree::Number(number)
                        && mean[i] == float::narrowed(number.double))
                &&& forall|i: int|
                    0 <= i < 3 ==> (#[trigger] stds->Array_0[i] matches JsonTree::Number(number)
                        && std[i] == float::narrowed(number.double) && std[i] != 0 && std[i]
                        != 0x8000_0000)
            }
        }),
{
    let stages = config.at("stages"@)->Array_0;
    let std = channels(stages[4], "std"@)->Ok_0;
    assert forall|i: int| 0 <= i < 3 implies std[i] != 0 && std[i] != 0x8000_0000 by {
        assert(!is_zero(std[i]));
    }
}

/// Whether all items of a list of three are numbers.
pub open spec fn three_numbers(entry: JsonTree) -> bool {
    entry.as_array() matches Some(items) && items.len() == 3 && items[0] is Number && items[1]
        is Number && items[2] is Number
}

/// What is wrong with a transform description, if anything, in this order: it has no stages,
/// not those that are supported, a size is missing or 0, or there are not three means or
/// standard deviations, or a standard deviation is 0. With nothing wrong there is a plan.
pub proof fn what_is_wrong_with_stages_is_told(config: JsonTree)
    ensures
        ({
            let entry = config.at("stages"@);
            let stages = entry->Array_0;
            let size = stages[1].at("size"@).as_unsigned();
            let max_size = stages[1].at("max_size"@).as_unsigned();
            let crop = stages[2].at("size"@).as_unsigned();
            let means = stages[4].at("mean"@);
            let stds = stages[4].at("std"@);
            let told = |text: Seq<char>| deepghs_plan(config) == Err::<Plan, Seq<char>>(text);
            if !(entry is Array) {
                told("DeepGHS stages are missing"@)
            } else if stages.len() != 5 || stages[0].at("type"@) != JsonTree::Text("convert_rgb"@)
                || stages[0].at("force_background"@) != JsonTree::Text("white"@) || stages[1].at(
                "type"@,
            ) != JsonTree::Text("resize"@) || stages[1].at("interpolation"@) != JsonTree::Text(
                "bicubic"@,
            ) || stages[1].at("antialias"@) != JsonTree::Bool(true) || stages[2].at("type"@)
                != JsonTree::Text("center_crop"@) || stages[3].at("type"@) != JsonTree::Text(
                "maybe_to_tensor"@,
            ) || stages[4].at("type"@) != JsonTree::Text("normalize"@) {
                told("unsupported DeepGHS preprocessing stages"@)
            } else if size is None {
                told("DeepGHS resize size is missing"@)
            } else if max_size is None {
                told("DeepGHS maximum size is missing"@)
            } else if crop is None {
                told("DeepGHS crop size is missing"@)
            } else if size->0 % 0x1_0000_0000 == 0 || max_size->0 % 0x1_0000_0000 == 0 || crop->0
                % 0x1_0000_0000 == 0 {
                told("DeepGHS image size must be positive"@)
            } else if !(means is Array) {
                told("DeepGHS "@ + "mean"@ + " is missing"@)
            } else if means->Array_0.len() != 3 {
                told("DeepGHS "@ + "mean"@ + " must have three channels"@)
            } else if !three_numbers(means) {
                told("DeepGHS "@ + "mean"@ + " must be numeric"@)
            } else if !(stds is Array) {
                told("DeepGHS "@ + "std"@ + " is missing"@)
            } else if stds->Array_0.len() != 3 {
                told("DeepGHS "@ + "std"@ + " must have three channels"@)
            } else if !three_numbers(stds) {
                told("DeepGHS "@ + "std"@ + " must be numeric"@)
            } else if exists|i: int|
                0 <= i < 3 && (#[trigger] stds->Array_0[i] matches JsonTree::Number(number) && (
                float::narrowed(number.double) == 0 || float::narrowed(number.double)
                    == 0x8000_0000)) {
                told("DeepGHS standard deviation is zero"@)
            } else {
                deepghs_plan(config) is Ok
            }
        }),
{
    let stages = config.at("stages"@)->Array_0;
    let means = stages[4].at("mean"@);
    let stds = stages[4].at("std"@);
    assert(means is Array && means->Array_0.len() == 3 ==> preprocess::all_numbers(
        means->Array_0,
    ) == three_numbers(means));
    assert(stds is Array && stds->Array_0.len() == 3 ==> preprocess::all_numbers(stds->Array_0)
        == three_numbers(stds));
    if three_numbers(stds) {
        let std = preprocess::singles(stds->Array_0);
        assert forall|i: int| 0 <= i < 3 implies (#[trigger] stds->Array_0[i] matches
            JsonTree::Number(number) && std[i] == float::narrowed(number.double)) by {
            assert(stds->Array_0[i] is Number);
        }
        if exists|i: int| 0 <= i < std.len() && is_zero(#[trigger] std[i]) {
            let i = choose|i: int| 0 <= i < std.len() && is_zero(#[trigger] std[i]);
            assert(stds->Array_0[i] is Number);
        }
        if exists|i: int|
            0 <= i < 3 && (#[trigger] stds->Array_0[i] matches JsonTree::Number(number) && (
            float::narrowed(number.double) == 0 || float::narrowed(number.double) == 0x8000_0000)) {
            let i = choose|i: int|
                0 <= i < 3 && (#[trigger] stds->Array_0[i] matches JsonTree::Number(number) && (
                float::narrowed(number.double) == 0 || float::narrowed(number.double)
                    == 0x8000_0000));
            assert(is_zero(std[i]));
        }
    }
}

/// What the text of a transform description asks for is what the document that it holds asks
/// for; a text that holds none is an error that says why.
pub proof fn texts_of_descriptions_are_read(bytes: &[u8], compose: Result<Compose, Error>)
    requires
        call_ensures(Compose::from_deepghs_bytes, (bytes,), compose),
    ensures
        match json::json_text(bytes@) {
            Ok(config) => preprocess::composed(compose, deepghs_plan(config)),
            Err(text) => compose matches Err(error) && error@ == ErrorModel::PreprocessorConfig(
                text,
            ),
        },
{
}

}
