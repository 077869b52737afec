//! What comes out of each step of a preprocessor.

use crate::compose;
use crate::compose::{Compose, Stage};
use crate::error::ErrorModel;
use crate::float;
use crate::picture;
use crate::picture::{FilterType, PictureModel, SamplesModel};
use crate::properties;
use crate::steps::{
    ConvertToRGB, Normalize, PILToNDarray, Rescale, ResizeDeepGhs, ResizePillow, Step,
};
use crate::tensor;
use crate::tensor::{ArithmeticModel, TensorModel};
use crate::text;
use crate::transform;
use crate::transform::{DataModel, Resampler, Resize, ResizeSize, Transform};
use vstd::prelude::*;

verus! {

/// What a preprocessor is made of is what it does: one step for each stage, in order, with
/// the parameters of the stage.
pub proof fn preprocessors_do_their_stages(stages: Vec<Stage>, compose: Compose, i: int)
    requires
        call_ensures(Compose::new, (stages,), compose),
        0 <= i < stages@.len(),
    ensures
        compose.steps().len() == stages@.len(),
        match stages@[i] {
            Stage::ConvertToRGB(_) => compose.steps()[i] == Step::ConvertToRgb,
            Stage::Resize(stage) => compose.steps()[i] == (Step::Resize {
                size: stage.size,
                resample: stage.resample,
            }),
            Stage::ResizePillow(stage) => compose.steps()[i] == (Step::ResizePillow {
                width: stage.width,
                height: stage.height,
                filter: stage.filter,
            }),
            Stage::ResizeDeepGhs(stage) => compose.steps()[i] == (Step::ResizeDeepGhs {
                size: stage.size,
                max_size: stage.max_size,
            }),
            Stage::CenterCrop(stage) => compose.steps()[i] == (Step::CenterCrop {
                size: stage.size,
            }),
            Stage::PILToNDarray(_) => compose.steps()[i] == Step::ToTensor,
            Stage::Rescale(stage) => compose.steps()[i] == (Step::Rescale { scale: stage.scale }),
            Stage::Normalize(stage) => compose.steps()[i] == (Step::Normalize {
                mean: stage.mean@,
                std: stage.std@,
            }),
        },
{
}

/// A step on its own gives what it gives as a part of a preprocessor.
pub proof fn steps_alone_do_the_same(
    stage: Stage,
    data: DataModel,
    resize: Resampler,
    result: Result<DataModel, ErrorModel>,
)
    ensures
        stage.step().outcome(data, resize, result) == match stage {
            Stage::ConvertToRGB(stage) => stage.outcome(data, resize, result),
            Stage::Resize(stage) => stage.outcome(data, resize, result),
            Stage::ResizePillow(stage) => stage.outcome(data, resize, result),
            Stage::ResizeDeepGhs(stage) => stage.outcome(data, resize, result),
            Stage::CenterCrop(stage) => stage.outcome(data, resize, result),
            Stage::PILToNDarray(stage) => stage.outcome(data, resize, result),
            Stage::Rescale(stage) => stage.outcome(data, resize, result),
            Stage::Normalize(stage) => stage.outcome(data, resize, result),
        },
{
}

/// A step that needs a picture fails on a tensor, and one that needs a tensor fails on a
/// picture, both with the same text.
pub proof fn steps_refuse_the_wrong_data(
    stage: Stage,
    picture: PictureModel,
    tensor: TensorModel,
    resize: Resampler,
    result: Result<DataModel, ErrorModel>,
)
    ensures
        !(stage is PILToNDarray || stage is Rescale || stage is Normalize) && stage.step().outcome(
            DataModel::NdArray(tensor),
            resize,
            result,
        ) ==> result == Err::<DataModel, ErrorModel>(
            ErrorModel::ImageTransform("TransformData convert error"@),
        ),
        (stage is Rescale || stage is Normalize) && stage.step().outcome(
            DataModel::Image(picture),
            resize,
            result,
        ) ==> result == Err::<DataModel, ErrorModel>(
            ErrorModel::ImageTransform("TransformData convert error"@),
        ),
{
}

/// A picture is resized once, with the filter of the step and to a size that is not its own;
/// what the resizer gives comes out, a picture or an error. A picture that has the size
/// already comes out as it is.
pub proof fn pictures_are_resized_once(
    stage: Resize,
    picture: PictureModel,
    resize: Resampler,
    result: Result<DataModel, ErrorModel>,
)
    requires
        stage.outcome(DataModel::Image(picture), resize, result),
    ensures
        ({
            let (width, height) = stage.size.target(picture.width, picture.height);
            if width == picture.width && height == picture.height {
                result == Ok::<DataModel, ErrorModel>(DataModel::Image(picture))
            } else {
                match result {
                    Ok(DataModel::Image(resized)) => resize(
                        picture,
                        width,
                        height,
                        stage.resample,
                        Ok(resized),
                    ),
                    Ok(DataModel::NdArray(_)) => false,
                    Err(error) => resize(picture, width, height, stage.resample, Err(error)),
                }
            }
        }),
        (stage.size matches ResizeSize::Exact { width, height } && (width != picture.width || height
            != picture.height)) ==> match result {
            Ok(DataModel::Image(resized)) => resize(
                picture,
                (stage.size)->width,
                (stage.size)->height,
                stage.resample,
                Ok(resized),
            ),
            Ok(DataModel::NdArray(_)) => false,
            Err(error) => resize(
                picture,
                (stage.size)->width,
                (stage.size)->height,
                stage.resample,
                Err(error),
            ),
        },
{
}

/// A picture is resized in width first, at its old height, and in height then, both times
/// with the filter of the step. The first error comes out.
pub proof fn pictures_are_resized_in_width_and_in_height(
    stage: ResizePillow,
    picture: PictureModel,
    resize: Resampler,
    result: Result<DataModel, ErrorModel>,
)
    requires
        stage.outcome(DataModel::Image(picture), resize, result),
    ensures
        match result {
            Ok(DataModel::Image(resized)) => exists|between: PictureModel|
                #![trigger resize(picture, stage.width, picture.height, stage.filter, Ok(between))]
                resize(picture, stage.width, picture.height, stage.filter, Ok(between)) && resize(
                    between,
                    stage.width,
                    stage.height,
                    stage.filter,
                    Ok(resized),
                ),
            Ok(DataModel::NdArray(_)) => false,
            Err(error) => {
                ||| resize(picture, stage.width, picture.height, stage.filter, Err(error))
                ||| exists|between: PictureModel|
                    #![trigger resize(
                        picture,
                        stage.width,
                        picture.height,
                        stage.filter,
                        Ok(between),
                    )]
                    resize(picture, stage.width, picture.height, stage.filter, Ok(between))
                        && resize(between, stage.width, stage.height, stage.filter, Err(error))
            },
        },
{
}

/// A picture is resized for DeepGHS checkpoints in width first, at its old height, and in
/// height then, both times with the cubic filter, to the size that they ask for, but with no
/// side of 0. A picture that has the size already comes out as it is.
pub proof fn pictures_are_resized_for_deepghs(
    stage: ResizeDeepGhs,
    picture: PictureModel,
    resize: Resampler,
    result: Result<DataModel, ErrorModel>,
    width: u32,
    height: u32,
)
    requires
        stage.outcome(DataModel::Image(picture), resize, result),
        ({
            let (w, h) = transform::deepghs_size(
                stage.size,
                stage.max_size,
                picture.width,
                picture.height,
            );
            &&& w > 0 ==> width == w
            &&& w == 0 ==> width == 1
            &&& h > 0 ==> height == h
            &&& h == 0 ==> height == 1
        }),
    ensures
        ({
            let same = transform::deepghs_size(
                stage.size,
                stage.max_size,
                picture.width,
                picture.height,
            ) == (picture.width, picture.height);
            let filter = FilterType::CatmullRom;
            &&& same ==> result == Ok::<DataModel, ErrorModel>(DataModel::Image(picture))
            &&& !same ==> match result {
                Ok(DataModel::Image(resized)) => exists|between: PictureModel|
                    #![trigger resize(picture, width, picture.height, filter, Ok(between))]
                    resize(picture, width, picture.height, filter, Ok(between)) && resize(
                        between,
                        width,
                        height,
                        filter,
                        Ok(resized),
                    ),
                Ok(DataModel::NdArray(_)) => false,
                Err(error) => {
                    ||| resize(picture, width, picture.height, filter, Err(error))
                    ||| exists|between: PictureModel|
                        #![trigger resize(picture, width, picture.height, filter, Ok(between))]
                        resize(picture, width, picture.height, filter, Ok(between)) && resize(
                            between,
                            width,
                            height,
                            filter,
                            Err(error),
                        )
                },
            }
        }),
{
}

/// A picture becomes one of red, green and blue with 8 bits each, of its own size. With three
/// samples or four these are the first three of a pixel, and with fewer all three are the
/// first; of a sample with 16 bits it is the level of 8 bits whose 257-fold is nearest.
pub proof fn pictures_become_red_green_and_blue(
    stage: ConvertToRGB,
    picture: PictureModel,
    resize: Resampler,
    result: Result<DataModel, ErrorModel>,
    channel: int,
    column: int,
    row: int,
)
    requires
        picture.wf(),
        stage.outcome(DataModel::Image(picture), resize, result),
        0 <= channel < 3,
        0 <= column < picture.width,
        0 <= row < picture.height,
    ensures
        result matches Ok(DataModel::Image(converted)) && {
            let pixel = row * picture.width + column;
            let i = pixel * picture.channels + (if picture.channels >= 3 {
                channel
            } else {
                0
            });
            &&& converted.width == picture.width
            &&& converted.height == picture.height
            &&& converted.channels == 3
            &&& converted.samples.len() == 3 * (picture.width * picture.height)
            &&& converted.samples matches SamplesModel::Eight(levels) && match picture.samples {
                SamplesModel::Eight(samples) => levels[3 * pixel + channel] == samples[i],
                SamplesModel::Sixteen(samples) => -128 <= samples[i] - 257 * levels[3 * pixel
                    + channel] <= 128,
            }
        },
{
    properties::pixels_become_red_green_and_blue(picture, channel, column, row);
    properties::conversion_keeps_rgb(picture);
}

/// A picture becomes a tensor of three channels and of its height and width, and each element
/// is the level of its channel in its row and its column, in single precision; nothing is
/// computed with it yet. A tensor comes out as it is.
pub proof fn pictures_become_tensors(
    stage: PILToNDarray,
    picture: PictureModel,
    resize: Resampler,
    result: Result<DataModel, ErrorModel>,
    channel: int,
    row: int,
    column: int,
)
    requires
        picture.wf(),
        stage.outcome(DataModel::Image(picture), resize, result),
        0 <= channel < 3,
        0 <= row < picture.height,
        0 <= column < picture.width,
    ensures
        result matches Ok(DataModel::NdArray(tensor)) && {
            let (width, height) = (picture.width as int, picture.height as int);
            &&& tensor.channels == 3
            &&& tensor.height == height
            &&& tensor.width == width
            &&& tensor.values.len() == 3 * (width * height)
            &&& tensor.arithmetic.len() == 0
            &&& tensor.values[(channel * height + row) * width + column] == float::single_of_byte(
                picture.rgb_at(channel, column, row),
            )
        },
{
    properties::tensor_keeps_every_sample(picture, channel, row, column);
    assert(picture.width * picture.height >= 0) by (nonlinear_arith)
        requires
            picture.width >= 0,
            picture.height >= 0,
    ;
}

/// A tensor that is to become one, is one already.
pub proof fn tensors_stay_tensors(
    stage: PILToNDarray,
    tensor: TensorModel,
    resize: Resampler,
    result: Result<DataModel, ErrorModel>,
)
    requires
        stage.outcome(DataModel::NdArray(tensor), resize, result),
    ensures
        result == Ok::<DataModel, ErrorModel>(DataModel::NdArray(tensor)),
{
}

/// A tensor is multiplied by the number of the step, after all that is computed with it
/// already; its shape and its elements stay what they are.
pub proof fn tensors_are_rescaled(
    stage: Rescale,
    tensor: TensorModel,
    resize: Resampler,
    result: Result<DataModel, ErrorModel>,
)
    requires
        stage.outcome(DataModel::NdArray(tensor), resize, result),
    ensures
        result matches Ok(DataModel::NdArray(rescaled)) && {
            &&& rescaled.channels == tensor.channels
            &&& rescaled.height == tensor.height
            &&& rescaled.width == tensor.width
            &&& rescaled.values == tensor.values
            &&& rescaled.arithmetic.len() == tensor.arithmetic.len() + 1
            &&& rescaled.arithmetic.drop_last() == tensor.arithmetic
            &&& rescaled.arithmetic.last() == (ArithmeticModel::Rescale { scale: stage.scale })
        },
{
}

/// A tensor is normalized by three means and three standard deviations, after all that is
/// computed with it already; its shape and its elements stay what they are. With another
/// number of means, or else of standard deviations, the step fails and tells which; and so it
/// does on a tensor that has not three channels, or a shape that no array may have, which it
/// tells.
pub proof fn tensors_are_normalized(
    stage: Normalize,
    tensor: TensorModel,
    resize: Resampler,
    result: Result<DataModel, ErrorModel>,
)
    requires
        stage.outcome(DataModel::NdArray(tensor), resize, result),
    ensures
        stage.mean@.len() != 3 ==> result == Err::<DataModel, ErrorModel>(
            ErrorModel::InvalidShape(
                "Failed to reshape mean array: "@
                    + "ShapeError/IncompatibleShape: incompatible shapes"@,
            ),
        ),
        stage.mean@.len() == 3 && stage.std@.len() != 3 ==> result == Err::<DataModel, ErrorModel>(
            ErrorModel::InvalidShape(
                "Failed to reshape std array: "@
                    + "ShapeError/IncompatibleShape: incompatible shapes"@,
            ),
        ),
        stage.mean@.len() == 3 && stage.std@.len() == 3 && (tensor.channels != 3
            || !tensor::space_fits(3, tensor.height, tensor.width)) ==> result == Err::<
            DataModel,
            ErrorModel,
        >(
            ErrorModel::InvalidShape(
                "Failed to broadcast mean array to shape "@ + ("("@ + text::decimal(
                    tensor.channels as nat,
                ) + ", "@ + text::decimal(tensor.height as nat) + ", "@ + text::decimal(
                    tensor.width as nat,
                ) + ")"@),
            ),
        ),
        stage.mean@.len() == 3 && stage.std@.len() == 3 && tensor.channels == 3
            && tensor::space_fits(3, tensor.height, tensor.width) ==> (result matches Ok(
            DataModel::NdArray(normalized),
        ) && {
            &&& normalized.channels == tensor.channels
            &&& normalized.height == tensor.height
            &&& normalized.width == tensor.width
            &&& normalized.values == tensor.values
            &&& normalized.arithmetic.len() == tensor.arithmetic.len() + 1
            &&& normalized.arithmetic.drop_last() == tensor.arithmetic
            &&& normalized.arithmetic.last() == (ArithmeticModel::Normalize {
                mean: stage.mean@,
                std: stage.std@,
            })
        }),
{
}

/// No array may have more elements than the greatest signed number of the machine says, where
/// an axis without elements counts as one.
pub proof fn shapes_are_limited(channels: usize, height: usize, width: usize)
    ensures
        channels > 0 && height > 0 && width > 0 ==> (tensor::space_fits(channels, height, width)
            <==> channels * height * width <= isize::MAX),
        height > 0 && width > 0 ==> (tensor::plane_fits(height, width) <==> height * width
            <= isize::MAX),
        width > 0 ==> (tensor::plane_fits(0, width) <==> width <= isize::MAX),
        height > 0 ==> (tensor::plane_fits(height, 0) <==> height <= isize::MAX),
        height > 0 && width > 0 ==> (tensor::space_fits(0, height, width) <==> height * width
            <= isize::MAX),
        channels > 0 && width > 0 ==> (tensor::space_fits(channels, 0, width) <==> channels * width
            <= isize::MAX),
        channels > 0 && height > 0 ==> (tensor::space_fits(channels, height, 0) <==> channels
            * height <= isize::MAX),
{
}

/// A step fits a picture where memory and the limits on resizing allow it: one that resizes
/// in one go may resize the picture to its target, or leaves it; one that resizes in width
/// and in height may do both; and memory holds what is cropped.
pub proof fn steps_that_fit(stage: Stage, width: u32, height: u32)
    ensures
        match stage {
            Stage::Resize(stage) => {
                let (w, h) = stage.size.target(width, height);
                stage.step().fits(width, height) <==> picture::resizable(width, height, w, h)
            },
            Stage::ResizePillow(stage) => stage.step().fits(width, height) <==> picture::resizable(
                width,
                height,
                stage.width,
                height,
            ) && picture::resizable(stage.width, height, stage.width, stage.height),
            Stage::ResizeDeepGhs(stage) => {
                let (w, h) = transform::deepghs_size(stage.size, stage.max_size, width, height);
                let (w_or_one, h_or_one) = (
                    if w == 0 {
                        1
                    } else {
                        w
                    },
                    if h == 0 {
                        1
                    } else {
                        h
                    },
                );
                stage.step().fits(width, height) <==> width > 0 && height > 0 && ((w == width && h
                    == height) || (picture::resizable(width, height, w_or_one, height)
                    && picture::resizable(w_or_one, height, w_or_one, h_or_one)))
            },
            Stage::CenterCrop(stage) => stage.step().fits(width, height) <==> 16 * stage.size.0
                * stage.size.1 <= isize::MAX,
            _ => stage.step().fits(width, height),
        },
{
}

/// The size of a picture after a step that makes one: steps that resize give their target, a
/// crop gives its size where it lies within the picture, and the conversion of colours gives
/// the same. No other step, and no other crop, makes a picture.
pub proof fn sizes_after_steps(stage: Stage, width: u32, height: u32)
    ensures
        match stage {
            Stage::ConvertToRGB(_) => stage.step().size_after(width, height) == Some(
                (width, height),
            ),
            Stage::Resize(resize) => stage.step().size_after(width, height) == Some(
                resize.size.target(width, height),
            ),
            Stage::ResizePillow(resize) => stage.step().size_after(width, height) == Some(
                (resize.width, resize.height),
            ),
            Stage::ResizeDeepGhs(resize) => stage.step().size_after(
                width,
                height,
            ) matches Some((w, h)) && {
                let (fit_width, fit_height) = transform::deepghs_size(
                    resize.size,
                    resize.max_size,
                    width,
                    height,
                );
                &&& fit_width > 0 ==> w == fit_width
                &&& fit_width == 0 ==> w == 1
                &&& fit_height > 0 ==> h == fit_height
                &&& fit_height == 0 ==> h == 1
            },
            Stage::CenterCrop(crop) => {
                &&& width >= crop.size.0 && height >= crop.size.1 ==> stage.step().size_after(
                    width,
                    height,
                ) == Some(crop.size)
                &&& width < crop.size.0 || height < crop.size.1 ==> stage.step().size_after(
                    width,
                    height,
                ) is None
            },
            Stage::PILToNDarray(_) | Stage::Rescale(_) | Stage::Normalize(_) =>
                stage.step().size_after(width, height) is None,
        },
{
}

/// A preprocessor fits a picture if each of its steps fits what the ones before it make of
/// the picture, as long as that is a picture.
pub proof fn preprocessors_that_fit(
    stages: Vec<Stage>,
    compose: Compose,
    width: u32,
    height: u32,
    fits: bool,
    sizes: Seq<(u32, u32)>,
)
    requires
        call_ensures(Compose::new, (stages,), compose),
        call_ensures(Compose::fits, (&compose, width, height), fits),
        1 <= sizes.len() <= stages@.len(),
        sizes[0] == (width, height),
        forall|i: int|
            0 <= i < sizes.len() - 1 ==> #[trigger] stages@[i].step().size_after(
                sizes[i].0,
                sizes[i].1,
            ) == Some(sizes[i + 1]),
        sizes.len() == stages@.len() || stages@[sizes.len() - 1].step().size_after(
            sizes.last().0,
            sizes.last().1,
        ) is None,
    ensures
        fits <==> forall|i: int|
            0 <= i < sizes.len() ==> #[trigger] stages@[i].step().fits(sizes[i].0, sizes[i].1),
{
    let steps = compose.steps();
    assert(forall|i: int| 0 <= i < stages@.len() ==> #[trigger] stages@[i].step() == steps[i]);
    assert(steps.skip(0) =~= steps);
    lemma_sizes_fit(steps, sizes, 0);
    if fits {
        assert forall|i: int| 0 <= i < sizes.len() implies #[trigger] stages@[i].step().fits(
            sizes[i].0,
            sizes[i].1,
        ) by {
            assert(steps[i].fits(sizes[i].0, sizes[i].1));
        }
    } else {
        assert(!(forall|i: int|
            0 <= i < sizes.len() ==> #[trigger] steps[i].fits(sizes[i].0, sizes[i].1)));
        let i = choose|i: int|
            0 <= i < sizes.len() && !(#[trigger] steps[i].fits(sizes[i].0, sizes[i].1));
        assert(!stages@[i].step().fits(sizes[i].0, sizes[i].1));
    }
}

/// Steps from a position on fit the sizes from there on.
proof fn lemma_sizes_fit(steps: Seq<Step>, sizes: Seq<(u32, u32)>, k: int)
    requires
        0 <= k < sizes.len() <= steps.len(),
        forall|i: int|
            0 <= i < sizes.len() - 1 ==> (#[trigger] steps[i]).size_after(sizes[i].0, sizes[i].1)
                == Some(sizes[i + 1]),
        sizes.len() == steps.len() || steps[sizes.len() - 1].size_after(
            sizes.last().0,
            sizes.last().1,
        ) is None,
    ensures
        compose::sizes_fit(steps.skip(k), Some(sizes[k])) <==> forall|i: int|
            k <= i < sizes.len() ==> #[trigger] steps[i].fits(sizes[i].0, sizes[i].1),
    decreases sizes.len() - k,
{
    let rest = steps.skip(k);
    assert(rest[0] == steps[k]);
    assert(rest.drop_first() =~= steps.skip(k + 1));
    let (width, height) = sizes[k];
    let after = steps[k].size_after(width, height);
    if k + 1 < sizes.len() {
        lemma_sizes_fit(steps, sizes, k + 1);
        if compose::sizes_fit(rest, Some(sizes[k])) {
            assert forall|i: int| k <= i < sizes.len() implies #[trigger] steps[i].fits(
                sizes[i].0,
                sizes[i].1,
            ) by {
                if i == k {
                    assert(rest[0].fits(width, height));
                }
            }
        }
    } else if k + 1 == steps.len() {
        assert(steps.skip(k + 1).len() == 0);
        assert(compose::sizes_fit(steps.skip(k + 1), after));
    } else {
        assert(after is None);
        assert(compose::sizes_fit(steps.skip(k + 1), after));
    }
    assert(compose::sizes_fit(rest, Some(sizes[k])) == (steps[k].fits(width, height)
        && compose::sizes_fit(steps.skip(k + 1), after)));
}

/// A preprocessor fits a picture whatever a resizer makes of it, if memory holds what each of
/// its crops gives, and no step for DeepGHS checkpoints comes where a side may be 0: it comes
/// first but for conversions of colours, on a picture with pixels, or after a crop with some
/// and conversions of colours. What comes after the first step that makes a tensor, or that
/// needs one, does not count.
pub proof fn preprocessors_that_fit_any_resizer(
    stage: Stage,
    later: Seq<Step>,
    sides: bool,
)
    ensures
        compose::any_size_fits(seq![], sides),
        ({
            let fits = compose::any_size_fits(seq![stage.step()] + later, sides);
            match stage {
                Stage::ConvertToRGB(_) => fits <==> compose::any_size_fits(later, sides),
                Stage::Resize(_) | Stage::ResizePillow(_) => fits <==> compose::any_size_fits(
                    later,
                    false,
                ),
                Stage::ResizeDeepGhs(_) => fits <==> sides && compose::any_size_fits(later, false),
                Stage::CenterCrop(crop) => fits <==> 16 * crop.size.0 * crop.size.1 <= isize::MAX
                    && compose::any_size_fits(later, crop.size.0 > 0 && crop.size.1 > 0),
                Stage::PILToNDarray(_) | Stage::Rescale(_) | Stage::Normalize(_) => fits,
            }
        }),
{
    let steps = seq![stage.step()] + later;
    assert(steps[0] == stage.step());
    assert(steps.drop_first() =~= later);
}

}
