//! The steps that turn a picture into the input of a model.

use crate::error::{Error, ErrorModel};
use crate::float;
use crate::integer;
use crate::picture::{default_resize, FilterType, Picture, PictureModel};
use crate::tensor::{Tensor, TensorModel};
use vstd::prelude::*;

verus! {

/// The `size` entry of a `preprocessor_config.json`.
#[derive(Debug, Clone, Copy, PartialEq, Eq, Structural)]
pub enum ResizeSize {
    /// The length of the shorter side; the longer one follows.
    ShortestEdge(u32),
    /// Both sides.
    Exact { width: u32, height: u32 },
}

/// Resizes a picture.
#[derive(Debug)]
pub struct Resize {
    pub size: ResizeSize,
    pub resample: FilterType,
}

/// The integer part, at most `u32::MAX`, of `edge * long / short` where product and
/// quotient are rounded to double precision. A quotient that is no number counts
/// as 0, an infinite one as `u32::MAX`.
pub open spec fn scaled_long(edge: u32, long: u32, short: u32) -> u32 {
    if short > 0 {
        float::saturated_u32(
            float::double_quotient(
                float::double_quotient((edge * long) as nat, 1),
                short as nat,
            ),
        )
    } else if edge == 0 || long == 0 {
        0
    } else {
        u32::MAX
    }
}

impl ResizeSize {
    /// The size that a picture of the size given is resized to.
    pub open spec fn target(self, width: u32, height: u32) -> (u32, u32) {
        match self {
            ResizeSize::Exact { width, height } => (width, height),
            ResizeSize::ShortestEdge(edge) => {
                let short = if width <= height { width } else { height };
                let long = if width <= height { height } else { width };
                let scaled = integer::larger(scaled_long(edge, long, short), 1);
                if short == edge {
                    (width, height)
                } else if width <= height {
                    (edge, scaled)
                } else {
                    (scaled, edge)
                }
            },
        }
    }
}

impl Resize {
    /// The size that a picture of the size given is resized to.
    pub fn target_dimensions(&self, width: u32, height: u32) -> (target: (u32, u32))
        ensures
            target == self.size.target(width, height),
    {
        match self.size {
            ResizeSize::Exact { width, height } => (width, height),
            ResizeSize::ShortestEdge(edge) => {
                let (short, long): (u32, u32) = if width <= height {
                    (width, height)
                } else {
                    (height, width)
                };
                if short == edge {
                    return (width, height);
                }
                let scaled: u32 = scale_long(edge, long, short);
                let scaled: u32 = if scaled >= 1 {
                    scaled
                } else {
                    1
                };
                if width <= height {
                    (edge, scaled)
                } else {
                    (scaled, edge)
                }
            },
        }
    }
}

/// Computes the longer side.
fn scale_long(edge: u32, long: u32, short: u32) -> (scaled: u32)
    ensures
        scaled == scaled_long(edge, long, short),
{
    if short == 0 {
        if edge == 0 || long == 0 {
            0
        } else {
            u32::MAX
        }
    } else {
        assert(edge * long <= u32::MAX * u32::MAX) by (nonlinear_arith)
            requires
                edge <= u32::MAX,
                long <= u32::MAX,
        ;
        let product: u64 = edge as u64 * long as u64;
        let rounded: u128 = float::double_of_integer(product);
        float::double_quotient_u32(rounded, short as u64)
    }
}

/// The size that DeepGHS checkpoints ask for: the shorter side `size` and the longer
/// one in proportion, or the longer side `max_size` and the shorter one in proportion
/// where the longer one would exceed it.
pub open spec fn deepghs_size(size: u32, max_size: u32, width: u32, height: u32) -> (u32, u32) {
    let short = if width < height { width } else { height };
    let scaled = (size * integer::larger(width, height)) as int / short as int;
    let (new_short, new_long) = if scaled <= max_size {
        (size, scaled as u32)
    } else {
        (((max_size * size) as int / scaled) as u32, max_size)
    };
    if width < height {
        (new_short, new_long)
    } else {
        (new_long, new_short)
    }
}

/// Computes the size that DeepGHS checkpoints ask for.
pub fn fit_deepghs(size: u32, max_size: u32, width: u32, height: u32) -> (fitted: (u32, u32))
    requires
        width > 0,
        height > 0,
    ensures
        fitted == deepghs_size(size, max_size, width, height),
{
    let (short, long): (u32, u32) = if width < height {
        (width, height)
    } else {
        (height, width)
    };
    assert(0 <= size * long <= u32::MAX * u32::MAX) by (nonlinear_arith)
        requires
            0 <= size <= u32::MAX,
            0 <= long <= u32::MAX,
    ;
    let scaled: u64 = size as u64 * long as u64 / short as u64;
    let (new_short, new_long): (u32, u32) = if scaled <= max_size as u64 {
        (size, scaled as u32)
    } else {
        assert(0 <= max_size * size <= u32::MAX * u32::MAX) by (nonlinear_arith)
            requires
                0 <= max_size <= u32::MAX,
                0 <= size <= u32::MAX,
        ;
        assert(0 <= (max_size * size) as int / scaled as int <= size) by (nonlinear_arith)
            requires
                0 <= max_size < scaled,
                0 <= size,
        ;
        ((max_size as u64 * size as u64 / scaled) as u32, max_size)
    };
    if width < height {
        (new_short, new_long)
    } else {
        (new_long, new_short)
    }
}

/// What a step is applied to and what it gives.
#[derive(Debug)]
pub enum TransformData {
    Image(Picture),
    NdArray(Tensor),
}

/// [`TransformData`] with sequences.
pub enum DataModel {
    Image(PictureModel),
    NdArray(TensorModel),
}

impl View for TransformData {
    type V = DataModel;

    open spec fn view(&self) -> DataModel {
        match *self {
            TransformData::Image(picture) => DataModel::Image(picture@),
            TransformData::NdArray(tensor) => DataModel::NdArray(tensor@),
        }
    }
}

/// The error of a step that gets a picture for a tensor, or a tensor for a picture.
pub open spec fn convert_error() -> ErrorModel {
    ErrorModel::ImageTransform("TransformData convert error"@)
}

impl TransformData {
    /// The picture.
    pub fn image(self) -> (image: Result<Picture, Error>)
        ensures
            match image {
                Ok(picture) => self == TransformData::Image(picture),
                Err(error) => self is NdArray && error@ == convert_error(),
            },
    {
        match self {
            TransformData::Image(picture) => Ok(picture),
            TransformData::NdArray(_) => Err(
                Error::ImageTransform("TransformData convert error".to_string()),
            ),
        }
    }

    /// The tensor.
    pub fn array(self) -> (array: Result<Tensor, Error>)
        ensures
            match array {
                Ok(tensor) => self == TransformData::NdArray(tensor),
                Err(error) => self is Image && error@ == convert_error(),
            },
    {
        match self {
            TransformData::NdArray(tensor) => Ok(tensor),
            TransformData::Image(_) => Err(
                Error::ImageTransform("TransformData convert error".to_string()),
            ),
        }
    }
}

/// A picture that came out of a resizer, or its error.
pub open spec fn resized_model(resized: Result<Picture, Error>) -> Result<
    PictureModel,
    ErrorModel,
> {
    match resized {
        Ok(picture) => Ok(picture@),
        Err(error) => Err(error@),
    }
}

/// What came out of a step, or its error.
pub open spec fn data_model(data: Result<TransformData, Error>) -> Result<DataModel, ErrorModel> {
    match data {
        Ok(data) => Ok(data@),
        Err(error) => Err(error@),
    }
}

/// What may come out when a picture is resized to a width and a height with a filter.
pub type Resampler = spec_fn(
    PictureModel,
    u32,
    u32,
    FilterType,
    Result<PictureModel, ErrorModel>,
) -> bool;

/// What may come out of the function `resize`.
pub open spec fn resampler<R: Fn(Picture, u32, u32, FilterType) -> Result<Picture, Error>>(
    resize: R,
) -> Resampler {
    |picture: PictureModel, width: u32, height: u32, filter: FilterType, result: Result<
        PictureModel,
        ErrorModel,
    >|
        exists|image: Picture, resized: Result<Picture, Error>| #[trigger]
            call_ensures(resize, (image, width, height, filter), resized) && image@ == picture
                && resized_model(resized) == result
}

/// Which pictures can be resized to a width and a height with a filter.
pub type Taker = spec_fn(PictureModel, u32, u32, FilterType) -> bool;

/// Which pictures the function `resize` takes.
pub open spec fn taker<R: Fn(Picture, u32, u32, FilterType) -> Result<Picture, Error>>(
    resize: R,
) -> Taker {
    |picture: PictureModel, width: u32, height: u32, filter: FilterType|
        forall|image: Picture|
            image@ == picture ==> #[trigger] call_requires(resize, (image, width, height, filter))
}

/// Whether what a resizer gives has the size that was asked for.
pub open spec fn sized(gives: Resampler) -> bool {
    forall|
        picture: PictureModel,
        width: u32,
        height: u32,
        filter: FilterType,
        resized: PictureModel,
    |
        picture.wf() && crate::picture::resizable(picture.width, picture.height, width, height)
            && #[trigger] gives(picture, width, height, filter, Ok(resized)) ==> {
            &&& resized.wf()
            &&& resized.width == width
            &&& resized.height == height
        }
}

/// Whether a resizer takes every picture that can be resized, and gives pictures of the
/// size asked for.
pub open spec fn proper(takes: Taker, gives: Resampler) -> bool {
    &&& sized(gives)
    &&& forall|picture: PictureModel, width: u32, height: u32, filter: FilterType|
        picture.wf() && crate::picture::resizable(picture.width, picture.height, width, height)
            ==> #[trigger] takes(picture, width, height, filter)
}

/// Whether a resizer takes every picture, and gives pictures of whatever size.
pub open spec fn total(takes: Taker, gives: Resampler) -> bool {
    &&& forall|picture: PictureModel, width: u32, height: u32, filter: FilterType| #[trigger]
        takes(picture, width, height, filter)
    &&& forall|
        picture: PictureModel,
        width: u32,
        height: u32,
        filter: FilterType,
        resized: PictureModel,
    | #[trigger]
        gives(picture, width, height, filter, Ok(resized)) ==> resized.wf()
}

/// Whether a resizer never fails.
pub open spec fn unfailing(gives: Resampler) -> bool {
    forall|
        picture: PictureModel,
        width: u32,
        height: u32,
        filter: FilterType,
        result: Result<PictureModel, ErrorModel>,
    | #[trigger]
        gives(picture, width, height, filter, result) ==> (result matches Ok(resized)
            && resized.wf())
}

/// [`default_resize`] never fails.
pub proof fn default_resizing_never_fails()
    ensures
        unfailing(resampler(default_resize)),
{
}

/// Whether the function `resize` takes every picture that can be resized, and gives a
/// picture of the size asked for or an error.
pub open spec fn resizes<R: Fn(Picture, u32, u32, FilterType) -> Result<Picture, Error>>(
    resize: R,
) -> bool {
    &&& forall|image: Picture, width: u32, height: u32, filter: FilterType|
        image@.wf() && crate::picture::resizable(image.width, image.height, width, height)
            ==> #[trigger] call_requires(resize, (image, width, height, filter))
    &&& forall|
        image: Picture,
        width: u32,
        height: u32,
        filter: FilterType,
        resized: Result<Picture, Error>,
    |
        image@.wf() && crate::picture::resizable(image.width, image.height, width, height)
            && #[trigger] call_ensures(resize, (image, width, height, filter), resized) ==> (
        resized matches Ok(picture) ==> picture@.wf() && picture.width == width && picture.height
            == height)
}

/// A function that resizes is a proper resizer.
pub proof fn functions_that_resize_are_proper<
    R: Fn(Picture, u32, u32, FilterType) -> Result<Picture, Error>,
>(resize: R)
    requires
        resizes(resize),
    ensures
        proper(taker(resize), resampler(resize)),
{
}

/// A step of a preprocessor.
pub trait Transform: Send + Sync {
    /// Whether the step can be applied to `data`: memory allows it, and every picture that
    /// it hands to the resizer is one that the resizer takes.
    spec fn admits(&self, data: DataModel, takes: Taker, gives: Resampler) -> bool;

    /// Whether `result` may come out of the step.
    spec fn outcome(
        &self,
        data: DataModel,
        resize: Resampler,
        result: Result<DataModel, ErrorModel>,
    ) -> bool;

    /// Applies the step.
    fn transform(&self, data: TransformData) -> (result: Result<TransformData, Error>)
        requires
            self.admits(data@, taker(default_resize), resampler(default_resize)),
        ensures
            self.outcome(data@, resampler(default_resize), data_model(result)),
    {
        self.transform_with_resize(data, &default_resize)
    }

    /// Applies the step, with a function that resizes pictures.
    fn transform_with_resize<R: Fn(Picture, u32, u32, FilterType) -> Result<Picture, Error>>(
        &self,
        data: TransformData,
        resize: &R,
    ) -> (result: Result<TransformData, Error>)
        requires
            self.admits(data@, taker(*resize), resampler(*resize)),
        ensures
            self.outcome(data@, resampler(*resize), data_model(result)),
    ;
}

/// What a step is given is a picture or a tensor: asked for the one that it is, it gives that,
/// and asked for the other, it is an error.
pub proof fn data_is_what_it_is(
    data: TransformData,
    image: Result<Picture, Error>,
    array: Result<Tensor, Error>,
)
    requires
        call_ensures(TransformData::image, (data,), image),
        call_ensures(TransformData::array, (data,), array),
    ensures
        match data {
            TransformData::Image(picture) => {
                &&& image == Ok::<Picture, Error>(picture)
                &&& array matches Err(Error::ImageTransform(text)) && text@
                    == "TransformData convert error"@
            },
            TransformData::NdArray(tensor) => {
                &&& array == Ok::<Tensor, Error>(tensor)
                &&& image matches Err(Error::ImageTransform(text)) && text@
                    == "TransformData convert error"@
            },
        },
{
}

}
