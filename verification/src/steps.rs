//! The steps of a preprocessor.

use crate::error::{Error, ErrorModel};
use crate::float;
use crate::picture;
use crate::picture::{FilterType, Picture, PictureModel};
use crate::tensor;
use crate::tensor::{Arithmetic, ArithmeticModel, Tensor, TensorModel};
use crate::text;
use crate::transform;
use crate::transform::{
    fit_deepghs, DataModel, Resampler, Resize, ResizeSize, Taker, Transform, TransformData,
};
use vstd::prelude::*;

verus! {

/// What a step does.
#[allow(inconsistent_fields)]
pub enum Step {
    ConvertToRgb,
    Resize { size: ResizeSize, resample: FilterType },
    ResizePillow { width: u32, height: u32, filter: FilterType },
    ResizeDeepGhs { size: u32, max_size: u32 },
    CenterCrop { size: (u32, u32) },
    ToTensor,
    Rescale { scale: u32 },
    Normalize { mean: Seq<u32>, std: Seq<u32> },
}

/// The size that [`ResizeDeepGhs`] resizes to: no side vanishes.
pub open spec fn deepghs_target(size: u32, max_size: u32, width: u32, height: u32) -> (u32, u32) {
    let (w, h) = transform::deepghs_size(size, max_size, width, height);
    (crate::integer::larger(w, 1), crate::integer::larger(h, 1))
}

/// Whether a picture can be resized in width first and in height then.
pub open spec fn pillow_resizable(width: u32, height: u32, new_width: u32, new_height: u32) -> bool {
    &&& picture::resizable(width, height, new_width, height)
    &&& picture::resizable(new_width, height, new_width, new_height)
}

/// Whether a result of `resize` is the result of a step.
pub open spec fn resize_outcome(
    picture: PictureModel,
    width: u32,
    height: u32,
    filter: FilterType,
    resize: Resampler,
    result: Result<DataModel, ErrorModel>,
) -> bool {
    match result {
        Ok(DataModel::Image(resized)) => resize(picture, width, height, filter, Ok(resized)),
        Ok(DataModel::NdArray(_)) => false,
        Err(error) => resize(picture, width, height, filter, Err(error)),
    }
}

/// Whether `result` may come out when a picture is resized in width first and in
/// height then.
pub open spec fn pillow_outcome(
    picture: PictureModel,
    width: u32,
    height: u32,
    filter: FilterType,
    resize: Resampler,
    result: Result<DataModel, ErrorModel>,
) -> bool {
    ||| exists|horizontal: PictureModel| #[trigger]
        resize(picture, width, picture.height, filter, Ok(horizontal)) && resize_outcome(
            horizontal,
            width,
            height,
            filter,
            resize,
            result,
        )
    ||| result matches Err(error) && resize(picture, width, picture.height, filter, Err(error))
}

/// Whether a picture can be resized in width first, and in height then whatever came out.
pub open spec fn pillow_takes(
    picture: PictureModel,
    width: u32,
    height: u32,
    filter: FilterType,
    takes: Taker,
    gives: Resampler,
) -> bool {
    &&& takes(picture, width, picture.height, filter)
    &&& forall|horizontal: PictureModel| #[trigger]
        gives(picture, width, picture.height, filter, Ok(horizontal)) ==> takes(
            horizontal,
            width,
            height,
            filter,
        )
}

/// The part of a picture that a crop of `size` keeps: of each side that is longer
/// than the crop the middle.
pub open spec fn kept(picture: PictureModel, size: (u32, u32)) -> PictureModel {
    let (width, height) = size;
    if picture.width >= width && picture.height >= height {
        picture.cropped(
            ((picture.width - width) / 2) as u32,
            ((picture.height - height) / 2) as u32,
            width,
            height,
        )
    } else if picture.width > width {
        picture.cropped(((picture.width - width) / 2) as u32, 0, width, picture.height)
    } else if picture.height > height {
        picture.cropped(0, ((picture.height - height) / 2) as u32, picture.width, height)
    } else {
        picture
    }
}

/// The tensor of a picture: red, green and blue, each row by row.
pub open spec fn tensor_of(picture: PictureModel) -> TensorModel {
    let area = picture.width * picture.height;
    TensorModel {
        channels: 3,
        height: picture.height as usize,
        width: picture.width as usize,
        values: Seq::new(
            (3 * area) as nat,
            |i: int|
                float::single_of_byte(picture::rgb_of(picture)[3 * (i % area) + i / area]),
        ),
        arithmetic: Seq::empty(),
    }
}

/// An element of the tensor of a picture in the middle of a black one of `size`.
pub open spec fn padded_value(picture: PictureModel, size: (u32, u32), i: int) -> u32 {
    let (width, height) = size;
    let channel = i / (width * height);
    let row = i % (width * height) / width as int - (height - picture.height) / 2;
    let column = i % (width * height) % width as int - (width - picture.width) / 2;
    if 0 <= row < picture.height && 0 <= column < picture.width {
        float::single_of_byte(
            picture::rgb_of(picture)[3 * (row * picture.width + column) + channel],
        )
    } else {
        0
    }
}

/// The tensor of a picture in the middle of a black one of `size`.
pub open spec fn padded(picture: PictureModel, size: (u32, u32)) -> TensorModel {
    TensorModel {
        channels: 3,
        height: size.1 as usize,
        width: size.0 as usize,
        values: Seq::new((3 * (size.0 * size.1)) as nat, |i: int| padded_value(picture, size, i)),
        arithmetic: Seq::empty(),
    }
}

/// The parts of a shape as text.
pub open spec fn shape_text(channels: usize, height: usize, width: usize) -> Seq<char> {
    "("@ + text::decimal(channels as nat) + ", "@ + text::decimal(height as nat) + ", "@
        + text::decimal(width as nat) + ")"@
}

/// What [`Normalize`] makes of a tensor.
pub open spec fn normalized(tensor: TensorModel, mean: Seq<u32>, std: Seq<u32>) -> Result<
    DataModel,
    ErrorModel,
> {
    if mean.len() != 3 {
        Err(
            ErrorModel::InvalidShape(
                "Failed to reshape mean array: "@
                    + "ShapeError/IncompatibleShape: incompatible shapes"@,
            ),
        )
    } else if std.len() != 3 {
        Err(
            ErrorModel::InvalidShape(
                "Failed to reshape std array: "@
                    + "ShapeError/IncompatibleShape: incompatible shapes"@,
            ),
        )
    } else if tensor.channels != 3 || !tensor::space_fits(
        tensor.channels,
        tensor.height,
        tensor.width,
    ) {
        Err(
            ErrorModel::InvalidShape(
                "Failed to broadcast mean array to shape "@ + shape_text(
                    tensor.channels,
                    tensor.height,
                    tensor.width,
                ),
            ),
        )
    } else {
        Ok(DataModel::NdArray(tensor.followed_by(ArithmeticModel::Normalize { mean, std })))
    }
}

impl Step {
    /// Whether the step resizes a picture.
    pub open spec fn resizes(self) -> bool {
        self is Resize || self is ResizePillow || self is ResizeDeepGhs
    }

    /// The size of a picture after the step resized it.
    pub open spec fn resized_size(self, width: u32, height: u32) -> (u32, u32) {
        match self {
            Step::Resize { size, resample: _ } => size.target(width, height),
            Step::ResizePillow { width, height, filter: _ } => (width, height),
            Step::ResizeDeepGhs { size, max_size } => deepghs_target(
                size,
                max_size,
                width,
                height,
            ),
            _ => (width, height),
        }
    }

    /// Whether the step leaves a picture of the size given as it is.
    pub open spec fn leaves(self, width: u32, height: u32) -> bool {
        match self {
            Step::Resize { size, resample: _ } => size.target(width, height) == (width, height),
            Step::ResizeDeepGhs { size, max_size } => transform::deepghs_size(
                size,
                max_size,
                width,
                height,
            ) == (width, height),
            _ => false,
        }
    }

    /// Whether memory and the limits on resizing allow the step on a picture of the
    /// size given.
    pub open spec fn fits(self, width: u32, height: u32) -> bool {
        match self {
            Step::Resize { size, resample: _ } => {
                let target = size.target(width, height);
                target == (width, height) || picture::resizable(width, height, target.0, target.1)
            },
            Step::ResizePillow { width: new_width, height: new_height, filter: _ } =>
                pillow_resizable(width, height, new_width, new_height),
            Step::ResizeDeepGhs { size, max_size } => {
                let target = deepghs_target(size, max_size, width, height);
                &&& width > 0 && height > 0
                &&& transform::deepghs_size(size, max_size, width, height) == (width, height)
                    || pillow_resizable(width, height, target.0, target.1)
            },
            Step::CenterCrop { size } => picture::room(size.0, size.1),
            _ => true,
        }
    }

    /// The size of the picture that the step makes of one of the size given, where it makes
    /// a picture, and the resizer gives the sizes that it is asked for.
    pub open spec fn size_after(self, width: u32, height: u32) -> Option<(u32, u32)> {
        match self {
            Step::ConvertToRgb => Some((width, height)),
            Step::Resize { .. } | Step::ResizePillow { .. } | Step::ResizeDeepGhs { .. } => Some(
                self.resized_size(width, height),
            ),
            Step::CenterCrop { size } => if width >= size.0 && height >= size.1 {
                Some(size)
            } else {
                None
            },
            Step::ToTensor | Step::Rescale { .. } | Step::Normalize { .. } => None,
        }
    }

    /// Whether the step can be applied to a picture.
    pub open spec fn admits_picture(
        self,
        picture: PictureModel,
        takes: Taker,
        gives: Resampler,
    ) -> bool {
        match self {
            Step::ConvertToRgb | Step::ToTensor => picture.wf(),
            Step::Resize { size, resample } => {
                let target = size.target(picture.width, picture.height);
                target == (picture.width, picture.height) || takes(
                    picture,
                    target.0,
                    target.1,
                    resample,
                )
            },
            Step::ResizePillow { width, height, filter } => pillow_takes(
                picture,
                width,
                height,
                filter,
                takes,
                gives,
            ),
            Step::ResizeDeepGhs { size, max_size } => {
                let target = deepghs_target(size, max_size, picture.width, picture.height);
                &&& picture.width > 0 && picture.height > 0
                &&& transform::deepghs_size(size, max_size, picture.width, picture.height) == (
                    picture.width,
                    picture.height,
                ) || pillow_takes(
                    picture,
                    target.0,
                    target.1,
                    FilterType::CatmullRom,
                    takes,
                    gives,
                )
            },
            Step::CenterCrop { size } => picture.wf() && picture::room(size.0, size.1),
            Step::Rescale { .. } | Step::Normalize { .. } => true,
        }
    }

    /// Whether the step can be applied to `data`.
    pub open spec fn admits(self, data: DataModel, takes: Taker, gives: Resampler) -> bool {
        data matches DataModel::Image(picture) ==> self.admits_picture(picture, takes, gives)
    }

    /// Whether `result` may come out when the step is applied to a picture.
    pub open spec fn picture_outcome(
        self,
        picture: PictureModel,
        resize: Resampler,
        result: Result<DataModel, ErrorModel>,
    ) -> bool {
        match self {
            Step::ConvertToRgb => result == Ok::<DataModel, ErrorModel>(
                DataModel::Image(picture.converted()),
            ),
            Step::Resize { size, resample } => {
                let target = size.target(picture.width, picture.height);
                if target == (picture.width, picture.height) {
                    result == Ok::<DataModel, ErrorModel>(DataModel::Image(picture))
                } else {
                    resize_outcome(picture, target.0, target.1, resample, resize, result)
                }
            },
            Step::ResizePillow { width, height, filter } => pillow_outcome(
                picture,
                width,
                height,
                filter,
                resize,
                result,
            ),
            Step::ResizeDeepGhs { size, max_size } => {
                let target = deepghs_target(size, max_size, picture.width, picture.height);
                if transform::deepghs_size(size, max_size, picture.width, picture.height) == (
                    picture.width,
                    picture.height,
                ) {
                    result == Ok::<DataModel, ErrorModel>(DataModel::Image(picture))
                } else {
                    pillow_outcome(
                        picture,
                        target.0,
                        target.1,
                        FilterType::CatmullRom,
                        resize,
                        result,
                    )
                }
            },
            Step::CenterCrop { size } => result == Ok::<DataModel, ErrorModel>(
                if picture.width >= size.0 && picture.height >= size.1 {
                    DataModel::Image(kept(picture, size))
                } else {
                    DataModel::NdArray(padded(kept(picture, size), size))
                },
            ),
            Step::ToTensor => result == Ok::<DataModel, ErrorModel>(
                DataModel::NdArray(tensor_of(picture)),
            ),
            Step::Rescale { .. } | Step::Normalize { .. } => result == Err::<
                DataModel,
                ErrorModel,
            >(transform::convert_error()),
        }
    }

    /// What comes out when the step is applied to a tensor.
    pub open spec fn tensor_outcome(self, tensor: TensorModel) -> Result<DataModel, ErrorModel> {
        match self {
            Step::ToTensor => Ok(DataModel::NdArray(tensor)),
            Step::Rescale { scale } => Ok(
                DataModel::NdArray(tensor.followed_by(ArithmeticModel::Rescale { scale })),
            ),
            Step::Normalize { mean, std } => normalized(tensor, mean, std),
            _ => Err(transform::convert_error()),
        }
    }

    /// Whether `result` may come out when the step is applied to `data`.
    pub open spec fn outcome(
        self,
        data: DataModel,
        resize: Resampler,
        result: Result<DataModel, ErrorModel>,
    ) -> bool {
        match data {
            DataModel::Image(picture) => self.picture_outcome(picture, resize, result),
            DataModel::NdArray(tensor) => result == self.tensor_outcome(tensor),
        }
    }
}

/// Turns a picture into red, green and blue with 8 bits each.
#[derive(Debug)]
pub struct ConvertToRGB;

impl ConvertToRGB {
    /// Applies the step.
    pub(crate) fn apply(&self, data: TransformData) -> (result: Result<TransformData, Error>)
        requires
            data@ matches DataModel::Image(picture) ==> picture.wf(),
        ensures
            forall|resize: Resampler| #[trigger]
                Step::ConvertToRgb.outcome(data@, resize, transform::data_model(result)),
    {
        let image = match data.image() {
            Ok(image) => image,
            Err(error) => return Err(error),
        };
        let (width, height): (u32, u32) = (image.width, image.height);
        let samples = image.into_rgb();
        Ok(TransformData::Image(Picture::rgb(width, height, samples)))
    }
}

impl Transform for ConvertToRGB {
    open spec fn admits(&self, data: DataModel, takes: Taker, gives: Resampler) -> bool {
        Step::ConvertToRgb.admits(data, takes, gives)
    }

    open spec fn outcome(
        &self,
        data: DataModel,
        resize: Resampler,
        result: Result<DataModel, ErrorModel>,
    ) -> bool {
        Step::ConvertToRgb.outcome(data, resize, result)
    }

    fn transform_with_resize<R: Fn(Picture, u32, u32, FilterType) -> Result<Picture, Error>>(
        &self,
        data: TransformData,
        _resize: &R,
    ) -> (result: Result<TransformData, Error>) {
        self.apply(data)
    }
}

impl Resize {
    /// What the step does.
    pub open spec fn step(self) -> Step {
        Step::Resize { size: self.size, resample: self.resample }
    }
}

impl Resize {
    /// Applies the step.
    pub(crate) fn apply<R: Fn(Picture, u32, u32, FilterType) -> Result<Picture, Error>>(
        &self,
        data: TransformData,
        resize: &R,
    ) -> (result: Result<TransformData, Error>)
        requires
            self.step().admits(data@, transform::taker(*resize), transform::resampler(*resize)),
        ensures
            self.step().outcome(
                data@,
                transform::resampler(*resize),
                transform::data_model(result),
            ),
    {
        let image = match data.image() {
            Ok(image) => image,
            Err(error) => return Err(error),
        };
        let (width, height): (u32, u32) = (image.width, image.height);
        let (new_width, new_height): (u32, u32) = self.target_dimensions(width, height);
        if new_width == width && new_height == height {
            return Ok(TransformData::Image(image));
        }
        let ghost picture = image@;
        let resized = resize(image, new_width, new_height, self.resample);
        assert(transform::resampler(*resize)(
            picture,
            new_width,
            new_height,
            self.resample,
            transform::resized_model(resized),
        ));
        match resized {
            Ok(image) => Ok(TransformData::Image(image)),
            Err(error) => Err(error),
        }
    }
}

impl Transform for Resize {
    open spec fn admits(&self, data: DataModel, takes: Taker, gives: Resampler) -> bool {
        self.step().admits(data, takes, gives)
    }

    open spec fn outcome(
        &self,
        data: DataModel,
        resize: Resampler,
        result: Result<DataModel, ErrorModel>,
    ) -> bool {
        self.step().outcome(data, resize, result)
    }

    fn transform_with_resize<R: Fn(Picture, u32, u32, FilterType) -> Result<Picture, Error>>(
        &self,
        data: TransformData,
        resize: &R,
    ) -> (result: Result<TransformData, Error>) {
        self.apply(data, resize)
    }
}

/// Whether `resized` may come out when a picture is resized in width first and in
/// height then.
pub open spec fn pillow_resizes(
    picture: PictureModel,
    width: u32,
    height: u32,
    filter: FilterType,
    resize: Resampler,
    resized: Result<PictureModel, ErrorModel>,
) -> bool {
    pillow_outcome(
        picture,
        width,
        height,
        filter,
        resize,
        match resized {
            Ok(picture) => Ok(DataModel::Image(picture)),
            Err(error) => Err(error),
        },
    )
}

/// Resizes a picture in width first and in height then, so that what lies between
/// is rounded to whole samples.
pub fn pillow_resize<R: Fn(Picture, u32, u32, FilterType) -> Result<Picture, Error>>(
    image: Picture,
    width: u32,
    height: u32,
    filter: FilterType,
    resize: &R,
) -> (resized: Result<Picture, Error>)
    requires
        pillow_takes(
            image@,
            width,
            height,
            filter,
            transform::taker(*resize),
            transform::resampler(*resize),
        ),
    ensures
        pillow_resizes(
            image@,
            width,
            height,
            filter,
            transform::resampler(*resize),
            transform::resized_model(resized),
        ),
{
    let source_height: u32 = image.height;
    let ghost picture = image@;
    let horizontal = resize(image, width, source_height, filter);
    assert(transform::resampler(*resize)(
        picture,
        width,
        source_height,
        filter,
        transform::resized_model(horizontal),
    ));
    match horizontal {
        Ok(image) => {
            let ghost between = image@;
            let resized = resize(image, width, height, filter);
            assert(transform::resampler(*resize)(
                between,
                width,
                height,
                filter,
                transform::resized_model(resized),
            ));
            resized
        },
        Err(error) => Err(error),
    }
}

/// Resizes a picture in width first and in height then.
#[derive(Debug)]
pub struct ResizePillow {
    pub width: u32,
    pub height: u32,
    pub filter: FilterType,
}

impl ResizePillow {
    /// What the step does.
    pub open spec fn step(self) -> Step {
        Step::ResizePillow { width: self.width, height: self.height, filter: self.filter }
    }
}

impl ResizePillow {
    /// Applies the step.
    pub(crate) fn apply<R: Fn(Picture, u32, u32, FilterType) -> Result<Picture, Error>>(
        &self,
        data: TransformData,
        resize: &R,
    ) -> (result: Result<TransformData, Error>)
        requires
            self.step().admits(data@, transform::taker(*resize), transform::resampler(*resize)),
        ensures
            self.step().outcome(
                data@,
                transform::resampler(*resize),
                transform::data_model(result),
            ),
    {
        let image = match data.image() {
            Ok(image) => image,
            Err(error) => return Err(error),
        };
        match pillow_resize(image, self.width, self.height, self.filter, resize) {
            Ok(image) => Ok(TransformData::Image(image)),
            Err(error) => Err(error),
        }
    }
}

impl Transform for ResizePillow {
    open spec fn admits(&self, data: DataModel, takes: Taker, gives: Resampler) -> bool {
        self.step().admits(data, takes, gives)
    }

    open spec fn outcome(
        &self,
        data: DataModel,
        resize: Resampler,
        result: Result<DataModel, ErrorModel>,
    ) -> bool {
        self.step().outcome(data, resize, result)
    }

    fn transform_with_resize<R: Fn(Picture, u32, u32, FilterType) -> Result<Picture, Error>>(
        &self,
        data: TransformData,
        resize: &R,
    ) -> (result: Result<TransformData, Error>) {
        self.apply(data, resize)
    }
}

/// Resizes the shorter side of a picture to `size`, but caps the longer one at
/// `max_size`, as DeepGHS checkpoints ask for.
#[derive(Debug)]
pub struct ResizeDeepGhs {
    pub size: u32,
    pub max_size: u32,
}

impl ResizeDeepGhs {
    /// What the step does.
    pub open spec fn step(self) -> Step {
        Step::ResizeDeepGhs { size: self.size, max_size: self.max_size }
    }
}

impl ResizeDeepGhs {
    /// Applies the step.
    pub(crate) fn apply<R: Fn(Picture, u32, u32, FilterType) -> Result<Picture, Error>>(
        &self,
        data: TransformData,
        resize: &R,
    ) -> (result: Result<TransformData, Error>)
        requires
            self.step().admits(data@, transform::taker(*resize), transform::resampler(*resize)),
        ensures
            self.step().outcome(
                data@,
                transform::resampler(*resize),
                transform::data_model(result),
            ),
    {
        let image = match data.image() {
            Ok(image) => image,
            Err(error) => return Err(error),
        };
        let (width, height): (u32, u32) = (image.width, image.height);
        let (new_width, new_height): (u32, u32) = fit_deepghs(
            self.size,
            self.max_size,
            width,
            height,
        );
        if new_width == width && new_height == height {
            return Ok(TransformData::Image(image));
        }
        let new_width: u32 = if new_width >= 1 {
            new_width
        } else {
            1
        };
        let new_height: u32 = if new_height >= 1 {
            new_height
        } else {
            1
        };
        match pillow_resize(image, new_width, new_height, FilterType::CatmullRom, resize) {
            Ok(image) => Ok(TransformData::Image(image)),
            Err(error) => Err(error),
        }
    }
}

impl Transform for ResizeDeepGhs {
    open spec fn admits(&self, data: DataModel, takes: Taker, gives: Resampler) -> bool {
        self.step().admits(data, takes, gives)
    }

    open spec fn outcome(
        &self,
        data: DataModel,
        resize: Resampler,
        result: Result<DataModel, ErrorModel>,
    ) -> bool {
        self.step().outcome(data, resize, result)
    }

    fn transform_with_resize<R: Fn(Picture, u32, u32, FilterType) -> Result<Picture, Error>>(
        &self,
        data: TransformData,
        resize: &R,
    ) -> (result: Result<TransformData, Error>) {
        self.apply(data, resize)
    }
}

/// Cuts the middle out of a picture, or puts the picture into the middle of a
/// black one where it is too small.
#[derive(Debug)]
pub struct CenterCrop {
    /// Width and height.
    pub size: (u32, u32),
}

impl CenterCrop {
    /// What the step does.
    pub open spec fn step(self) -> Step {
        Step::CenterCrop { size: self.size }
    }
}

/// The position of a sample within those of a picture.
proof fn lemma_sample_index(width: int, height: int, row: int, column: int, channel: int)
    requires
        0 <= row < height,
        0 <= column < width,
        0 <= channel < 3,
    ensures
        0 <= row * width + column < width * height,
        0 <= 3 * (row * width + column) + channel < width * height * 3,
{
    assert(0 <= row * width + column < width * height) by (nonlinear_arith)
        requires
            0 <= row < height,
            0 <= column < width,
    ;
}

/// The channel of an element of a tensor with three of them.
proof fn lemma_channel(i: int, area: int)
    requires
        0 <= i < 3 * area,
    ensures
        0 <= i / area < 3,
        0 <= i % area < area,
{
    assert(0 <= i / area < 3 && 0 <= i % area < area) by (nonlinear_arith)
        requires
            0 <= i < 3 * area,
            area > 0,
    ;
}

/// Puts a picture into the middle of a black one.
fn pad(image: Picture, size: (u32, u32)) -> (tensor: Tensor)
    requires
        image@.wf(),
        image.width <= size.0,
        image.height <= size.1,
        picture::room(size.0, size.1),
    ensures
        tensor@ == padded(image@, size),
{
    let (width, height): (u32, u32) = (image.width, image.height);
    let (crop_width, crop_height): (u32, u32) = size;
    let ghost picture = image@;
    assert(16 * crop_width * crop_height == 16 * (crop_width * crop_height)) by (nonlinear_arith);
    assert(crop_width * crop_height >= 0) by (nonlinear_arith)
        requires
            crop_width >= 0,
            crop_height >= 0,
    ;
    let rgb = image.into_rgb();
    let count: usize = rgb.len();
    let area: usize = crop_width as usize * crop_height as usize;
    let offset_x: u32 = (crop_width - width) / 2;
    let offset_y: u32 = (crop_height - height) / 2;
    let mut values: Vec<u32> = Vec::new();
    let mut i: usize = 0;
    while i < 3 * area
        invariant
            area == crop_width * crop_height,
            16 * area <= isize::MAX,
            i <= 3 * area,
            values@.len() == i,
            forall|j: int| 0 <= j < i ==> values@[j] == padded_value(picture, size, j),
            rgb@ == picture::rgb_of(picture),
            rgb@.len() == count,
            count == width * height * 3,
            size == (crop_width, crop_height),
            picture.width == width,
            picture.height == height,
            width <= crop_width,
            height <= crop_height,
            offset_x == (crop_width - width) / 2,
            offset_y == (crop_height - height) / 2,
        decreases 3 * area - i,
    {
        proof {
            lemma_channel(i as int, area as int);
            assert(crop_width > 0) by (nonlinear_arith)
                requires
                    area > 0,
                    area == crop_width * crop_height,
            ;
            assert((i % area) / (crop_width as usize) < crop_height) by (nonlinear_arith)
                requires
                    0 <= i % area < area,
                    area == crop_width * crop_height,
                    crop_width > 0,
            ;
        }
        let channel: usize = i / area;
        let row: usize = i % area / crop_width as usize;
        let column: usize = i % area % crop_width as usize;
        let (top, left): (usize, usize) = (offset_y as usize, offset_x as usize);
        let value: u32 = if row >= top && row - top < height as usize && column >= left && column
            - left < width as usize {
            let (y, x): (usize, usize) = (row - top, column - left);
            proof {
                lemma_sample_index(
                    width as int,
                    height as int,
                    y as int,
                    x as int,
                    channel as int,
                );
            }
            assert(0 <= y * width <= y * width + x) by (nonlinear_arith)
                requires
                    y >= 0,
                    width >= 0,
                    x >= 0,
            ;
            float::byte_to_single(rgb[3 * (y * width as usize + x) + channel])
        } else {
            0
        };
        assert(value == padded_value(picture, size, i as int));
        values.push(value);
        i += 1;
    }
    let tensor = Tensor {
        channels: 3,
        height: crop_height as usize,
        width: crop_width as usize,
        values,
        arithmetic: Vec::new(),
    };
    assert(tensor@ =~= padded(picture, size));
    tensor
}

impl CenterCrop {
    /// Applies the step.
    pub(crate) fn apply(&self, data: TransformData) -> (result: Result<TransformData, Error>)
        requires
            data@ matches DataModel::Image(picture) ==> picture.wf() && picture::room(
                self.size.0,
                self.size.1,
            ),
        ensures
            forall|resize: Resampler| #[trigger]
                self.step().outcome(data@, resize, transform::data_model(result)),
    {
        let mut image = match data.image() {
            Ok(image) => image,
            Err(error) => return Err(error),
        };
        let (width, height): (u32, u32) = (image.width, image.height);
        let (crop_width, crop_height): (u32, u32) = self.size;
        if width >= crop_width && height >= crop_height {
            let x: u32 = (width - crop_width) / 2;
            let y: u32 = (height - crop_height) / 2;
            return Ok(TransformData::Image(image.crop(x, y, crop_width, crop_height)));
        }
        if width > crop_width {
            image = image.crop((width - crop_width) / 2, 0, crop_width, height);
        } else if height > crop_height {
            image = image.crop(0, (height - crop_height) / 2, width, crop_height);
        }
        Ok(TransformData::NdArray(pad(image, self.size)))
    }
}

impl Transform for CenterCrop {
    open spec fn admits(&self, data: DataModel, takes: Taker, gives: Resampler) -> bool {
        self.step().admits(data, takes, gives)
    }

    open spec fn outcome(
        &self,
        data: DataModel,
        resize: Resampler,
        result: Result<DataModel, ErrorModel>,
    ) -> bool {
        self.step().outcome(data, resize, result)
    }

    fn transform_with_resize<R: Fn(Picture, u32, u32, FilterType) -> Result<Picture, Error>>(
        &self,
        data: TransformData,
        _resize: &R,
    ) -> (result: Result<TransformData, Error>) {
        self.apply(data)
    }
}

/// Turns a picture into a tensor.
#[derive(Debug)]
pub struct PILToNDarray;

/// Makes the tensor of a picture.
fn to_tensor(image: Picture) -> (tensor: Tensor)
    requires
        image@.wf(),
    ensures
        tensor@ == tensor_of(image@),
{
    let (width, height): (u32, u32) = (image.width, image.height);
    let ghost picture = image@;
    assert(16 * width * height == 16 * (width * height)) by (nonlinear_arith);
    assert(width * height >= 0) by (nonlinear_arith)
        requires
            width >= 0,
            height >= 0,
    ;
    let rgb = image.into_rgb();
    let area: usize = width as usize * height as usize;
    let mut values: Vec<u32> = Vec::new();
    let mut i: usize = 0;
    while i < 3 * area
        invariant
            area == width * height,
            16 * area <= isize::MAX,
            i <= 3 * area,
            values@.len() == i,
            forall|j: int| 0 <= j < i ==> values@[j] == tensor_of(picture).values[j],
            rgb@ == picture::rgb_of(picture),
            rgb@.len() == width * height * 3,
            picture.width == width,
            picture.height == height,
        decreases 3 * area - i,
    {
        proof {
            lemma_channel(i as int, area as int);
        }
        values.push(float::byte_to_single(rgb[3 * (i % area) + i / area]));
        i += 1;
    }
    let tensor = Tensor {
        channels: 3,
        height: height as usize,
        width: width as usize,
        values,
        arithmetic: Vec::new(),
    };
    assert(tensor@ =~= tensor_of(picture));
    tensor
}

impl PILToNDarray {
    /// Applies the step.
    pub(crate) fn apply(&self, data: TransformData) -> (result: Result<TransformData, Error>)
        requires
            data@ matches DataModel::Image(picture) ==> picture.wf(),
        ensures
            forall|resize: Resampler| #[trigger]
                Step::ToTensor.outcome(data@, resize, transform::data_model(result)),
    {
        match data {
            TransformData::Image(image) => Ok(TransformData::NdArray(to_tensor(image))),
            TransformData::NdArray(tensor) => Ok(TransformData::NdArray(tensor)),
        }
    }
}

impl Transform for PILToNDarray {
    open spec fn admits(&self, data: DataModel, takes: Taker, gives: Resampler) -> bool {
        Step::ToTensor.admits(data, takes, gives)
    }

    open spec fn outcome(
        &self,
        data: DataModel,
        resize: Resampler,
        result: Result<DataModel, ErrorModel>,
    ) -> bool {
        Step::ToTensor.outcome(data, resize, result)
    }

    fn transform_with_resize<R: Fn(Picture, u32, u32, FilterType) -> Result<Picture, Error>>(
        &self,
        data: TransformData,
        _resize: &R,
    ) -> (result: Result<TransformData, Error>) {
        self.apply(data)
    }
}

/// Multiplies a tensor by a number.
#[derive(Debug)]
pub struct Rescale {
    /// The bit pattern of a number in single precision.
    pub scale: u32,
}

impl Rescale {
    /// What the step does.
    pub open spec fn step(self) -> Step {
        Step::Rescale { scale: self.scale }
    }
}

impl Rescale {
    /// Applies the step.
    pub(crate) fn apply(&self, data: TransformData) -> (result: Result<TransformData, Error>)
        ensures
            forall|resize: Resampler| #[trigger]
                self.step().outcome(data@, resize, transform::data_model(result)),
    {
        match data.array() {
            Ok(tensor) => Ok(
                TransformData::NdArray(tensor.follow(Arithmetic::Rescale { scale: self.scale })),
            ),
            Err(error) => Err(error),
        }
    }
}

impl Transform for Rescale {
    open spec fn admits(&self, data: DataModel, takes: Taker, gives: Resampler) -> bool {
        self.step().admits(data, takes, gives)
    }

    open spec fn outcome(
        &self,
        data: DataModel,
        resize: Resampler,
        result: Result<DataModel, ErrorModel>,
    ) -> bool {
        self.step().outcome(data, resize, result)
    }

    fn transform_with_resize<R: Fn(Picture, u32, u32, FilterType) -> Result<Picture, Error>>(
        &self,
        data: TransformData,
        _resize: &R,
    ) -> (result: Result<TransformData, Error>) {
        self.apply(data)
    }
}

/// Normalizes a tensor: mean and standard deviation of each channel become 0 and 1
/// where they were those given.
#[derive(Debug)]
pub struct Normalize {
    /// The bit patterns of numbers in single precision.
    pub mean: Vec<u32>,
    /// The bit patterns of numbers in single precision.
    pub std: Vec<u32>,
}

impl Normalize {
    /// What the step does.
    pub open spec fn step(self) -> Step {
        Step::Normalize { mean: self.mean@, std: self.std@ }
    }
}

/// Writes the parts of a shape.
fn write_shape(channels: usize, height: usize, width: usize) -> (shape: String)
    ensures
        shape@ == shape_text(channels, height, width),
{
    let mut shape = text::joined("(", text::decimal_text(channels).as_str());
    shape = text::joined(shape.as_str(), ", ");
    shape = text::joined(shape.as_str(), text::decimal_text(height).as_str());
    shape = text::joined(shape.as_str(), ", ");
    shape = text::joined(shape.as_str(), text::decimal_text(width).as_str());
    text::joined(shape.as_str(), ")")
}

impl Normalize {
    /// Applies the step.
    pub(crate) fn apply(&self, data: TransformData) -> (result: Result<TransformData, Error>)
        ensures
            forall|resize: Resampler| #[trigger]
                self.step().outcome(data@, resize, transform::data_model(result)),
    {
        let tensor = match data.array() {
            Ok(tensor) => tensor,
            Err(error) => return Err(error),
        };
        let mean = match tensor::into_channels(self.mean.clone()) {
            Ok(mean) => mean,
            Err(error) => return Err(
                Error::InvalidShape(
                    text::joined("Failed to reshape mean array: ", error.as_str()),
                ),
            ),
        };
        let std = match tensor::into_channels(self.std.clone()) {
            Ok(std) => std,
            Err(error) => return Err(
                Error::InvalidShape(text::joined("Failed to reshape std array: ", error.as_str())),
            ),
        };
        let (channels, height, width): (usize, usize, usize) = (
            tensor.channels,
            tensor.height,
            tensor.width,
        );
        if !tensor::broadcasts(&mean, channels, height, width) {
            let shape = write_shape(channels, height, width);
            return Err(
                Error::InvalidShape(
                    text::joined("Failed to broadcast mean array to shape ", shape.as_str()),
                ),
            );
        }
        if !tensor::broadcasts(&std, channels, height, width) {
            let shape = write_shape(channels, height, width);
            return Err(
                Error::InvalidShape(
                    text::joined("Failed to broadcast std array to shape ", shape.as_str()),
                ),
            );
        }
        Ok(TransformData::NdArray(tensor.follow(Arithmetic::Normalize { mean, std })))
    }
}

impl Transform for Normalize {
    open spec fn admits(&self, data: DataModel, takes: Taker, gives: Resampler) -> bool {
        self.step().admits(data, takes, gives)
    }

    open spec fn outcome(
        &self,
        data: DataModel,
        resize: Resampler,
        result: Result<DataModel, ErrorModel>,
    ) -> bool {
        self.step().outcome(data, resize, result)
    }

    fn transform_with_resize<R: Fn(Picture, u32, u32, FilterType) -> Result<Picture, Error>>(
        &self,
        data: TransformData,
        _resize: &R,
    ) -> (result: Result<TransformData, Error>) {
        self.apply(data)
    }
}

}
