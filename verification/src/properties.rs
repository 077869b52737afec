//! What holds of sizes, crops, tensors and preprocessors.

use crate::compose::Plan;
use crate::error::ErrorModel;
use crate::float;
use crate::integer;
use crate::picture;
use crate::picture::{default_resize, PictureModel, SamplesModel};
use crate::steps;
use crate::steps::{CenterCrop, Step};
use crate::tensor;
use crate::tensor::TensorModel;
use crate::transform;
use crate::transform::{DataModel, Resampler, ResizeSize};
use vstd::arithmetic::div_mod::*;
use vstd::prelude::*;

verus! {

/// A picture resized to a shortest edge has that edge, and its other side is in
/// proportion, rounded down: the aspect ratio is preserved. The product of the edge
/// and the longer side is one that double precision holds.
pub proof fn shortest_edge_preserves_the_aspect_ratio(edge: u32, width: u32, height: u32)
    requires
        edge > 0,
        width > 0,
        height > 0,
        edge * integer::larger(width, height) < 0x20_0000_0000_0000,
    ensures
        ({
            let (w, h) = ResizeSize::ShortestEdge(edge).target(width, height);
            if width <= height {
                w == edge && h == (if (edge * height) as int / width as int <= u32::MAX {
                    (edge * height) as int / width as int
                } else {
                    u32::MAX as int
                })
            } else {
                h == edge && w == (if (edge * width) as int / height as int <= u32::MAX {
                    (edge * width) as int / height as int
                } else {
                    u32::MAX as int
                })
            }
        }),
{
    let short = if width <= height { width } else { height };
    let long = if width <= height { height } else { width };
    assert(edge * long >= 0) by (nonlinear_arith)
        requires
            edge >= 0,
            long >= 0,
    ;
    float::double_quotient_is_exact((edge * long) as nat, short as nat);
    assert((edge * long) as int / short as int >= edge) by (nonlinear_arith)
        requires
            0 < short <= long,
            edge > 0,
    ;
    if short == edge {
        assert((edge * long) as int / edge as int == long) by (nonlinear_arith)
            requires
                edge > 0,
        ;
    }
}

/// A picture resized to an exact size has that width and that height.
pub proof fn exact_size_is_reached(new_width: u32, new_height: u32, width: u32, height: u32)
    ensures
        (ResizeSize::Exact { width: new_width, height: new_height }).target(width, height) == (
            new_width,
            new_height,
        ),
{
}

/// The size that DeepGHS checkpoints ask for has no side beyond `max_size`, and its
/// shorter side is `size` where the longer one stays within `max_size` by itself;
/// otherwise the longer side is `max_size`.
pub proof fn deepghs_caps_the_long_side(size: u32, max_size: u32, width: u32, height: u32)
    requires
        width > 0,
        height > 0,
    ensures
        ({
            let (w, h) = transform::deepghs_size(size, max_size, width, height);
            let short = if width < height { width } else { height };
            let new_short = if width < height { w } else { h };
            let new_long = if width < height { h } else { w };
            let scaled = (size * integer::larger(width, height)) as int / short as int;
            &&& new_short <= new_long <= max_size
            &&& scaled <= max_size ==> new_short == size && new_long == scaled
            &&& scaled > max_size ==> new_long == max_size
        }),
{
    let long = integer::larger(width, height);
    let short = if width < height { width } else { height };
    let scaled = (size * long) as int / short as int;
    assert(scaled >= size) by (nonlinear_arith)
        requires
            0 < short <= long,
            size >= 0,
            scaled == (size * long) as int / short as int,
    ;
    if scaled > max_size {
        assert(0 <= (max_size * size) as int / scaled <= max_size) by (nonlinear_arith)
            requires
                0 <= size <= scaled,
                scaled > 0,
                max_size >= 0,
        ;
    }
}

/// Rows and columns of an element, from its position.
proof fn lemma_position(width: int, height: int, channel: int, row: int, column: int)
    requires
        0 <= row < height,
        0 <= column < width,
        0 <= channel < 3,
    ensures
        ({
            let i = (channel * height + row) * width + column;
            &&& 0 <= i < 3 * (width * height)
            &&& i / (width * height) == channel
            &&& i % (width * height) == row * width + column
            &&& i % (width * height) / width == row
            &&& i % (width * height) % width == column
        }),
{
    let area = width * height;
    let i = (channel * height + row) * width + column;
    let within = row * width + column;
    assert(0 <= within < area) by (nonlinear_arith)
        requires
            0 <= row < height,
            0 <= column < width,
            within == row * width + column,
            area == width * height,
    ;
    assert(i == channel * area + within) by (nonlinear_arith)
        requires
            i == (channel * height + row) * width + column,
            within == row * width + column,
            area == width * height,
    ;
    lemma_fundamental_div_mod_converse(i, area, channel, within);
    lemma_fundamental_div_mod_converse(within, width, row, column);
    assert(i < 3 * area) by (nonlinear_arith)
        requires
            i == channel * area + within,
            0 <= within < area,
            channel <= 2,
    ;
    assert(i >= 0) by (nonlinear_arith)
        requires
            i == channel * area + within,
            within >= 0,
            channel >= 0,
            area >= 0,
    ;
}

/// The tensor of a picture holds each sample where its channel, row and column are.
pub proof fn tensor_keeps_every_sample(
    picture: PictureModel,
    channel: int,
    row: int,
    column: int,
)
    requires
        picture.wf(),
        0 <= channel < 3,
        0 <= row < picture.height,
        0 <= column < picture.width,
    ensures
        steps::tensor_of(picture).at(channel, row, column) == float::single_of_byte(
            picture.rgb_at(channel, column, row),
        ),
{
    lemma_position(picture.width as int, picture.height as int, channel, row, column);
}

/// A picture in the middle of a black one: each sample is where its channel, row
/// and column are, moved by half of what the picture lacks in height and width, and
/// all around is black.
pub proof fn padding_is_black_around_the_middle(
    picture: PictureModel,
    size: (u32, u32),
    channel: int,
    row: int,
    column: int,
)
    requires
        picture.wf(),
        picture.width <= size.0,
        picture.height <= size.1,
        0 <= channel < 3,
        0 <= row < size.1,
        0 <= column < size.0,
    ensures
        ({
            let y = row - (size.1 - picture.height) / 2;
            let x = column - (size.0 - picture.width) / 2;
            steps::padded(picture, size).at(channel, row, column) == (if 0 <= y < picture.height
                && 0 <= x < picture.width {
                float::single_of_byte(picture.rgb_at(channel, x, y))
            } else {
                0
            })
        }),
{
    lemma_position(size.0 as int, size.1 as int, channel, row, column);
}

/// Whatever the size of a picture, a crop gives one of its own size: a picture, or
/// a tensor of three channels where the picture was too small.
pub proof fn crop_gives_its_size(
    picture: PictureModel,
    size: (u32, u32),
    resize: Resampler,
    result: Result<DataModel, ErrorModel>,
)
    requires
        picture.wf(),
        (Step::CenterCrop { size }).picture_outcome(picture, resize, result),
    ensures
        result matches Ok(data) && match data {
            DataModel::Image(cut) => {
                &&& picture.width >= size.0 && picture.height >= size.1
                &&& cut.width == size.0
                &&& cut.height == size.1
                &&& cut.wf()
            },
            DataModel::NdArray(tensor) => {
                &&& picture.width < size.0 || picture.height < size.1
                &&& tensor.channels == 3
                &&& tensor.height == size.1
                &&& tensor.width == size.0
                &&& tensor.values.len() == 3 * (size.0 * size.1)
            },
        },
{
    if picture.width >= size.0 && picture.height >= size.1 {
        picture::lemma_cropped_wf(
            picture,
            ((picture.width - size.0) / 2) as u32,
            ((picture.height - size.1) / 2) as u32,
            size.0,
            size.1,
        );
    } else {
        assert(size.0 * size.1 >= 0) by (nonlinear_arith)
            requires
                size.0 >= 0,
                size.1 >= 0,
        ;
    }
}

/// A crop of a picture of red, green and blue that is large enough keeps the middle:
/// each sample is that of the picture, moved by half of what the picture has more in
/// width and height.
pub proof fn crop_keeps_the_middle(
    picture: PictureModel,
    size: (u32, u32),
    channel: int,
    column: int,
    row: int,
)
    requires
        picture.wf(),
        picture.channels == 3,
        picture.samples is Eight,
        picture.width >= size.0,
        picture.height >= size.1,
        0 <= channel < 3,
        0 <= column < size.0,
        0 <= row < size.1,
    ensures
        steps::kept(picture, size).samples is Eight,
        steps::kept(picture, size).samples->Eight_0[3 * (row * size.0 + column) + channel]
            == picture.samples->Eight_0[3 * ((row + (picture.height - size.1) / 2) * picture.width
            + column + (picture.width - size.0) / 2) + channel],
{
    let pixel = row * size.0 + column;
    let i = 3 * pixel + channel;
    assert(0 <= pixel < size.0 * size.1) by (nonlinear_arith)
        requires
            0 <= row < size.1,
            0 <= column < size.0,
            pixel == row * size.0 + column,
    ;
    lemma_fundamental_div_mod_converse(pixel, size.0 as int, row, column);
    assert(i / 3 == pixel && i % 3 == channel);
    assert(size.0 * size.1 * 3 == 3 * (size.0 * size.1));
    let x = (picture.width - size.0) / 2;
    let y = (picture.height - size.1) / 2;
    assert((y + row) * picture.width + (x + column) == (row + y) * picture.width + column + x);
}

/// A picture in red, green and blue with 8 bits each is one, of the size of the
/// picture; and a picture that is one stays what it is.
pub proof fn conversion_keeps_rgb(picture: PictureModel)
    requires
        picture.wf(),
    ensures
        picture.converted().wf(),
        picture.converted().width == picture.width,
        picture.converted().height == picture.height,
        picture.channels == 3 && picture.samples is Eight ==> picture.converted() == picture,
{
    assert(picture.width * picture.height * 3 >= 0) by (nonlinear_arith)
        requires
            picture.width >= 0,
            picture.height >= 0,
    ;
    if picture.channels == 3 && picture.samples is Eight {
        assert(picture::rgb_of(picture) =~= picture.samples->Eight_0);
    }
}

/// What a resizer gives when a plan is followed.
proof fn lemma_resized(
    plan: Plan,
    picture: PictureModel,
    resize: Resampler,
    resized: PictureModel,
)
    requires
        plan.wf(),
        picture.wf(),
        plan.fits(picture.width, picture.height),
        transform::sized(resize),
        plan.resize_outcome(picture, resize, Ok(DataModel::Image(resized))),
    ensures
        resized.wf(),
        plan.resize matches Some(step) ==> (resized.width, resized.height) == step.resized_size(
            picture.width,
            picture.height,
        ),
        plan.resize is None ==> resized == picture,
{
}

/// A preprocessor turns any picture that its steps fit into a tensor of three
/// channels and of the size that its plan gives, with the arithmetic of its plan; or
/// it fails.
pub proof fn preprocessor_gives_its_size(
    plan: Plan,
    picture: PictureModel,
    resize: Resampler,
    tensor: TensorModel,
)
    requires
        plan.wf(),
        picture.wf(),
        plan.fits(picture.width, picture.height),
        transform::sized(resize),
        plan.outcome(picture, resize, Ok(DataModel::NdArray(tensor))),
    ensures
        tensor.channels == 3,
        tensor.width == plan.size(picture.width, picture.height).0,
        tensor.height == plan.size(picture.width, picture.height).1,
        tensor.values.len() == 3 * tensor.height * tensor.width,
        tensor.arithmetic == plan.arithmetic(),
{
    let result: Result<DataModel, ErrorModel> = Ok(DataModel::NdArray(tensor));
    let converted = picture.converted();
    let resized = choose|resized: PictureModel| #[trigger]
        plan.resize_outcome(converted, resize, Ok(DataModel::Image(resized))) && result
            == plan.finished(plan.tensor(resized));
    conversion_keeps_rgb(picture);
    lemma_resized(plan, converted, resize, resized);
    let (width, height) = plan.size(picture.width, picture.height);
    assert(width * height >= 0) by (nonlinear_arith)
        requires
            width >= 0,
            height >= 0,
    ;
    assert(3 * (width * height) == 3 * height * width) by (nonlinear_arith);
    assert(tensor.arithmetic =~= plan.arithmetic());
    if plan.crop is Some {
        let size = plan.crop->0;
        if resized.width >= size.0 && resized.height >= size.1 {
            picture::lemma_cropped_wf(
                resized,
                ((resized.width - size.0) / 2) as u32,
                ((resized.height - size.1) / 2) as u32,
                size.0,
                size.1,
            );
        }
    }
}

/// A picture that has the size already, or that is not to be resized, is never
/// resampled: whatever the resizer, there is one thing that a preprocessor gives for
/// it.
pub proof fn preprocessing_without_resizing_is_determined(
    plan: Plan,
    picture: PictureModel,
    resize: Resampler,
    result: Result<DataModel, ErrorModel>,
)
    requires
        plan.wf(),
        plan.resize matches Some(step) ==> step.leaves(picture.width, picture.height),
        plan.outcome(picture, resize, result),
    ensures
        result == plan.finished(plan.tensor(picture.converted())),
{
}

/// With [`picture::default_resize`] a preprocessor does not fail, unless it is to
/// normalize by other than three means and three standard deviations, or no array
/// may have the shape of its tensor.
pub proof fn preprocessing_succeeds(
    plan: Plan,
    picture: PictureModel,
    result: Result<DataModel, ErrorModel>,
)
    requires
        plan.wf(),
        picture.wf(),
        plan.fits(picture.width, picture.height),
        plan.normal matches Some((mean, std)) ==> mean.len() == 3 && std.len() == 3
            && tensor::space_fits(
            3,
            plan.size(picture.width, picture.height).1 as usize,
            plan.size(picture.width, picture.height).0 as usize,
        ),
        plan.outcome(picture, transform::resampler(default_resize), result),
    ensures
        result matches Ok(data) && data is NdArray,
{
    let resize = transform::resampler(default_resize);
    let converted = picture.converted();
    transform::default_resizing_never_fails();
    transform::functions_that_resize_are_proper(default_resize);
    conversion_keeps_rgb(picture);
    let resized = choose|resized: PictureModel| #[trigger]
        plan.resize_outcome(converted, resize, Ok(DataModel::Image(resized))) && result
            == plan.finished(plan.tensor(resized));
    assert(plan.resize_outcome(converted, resize, Ok(DataModel::Image(resized))));
    lemma_resized(plan, converted, resize, resized);
}

/// What a rectangle of a picture holds: each of the samples of a pixel is that of the picture
/// in the column and the row that the pixel comes from.
pub proof fn rectangles_keep_their_samples(
    picture: PictureModel,
    x: u32,
    y: u32,
    size: (u32, u32),
    column: int,
    row: int,
    k: int,
)
    requires
        picture.wf(),
        x + size.0 <= picture.width,
        y + size.1 <= picture.height,
        0 <= column < size.0,
        0 <= row < size.1,
        0 <= k < picture.channels,
    ensures
        ({
            let cut = picture.cropped(x, y, size.0, size.1);
            let here = (row * size.0 + column) * picture.channels + k;
            let there = ((y + row) * picture.width + x + column) * picture.channels + k;
            &&& cut.width == size.0
            &&& cut.height == size.1
            &&& cut.channels == picture.channels
            &&& 0 <= here < cut.samples.len()
            &&& 0 <= there < picture.samples.len()
            &&& match picture.samples {
                SamplesModel::Eight(samples) => cut.samples is Eight && cut.samples->Eight_0[here]
                    == samples[there],
                SamplesModel::Sixteen(samples) => cut.samples is Sixteen
                    && cut.samples->Sixteen_0[here] == samples[there],
            }
        }),
{
    let channels = picture.channels as int;
    let pixel = row * size.0 + column;
    let here = pixel * channels + k;
    let other = (y + row) * picture.width + x + column;
    let area = size.0 * size.1;
    let all = picture.width * picture.height;
    lemma_fundamental_div_mod_converse(pixel, size.0 as int, row, column);
    lemma_fundamental_div_mod_converse(here, channels, pixel, k);
    assert(0 <= pixel < area) by (nonlinear_arith)
        requires
            0 <= row < size.1,
            0 <= column < size.0,
            pixel == row * size.0 + column,
            area == size.0 * size.1,
    ;
    assert(0 <= other < all) by (nonlinear_arith)
        requires
            0 <= y + row < picture.height,
            0 <= x + column < picture.width,
            other == (y + row) * picture.width + x + column,
            all == picture.width * picture.height,
    ;
    assert(0 <= here < area * channels) by (nonlinear_arith)
        requires
            0 <= pixel < area,
            0 <= k < channels,
            here == pixel * channels + k,
    ;
    assert(0 <= other * channels + k < all * channels) by (nonlinear_arith)
        requires
            0 <= other < all,
            0 <= k < channels,
    ;
    assert((y + row) * picture.width + (x + column) == other);
}

/// Red, green and blue of a rectangle of a picture are those of the picture.
proof fn lemma_rectangle_in_rgb(
    picture: PictureModel,
    x: u32,
    y: u32,
    size: (u32, u32),
    channel: int,
    column: int,
    row: int,
)
    requires
        picture.wf(),
        x + size.0 <= picture.width,
        y + size.1 <= picture.height,
        0 <= column < size.0,
        0 <= row < size.1,
        0 <= channel < 3,
    ensures
        picture.cropped(x, y, size.0, size.1).rgb_at(channel, column, row) == picture.rgb_at(
            channel,
            x + column,
            y + row,
        ),
{
    let cut = picture.cropped(x, y, size.0, size.1);
    let k: int = if picture.channels >= 3 {
        channel
    } else {
        0
    };
    let pixel = row * size.0 + column;
    let other = (y + row) * picture.width + x + column;
    rectangles_keep_their_samples(picture, x, y, size, column, row, k);
    rectangles_keep_their_samples(picture, x, y, size, column, row, 0);
    lemma_rgb_index(size.0 as int, size.1 as int, channel, column, row);
    lemma_rgb_index(picture.width as int, picture.height as int, channel, x + column, y + row);
    assert((y + row) * picture.width + (x + column) == other);
}

/// The position of red, green or blue of a pixel.
proof fn lemma_rgb_index(width: int, height: int, channel: int, column: int, row: int)
    requires
        0 <= column < width,
        0 <= row < height,
        0 <= channel < 3,
    ensures
        ({
            let pixel = row * width + column;
            let i = 3 * pixel + channel;
            &&& 0 <= i < width * height * 3
            &&& i / 3 == pixel
            &&& i % 3 == channel
        }),
{
    let pixel = row * width + column;
    let area = width * height;
    assert(0 <= pixel < area) by (nonlinear_arith)
        requires
            0 <= row < height,
            0 <= column < width,
            pixel == row * width + column,
            area == width * height,
    ;
}

/// Red, green and blue of a pixel: with three samples or four these are the first three, and
/// with fewer all three are the first. Of a sample with 16 bits it is the level of 8 bits
/// whose 257-fold is nearest.
pub proof fn pixels_become_red_green_and_blue(
    picture: PictureModel,
    channel: int,
    column: int,
    row: int,
)
    requires
        picture.wf(),
        0 <= channel < 3,
        0 <= column < picture.width,
        0 <= row < picture.height,
    ensures
        ({
            let first = (row * picture.width + column) * picture.channels;
            let i = if picture.channels >= 3 {
                first + channel
            } else {
                first
            };
            let value = picture.rgb_at(channel, column, row);
            &&& 0 <= i < picture.samples.len()
            &&& match picture.samples {
                SamplesModel::Eight(samples) => value == samples[i],
                SamplesModel::Sixteen(samples) => -128 <= samples[i] - 257 * value <= 128,
            }
            &&& picture.converted().samples == SamplesModel::Eight(picture::rgb_of(picture))
            &&& picture.converted().channels == 3
            &&& picture.converted().samples->Eight_0[3 * (row * picture.width + column) + channel]
                == value
        }),
{
    let pixel = row * picture.width + column;
    let area = picture.width * picture.height;
    let channels = picture.channels as int;
    let k: int = if picture.channels >= 3 {
        channel
    } else {
        0
    };
    lemma_rgb_index(picture.width as int, picture.height as int, channel, column, row);
    assert(0 <= pixel < area) by (nonlinear_arith)
        requires
            0 <= row < picture.height,
            0 <= column < picture.width,
            pixel == row * picture.width + column,
            area == picture.width * picture.height,
    ;
    assert(0 <= pixel * channels + k < area * channels) by (nonlinear_arith)
        requires
            0 <= pixel < area,
            0 <= k < channels,
    ;
}

/// A crop of a picture that is large enough is a picture of the size of the crop, with the
/// samples of the middle: what it leaves out on the left is half of what it leaves out in
/// width, and above half of what it leaves out in height, both rounded down.
pub proof fn large_pictures_are_cut_to_their_middle(
    picture: PictureModel,
    size: (u32, u32),
    resize: Resampler,
    result: Result<DataModel, ErrorModel>,
    column: int,
    row: int,
    k: int,
)
    requires
        picture.wf(),
        picture.width >= size.0,
        picture.height >= size.1,
        (CenterCrop { size }).step().outcome(DataModel::Image(picture), resize, result),
        0 <= column < size.0,
        0 <= row < size.1,
        0 <= k < picture.channels,
    ensures
        result matches Ok(DataModel::Image(cut)) && {
            let x = (picture.width - size.0) / 2;
            let y = (picture.height - size.1) / 2;
            let here = (row * size.0 + column) * picture.channels + k;
            let there = ((y + row) * picture.width + x + column) * picture.channels + k;
            &&& cut.width == size.0
            &&& cut.height == size.1
            &&& cut.channels == picture.channels
            &&& cut.samples.len() == size.0 * size.1 * picture.channels
            &&& match picture.samples {
                SamplesModel::Eight(samples) => cut.samples is Eight && cut.samples->Eight_0[here]
                    == samples[there],
                SamplesModel::Sixteen(samples) => cut.samples is Sixteen
                    && cut.samples->Sixteen_0[here] == samples[there],
            }
        },
{
    let x = ((picture.width - size.0) / 2) as u32;
    let y = ((picture.height - size.1) / 2) as u32;
    rectangles_keep_their_samples(picture, x, y, size, column, row, k);
    picture::lemma_cropped_wf(picture, x, y, size.0, size.1);
}

/// A crop of a picture with a side that is too short is a tensor of the size of the crop. Of
/// a side that is too long it has the middle, around a side that is too short it is black:
/// each element is the sample of the picture from which half of what is cut off, and half of
/// what is added, lie between the two, rounded down.
pub proof fn small_pictures_are_cut_and_padded(
    picture: PictureModel,
    size: (u32, u32),
    resize: Resampler,
    result: Result<DataModel, ErrorModel>,
    channel: int,
    row: int,
    column: int,
)
    requires
        picture.wf(),
        picture.width < size.0 || picture.height < size.1,
        (CenterCrop { size }).step().outcome(DataModel::Image(picture), resize, result),
        0 <= channel < 3,
        0 <= row < size.1,
        0 <= column < size.0,
    ensures
        result matches Ok(DataModel::NdArray(tensor)) && {
            let (width, height) = (picture.width as int, picture.height as int);
            let (crop_width, crop_height) = (size.0 as int, size.1 as int);
            let cut_left = if width > crop_width {
                (width - crop_width) / 2
            } else {
                0
            };
            let cut_above = if height > crop_height {
                (height - crop_height) / 2
            } else {
                0
            };
            let added_left = if crop_width > width {
                (crop_width - width) / 2
            } else {
                0
            };
            let added_above = if crop_height > height {
                (crop_height - height) / 2
            } else {
                0
            };
            let x = column - added_left + cut_left;
            let y = row - added_above + cut_above;
            &&& tensor.channels == 3
            &&& tensor.height == crop_height
            &&& tensor.width == crop_width
            &&& tensor.values.len() == 3 * (crop_width * crop_height)
            &&& tensor.arithmetic.len() == 0
            &&& tensor.values[(channel * crop_height + row) * crop_width + column] == (if column
                >= added_left && row >= added_above && x < width && y < height {
                float::single_of_byte(picture.rgb_at(channel, x, y))
            } else {
                0
            })
        },
{
    let kept = steps::kept(picture, size);
    assert(size.0 * size.1 >= 0) by (nonlinear_arith)
        requires
            size.0 >= 0,
            size.1 >= 0,
    ;
    lemma_position(size.0 as int, size.1 as int, channel, row, column);
    let y = row - (size.1 - kept.height) / 2;
    let x = column - (size.0 - kept.width) / 2;
    if 0 <= y < kept.height && 0 <= x < kept.width {
        if picture.width > size.0 {
            lemma_rectangle_in_rgb(
                picture,
                ((picture.width - size.0) / 2) as u32,
                0,
                (size.0, picture.height),
                channel,
                x,
                y,
            );
        } else if picture.height > size.1 {
            lemma_rectangle_in_rgb(
                picture,
                0,
                ((picture.height - size.1) / 2) as u32,
                (picture.width, size.1),
                channel,
                x,
                y,
            );
        }
    }
}

/// A picture whose shorter side is the edge asked for keeps its size. Any other gets the edge
/// as its shorter side, width where width and height are the same, and a longer side that
/// does not vanish: it is 1 where the edge is 0 or the picture has no pixel in either
/// direction, and the greatest number where the picture has none in one.
pub proof fn shortest_edges_are_reached(edge: u32, width: u32, height: u32)
    ensures
        ({
            let (w, h) = ResizeSize::ShortestEdge(edge).target(width, height);
            &&& width <= height && width == edge ==> w == width && h == height
            &&& width > height && height == edge ==> w == width && h == height
            &&& width <= height && width != edge ==> w == edge && h >= 1
            &&& width > height && height != edge ==> h == edge && w >= 1
            &&& width <= height && width != edge && edge == 0 ==> h == 1
            &&& width > height && height != edge && edge == 0 ==> w == 1
            &&& width == 0 && height == 0 && edge > 0 ==> h == 1
            &&& width == 0 && height > 0 && edge > 0 ==> h == u32::MAX
            &&& width > 0 && height == 0 && edge > 0 ==> w == u32::MAX
        }),
{
    let short = if width <= height { width } else { height };
    let long = if width <= height { height } else { width };
    if edge == 0 && short > 0 {
        assert(edge * long == 0) by (nonlinear_arith)
            requires
                edge == 0,
        ;
        float::double_quotient_is_exact(0, short as nat);
        assert(0nat / short as nat == 0) by (nonlinear_arith)
            requires
                short > 0,
        ;
    }
}

/// The longer side follows from the product of the edge and the longer side as double
/// precision has it: where two products are the same there, so are the longer sides.
pub proof fn products_count_in_double_precision(
    edge: u32,
    other_edge: u32,
    width: u32,
    height: u32,
    other_height: u32,
)
    requires
        0 < width <= height,
        width <= other_height,
        edge != width,
        other_edge != width,
        float::double_quotient((edge * height) as nat, 1) == float::double_quotient(
            (other_edge * other_height) as nat,
            1,
        ),
    ensures
        ResizeSize::ShortestEdge(edge).target(width, height).1 == ResizeSize::ShortestEdge(
            other_edge,
        ).target(width, other_height).1,
        width < height && width < other_height ==> ResizeSize::ShortestEdge(edge).target(
            height,
            width,
        ).0 == ResizeSize::ShortestEdge(other_edge).target(other_height, width).0,
{
}

/// A picture that lies on its side is resized as the one that stands, with width and height
/// exchanged.
pub proof fn turned_pictures_are_resized_alike(
    edge: u32,
    size: u32,
    max_size: u32,
    width: u32,
    height: u32,
)
    requires
        width > 0,
        height > 0,
    ensures
        ({
            let (w, h) = ResizeSize::ShortestEdge(edge).target(width, height);
            width != height ==> ResizeSize::ShortestEdge(edge).target(height, width) == (h, w)
        }),
        ({
            let (w, h) = transform::deepghs_size(size, max_size, width, height);
            width != height ==> transform::deepghs_size(size, max_size, height, width) == (h, w)
        }),
{
}

/// Where the longer side is capped at `max_size`, the shorter one is in proportion: it is the
/// greatest that, multiplied by the longer side without the cap, does not exceed the product
/// of `size` and `max_size`. The longer side without the cap is the greatest that, multiplied
/// by the shorter side of the picture, does not exceed the product of `size` and the longer
/// one.
pub proof fn deepghs_keeps_the_proportion(
    size: u32,
    max_size: u32,
    width: u32,
    height: u32,
    uncapped: int,
)
    requires
        width > 0,
        height > 0,
        uncapped * (if width < height {
            width
        } else {
            height
        }) <= size * (if width < height {
            height
        } else {
            width
        }) < (uncapped + 1) * (if width < height {
            width
        } else {
            height
        }),
    ensures
        ({
            let (w, h) = transform::deepghs_size(size, max_size, width, height);
            let short = if width < height {
                w
            } else {
                h
            };
            let long = if width < height {
                h
            } else {
                w
            };
            &&& uncapped <= max_size ==> short == size && long == uncapped
            &&& uncapped > max_size ==> {
                &&& long == max_size
                &&& short * uncapped <= max_size * size
                &&& max_size * size < (short + 1) * uncapped
            }
        }),
{
    let short = if width < height { width as int } else { height as int };
    let long = if width < height { height as int } else { width as int };
    let product = size * long;
    let scaled = product / short;
    lemma_fundamental_div_mod(product, short);
    assert(scaled == uncapped) by (nonlinear_arith)
        requires
            uncapped * short <= product < (uncapped + 1) * short,
            product == short * scaled + product % short,
            0 <= product % short < short,
            short > 0,
    ;
    assert(scaled >= size) by (nonlinear_arith)
        requires
            0 < short <= long,
            size >= 0,
            product == size * long,
            product == short * scaled + product % short,
            product % short < short,
    ;
    if uncapped > max_size {
        let capped = max_size * size;
        let new_short = capped / uncapped;
        lemma_fundamental_div_mod(capped, uncapped);
        assert(new_short * uncapped == uncapped * new_short) by (nonlinear_arith);
        assert((new_short + 1) * uncapped == uncapped * new_short + uncapped) by (nonlinear_arith);
        assert(0 <= new_short <= size) by (nonlinear_arith)
            requires
                0 <= max_size < uncapped,
                size >= 0,
                capped == max_size * size,
                capped == uncapped * new_short + capped % uncapped,
                0 <= capped % uncapped < uncapped,
        ;
    }
}

}
