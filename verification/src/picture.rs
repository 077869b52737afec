//! Pictures of 8 or 16 bits per sample, and what the `image` crate does with
//! them.

use crate::error::Error;
use image::DynamicImage;
use vstd::prelude::*;

verus! {

/// The samples of a picture, row by row and pixel by pixel.
#[derive(Debug, Clone)]
pub enum Samples {
    Eight(Vec<u8>),
    Sixteen(Vec<u16>),
}

/// A picture.
#[derive(Debug, Clone)]
pub struct Picture {
    pub width: u32,
    pub height: u32,
    /// The samples of a pixel: 1 for luma, 2 for luma and alpha, 3 for red,
    /// green and blue, 4 for these and alpha.
    pub channels: u8,
    pub samples: Samples,
}

/// [`Samples`] as a sequence.
pub enum SamplesModel {
    Eight(Seq<u8>),
    Sixteen(Seq<u16>),
}

/// A [`Picture`] with its samples as a sequence.
pub struct PictureModel {
    pub width: u32,
    pub height: u32,
    pub channels: u8,
    pub samples: SamplesModel,
}

/// How the samples around a position are weighted when a picture is resized.
#[derive(Debug, Clone, Copy, PartialEq, Eq, Structural)]
pub enum FilterType {
    Nearest,
    Triangle,
    CatmullRom,
    Gaussian,
    Lanczos3,
}

/// The longest side that a picture may have before and after it is resized: up
/// to it single precision tells the positions of neighbouring pixels apart.
pub const LONGEST_SIDE: u32 = 0x80_0000;

/// The longest side that a picture of whatever size can be resized to: up to it single
/// precision tells apart the parts of the old side that neighbouring pixels come from.
pub const SAFE_SIDE: u32 = 0x4_0000;

impl View for Samples {
    type V = SamplesModel;

    open spec fn view(&self) -> SamplesModel {
        match *self {
            Samples::Eight(samples) => SamplesModel::Eight(samples@),
            Samples::Sixteen(samples) => SamplesModel::Sixteen(samples@),
        }
    }
}

impl View for Picture {
    type V = PictureModel;

    open spec fn view(&self) -> PictureModel {
        PictureModel {
            width: self.width,
            height: self.height,
            channels: self.channels,
            samples: self.samples@,
        }
    }
}

impl SamplesModel {
    pub open spec fn len(self) -> nat {
        match self {
            SamplesModel::Eight(samples) => samples.len(),
            SamplesModel::Sixteen(samples) => samples.len(),
        }
    }
}

/// Whether memory can hold a picture of this size whatever its pixels are: none
/// takes more than 16 bytes.
pub open spec fn room(width: u32, height: u32) -> bool {
    16 * width * height <= isize::MAX
}

/// Whether a side of a picture can be resized.
pub open spec fn side_resizable(side: u32, new_side: u32) -> bool {
    side <= LONGEST_SIDE && new_side <= LONGEST_SIDE || new_side <= SAFE_SIDE
}

/// Whether a picture of one size can be resized to another: it is that size, or the sides
/// are within bounds, and memory holds the result and the picture in between, which has
/// the old width and the new height.
pub open spec fn resizable(width: u32, height: u32, new_width: u32, new_height: u32) -> bool {
    ||| new_width == width && new_height == height
    ||| {
        &&& side_resizable(width, new_width)
        &&& side_resizable(height, new_height)
        &&& room(width, new_height)
        &&& room(new_width, new_height)
    }
}

/// Whether memory can hold a picture of this size whatever its pixels are.
pub fn has_room(width: u32, height: u32) -> (fits: bool)
    ensures
        fits == room(width, height),
{
    assert(0 <= 16 * width * height <= 16 * u32::MAX * u32::MAX) by (nonlinear_arith)
        requires
            0 <= width <= u32::MAX,
            0 <= height <= u32::MAX,
    ;
    16 * width as u128 * height as u128 <= isize::MAX as u128
}

/// Whether a side of a picture can be resized.
fn can_resize_side(side: u32, new_side: u32) -> (fits: bool)
    ensures
        fits == side_resizable(side, new_side),
{
    side <= LONGEST_SIDE && new_side <= LONGEST_SIDE || new_side <= SAFE_SIDE
}

/// Whether a picture of one size can be resized to another.
pub fn can_resize(width: u32, height: u32, new_width: u32, new_height: u32) -> (fits: bool)
    ensures
        fits == resizable(width, height, new_width, new_height),
{
    new_width == width && new_height == height || can_resize_side(width, new_width)
        && can_resize_side(height, new_height) && has_room(width, new_height) && has_room(
        new_width,
        new_height,
    )
}

/// The samples of a rectangle of a picture.
pub open spec fn cut<T>(
    samples: Seq<T>,
    width: int,
    channels: int,
    x: int,
    y: int,
    new_width: int,
    new_height: int,
) -> Seq<T> {
    Seq::new(
        (new_width * new_height * channels) as nat,
        |i: int|
            {
                let pixel = i / channels;
                let column = x + pixel % new_width;
                let row = y + pixel / new_width;
                samples[(row * width + column) * channels + i % channels]
            },
    )
}

/// A sample in 8 bits: one of 16 bits is rounded to the nearest level.
pub open spec fn level(samples: SamplesModel, i: int) -> u8 {
    match samples {
        SamplesModel::Eight(samples) => samples[i],
        SamplesModel::Sixteen(samples) => ((samples[i] + 128) / 257) as u8,
    }
}

/// The samples of red, green and blue of each pixel, in 8 bits. Where a picture has
/// luma only, all three are luma; alpha is dropped.
pub open spec fn rgb_of(picture: PictureModel) -> Seq<u8> {
    Seq::new(
        (picture.width * picture.height * 3) as nat,
        |i: int|
            level(
                picture.samples,
                i / 3 * picture.channels + if picture.channels >= 3 {
                    i % 3
                } else {
                    0
                },
            ),
    )
}

impl PictureModel {
    /// Whether the picture has the samples that its size asks for, and fits in
    /// memory.
    pub open spec fn wf(self) -> bool {
        &&& 1 <= self.channels <= 4
        &&& self.samples.len() == self.width * self.height * self.channels
        &&& room(self.width, self.height)
    }

    /// The rectangle of the picture at `(x, y)` of the size given.
    pub open spec fn cropped(self, x: u32, y: u32, width: u32, height: u32) -> PictureModel {
        PictureModel {
            width,
            height,
            channels: self.channels,
            samples: match self.samples {
                SamplesModel::Eight(samples) => SamplesModel::Eight(
                    cut(
                        samples,
                        self.width as int,
                        self.channels as int,
                        x as int,
                        y as int,
                        width as int,
                        height as int,
                    ),
                ),
                SamplesModel::Sixteen(samples) => SamplesModel::Sixteen(
                    cut(
                        samples,
                        self.width as int,
                        self.channels as int,
                        x as int,
                        y as int,
                        width as int,
                        height as int,
                    ),
                ),
            },
        }
    }

    /// The sample of red, green or blue in a column and a row.
    pub open spec fn rgb_at(self, channel: int, column: int, row: int) -> u8 {
        rgb_of(self)[3 * (row * self.width + column) + channel]
    }

    /// The picture in red, green and blue with 8 bits each.
    pub open spec fn converted(self) -> PictureModel {
        PictureModel {
            width: self.width,
            height: self.height,
            channels: 3,
            samples: SamplesModel::Eight(rgb_of(self)),
        }
    }
}

#[verifier::external_type_specification]
#[verifier::external_body]
pub struct ExDynamicImage(image::DynamicImage);

/// The picture that an `image::DynamicImage` holds.
pub uninterp spec fn picture_of(image: image::DynamicImage) -> PictureModel;

/// Whether `image::DynamicImage::resize_exact` may give `resized` for a picture, a size
/// and a filter.
pub uninterp spec fn may_resize_to(
    picture: PictureModel,
    width: u32,
    height: u32,
    filter: FilterType,
    resized: PictureModel,
) -> bool;

/// `from_raw` of the four 8-bit buffers of `image`, put into an
/// `image::DynamicImage`: with the samples that the size asks for, the image
/// holds the picture.
#[verifier::external_body]
fn image_of_bytes(width: u32, height: u32, channels: u8, samples: Vec<u8>) -> (image: DynamicImage)
    requires
        1 <= channels <= 4,
        samples@.len() == width * height * channels,
    ensures
        picture_of(image) == (PictureModel {
            width,
            height,
            channels,
            samples: SamplesModel::Eight(samples@),
        }),
{
    match channels {
        1 => image::GrayImage::from_raw(width, height, samples).unwrap().into(),
        2 => image::GrayAlphaImage::from_raw(width, height, samples).unwrap().into(),
        3 => image::RgbImage::from_raw(width, height, samples).unwrap().into(),
        _ => image::RgbaImage::from_raw(width, height, samples).unwrap().into(),
    }
}

/// The variants of `image::DynamicImage` with 16 bits per sample, filled by
/// `from_raw` of `image::ImageBuffer`: with the samples that the size asks for,
/// the image holds the picture.
#[verifier::external_body]
fn image_of_words(width: u32, height: u32, channels: u8, samples: Vec<u16>) -> (image:
    DynamicImage)
    requires
        1 <= channels <= 4,
        samples@.len() == width * height * channels,
    ensures
        picture_of(image) == (PictureModel {
            width,
            height,
            channels,
            samples: SamplesModel::Sixteen(samples@),
        }),
{
    let (w, h, s) = (width, height, samples);
    match channels {
        1 => DynamicImage::ImageLuma16(image::ImageBuffer::from_raw(w, h, s).unwrap()),
        2 => DynamicImage::ImageLumaA16(image::ImageBuffer::from_raw(w, h, s).unwrap()),
        3 => DynamicImage::ImageRgb16(image::ImageBuffer::from_raw(w, h, s).unwrap()),
        _ => DynamicImage::ImageRgba16(image::ImageBuffer::from_raw(w, h, s).unwrap()),
    }
}

/// The size, the channel count and the samples of an `image::DynamicImage`, by
/// `width`, `height`, `color`, `as_flat_samples_u8` and `as_flat_samples_u16`:
/// they are the picture that it holds. The image has 8 or 16 bits per sample.
#[verifier::external_body]
fn picture_in(image: &DynamicImage) -> (picture: Picture)
    requires
        picture_of(*image).wf(),
    ensures
        picture@ == picture_of(*image),
{
    Picture {
        width: image.width(),
        height: image.height(),
        channels: image.color().channel_count(),
        samples: match (image.as_flat_samples_u8(), image.as_flat_samples_u16()) {
            (Some(flat), _) => Samples::Eight(flat.samples.to_vec()),
            (_, Some(flat)) => Samples::Sixteen(flat.samples.to_vec()),
            _ => Samples::Eight(Vec::new()),
        },
    }
}

/// `image::DynamicImage::resize_exact`: gives a picture of exactly the size asked for,
/// with the channels and the sample size of the old one. At its own size a picture
/// stays what it is. Of its samples nothing more is said than that they are what the
/// function gives: the weights of most filters are powers, exponentials or sines,
/// which machines may round differently.
#[verifier::external_body]
fn resize_exact(image: &DynamicImage, width: u32, height: u32, filter: FilterType) -> (resized:
    DynamicImage)
    requires
        picture_of(*image).wf(),
        resizable(picture_of(*image).width, picture_of(*image).height, width, height),
    ensures
        may_resize_to(picture_of(*image), width, height, filter, picture_of(resized)),
        picture_of(resized).width == width,
        picture_of(resized).height == height,
        picture_of(resized).channels == picture_of(*image).channels,
        picture_of(resized).samples is Eight == picture_of(*image).samples is Eight,
        picture_of(resized).wf(),
        width == picture_of(*image).width && height == picture_of(*image).height
            ==> picture_of(resized) == picture_of(*image),
{
    let filter = match filter {
        FilterType::Nearest => image::imageops::FilterType::Nearest,
        FilterType::Triangle => image::imageops::FilterType::Triangle,
        FilterType::CatmullRom => image::imageops::FilterType::CatmullRom,
        FilterType::Gaussian => image::imageops::FilterType::Gaussian,
        FilterType::Lanczos3 => image::imageops::FilterType::Lanczos3,
    };
    image.resize_exact(width, height, filter)
}

/// `image::DynamicImage::crop_imm`: cuts out a rectangle that lies within the
/// image.
#[verifier::external_body]
fn crop_imm(image: &DynamicImage, x: u32, y: u32, width: u32, height: u32) -> (cut: DynamicImage)
    requires
        picture_of(*image).wf(),
        x + width <= picture_of(*image).width,
        y + height <= picture_of(*image).height,
    ensures
        picture_of(cut) == picture_of(*image).cropped(x, y, width, height),
{
    image.crop_imm(x, y, width, height)
}

/// `image::DynamicImage::to_rgb8`: gives one sample each of red, green and blue for
/// each pixel, in 8 bits; luma becomes all three of them, alpha is dropped.
#[verifier::external_body]
fn to_rgb8(image: &DynamicImage) -> (samples: Vec<u8>)
    requires
        picture_of(*image).wf(),
    ensures
        samples@ == rgb_of(picture_of(*image)),
{
    image.to_rgb8().into_raw()
}

impl Picture {
    /// Makes a picture of red, green and blue with 8 bits each.
    pub fn rgb(width: u32, height: u32, samples: Vec<u8>) -> (picture: Picture)
        ensures
            picture@ == (PictureModel {
                width,
                height,
                channels: 3,
                samples: SamplesModel::Eight(samples@),
            }),
    {
        Picture { width, height, channels: 3, samples: Samples::Eight(samples) }
    }

    /// Whether the picture has the samples that its size asks for, and fits in
    /// memory.
    pub fn is_sound(&self) -> (sound: bool)
        ensures
            sound == self@.wf(),
    {
        let count: usize = match &self.samples {
            Samples::Eight(samples) => samples.len(),
            Samples::Sixteen(samples) => samples.len(),
        };
        assert(0 <= self.width * self.height <= u32::MAX * u32::MAX) by (nonlinear_arith)
            requires
                0 <= self.width <= u32::MAX,
                0 <= self.height <= u32::MAX,
        ;
        let area: u128 = self.width as u128 * self.height as u128;
        if self.channels > 4 {
            return false;
        }
        assert(area * self.channels <= 4 * area) by (nonlinear_arith)
            requires
                area >= 0,
                self.channels <= 4,
        ;
        1 <= self.channels && count as u128 == area * self.channels as u128
            && has_room(self.width, self.height)
    }

    /// The picture as an image of the `image` crate.
    fn into_image(self) -> (image: DynamicImage)
        requires
            self@.wf(),
        ensures
            picture_of(image) == self@,
    {
        match self.samples {
            Samples::Eight(samples) => image_of_bytes(
                self.width,
                self.height,
                self.channels,
                samples,
            ),
            Samples::Sixteen(samples) => image_of_words(
                self.width,
                self.height,
                self.channels,
                samples,
            ),
        }
    }

    /// The rectangle of the picture at `(x, y)` of the size given.
    pub fn crop(self, x: u32, y: u32, width: u32, height: u32) -> (cut: Picture)
        requires
            self@.wf(),
            x + width <= self.width,
            y + height <= self.height,
        ensures
            cut@ == self@.cropped(x, y, width, height),
            cut@.wf(),
    {
        let cut = crop_imm(&self.into_image(), x, y, width, height);
        proof {
            lemma_cropped_wf(self@, x, y, width, height);
        }
        picture_in(&cut)
    }

    /// The samples of red, green and blue of each pixel.
    pub fn into_rgb(self) -> (samples: Vec<u8>)
        requires
            self@.wf(),
        ensures
            samples@ == rgb_of(self@),
            samples@.len() == self.width * self.height * 3,
    {
        assert(self.width * self.height * 3 >= 0) by (nonlinear_arith)
            requires
                self.width >= 0,
                self.height >= 0,
        ;
        to_rgb8(&self.into_image())
    }
}

/// A rectangle within a picture is a picture.
pub(crate) proof fn lemma_cropped_wf(
    picture: PictureModel,
    x: u32,
    y: u32,
    width: u32,
    height: u32,
)
    requires
        picture.wf(),
        x + width <= picture.width,
        y + height <= picture.height,
    ensures
        picture.cropped(x, y, width, height).wf(),
{
    let (w, h) = (picture.width as int, picture.height as int);
    assert(16 * width * height <= 16 * w * h) by (nonlinear_arith)
        requires
            0 <= width <= w,
            0 <= height <= h,
    ;
    assert(width * height * picture.channels >= 0) by (nonlinear_arith)
        requires
            width >= 0,
            height >= 0,
            picture.channels >= 0,
    ;
}

/// Whether `resized` may come out when a picture is resized.
pub open spec fn resizes_to(
    picture: PictureModel,
    width: u32,
    height: u32,
    filter: FilterType,
    resized: PictureModel,
) -> bool {
    &&& may_resize_to(picture, width, height, filter, resized)
    &&& width == picture.width && height == picture.height ==> resized == picture
    &&& resized.width == width
    &&& resized.height == height
    &&& resized.channels == picture.channels
    &&& resized.samples is Eight == picture.samples is Eight
    &&& resized.wf()
}

/// Resizes a picture to exactly the size given.
pub fn default_resize(image: Picture, width: u32, height: u32, filter: FilterType) -> (resized:
    Result<Picture, Error>)
    requires
        image@.wf(),
        resizable(image.width, image.height, width, height),
    ensures
        resized matches Ok(picture) && resizes_to(image@, width, height, filter, picture@),
{
    let resized = resize_exact(&image.into_image(), width, height, filter);
    Ok(picture_in(&resized))
}

/// A picture has one to four samples for each pixel, and memory holds 16 bytes for each.
pub proof fn pictures_have_their_samples(picture: PictureModel)
    ensures
        picture.wf() <==> {
            &&& picture.channels >= 1 && picture.channels <= 4
            &&& 16 * picture.width * picture.height <= isize::MAX
            &&& match picture.samples {
                SamplesModel::Eight(samples) => samples.len() == picture.width * picture.height
                    * picture.channels,
                SamplesModel::Sixteen(samples) => samples.len() == picture.width * picture.height
                    * picture.channels,
            }
        },
{
}

/// A picture can be resized to its own size; and to another if neither of two sides that
/// belong together exceeds `2^23`, or the new one does not exceed `2^18`, and memory holds 16
/// bytes for each pixel of the result, and of the picture in between, which has the old width
/// and the new height.
pub proof fn pictures_that_can_be_resized(width: u32, height: u32, new_width: u32, new_height: u32)
    ensures
        resizable(width, height, new_width, new_height) <==> {
            ||| width == new_width && height == new_height
            ||| {
                &&& (width <= 8388608 && new_width <= 8388608) || new_width <= 262144
                &&& (height <= 8388608 && new_height <= 8388608) || new_height <= 262144
                &&& 16 * width * new_height <= isize::MAX
                &&& 16 * new_width * new_height <= isize::MAX
            }
        },
{
}

/// A picture that is resized has exactly the size asked for, and the channels and the bits of
/// the old one; it is what the resizing gives with the filter asked for, and at its own size
/// it stays what it is.
pub proof fn resizing_gives_the_size_asked_for(
    image: Picture,
    width: u32,
    height: u32,
    filter: FilterType,
    resized: Result<Picture, Error>,
)
    requires
        call_ensures(default_resize, (image, width, height, filter), resized),
    ensures
        resized matches Ok(picture) && {
            &&& picture.width == width
            &&& picture.height == height
            &&& picture.channels == image.channels
            &&& picture.samples is Eight == image.samples is Eight
            &&& picture@.wf()
            &&& may_resize_to(image@, width, height, filter, picture@)
            &&& width == image.width && height == image.height ==> picture@ == image@
        },
{
}

}
