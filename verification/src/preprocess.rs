//! Preprocessors from the configurations of models.

use crate::compose;
use crate::compose::{Compose, Plan, Stage};
use crate::error::{Error, ErrorModel};
use crate::float;
use crate::integer;
use crate::json;
use crate::json::{Json, JsonTree};
use crate::picture::FilterType;
use crate::steps::{
    CenterCrop, ConvertToRGB, Normalize, PILToNDarray, Rescale, ResizePillow, Step,
};
use crate::text;
use crate::transform::{Resize, ResizeSize};
use vstd::prelude::*;

verus! {

/// Whether all items are numbers.
pub open spec fn all_numbers(items: Seq<JsonTree>) -> bool {
    forall|i: int| 0 <= i < items.len() ==> (#[trigger] items[i]).as_double() is Some
}

/// The items, which are numbers, in single precision.
pub open spec fn singles(items: Seq<JsonTree>) -> Seq<u32> {
    items.map_values(|item: JsonTree| float::narrowed(item.as_double()->0))
}

/// Reads numbers in single precision.
pub(crate) fn read_singles(items: &Vec<Json>) -> (numbers: Option<Vec<u32>>)
    ensures
        match numbers {
            Some(numbers) => all_numbers(items@.map_values(|item: Json| item@)) && numbers@
                == singles(items@.map_values(|item: Json| item@)),
            None => !all_numbers(items@.map_values(|item: Json| item@)),
        },
{
    let ghost trees = items@.map_values(|item: Json| item@);
    let mut numbers: Vec<u32> = Vec::new();
    let mut i: usize = 0;
    while i < items.len()
        invariant
            i <= items@.len(),
            trees == items@.map_values(|item: Json| item@),
            numbers@.len() == i,
            forall|j: int|
                0 <= j < i ==> (#[trigger] trees[j]).as_double() is Some && numbers@[j]
                    == float::narrowed(trees[j].as_double()->0),
        decreases items@.len() - i,
    {
        assert(trees[i as int] == items@[i as int]@);
        match &items[i] {
            Json::Number(number) => {
                numbers.push(float::narrow(number.double));
            },
            _ => {
                return None;
            },
        }
        i += 1;
    }
    assert(numbers@ =~= singles(trees));
    Some(numbers)
}

/// The size that the `size` entry of a configuration asks for.
pub open spec fn resize_size(size: JsonTree) -> Result<ResizeSize, Seq<char>> {
    match (
        size.at("shortest_edge"@).as_unsigned(),
        size.at("width"@).as_unsigned(),
        size.at("height"@).as_unsigned(),
    ) {
        (Some(edge), _, _) => Ok(ResizeSize::ShortestEdge(integer::low_bits(edge as int))),
        (None, Some(width), Some(height)) => Ok(
            ResizeSize::Exact {
                width: integer::low_bits(width as int),
                height: integer::low_bits(height as int),
            },
        ),
        _ => Err("Size must contain either 'shortest_edge' or 'height' and 'width'."@),
    }
}

/// Reads the `size` entry of a configuration.
pub fn parse_resize_size(size: &Json) -> (parsed: Result<ResizeSize, String>)
    ensures
        match parsed {
            Ok(parsed) => resize_size(size@) == Ok::<ResizeSize, Seq<char>>(parsed),
            Err(text) => resize_size(size@) == Err::<ResizeSize, Seq<char>>(text@),
        },
{
    if let Some(edge) = size.unsigned_at("shortest_edge") {
        return Ok(ResizeSize::ShortestEdge(integer::low_bits_of(edge)));
    }
    match (size.unsigned_at("width"), size.unsigned_at("height")) {
        (Some(width), Some(height)) => Ok(
            ResizeSize::Exact {
                width: integer::low_bits_of(width),
                height: integer::low_bits_of(height),
            },
        ),
        _ => Err("Size must contain either 'shortest_edge' or 'height' and 'width'.".to_string()),
    }
}

/// The width and the height that the `crop_size` entry of a configuration asks for;
/// `rendered` is the entry as an error shows it.
pub open spec fn crop_size(entry: JsonTree, rendered: Seq<char>) -> Result<
    (u32, u32),
    Seq<char>,
> {
    if entry.as_unsigned() is Some {
        let side = integer::low_bits(entry.as_unsigned()->0 as int);
        Ok((side, side))
    } else if !(entry is Object) {
        Err("Invalid crop size: "@ + rendered)
    } else if entry.at("height"@).as_unsigned() is None {
        Err("crop_size height must be contained"@)
    } else if entry.at("width"@).as_unsigned() is None {
        Err("crop_size width must be contained"@)
    } else {
        Ok(
            (
                integer::low_bits(entry.at("width"@).as_unsigned()->0 as int),
                integer::low_bits(entry.at("height"@).as_unsigned()->0 as int),
            ),
        )
    }
}

/// Reads the `crop_size` entry of a configuration as width and height.
pub fn parse_crop_size(entry: &Json, rendered: &str) -> (parsed: Result<(u32, u32), String>)
    ensures
        match parsed {
            Ok(parsed) => crop_size(entry@, rendered@) == Ok::<(u32, u32), Seq<char>>(parsed),
            Err(text) => crop_size(entry@, rendered@) == Err::<(u32, u32), Seq<char>>(text@),
        },
{
    match entry {
        Json::Number(number) => match number.unsigned {
            Some(side) => Ok((integer::low_bits_of(side), integer::low_bits_of(side))),
            None => Err(text::joined("Invalid crop size: ", rendered)),
        },
        Json::Object(_) => {
            let height: u32 = match entry.unsigned_at("height") {
                Some(height) => integer::low_bits_of(height),
                None => return Err("crop_size height must be contained".to_string()),
            };
            let width: u32 = match entry.unsigned_at("width") {
                Some(width) => integer::low_bits_of(width),
                None => return Err("crop_size width must be contained".to_string()),
            };
            Ok((width, height))
        },
        _ => Err(text::joined("Invalid crop size: ", rendered)),
    }
}

/// Whether an entry is true; `default` where it is no truth value.
pub open spec fn flag(config: JsonTree, key: Seq<char>, default: bool) -> bool {
    match config.at(key).as_bool() {
        Some(value) => value,
        None => default,
    }
}

/// Reads a truth value.
fn read_flag(config: &Json, key: &str, default: bool) -> (value: bool)
    ensures
        value == flag(config@, key@, default),
{
    match config.bool_at(key) {
        Some(value) => value,
        None => default,
    }
}

/// How a configuration of the CLIP family resizes.
pub open spec fn clip_resize(config: JsonTree) -> Result<Option<Step>, Seq<char>> {
    if !flag(config, "do_resize"@, false) {
        Ok(None)
    } else {
        match resize_size(config.at("size"@)) {
            Err(text) => Err(text),
            Ok(ResizeSize::Exact { width, height }) if flag(
                config,
                "nicegal_pillow_resize"@,
                false,
            ) => Ok(
                Some(
                    Step::ResizePillow {
                        width,
                        height,
                        filter: if config.at("resample"@).as_unsigned() == Some(2u64) {
                            FilterType::Triangle
                        } else {
                            FilterType::CatmullRom
                        },
                    },
                ),
            ),
            Ok(size) => Ok(Some(Step::Resize { size, resample: FilterType::CatmullRom })),
        }
    }
}

/// Reads how a configuration of the CLIP family resizes.
fn read_clip_resize(config: &Json) -> (stage: Result<Option<Stage>, String>)
    ensures
        match stage {
            Ok(Some(stage)) => clip_resize(config@) == Ok::<Option<Step>, Seq<char>>(
                Some(stage.step()),
            ) && stage.step().resizes(),
            Ok(None) => clip_resize(config@) == Ok::<Option<Step>, Seq<char>>(None),
            Err(text) => clip_resize(config@) == Err::<Option<Step>, Seq<char>>(text@),
        },
{
    if !read_flag(config, "do_resize", false) {
        return Ok(None);
    }
    let size = match config.at("size") {
        Some(size) => match parse_resize_size(size) {
            Ok(size) => size,
            Err(text) => return Err(text),
        },
        None => return Err(
            "Size must contain either 'shortest_edge' or 'height' and 'width'.".to_string(),
        ),
    };
    let pillow: bool = read_flag(config, "nicegal_pillow_resize", false);
    match size {
        ResizeSize::Exact { width, height } if pillow => {
            let filter = match config.unsigned_at("resample") {
                Some(2) => FilterType::Triangle,
                _ => FilterType::CatmullRom,
            };
            Ok(Some(Stage::ResizePillow(ResizePillow { width, height, filter })))
        },
        _ => Ok(Some(Stage::Resize(Resize { size, resample: FilterType::CatmullRom }))),
    }
}

/// What a configuration of the CLIP family crops to.
pub open spec fn clip_crop(config: JsonTree, rendered: Seq<char>) -> Result<
    Option<(u32, u32)>,
    Seq<char>,
> {
    if !flag(config, "do_center_crop"@, false) {
        Ok(None)
    } else {
        match crop_size(config.at("crop_size"@), rendered) {
            Ok(size) => Ok(Some(size)),
            Err(text) => Err(text),
        }
    }
}

/// Reads what a configuration of the CLIP family crops to.
fn read_clip_crop(config: &Json, rendered: &str) -> (size: Result<Option<(u32, u32)>, String>)
    ensures
        match size {
            Ok(size) => clip_crop(config@, rendered@) == Ok::<Option<(u32, u32)>, Seq<char>>(size),
            Err(text) => clip_crop(config@, rendered@) == Err::<Option<(u32, u32)>, Seq<char>>(
                text@,
            ),
        },
{
    if !read_flag(config, "do_center_crop", false) {
        return Ok(None);
    }
    match config.at("crop_size") {
        Some(entry) => match parse_crop_size(entry, rendered) {
            Ok(size) => Ok(Some(size)),
            Err(text) => Err(text),
        },
        None => Err(text::joined("Invalid crop size: ", rendered)),
    }
}

/// The bit pattern of 0.875 in double precision.
pub const DEFAULT_CROP_PCT: u64 = 0x3FEC_0000_0000_0000;

/// The bit pattern of the double nearest to 1/255.
pub const DEFAULT_RESCALE_FACTOR: u64 = 0x3F70_1010_1010_1010;

/// The bit pattern of the single nearest to 1/255.
pub const BYTE_SCALE: u32 = 0x3B80_8081;

/// How a ConvNeXT configuration resizes and what it crops to.
pub open spec fn convnext(config: JsonTree) -> Result<
    (Option<Step>, Option<(u32, u32)>),
    Seq<char>,
> {
    match config.at("size"@).at("shortest_edge"@).as_unsigned() {
        None => Err("Size dictionary must contain 'shortest_edge' key."@),
        Some(edge) => {
            let edge = integer::low_bits(edge as int);
            let crop_pct = match config.at("crop_pct"@).as_double() {
                Some(crop_pct) => crop_pct,
                None => DEFAULT_CROP_PCT,
            };
            if edge < 384 {
                Ok(
                    (
                        Some(
                            Step::Resize {
                                size: ResizeSize::ShortestEdge(float::whole_ratio(edge, crop_pct)),
                                resample: FilterType::CatmullRom,
                            },
                        ),
                        Some((edge, edge)),
                    ),
                )
            } else {
                Ok(
                    (
                        Some(
                            Step::Resize {
                                size: ResizeSize::Exact { width: edge, height: edge },
                                resample: FilterType::CatmullRom,
                            },
                        ),
                        None,
                    ),
                )
            }
        },
    }
}

/// Reads how a ConvNeXT configuration resizes and what it crops to.
fn read_convnext(config: &Json) -> (stages: Result<(Resize, Option<(u32, u32)>), String>)
    ensures
        match stages {
            Ok((resize, crop)) => convnext(config@) == Ok::<
                (Option<Step>, Option<(u32, u32)>),
                Seq<char>,
            >((Some(resize.step()), crop)),
            Err(text) => convnext(config@) == Err::<
                (Option<Step>, Option<(u32, u32)>),
                Seq<char>,
            >(text@),
        },
{
    let entry = match config.at("size") {
        Some(size) => size.unsigned_at("shortest_edge"),
        None => None,
    };
    let edge: u32 = match entry {
        Some(edge) => integer::low_bits_of(edge),
        None => return Err("Size dictionary must contain 'shortest_edge' key.".to_string()),
    };
    let crop_pct: u64 = match config.double_at("crop_pct") {
        Some(crop_pct) => crop_pct,
        None => DEFAULT_CROP_PCT,
    };
    if edge < 384 {
        let shortest: u32 = float::divide_by_double(edge, crop_pct);
        Ok(
            (
                Resize {
                    size: ResizeSize::ShortestEdge(shortest),
                    resample: FilterType::CatmullRom,
                },
                Some((edge, edge)),
            ),
        )
    } else {
        Ok(
            (
                Resize {
                    size: ResizeSize::Exact { width: edge, height: edge },
                    resample: FilterType::CatmullRom,
                },
                None,
            ),
        )
    }
}

/// The processors of the CLIP family.
pub open spec fn clip_family(mode: Seq<char>) -> bool {
    ||| mode == "CLIPImageProcessor"@
    ||| mode == "SiglipImageProcessor"@
    ||| mode == "Siglip2ImageProcessor"@
    ||| mode == "DINOv3ViTImageProcessorFast"@
    ||| mode == "BitImageProcessor"@
}

/// Whether a processor belongs to the CLIP family.
fn is_clip_family(mode: &str) -> (clip: bool)
    ensures
        clip == clip_family(mode@),
{
    text::same_text(mode, "CLIPImageProcessor") || text::same_text(mode, "SiglipImageProcessor")
        || text::same_text(mode, "Siglip2ImageProcessor") || text::same_text(
        mode,
        "DINOv3ViTImageProcessorFast",
    ) || text::same_text(mode, "BitImageProcessor")
}

/// The processor that a configuration names.
pub open spec fn processor(config: JsonTree) -> Seq<char> {
    match config.at("image_processor_type"@).as_text() {
        Some(mode) => mode,
        None => "CLIPImageProcessor"@,
    }
}

/// How a configuration resizes and what it crops to.
pub open spec fn picture_plan(config: JsonTree, rendered: Seq<char>) -> Result<
    (Option<Step>, Option<(u32, u32)>),
    Seq<char>,
> {
    let mode = processor(config);
    if clip_family(mode) {
        match (clip_resize(config), clip_crop(config, rendered)) {
            (Err(text), _) => Err(text),
            (_, Err(text)) => Err(text),
            (Ok(resize), Ok(crop)) => Ok((resize, crop)),
        }
    } else if mode == "ConvNextFeatureExtractor"@ {
        convnext(config)
    } else {
        Err("Preprocessor "@ + mode + " is not supported"@)
    }
}

/// The number in single precision that a configuration multiplies by.
pub open spec fn scale(config: JsonTree) -> Option<u32> {
    if !flag(config, "do_rescale"@, true) {
        None
    } else {
        Some(
            float::narrowed(
                match config.at("rescale_factor"@).as_double() {
                    Some(factor) => factor,
                    None => DEFAULT_RESCALE_FACTOR,
                },
            ),
        )
    }
}

/// The numbers in single precision of an entry.
pub open spec fn numbers(
    config: JsonTree,
    key: Seq<char>,
    missing: Seq<char>,
    other: Seq<char>,
) -> Result<Seq<u32>, Seq<char>> {
    match config.at(key).as_array() {
        None => Err(missing),
        Some(items) => if all_numbers(items) {
            Ok(singles(items))
        } else {
            Err(other)
        },
    }
}

/// The means and the standard deviations by which a configuration normalizes.
pub open spec fn normal(config: JsonTree) -> Result<Option<(Seq<u32>, Seq<u32>)>, Seq<char>> {
    if !flag(config, "do_normalize"@, false) {
        Ok(None)
    } else {
        match (
            numbers(
                config,
                "image_mean"@,
                "image_mean must be contained"@,
                "image_mean must be float"@,
            ),
            numbers(
                config,
                "image_std"@,
                "image_std must be contained"@,
                "image_std must be float"@,
            ),
        ) {
            (Err(text), _) => Err(text),
            (_, Err(text)) => Err(text),
            (Ok(mean), Ok(std)) => Ok(Some((mean, std))),
        }
    }
}

/// The plan of a configuration, or what is wrong with it; `rendered` is its entry
/// `crop_size` as an error shows it.
pub open spec fn plan_of(config: JsonTree, rendered: Seq<char>) -> Result<Plan, Seq<char>> {
    match (picture_plan(config, rendered), normal(config)) {
        (Err(text), _) => Err(text),
        (_, Err(text)) => Err(text),
        (Ok((resize, crop)), Ok(normal)) => Ok(
            Plan { resize, crop, scale: scale(config), normal },
        ),
    }
}

/// Reads how a configuration resizes and what it crops to.
fn read_picture_plan(config: &Json, rendered: &str) -> (stages: Result<
    (Option<Stage>, Option<(u32, u32)>),
    String,
>)
    ensures
        match stages {
            Ok((resize, crop)) => picture_plan(config@, rendered@) == Ok::<
                (Option<Step>, Option<(u32, u32)>),
                Seq<char>,
            >(
                (
                    match resize {
                        Some(stage) => Some(stage.step()),
                        None => None,
                    },
                    crop,
                ),
            ) && (resize matches Some(stage) ==> stage.step().resizes()),
            Err(text) => picture_plan(config@, rendered@) == Err::<
                (Option<Step>, Option<(u32, u32)>),
                Seq<char>,
            >(text@),
        },
{
    let mode: &str = match config.text_at("image_processor_type") {
        Some(mode) => mode.as_str(),
        None => "CLIPImageProcessor",
    };
    if is_clip_family(mode) {
        let resize = match read_clip_resize(config) {
            Ok(resize) => resize,
            Err(text) => return Err(text),
        };
        match read_clip_crop(config, rendered) {
            Ok(crop) => Ok((resize, crop)),
            Err(text) => Err(text),
        }
    } else if text::same_text(mode, "ConvNextFeatureExtractor") {
        match read_convnext(config) {
            Ok((resize, crop)) => Ok((Some(Stage::Resize(resize)), crop)),
            Err(text) => Err(text),
        }
    } else {
        let head = text::joined("Preprocessor ", mode);
        Err(text::joined(head.as_str(), " is not supported"))
    }
}

/// Reads the numbers in single precision of an entry.
fn read_numbers(config: &Json, key: &str, missing: &str, other: &str) -> (read: Result<
    Vec<u32>,
    String,
>)
    ensures
        match read {
            Ok(read) => numbers(config@, key@, missing@, other@) == Ok::<Seq<u32>, Seq<char>>(
                read@,
            ),
            Err(text) => numbers(config@, key@, missing@, other@) == Err::<Seq<u32>, Seq<char>>(
                text@,
            ),
        },
{
    match config.array_at(key) {
        None => Err(missing.to_string()),
        Some(items) => {
            assert(config@.at(key@)->Array_0 =~= items@.map_values(|item: Json| item@));
            match read_singles(items) {
                Some(numbers) => Ok(numbers),
                None => Err(other.to_string()),
            }
        },
    }
}

/// Reads the number in single precision that a configuration multiplies by.
fn read_scale(config: &Json) -> (read: Option<u32>)
    ensures
        read == scale(config@),
{
    if !read_flag(config, "do_rescale", true) {
        return None;
    }
    let factor: u64 = match config.double_at("rescale_factor") {
        Some(factor) => factor,
        None => DEFAULT_RESCALE_FACTOR,
    };
    Some(float::narrow(factor))
}

/// Reads the means and the standard deviations by which a configuration normalizes.
fn read_normal(config: &Json) -> (read: Result<Option<Normalize>, String>)
    ensures
        match read {
            Ok(Some(stage)) => normal(config@) == Ok::<
                Option<(Seq<u32>, Seq<u32>)>,
                Seq<char>,
            >(Some((stage.mean@, stage.std@))),
            Ok(None) => normal(config@) == Ok::<Option<(Seq<u32>, Seq<u32>)>, Seq<char>>(None),
            Err(text) => normal(config@) == Err::<Option<(Seq<u32>, Seq<u32>)>, Seq<char>>(
                text@,
            ),
        },
{
    if !read_flag(config, "do_normalize", false) {
        return Ok(None);
    }
    let mean = match read_numbers(
        config,
        "image_mean",
        "image_mean must be contained",
        "image_mean must be float",
    ) {
        Ok(mean) => mean,
        Err(text) => return Err(text),
    };
    let std = match read_numbers(
        config,
        "image_std",
        "image_std must be contained",
        "image_std must be float",
    ) {
        Ok(std) => std,
        Err(text) => return Err(text),
    };
    Ok(Some(Normalize { mean, std }))
}

/// Whether a preprocessor follows a plan, or an error tells why there is none.
pub open spec fn composed(compose: Result<Compose, Error>, plan: Result<Plan, Seq<char>>) -> bool {
    match (compose, plan) {
        (Ok(compose), Ok(plan)) => plan.wf() && compose.steps() == plan.steps(),
        (Err(error), Err(text)) => error@ == ErrorModel::PreprocessorConfig(text),
        _ => false,
    }
}

/// Makes the preprocessor that a configuration describes; `rendered` is its entry
/// `crop_size` as an error shows it.
pub fn compose_from(config: &Json, rendered: &str) -> (compose: Result<Compose, Error>)
    ensures
        composed(compose, plan_of(config@, rendered@)),
{
    let (resize, crop): (Option<Stage>, Option<(u32, u32)>) = match read_picture_plan(
        config,
        rendered,
    ) {
        Ok(stages) => stages,
        Err(text) => return Err(Error::PreprocessorConfig(text)),
    };
    let normalize = match read_normal(config) {
        Ok(normalize) => normalize,
        Err(text) => return Err(Error::PreprocessorConfig(text)),
    };
    let rescale: Option<u32> = read_scale(config);
    let ghost plan = plan_of(config@, rendered@)->Ok_0;
    let mut transforms: Vec<Stage> = Vec::new();
    transforms.push(Stage::ConvertToRGB(ConvertToRGB));
    if let Some(stage) = resize {
        transforms.push(stage);
    }
    if let Some(size) = crop {
        transforms.push(Stage::CenterCrop(CenterCrop { size }));
    }
    assert(compose::steps_of(transforms@) =~= plan.on_picture());
    transforms.push(Stage::PILToNDarray(PILToNDarray));
    if let Some(scale) = rescale {
        transforms.push(Stage::Rescale(Rescale { scale }));
    }
    if let Some(stage) = normalize {
        transforms.push(Stage::Normalize(stage));
    }
    assert(compose::steps_of(transforms@) =~= plan.steps());
    Ok(Compose::new(transforms))
}

/// Makes the preprocessor that a `preprocessor_config.json` describes.
pub fn load_preprocessor(config: serde_json::Value) -> (compose: Result<Compose, Error>)
    ensures
        composed(
            compose,
            plan_of(
                json::json_of(config),
                json::json_debug(json::json_of(config).at("crop_size"@)),
            ),
        ),
{
    let rendered = json::debug_text(json::value_at(&config, "crop_size"));
    compose_from(&json::document(&config), rendered.as_str())
}

/// Whatever a configuration asks for, its plan starts with the conversion to red, green
/// and blue, resizes right after it or not at all, and gives tensors of the size of the
/// crop where there is one.
pub proof fn configured_plans_convert_first(config: JsonTree, rendered: Seq<char>)
    requires
        plan_of(config, rendered) is Ok,
    ensures
        ({
            let plan = plan_of(config, rendered)->Ok_0;
            &&& plan.wf()
            &&& plan.steps()[0] == Step::ConvertToRgb
            &&& forall|i: int|
                0 <= i < plan.steps().len() && (#[trigger] plan.steps()[i]).resizes() ==> i == 1
            &&& plan.crop matches Some(size) ==> forall|width: u32, height: u32| #[trigger]
                plan.size(width, height) == size
        }),
{
}

impl Compose {
    /// Makes the preprocessor that the text of a `preprocessor_config.json`
    /// describes.
    pub fn from_bytes(bytes: &[u8]) -> (compose: Result<Compose, Error>)
        ensures
            composed(
                compose,
                match json::json_text(bytes@) {
                    Ok(config) => plan_of(
                        config,
                        json::json_debug(config.at("crop_size"@)),
                    ),
                    Err(text) => Err("Invalid preprocessor JSON: "@ + text),
                },
            ),
    {
        match json::parse(bytes) {
            Ok(config) => load_preprocessor(config),
            Err(text) => Err(
                Error::PreprocessorConfig(
                    text::joined("Invalid preprocessor JSON: ", text.as_str()),
                ),
            ),
        }
    }
}

/// Whether a configuration is one of the CLIP family: its type is one of five, or it names
/// none.
spec fn names_clip(config: JsonTree) -> bool {
    config.at("image_processor_type"@) matches JsonTree::Text(mode) ==> {
        ||| mode == "CLIPImageProcessor"@
        ||| mode == "SiglipImageProcessor"@
        ||| mode == "Siglip2ImageProcessor"@
        ||| mode == "DINOv3ViTImageProcessorFast"@
        ||| mode == "BitImageProcessor"@
    }
}

/// A configuration that names none of the types `CLIPImageProcessor`, `SiglipImageProcessor`,
/// `Siglip2ImageProcessor`, `DINOv3ViTImageProcessorFast`, `BitImageProcessor` and
/// `ConvNextFeatureExtractor`, but another, is refused as not supported, and no other
/// configuration is.
pub proof fn six_types_are_supported(config: JsonTree, rendered: Seq<char>)
    ensures
        match config.at("image_processor_type"@) {
            JsonTree::Text(mode) => {
                let known = mode == "CLIPImageProcessor"@ || mode == "SiglipImageProcessor"@ || mode
                    == "Siglip2ImageProcessor"@ || mode == "DINOv3ViTImageProcessorFast"@ || mode
                    == "BitImageProcessor"@ || mode == "ConvNextFeatureExtractor"@;
                let refused = Err::<Plan, Seq<char>>(
                    "Preprocessor "@ + mode + " is not supported"@,
                );
                known == (plan_of(config, rendered) != refused)
            },
            _ => forall|mode: Seq<char>|
                plan_of(config, rendered) != Err::<Plan, Seq<char>>(
                    #[trigger] ("Preprocessor "@ + mode) + " is not supported"@,
                ),
        },
{
    reveal_strlit("Preprocessor ");
    reveal_strlit("Size must contain either 'shortest_edge' or 'height' and 'width'.");
    reveal_strlit("Invalid crop size: ");
    reveal_strlit("crop_size height must be contained");
    reveal_strlit("crop_size width must be contained");
    reveal_strlit("Size dictionary must contain 'shortest_edge' key.");
    reveal_strlit("image_mean must be contained");
    reveal_strlit("image_mean must be float");
    reveal_strlit("image_std must be contained");
    reveal_strlit("image_std must be float");
    match plan_of(config, rendered) {
        Err(text) => {
            if names_clip(config) || config.at("image_processor_type"@) == JsonTree::Text(
                "ConvNextFeatureExtractor"@,
            ) {
                lemma_error_starts(config, rendered);
                assert forall|mode: Seq<char>| text != #[trigger] ("Preprocessor "@ + mode)
                    + " is not supported"@ by {
                    assert((("Preprocessor "@ + mode) + " is not supported"@)[0] == 'P');
                }
            }
        },
        Ok(_) => {},
    }
}

/// The errors of a configuration that is supported start otherwise.
proof fn lemma_error_starts(config: JsonTree, rendered: Seq<char>)
    requires
        names_clip(config) || config.at("image_processor_type"@) == JsonTree::Text(
            "ConvNextFeatureExtractor"@,
        ),
    ensures
        plan_of(config, rendered) matches Err(text) ==> text[0] != 'P',
{
    reveal_strlit("Size must contain either 'shortest_edge' or 'height' and 'width'.");
    reveal_strlit("Invalid crop size: ");
    reveal_strlit("crop_size height must be contained");
    reveal_strlit("crop_size width must be contained");
    reveal_strlit("Size dictionary must contain 'shortest_edge' key.");
    reveal_strlit("image_mean must be contained");
    reveal_strlit("image_mean must be float");
    reveal_strlit("image_std must be contained");
    reveal_strlit("image_std must be float");
}

/// A preprocessor of the CLIP family, of whichever of its five types, resizes as its
/// configuration says: not at all unless `do_resize` is true, to the shortest edge where
/// there is one, and else to width and height, in two passes where it is asked to.
pub proof fn clip_preprocessors_resize_as_configured(
    config: JsonTree,
    rendered: Seq<char>,
    mode: Seq<char>,
)
    requires
        mode == "CLIPImageProcessor"@ || mode == "SiglipImageProcessor"@ || mode
            == "Siglip2ImageProcessor"@ || mode == "DINOv3ViTImageProcessorFast"@ || mode
            == "BitImageProcessor"@,
        config.at("image_processor_type"@) == JsonTree::Text(mode) || !(config.at(
            "image_processor_type"@,
        ) is Text),
        plan_of(config, rendered) is Ok,
    ensures
        ({
            let resize = plan_of(config, rendered)->Ok_0.resize;
            let size = config.at("size"@);
            let edge = size.at("shortest_edge"@).as_unsigned();
            let width = size.at("width"@).as_unsigned();
            let height = size.at("height"@).as_unsigned();
            let pillow = config.at("nicegal_pillow_resize"@) == JsonTree::Bool(true);
            let cubic = FilterType::CatmullRom;
            if config.at("do_resize"@) != JsonTree::Bool(true) {
                resize is None
            } else if edge is Some {
                resize == Some(
                    Step::Resize {
                        size: ResizeSize::ShortestEdge((edge->0 % 0x1_0000_0000) as u32),
                        resample: cubic,
                    },
                )
            } else {
                &&& width is Some && height is Some
                &&& resize == Some(
                    if pillow {
                        Step::ResizePillow {
                            width: (width->0 % 0x1_0000_0000) as u32,
                            height: (height->0 % 0x1_0000_0000) as u32,
                            filter: if config.at("resample"@).as_unsigned() == Some(2u64) {
                                FilterType::Triangle
                            } else {
                                cubic
                            },
                        }
                    } else {
                        Step::Resize {
                            size: ResizeSize::Exact {
                                width: (width->0 % 0x1_0000_0000) as u32,
                                height: (height->0 % 0x1_0000_0000) as u32,
                            },
                            resample: cubic,
                        }
                    },
                )
            }
        }),
{
}

/// A preprocessor of the CLIP family, of whichever of its five types, crops as its
/// configuration says: not at all unless `do_center_crop` is true, to a square where
/// `crop_size` is a number, and else to the width and the height of `crop_size`.
pub proof fn clip_preprocessors_crop_as_configured(
    config: JsonTree,
    rendered: Seq<char>,
    mode: Seq<char>,
)
    requires
        mode == "CLIPImageProcessor"@ || mode == "SiglipImageProcessor"@ || mode
            == "Siglip2ImageProcessor"@ || mode == "DINOv3ViTImageProcessorFast"@ || mode
            == "BitImageProcessor"@,
        config.at("image_processor_type"@) == JsonTree::Text(mode) || !(config.at(
            "image_processor_type"@,
        ) is Text),
        plan_of(config, rendered) is Ok,
    ensures
        ({
            let crop = plan_of(config, rendered)->Ok_0.crop;
            let entry = config.at("crop_size"@);
            let width = entry.at("width"@).as_unsigned();
            let height = entry.at("height"@).as_unsigned();
            if config.at("do_center_crop"@) != JsonTree::Bool(true) {
                crop is None
            } else if entry is Number {
                &&& entry.as_unsigned() is Some
                &&& crop matches Some(size) && size.0 == size.1 && size.0
                    == entry.as_unsigned()->0 % 0x1_0000_0000
            } else {
                &&& width is Some && height is Some
                &&& crop matches Some(size) && size.0 == width->0 % 0x1_0000_0000 && size.1
                    == height->0 % 0x1_0000_0000
            }
        }),
{
}

/// The type of ConvNeXT is none of the CLIP family.
proof fn lemma_convnext_is_not_clip()
    ensures
        "ConvNextFeatureExtractor"@ != "CLIPImageProcessor"@,
        "ConvNextFeatureExtractor"@ != "SiglipImageProcessor"@,
        "ConvNextFeatureExtractor"@ != "Siglip2ImageProcessor"@,
        "ConvNextFeatureExtractor"@ != "DINOv3ViTImageProcessorFast"@,
        "ConvNextFeatureExtractor"@ != "BitImageProcessor"@,
{
    reveal_strlit("ConvNextFeatureExtractor");
    reveal_strlit("CLIPImageProcessor");
    reveal_strlit("SiglipImageProcessor");
    reveal_strlit("Siglip2ImageProcessor");
    reveal_strlit("DINOv3ViTImageProcessorFast");
    reveal_strlit("BitImageProcessor");
    assert("ConvNextFeatureExtractor"@[1] == 'o');
    assert("CLIPImageProcessor"@[1] == 'L');
    assert("SiglipImageProcessor"@[1] == 'i');
    assert("Siglip2ImageProcessor"@[1] == 'i');
    assert("DINOv3ViTImageProcessorFast"@[1] == 'I');
    assert("BitImageProcessor"@[1] == 'i');
}

/// A ConvNeXT preprocessor with a shortest edge below 384 resizes to the edge divided by
/// `crop_pct`, which is 7/8 by default, and crops to a square of the edge; from 384 on it
/// resizes to a square of the edge and does not crop.
pub proof fn convnext_preprocessors_follow_their_edge(config: JsonTree, rendered: Seq<char>)
    requires
        config.at("image_processor_type"@) == JsonTree::Text("ConvNextFeatureExtractor"@),
        plan_of(config, rendered) is Ok,
    ensures
        ({
            let plan = plan_of(config, rendered)->Ok_0;
            let entry = config.at("size"@).at("shortest_edge"@).as_unsigned();
            let edge = (entry->0 % 0x1_0000_0000) as u32;
            let crop_pct = match config.at("crop_pct"@) {
                JsonTree::Number(number) => number.double,
                _ => 0x3FEC_0000_0000_0000,
            };
            &&& entry is Some
            &&& if edge < 384 {
                &&& plan.resize == Some(
                    Step::Resize {
                        size: ResizeSize::ShortestEdge(float::whole_ratio(edge, crop_pct)),
                        resample: FilterType::CatmullRom,
                    },
                )
                &&& plan.crop == Some((edge, edge))
            } else {
                &&& plan.resize == Some(
                    Step::Resize {
                        size: ResizeSize::Exact { width: edge, height: edge },
                        resample: FilterType::CatmullRom,
                    },
                )
                &&& plan.crop is None
            }
        }),
{
    lemma_convnext_is_not_clip();
}

/// Whatever its type, a preprocessor multiplies by `rescale_factor`, which is 1/255 by
/// default, unless `do_rescale` is false; and it normalizes by `image_mean` and `image_std`
/// if `do_normalize` is true. All these numbers are in single precision.
pub proof fn preprocessors_compute_as_configured(config: JsonTree, rendered: Seq<char>)
    requires
        plan_of(config, rendered) is Ok,
    ensures
        ({
            let plan = plan_of(config, rendered)->Ok_0;
            let means = config.at("image_mean"@);
            let stds = config.at("image_std"@);
            &&& if config.at("do_rescale"@) == JsonTree::Bool(false) {
                plan.scale is None
            } else {
                plan.scale == Some(
                    float::narrowed(
                        match config.at("rescale_factor"@) {
                            JsonTree::Number(number) => number.double,
                            _ => 0x3F70_1010_1010_1010,
                        },
                    ),
                )
            }
            &&& if config.at("do_normalize"@) != JsonTree::Bool(true) {
                plan.normal is None
            } else {
                &&& means is Array && stds is Array
                &&& plan.normal matches Some((mean, std)) && {
                    &&& mean.len() == means->Array_0.len()
                    &&& std.len() == stds->Array_0.len()
                    &&& forall|i: int|
                        0 <= i < mean.len() ==> (#[trigger] means->Array_0[i] matches
                            JsonTree::Number(number) && mean[i] == float::narrowed(number.double))
                    &&& forall|i: int|
                        0 <= i < std.len() ==> (#[trigger] stds->Array_0[i] matches
                            JsonTree::Number(number) && std[i] == float::narrowed(number.double))
                }
            }
        }),
{
}

/// What is wrong with a configuration, if anything: its type is not supported, a size is
/// asked for and not given, or numbers are asked for and not given, in this order. With
/// nothing wrong there is a plan.
pub proof fn what_is_wrong_with_a_configuration_is_told(config: JsonTree, rendered: Seq<char>)
    ensures
        ({
            let mode = config.at("image_processor_type"@);
            let convnext = mode == JsonTree::Text("ConvNextFeatureExtractor"@);
            let clip = !(mode is Text) || mode->Text_0 == "CLIPImageProcessor"@ || mode->Text_0
                == "SiglipImageProcessor"@ || mode->Text_0 == "Siglip2ImageProcessor"@
                || mode->Text_0 == "DINOv3ViTImageProcessorFast"@ || mode->Text_0
                == "BitImageProcessor"@;
            let size = config.at("size"@);
            let edge = size.at("shortest_edge"@).as_unsigned() is Some;
            let sides = size.at("width"@).as_unsigned() is Some && size.at(
                "height"@,
            ).as_unsigned() is Some;
            let crop = config.at("crop_size"@);
            let resizes = clip && config.at("do_resize"@) == JsonTree::Bool(true);
            let crops = clip && config.at("do_center_crop"@) == JsonTree::Bool(true)
                && crop.as_unsigned() is None;
            let normalizes = config.at("do_normalize"@) == JsonTree::Bool(true);
            let means = config.at("image_mean"@);
            let stds = config.at("image_std"@);
            let told = |text: Seq<char>| plan_of(config, rendered) == Err::<Plan, Seq<char>>(text);
            if !clip && !convnext {
                told("Preprocessor "@ + mode->Text_0 + " is not supported"@)
            } else if resizes && !edge && !sides {
                told("Size must contain either 'shortest_edge' or 'height' and 'width'."@)
            } else if crops && !(crop is Object) {
                told("Invalid crop size: "@ + rendered)
            } else if crops && crop.at("height"@).as_unsigned() is None {
                told("crop_size height must be contained"@)
            } else if crops && crop.at("width"@).as_unsigned() is None {
                told("crop_size width must be contained"@)
            } else if convnext && !edge {
                told("Size dictionary must contain 'shortest_edge' key."@)
            } else if normalizes && !(means is Array) {
                told("image_mean must be contained"@)
            } else if normalizes && !(forall|i: int|
                0 <= i < means->Array_0.len() ==> #[trigger] means->Array_0[i] is Number) {
                told("image_mean must be float"@)
            } else if normalizes && !(stds is Array) {
                told("image_std must be contained"@)
            } else if normalizes && !(forall|i: int|
                0 <= i < stds->Array_0.len() ==> #[trigger] stds->Array_0[i] is Number) {
                told("image_std must be float"@)
            } else {
                plan_of(config, rendered) is Ok
            }
        }),
{
    lemma_convnext_is_not_clip();
    let means = config.at("image_mean"@);
    let stds = config.at("image_std"@);
    assert(means is Array ==> all_numbers(means->Array_0) == (forall|i: int|
        0 <= i < means->Array_0.len() ==> #[trigger] means->Array_0[i] is Number));
    assert(stds is Array ==> all_numbers(stds->Array_0) == (forall|i: int|
        0 <= i < stds->Array_0.len() ==> #[trigger] stds->Array_0[i] is Number));
}

/// A preprocessor converts to red, green and blue, resizes, crops, makes a tensor, rescales
/// and normalizes, in this order, and as far as its plan says so; and where there is no plan,
/// the error says why.
pub proof fn preprocessors_take_the_steps_of_their_plan(
    compose: Result<Compose, Error>,
    plan: Result<Plan, Seq<char>>,
)
    requires
        composed(compose, plan),
    ensures
        match plan {
            Ok(plan) => compose matches Ok(compose) && compose.steps() == seq![
                Step::ConvertToRgb,
            ] + (match plan.resize {
                Some(step) => seq![step],
                None => seq![],
            }) + (match plan.crop {
                Some(size) => seq![Step::CenterCrop { size }],
                None => seq![],
            }) + seq![Step::ToTensor] + (match plan.scale {
                Some(scale) => seq![Step::Rescale { scale }],
                None => seq![],
            }) + (match plan.normal {
                Some((mean, std)) => seq![Step::Normalize { mean, std }],
                None => seq![],
            }),
            Err(text) => compose matches Err(error) && error@ == ErrorModel::PreprocessorConfig(
                text,
            ),
        },
{
    if let Ok(plan) = plan {
        assert(compose->Ok_0.steps() =~= seq![Step::ConvertToRgb] + (match plan.resize {
            Some(step) => seq![step],
            None => seq![],
        }) + (match plan.crop {
            Some(size) => seq![Step::CenterCrop { size }],
            None => seq![],
        }) + seq![Step::ToTensor] + (match plan.scale {
            Some(scale) => seq![Step::Rescale { scale }],
            None => seq![],
        }) + (match plan.normal {
            Some((mean, std)) => seq![Step::Normalize { mean, std }],
            None => seq![],
        }));
    }
}

/// What the text of a `preprocessor_config.json` asks for is what the document that it holds
/// asks for; a text that holds none is an error that says why.
pub proof fn texts_of_configurations_are_read(bytes: &[u8], compose: Result<Compose, Error>)
    requires
        call_ensures(Compose::from_bytes, (bytes,), compose),
    ensures
        match json::json_text(bytes@) {
            Ok(config) => composed(
                compose,
                plan_of(config, json::json_debug(config.at("crop_size"@))),
            ),
            Err(text) => compose matches Err(error) && error@ == ErrorModel::PreprocessorConfig(
                "Invalid preprocessor JSON: "@ + text,
            ),
        },
{
}

}
