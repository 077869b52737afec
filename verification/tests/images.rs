use fastembed::compose::{Compose, Stage};
use fastembed::deepghs::compose_from_stages;
use fastembed::error::Error;
use fastembed::json::document;
use fastembed::picture::{can_resize, default_resize, FilterType, Picture, Samples};
use fastembed::preprocess::{
    compose_from, load_preprocessor, parse_crop_size, parse_resize_size, BYTE_SCALE,
    DEFAULT_CROP_PCT, DEFAULT_RESCALE_FACTOR,
};
use fastembed::steps::{
    pillow_resize, CenterCrop, ConvertToRGB, Normalize, PILToNDarray, Rescale, ResizeDeepGhs,
    ResizePillow,
};
use fastembed::tensor::{Arithmetic, Tensor};
use fastembed::transform::{fit_deepghs, Resize, ResizeSize, Transform, TransformData};

fn red(width: u32, height: u32) -> Picture {
    let mut samples = Vec::new();
    for _ in 0..width * height {
        samples.extend_from_slice(&[255, 0, 0]);
    }
    Picture::rgb(width, height, samples)
}

fn image(width: u32, height: u32) -> TransformData {
    TransformData::Image(red(width, height))
}

/// The numbers that a tensor stands for.
fn numbers(tensor: &Tensor) -> Vec<f32> {
    let area = tensor.height * tensor.width;
    let mut numbers = Vec::new();
    for (i, bits) in tensor.values.iter().enumerate() {
        let mut number = f32::from_bits(*bits);
        for operation in &tensor.arithmetic {
            number = match operation {
                Arithmetic::Rescale { scale } => number * f32::from_bits(*scale),
                Arithmetic::Normalize { mean, std } => {
                    let channel = i / area;
                    (number - f32::from_bits(mean[channel])) / f32::from_bits(std[channel])
                }
            };
        }
        numbers.push(number);
    }
    numbers
}

fn at(tensor: &Tensor, channel: usize, row: usize, column: usize) -> f32 {
    numbers(tensor)[(channel * tensor.height + row) * tensor.width + column]
}

fn config(text: &str) -> serde_json::Value {
    serde_json::from_str(text).unwrap()
}

fn config_error(text: &str) -> String {
    match load_preprocessor(config(text)) {
        Err(Error::PreprocessorConfig(text)) => text,
        other => panic!("unexpected: {other:?}"),
    }
}

fn image_error(error: Error) -> String {
    match error {
        Error::ImageTransform(text) => text,
        other => panic!("unexpected: {other:?}"),
    }
}

fn shape_error(error: Error) -> String {
    match error {
        Error::InvalidShape(text) => text,
        other => panic!("unexpected: {other:?}"),
    }
}

#[test]
fn shortest_edge_resize_preserves_aspect_ratio() {
    let resize = Resize {
        size: ResizeSize::ShortestEdge(224),
        resample: FilterType::Nearest,
    };
    let out = resize.transform(image(400, 200)).unwrap().image().unwrap();
    assert_eq!((out.width, out.height), (448, 224));
    let out = resize.transform(image(200, 400)).unwrap().image().unwrap();
    assert_eq!((out.width, out.height), (224, 448));
}

#[test]
fn exact_resize_keeps_width_and_height_apart() {
    let resize = Resize {
        size: ResizeSize::Exact {
            width: 320,
            height: 240,
        },
        resample: FilterType::Nearest,
    };
    let out = resize.transform(image(100, 100)).unwrap().image().unwrap();
    assert_eq!((out.width, out.height), (320, 240));
}

#[test]
fn center_crop_pads_smaller_non_square_images_as_chw() {
    let crop = CenterCrop { size: (224, 100) };
    let out = crop.transform(image(50, 40)).unwrap().array().unwrap();
    assert_eq!((out.channels, out.height, out.width), (3, 100, 224));
    assert_eq!(at(&out, 0, 50, 112), 255.0);
    assert_eq!(at(&out, 0, 0, 0), 0.0);
}

#[test]
fn clip_config_builds_shortest_edge_pipeline() {
    let config = config(
        r#"{
            "image_processor_type": "CLIPImageProcessor",
            "do_resize": true,
            "size": {"shortest_edge": 224},
            "do_center_crop": true,
            "crop_size": 224,
            "do_rescale": true,
            "do_normalize": true,
            "image_mean": [0.5, 0.5, 0.5],
            "image_std": [0.5, 0.5, 0.5]
        }"#,
    );
    let compose = load_preprocessor(config).unwrap();
    let out = compose.transform(image(640, 480)).unwrap().array().unwrap();
    assert_eq!((out.channels, out.height, out.width), (3, 224, 224));
    assert!((at(&out, 0, 100, 100) - 1.0).abs() < 1e-6);
    assert!((at(&out, 1, 100, 100) + 1.0).abs() < 1e-6);
}

const DEEPGHS: &str = r#"{"stages": [
    {"type": "convert_rgb", "force_background": "white"},
    {"type": "resize", "size": 4, "max_size": 4,
        "interpolation": "bicubic", "antialias": true},
    {"type": "center_crop", "size": 4},
    {"type": "maybe_to_tensor"},
    {"type": "normalize", "mean": [0.5, 0.5, 0.5],
        "std": [0.5, 0.5, 0.5]}
]}"#;

#[test]
fn deepghs_fit_long_side_pads_the_short_side_black() {
    let config = config(DEEPGHS);
    let preprocessor =
        Compose::from_deepghs_bytes(&serde_json::to_vec(&config).unwrap()).unwrap();
    let pixels = preprocessor.preprocess_image(red(8, 4)).unwrap();
    assert_eq!((pixels.channels, pixels.height, pixels.width), (3, 4, 4));
    assert_eq!(at(&pixels, 0, 0, 0), -1.0);
    assert_eq!(at(&pixels, 0, 1, 0), 1.0);
    assert_eq!(at(&pixels, 1, 1, 0), -1.0);
    assert_eq!(at(&pixels, 0, 3, 0), -1.0);
}

#[test]
fn siglip_resizes_to_exact_square_and_normalizes() {
    let config = config(
        r#"{
            "image_processor_type": "SiglipImageProcessor",
            "do_resize": true,
            "size": {"height": 256, "width": 256},
            "do_rescale": true,
            "rescale_factor": 0.00392156862745098,
            "do_normalize": true,
            "image_mean": [0.5, 0.5, 0.5],
            "image_std": [0.5, 0.5, 0.5]
        }"#,
    );
    let tensor = load_preprocessor(config)
        .unwrap()
        .preprocess_image(Picture::rgb(12, 4, vec![0; 12 * 4 * 3]))
        .unwrap();
    assert_eq!((tensor.channels, tensor.height, tensor.width), (3, 256, 256));
    assert!(numbers(&tensor).iter().all(|value| *value == -1.0));
}

#[test]
fn shortest_edge_rounds_the_long_side_down() {
    let resize = Resize {
        size: ResizeSize::ShortestEdge(224),
        resample: FilterType::CatmullRom,
    };
    assert_eq!(resize.target_dimensions(640, 480), (298, 224));
    assert_eq!(resize.target_dimensions(480, 640), (224, 298));
    assert_eq!(resize.target_dimensions(224, 300), (224, 300));
    assert_eq!(resize.target_dimensions(300, 300), (224, 224));
    assert_eq!(resize.target_dimensions(0, 10), (224, u32::MAX));
    assert_eq!(resize.target_dimensions(0, 0), (224, 1));
    let nothing = Resize {
        size: ResizeSize::ShortestEdge(0),
        resample: FilterType::CatmullRom,
    };
    assert_eq!(nothing.target_dimensions(10, 20), (0, 1));
}

#[test]
fn shortest_edge_rounds_as_double_precision_does() {
    for (edge, width, height) in [
        (u32::MAX, 3, u32::MAX),
        (4_000_000_007, 4_000_000_009, 4_294_967_291),
        (7, 3, 11),
        (336, 1023, 767),
    ] {
        let resize = Resize {
            size: ResizeSize::ShortestEdge(edge),
            resample: FilterType::Nearest,
        };
        let (short, long) = if width <= height {
            (width, height)
        } else {
            (height, width)
        };
        let scaled = ((edge as f64 * long as f64) / short as f64) as u32;
        let expected = if width <= height {
            (edge, scaled.max(1))
        } else {
            (scaled.max(1), edge)
        };
        assert_eq!(resize.target_dimensions(width, height), expected);
    }
}

#[test]
fn deepghs_caps_the_long_side() {
    assert_eq!(fit_deepghs(4, 4, 8, 4), (4, 2));
    assert_eq!(fit_deepghs(4, 4, 4, 8), (2, 4));
    assert_eq!(fit_deepghs(4, 100, 8, 4), (8, 4));
    assert_eq!(fit_deepghs(4, 100, 4, 8), (4, 8));
    assert_eq!(fit_deepghs(4, 3, 4, 4), (3, 3));
    assert_eq!(fit_deepghs(2, 2, 1000, 1), (2, 0));
    // The longer side is capped before it is put into 32 bits.
    assert_eq!(fit_deepghs(0x10000, 8, 0x10000, 1), (8, 0));
    assert_eq!(fit_deepghs(0x10000, 8, 1, 0x10000), (0, 8));
}

#[test]
fn deepghs_resizing_lets_no_side_vanish() {
    let resize = ResizeDeepGhs {
        size: 2,
        max_size: 2,
    };
    let out = resize.transform(image(1000, 1)).unwrap().image().unwrap();
    assert_eq!((out.width, out.height), (2, 1));
    let same = resize.transform(image(2, 2)).unwrap().image().unwrap();
    assert_eq!((same.width, same.height), (2, 2));
}

#[test]
fn center_crop_keeps_the_middle() {
    let samples: Vec<u8> = (0..5 * 4)
        .flat_map(|i| [i as u8, 100 + i as u8, 200 + i as u8])
        .collect();
    let crop = CenterCrop { size: (2, 2) };
    let out = crop
        .transform(TransformData::Image(Picture::rgb(5, 4, samples)))
        .unwrap()
        .image()
        .unwrap();
    assert_eq!((out.width, out.height, out.channels), (2, 2, 3));
    match out.samples {
        Samples::Eight(samples) => assert_eq!(
            samples,
            vec![6, 106, 206, 7, 107, 207, 11, 111, 211, 12, 112, 212]
        ),
        other => panic!("unexpected: {other:?}"),
    }
}

#[test]
fn center_crop_cuts_one_side_and_pads_the_other() {
    let samples: Vec<u8> = (0..4).flat_map(|i| [10 + i as u8, 0, 0]).collect();
    let crop = CenterCrop { size: (2, 3) };
    let out = crop
        .transform(TransformData::Image(Picture::rgb(4, 1, samples.clone())))
        .unwrap()
        .array()
        .unwrap();
    assert_eq!((out.channels, out.height, out.width), (3, 3, 2));
    assert_eq!(
        numbers(&out)[..6],
        [0.0, 0.0, 11.0, 12.0, 0.0, 0.0]
    );
    assert!(numbers(&out)[6..].iter().all(|value| *value == 0.0));
    let crop = CenterCrop { size: (3, 2) };
    let out = crop
        .transform(TransformData::Image(Picture::rgb(1, 4, samples)))
        .unwrap()
        .array()
        .unwrap();
    assert_eq!(
        numbers(&out)[..6],
        [0.0, 11.0, 0.0, 0.0, 12.0, 0.0]
    );
}

#[test]
fn pictures_become_tensors_channel_by_channel() {
    let picture = Picture::rgb(2, 1, vec![1, 2, 3, 4, 5, 6]);
    let out = PILToNDarray
        .transform(TransformData::Image(picture))
        .unwrap()
        .array()
        .unwrap();
    assert_eq!((out.channels, out.height, out.width), (3, 1, 2));
    assert_eq!(numbers(&out), vec![1.0, 4.0, 2.0, 5.0, 3.0, 6.0]);
    let again = PILToNDarray
        .transform(TransformData::NdArray(out))
        .unwrap()
        .array()
        .unwrap();
    assert_eq!(numbers(&again), vec![1.0, 4.0, 2.0, 5.0, 3.0, 6.0]);
}

#[test]
fn pictures_of_all_kinds_become_rgb() {
    for (channels, samples, expected) in [
        (1, Samples::Eight(vec![7]), [7, 7, 7]),
        (2, Samples::Eight(vec![7, 0]), [7, 7, 7]),
        (3, Samples::Eight(vec![1, 2, 3]), [1, 2, 3]),
        (4, Samples::Eight(vec![1, 2, 3, 0]), [1, 2, 3]),
        (1, Samples::Sixteen(vec![65535]), [255, 255, 255]),
        (2, Samples::Sixteen(vec![0, 9]), [0, 0, 0]),
        (3, Samples::Sixteen(vec![65535, 0, 257]), [255, 0, 1]),
        (4, Samples::Sixteen(vec![0, 65535, 514, 0]), [0, 255, 2]),
    ] {
        let picture = Picture {
            width: 1,
            height: 1,
            channels,
            samples,
        };
        assert!(picture.is_sound());
        let out = ConvertToRGB
            .transform(TransformData::Image(picture))
            .unwrap()
            .image()
            .unwrap();
        match out.samples {
            Samples::Eight(samples) => assert_eq!(samples, expected.to_vec()),
            other => panic!("unexpected: {other:?}"),
        }
        assert_eq!(out.channels, 3);
    }
}

#[test]
fn pictures_of_all_kinds_keep_their_kind_when_resized_and_cropped() {
    for channels in 1u8..=4 {
        for deep in [false, true] {
            let count = 4 * 2 * channels as usize;
            let samples = if deep {
                Samples::Sixteen((0..count).map(|i| 1000 + i as u16).collect())
            } else {
                Samples::Eight((0..count).map(|i| i as u8).collect())
            };
            let picture = Picture {
                width: 4,
                height: 2,
                channels,
                samples,
            };
            let resized = default_resize(picture.clone(), 8, 6, FilterType::Nearest).unwrap();
            assert_eq!((resized.width, resized.height), (8, 6));
            assert_eq!(resized.channels, channels);
            assert_eq!(matches!(resized.samples, Samples::Sixteen(_)), deep);
            assert!(resized.is_sound());
            let cut = picture.crop(1, 1, 2, 1);
            let first = 5 * channels as usize;
            match cut.samples {
                Samples::Eight(samples) => {
                    assert!(!deep);
                    let expected: Vec<u8> =
                        (first..first + 2 * channels as usize).map(|i| i as u8).collect();
                    assert_eq!(samples, expected);
                }
                Samples::Sixteen(samples) => {
                    assert!(deep);
                    let expected: Vec<u16> = (first..first + 2 * channels as usize)
                        .map(|i| 1000 + i as u16)
                        .collect();
                    assert_eq!(samples, expected);
                }
            }
        }
    }
}

#[test]
fn resizing_uses_the_filter() {
    let picture = Picture::rgb(2, 1, vec![0, 0, 0, 200, 200, 200]);
    let nearest = default_resize(picture.clone(), 4, 1, FilterType::Nearest).unwrap();
    let smooth = default_resize(picture.clone(), 4, 1, FilterType::Triangle).unwrap();
    let same = default_resize(picture, 2, 1, FilterType::Lanczos3).unwrap();
    match (nearest.samples, smooth.samples, same.samples) {
        (Samples::Eight(nearest), Samples::Eight(smooth), Samples::Eight(same)) => {
            assert_eq!(nearest, vec![0, 0, 0, 0, 0, 0, 200, 200, 200, 200, 200, 200]);
            assert_ne!(nearest, smooth);
            assert_eq!(same, vec![0, 0, 0, 200, 200, 200]);
        }
        other => panic!("unexpected: {other:?}"),
    }
    for filter in [FilterType::CatmullRom, FilterType::Gaussian] {
        let out = default_resize(red(5, 5), 3, 7, filter).unwrap();
        match out.samples {
            Samples::Eight(samples) => {
                assert_eq!(samples.len(), 3 * 7 * 3);
                assert!(samples.chunks(3).all(|pixel| pixel == [255, 0, 0]));
            }
            other => panic!("unexpected: {other:?}"),
        }
    }
}

#[test]
fn pillow_resizes_in_width_first() {
    let calls = std::cell::RefCell::new(Vec::new());
    let resize = |image: Picture, width: u32, height: u32, filter: FilterType| {
        calls.borrow_mut().push((image.width, image.height, width, height, filter));
        default_resize(image, width, height, filter)
    };
    let out = pillow_resize(red(4, 6), 2, 3, FilterType::Triangle, &resize).unwrap();
    assert_eq!((out.width, out.height), (2, 3));
    assert_eq!(
        *calls.borrow(),
        vec![
            (4, 6, 2, 6, FilterType::Triangle),
            (2, 6, 2, 3, FilterType::Triangle)
        ]
    );
    let step = ResizePillow {
        width: 3,
        height: 2,
        filter: FilterType::CatmullRom,
    };
    let out = step.transform(image(4, 6)).unwrap().image().unwrap();
    assert_eq!((out.width, out.height), (3, 2));
}

#[test]
fn a_failing_resizer_fails_the_step() {
    let resize = |_: Picture, _: u32, _: u32, _: FilterType| -> Result<Picture, Error> {
        Err(Error::Other("out of ink".to_string()))
    };
    let step = Resize {
        size: ResizeSize::Exact {
            width: 1,
            height: 2,
        },
        resample: FilterType::Nearest,
    };
    let error = step.transform_with_resize(image(3, 3), &resize).unwrap_err();
    assert_eq!(error.to_string(), "out of ink");
    let error = pillow_resize(red(3, 3), 1, 2, FilterType::Nearest, &resize).unwrap_err();
    assert_eq!(error.to_string(), "out of ink");
    // A picture that has the size already is not resized.
    let out = step.transform_with_resize(image(1, 2), &resize).unwrap();
    assert_eq!(out.image().unwrap().width, 1);
    let compose = load_preprocessor(config(
        r#"{"do_resize": true, "size": {"width": 1, "height": 2}}"#,
    ))
    .unwrap();
    let error = compose
        .preprocess_image_with_resize(red(3, 3), &resize)
        .unwrap_err();
    assert_eq!(error.to_string(), "out of ink");
    assert!(compose.preprocess_image_with_resize(red(1, 2), &resize).is_ok());
}

#[test]
fn steps_refuse_what_they_cannot_take() {
    let tensor = || {
        PILToNDarray
            .transform(image(1, 1))
            .unwrap()
            .array()
            .unwrap()
    };
    let refusal = "TransformData convert error";
    assert_eq!(image_error(image(1, 1).array().unwrap_err()), refusal);
    assert_eq!(
        image_error(TransformData::NdArray(tensor()).image().unwrap_err()),
        refusal
    );
    let rescale = Rescale { scale: BYTE_SCALE };
    assert_eq!(image_error(rescale.transform(image(1, 1)).unwrap_err()), refusal);
    let crop = CenterCrop { size: (1, 1) };
    assert_eq!(
        image_error(crop.transform(TransformData::NdArray(tensor())).unwrap_err()),
        refusal
    );
    assert_eq!(
        image_error(ConvertToRGB.transform(TransformData::NdArray(tensor())).unwrap_err()),
        refusal
    );
}

#[test]
fn normalize_wants_three_channels() {
    let tensor = |channels: usize| {
        TransformData::NdArray(Tensor {
            channels,
            height: 1,
            width: 2,
            values: vec![0; 2 * channels],
            arithmetic: Vec::new(),
        })
    };
    let normalize = |mean: usize, std: usize| Normalize {
        mean: vec![0.5f32.to_bits(); mean],
        std: vec![0.25f32.to_bits(); std],
    };
    let out = normalize(3, 3).transform(tensor(3)).unwrap().array().unwrap();
    assert_eq!(numbers(&out), vec![-2.0; 6]);
    assert_eq!(
        shape_error(normalize(2, 3).transform(tensor(3)).unwrap_err()),
        "Failed to reshape mean array: ShapeError/IncompatibleShape: incompatible shapes"
    );
    assert_eq!(
        shape_error(normalize(3, 4).transform(tensor(3)).unwrap_err()),
        "Failed to reshape std array: ShapeError/IncompatibleShape: incompatible shapes"
    );
    assert_eq!(
        shape_error(normalize(3, 3).transform(tensor(4)).unwrap_err()),
        "Failed to broadcast mean array to shape (4, 1, 2)"
    );
    let huge = TransformData::NdArray(Tensor {
        channels: 3,
        height: usize::MAX,
        width: 2,
        values: Vec::new(),
        arithmetic: Vec::new(),
    });
    assert_eq!(
        shape_error(normalize(3, 3).transform(huge).unwrap_err()),
        format!("Failed to broadcast mean array to shape (3, {}, 2)", usize::MAX)
    );
}

#[test]
fn rescale_multiplies() {
    let out = Rescale {
        scale: 0.5f32.to_bits(),
    }
    .transform(PILToNDarray.transform(image(1, 1)).unwrap())
    .unwrap()
    .array()
    .unwrap();
    assert_eq!(numbers(&out), vec![127.5, 0.0, 0.0]);
}

#[test]
fn constants_are_those_of_floating_point() {
    assert_eq!(f32::from_bits(BYTE_SCALE), 1.0 / 255.0);
    assert_eq!(f64::from_bits(DEFAULT_RESCALE_FACTOR), 1.0f64 / 255.0);
    assert_eq!(f64::from_bits(DEFAULT_CROP_PCT), 0.875);
}

#[test]
fn preprocessors_give_their_size_or_say_that_they_cannot() {
    let compose = load_preprocessor(config(
        r#"{
            "do_resize": true, "size": {"shortest_edge": 8},
            "do_center_crop": true, "crop_size": {"width": 6, "height": 10}
        }"#,
    ))
    .unwrap();
    for (width, height) in [(16, 9), (9, 16), (8, 8), (1, 40)] {
        assert!(compose.fits(width, height));
        let out = compose.preprocess_image(red(width, height)).unwrap();
        assert_eq!((out.channels, out.height, out.width), (3, 10, 6));
    }
    // The longer side would become too long.
    assert!(compose.fits(1, 1_000_000));
    assert!(!compose.fits(1, 1_100_000));
    // There is no picture to resize in proportion.
    let deepghs = Compose::from_deepghs_bytes(DEEPGHS.as_bytes()).unwrap();
    assert!(deepghs.fits(8, 4));
    assert!(!deepghs.fits(0, 4));
}

#[test]
fn without_resizing_and_cropping_a_tensor_has_the_size_of_the_picture() {
    let compose = load_preprocessor(config(r#"{"do_rescale": false}"#)).unwrap();
    let out = compose.preprocess_image(red(3, 2)).unwrap();
    assert_eq!((out.channels, out.height, out.width), (3, 2, 3));
    assert!(out.arithmetic.is_empty());
    assert_eq!(at(&out, 0, 1, 2), 255.0);
    let compose = load_preprocessor(config("{}")).unwrap();
    let out = compose.preprocess_image(red(3, 2)).unwrap();
    assert_eq!(at(&out, 0, 1, 2), 255.0 * (1.0f64 / 255.0) as f32);
}

#[test]
fn preprocessors_fail_on_other_than_three_channels() {
    let compose = load_preprocessor(config(
        r#"{"do_normalize": true, "image_mean": [0.5], "image_std": [0.5, 0.5, 0.5]}"#,
    ))
    .unwrap();
    assert_eq!(
        shape_error(compose.preprocess_image(red(3, 2)).unwrap_err()),
        "Failed to reshape mean array: ShapeError/IncompatibleShape: incompatible shapes"
    );
}

#[test]
fn convnext_resizes_by_its_crop_percentage() {
    let small = load_preprocessor(config(
        r#"{"image_processor_type": "ConvNextFeatureExtractor", "size": {"shortest_edge": 224}}"#,
    ))
    .unwrap();
    let out = small.preprocess_image(red(300, 260)).unwrap();
    assert_eq!((out.height, out.width), (224, 224));
    let large = load_preprocessor(config(
        r#"{"image_processor_type": "ConvNextFeatureExtractor", "size": {"shortest_edge": 384}}"#,
    ))
    .unwrap();
    let out = large.preprocess_image(red(30, 20)).unwrap();
    assert_eq!((out.height, out.width), (384, 384));
    assert_eq!(
        config_error(r#"{"image_processor_type": "ConvNextFeatureExtractor", "size": 4}"#),
        "Size dictionary must contain 'shortest_edge' key."
    );
    // 224 / 0.875 is 256, and the crop percentage can be given.
    let seen = std::cell::RefCell::new(Vec::new());
    let resize = |image: Picture, width: u32, height: u32, filter: FilterType| {
        seen.borrow_mut().push((width, height, filter));
        default_resize(image, width, height, filter)
    };
    small.preprocess_image_with_resize(red(10, 20), &resize).unwrap();
    let half = load_preprocessor(config(
        r#"{"image_processor_type": "ConvNextFeatureExtractor", "crop_pct": 0.5,
            "size": {"shortest_edge": 15}}"#,
    ))
    .unwrap();
    half.preprocess_image_with_resize(red(10, 20), &resize).unwrap();
    assert_eq!(
        *seen.borrow(),
        vec![
            (256, 512, FilterType::CatmullRom),
            (30, 60, FilterType::CatmullRom)
        ]
    );
}

#[test]
fn pillow_resizing_is_asked_for_by_the_configuration() {
    let seen = std::cell::RefCell::new(Vec::new());
    let resize = |image: Picture, width: u32, height: u32, filter: FilterType| {
        seen.borrow_mut().push((width, height, filter));
        default_resize(image, width, height, filter)
    };
    for text in [
        r#"{"do_resize": true, "nicegal_pillow_resize": true, "resample": 2,
            "size": {"width": 2, "height": 3}}"#,
        r#"{"do_resize": true, "nicegal_pillow_resize": true, "resample": 3,
            "size": {"width": 2, "height": 3}}"#,
        r#"{"do_resize": true, "nicegal_pillow_resize": true,
            "size": {"shortest_edge": 2}}"#,
        r#"{"do_resize": true, "resample": 2, "size": {"width": 2, "height": 3}}"#,
    ] {
        let compose = load_preprocessor(config(text)).unwrap();
        compose.preprocess_image_with_resize(red(4, 6), &resize).unwrap();
    }
    assert_eq!(
        *seen.borrow(),
        vec![
            (2, 6, FilterType::Triangle),
            (2, 3, FilterType::Triangle),
            (2, 6, FilterType::CatmullRom),
            (2, 3, FilterType::CatmullRom),
            (2, 3, FilterType::CatmullRom),
            (2, 3, FilterType::CatmullRom)
        ]
    );
}

#[test]
fn configurations_can_be_wrong() {
    assert_eq!(
        config_error(r#"{"image_processor_type": "Painter"}"#),
        "Preprocessor Painter is not supported"
    );
    assert_eq!(
        config_error(r#"{"do_resize": true, "size": {"width": 4}}"#),
        "Size must contain either 'shortest_edge' or 'height' and 'width'."
    );
    assert_eq!(
        config_error(r#"{"do_resize": true}"#),
        "Size must contain either 'shortest_edge' or 'height' and 'width'."
    );
    assert_eq!(
        config_error(r#"{"do_center_crop": true, "crop_size": {"width": 4}}"#),
        "crop_size height must be contained"
    );
    assert_eq!(
        config_error(r#"{"do_center_crop": true, "crop_size": {"height": 4}}"#),
        "crop_size width must be contained"
    );
    assert_eq!(
        config_error(r#"{"do_center_crop": true, "crop_size": "large"}"#),
        "Invalid crop size: String(\"large\")"
    );
    assert_eq!(
        config_error(r#"{"do_center_crop": true}"#),
        "Invalid crop size: Null"
    );
    assert_eq!(
        config_error(r#"{"do_center_crop": true, "crop_size": -4}"#),
        "Invalid crop size: Number(-4)"
    );
    assert_eq!(
        config_error(r#"{"do_normalize": true}"#),
        "image_mean must be contained"
    );
    assert_eq!(
        config_error(r#"{"do_normalize": true, "image_mean": [1, "x"]}"#),
        "image_mean must be float"
    );
    assert_eq!(
        config_error(r#"{"do_normalize": true, "image_mean": [1]}"#),
        "image_std must be contained"
    );
    assert_eq!(
        config_error(r#"{"do_normalize": true, "image_mean": [1], "image_std": [null]}"#),
        "image_std must be float"
    );
    let error = Compose::from_bytes(b"{").unwrap_err();
    assert_eq!(
        error.to_string(),
        "Invalid preprocessor configuration: Invalid preprocessor JSON: \
         EOF while parsing an object at line 1 column 1"
    );
    assert!(Compose::from_bytes(b"{}").is_ok());
}

#[test]
fn sizes_are_read_from_their_entries() {
    let size = |text: &str| parse_resize_size(&document(&config(text)));
    assert_eq!(
        size(r#"{"shortest_edge": 7, "width": 1, "height": 2}"#).unwrap(),
        ResizeSize::ShortestEdge(7)
    );
    assert_eq!(
        size(r#"{"width": 1, "height": 2}"#).unwrap(),
        ResizeSize::Exact {
            width: 1,
            height: 2
        }
    );
    assert_eq!(
        size(r#"{"shortest_edge": 4294967299}"#).unwrap(),
        ResizeSize::ShortestEdge(3)
    );
    assert!(size("[]").is_err());
    let crop = |text: &str| parse_crop_size(&document(&config(text)), "it");
    assert_eq!(crop("9").unwrap(), (9, 9));
    assert_eq!(crop(r#"{"width": 1, "height": 2}"#).unwrap(), (1, 2));
    assert_eq!(crop("[]").unwrap_err(), "Invalid crop size: it");
    assert_eq!(crop("1.5").unwrap_err(), "Invalid crop size: it");
    let compose = compose_from(
        &document(&config(r#"{"do_center_crop": true, "crop_size": true}"#)),
        "that",
    );
    assert_eq!(
        compose.unwrap_err().to_string(),
        "Invalid preprocessor configuration: Invalid crop size: that"
    );
}

fn deepghs_error(from: &str, to: &str) -> String {
    let text = DEEPGHS.replace(from, to);
    assert_ne!(text, DEEPGHS);
    match Compose::from_deepghs_bytes(text.as_bytes()) {
        Err(Error::PreprocessorConfig(text)) => text,
        other => panic!("unexpected: {other:?}"),
    }
}

#[test]
fn deepghs_descriptions_can_be_wrong() {
    let unsupported = "unsupported DeepGHS preprocessing stages";
    assert_eq!(deepghs_error("stages", "steps"), "DeepGHS stages are missing");
    for (from, to) in [
        ("convert_rgb", "convert_hsv"),
        ("white", "black"),
        ("\"resize\"", "\"shrink\""),
        ("bicubic", "bilinear"),
        ("true", "false"),
        ("true", "1"),
        ("center_crop", "corner_crop"),
        ("maybe_to_tensor", "to_tensor"),
        ("\"normalize\"", "\"stretch\""),
        ("{\"type\": \"maybe_to_tensor\"},", ""),
    ] {
        assert_eq!(deepghs_error(from, to), unsupported);
    }
    assert_eq!(
        deepghs_error("\"size\": 4, \"max_size\": 4", "\"max_size\": 4"),
        "DeepGHS resize size is missing"
    );
    assert_eq!(
        deepghs_error("\"max_size\": 4", "\"max_size\": -4"),
        "DeepGHS maximum size is missing"
    );
    assert_eq!(
        deepghs_error("\"size\": 4}", "\"size\": \"4\"}"),
        "DeepGHS crop size is missing"
    );
    for (from, to) in [
        ("\"resize\", \"size\": 4", "\"resize\", \"size\": 0"),
        ("\"max_size\": 4", "\"max_size\": 4294967296"),
        ("\"size\": 4}", "\"size\": 0}"),
    ] {
        assert_eq!(deepghs_error(from, to), "DeepGHS image size must be positive");
    }
    assert_eq!(
        deepghs_error("\"mean\": [0.5, 0.5, 0.5]", "\"mean\": 0.5"),
        "DeepGHS mean is missing"
    );
    assert_eq!(
        deepghs_error("\"mean\": [0.5, 0.5, 0.5]", "\"mean\": [0.5, 0.5]"),
        "DeepGHS mean must have three channels"
    );
    assert_eq!(
        deepghs_error("\"std\": [0.5, 0.5, 0.5]", "\"std\": [0.5, 0.5, \"x\"]"),
        "DeepGHS std must be numeric"
    );
    for zero in ["0", "-0.0", "1e-50"] {
        assert_eq!(
            deepghs_error(
                "\"std\": [0.5, 0.5, 0.5]",
                &format!("\"std\": [0.5, {zero}, 0.5]")
            ),
            "DeepGHS standard deviation is zero"
        );
    }
    assert_eq!(
        Compose::from_deepghs_bytes(b"[").unwrap_err().to_string(),
        "Invalid preprocessor configuration: EOF while parsing a list at line 1 column 1"
    );
    assert!(compose_from_stages(&document(&config(DEEPGHS))).is_ok());
}

#[test]
fn stages_know_what_they_can_take() {
    let exact = Stage::Resize(Resize {
        size: ResizeSize::Exact {
            width: 0x80_0001,
            height: 1,
        },
        resample: FilterType::Nearest,
    });
    assert!(!exact.fits(5, 5));
    assert!(exact.fits(0x80_0001, 1));
    assert!(Stage::CenterCrop(CenterCrop { size: (9, 9) }).fits(1, 1));
    assert!(!Stage::CenterCrop(CenterCrop {
        size: (u32::MAX, u32::MAX)
    })
    .fits(1, 1));
    assert!(Stage::ConvertToRGB(ConvertToRGB).fits(7, 7));
    assert!(Stage::ResizePillow(ResizePillow {
        width: 2,
        height: 2,
        filter: FilterType::Nearest
    })
    .fits(7, 7));
}

#[test]
fn pictures_are_sound_if_they_have_their_samples() {
    assert!(red(2, 3).is_sound());
    let missing = Picture::rgb(2, 3, vec![0; 17]);
    assert!(!missing.is_sound());
    let picture = |channels: u8, count: usize| Picture {
        width: 1,
        height: 1,
        channels,
        samples: Samples::Sixteen(vec![0; count]),
    };
    assert!(picture(2, 2).is_sound());
    assert!(!picture(0, 0).is_sound());
    assert!(!picture(5, 5).is_sound());
}

#[test]
fn preprocessors_apply_their_steps_one_after_another() {
    let compose = load_preprocessor(config(
        r#"{
            "do_resize": true, "size": {"width": 4, "height": 2},
            "do_center_crop": true, "crop_size": 3, "rescale_factor": 0.5,
            "do_normalize": true, "image_mean": [1, 2, 3], "image_std": [4, 8, 16]
        }"#,
    ))
    .unwrap();
    let whole = compose.preprocess_image(red(5, 7)).unwrap();
    let data = ConvertToRGB.transform(image(5, 7)).unwrap();
    let data = Resize {
        size: ResizeSize::Exact {
            width: 4,
            height: 2,
        },
        resample: FilterType::CatmullRom,
    }
    .transform(data)
    .unwrap();
    let data = CenterCrop { size: (3, 3) }.transform(data).unwrap();
    let data = PILToNDarray.transform(data).unwrap();
    let data = Rescale {
        scale: 0.5f32.to_bits(),
    }
    .transform(data)
    .unwrap();
    let data = Normalize {
        mean: [1.0f32, 2.0, 3.0].map(f32::to_bits).to_vec(),
        std: [4.0f32, 8.0, 16.0].map(f32::to_bits).to_vec(),
    }
    .transform(data)
    .unwrap();
    let parts = data.array().unwrap();
    assert_eq!((whole.height, whole.width), (3, 3));
    assert_eq!((parts.height, parts.width), (3, 3));
    assert_eq!(numbers(&whole), numbers(&parts));
    assert_eq!(at(&whole, 0, 0, 0), (255.0 * 0.5 - 1.0) / 4.0);
    assert_eq!(at(&whole, 1, 2, 2), (0.0 - 2.0) / 8.0);
}

#[test]
fn preprocessors_convert_to_rgb_first() {
    let compose = load_preprocessor(config(r#"{"do_rescale": false}"#)).unwrap();
    let picture = Picture {
        width: 1,
        height: 1,
        channels: 4,
        samples: Samples::Sixteen(vec![65535, 257, 0, 9]),
    };
    let out = compose.preprocess_image(picture).unwrap();
    assert_eq!(numbers(&out), vec![255.0, 1.0, 0.0]);
}

#[test]
fn any_steps_make_a_preprocessor() {
    let none = Compose::new(vec![]);
    let out = none.transform(image(2, 3)).unwrap().image().unwrap();
    assert_eq!((out.width, out.height), (2, 3));
    assert_eq!(
        none.preprocess_image(red(2, 3)).unwrap_err().to_string(),
        "Image transform error: TransformData convert error"
    );
    // The second step fails, and the third is not applied.
    let failing = Compose::new(vec![
        Stage::ConvertToRGB(ConvertToRGB),
        Stage::Rescale(Rescale { scale: 0 }),
        Stage::Normalize(Normalize {
            mean: vec![],
            std: vec![],
        }),
    ]);
    assert_eq!(
        failing.preprocess_image(red(2, 3)).unwrap_err().to_string(),
        "Image transform error: TransformData convert error"
    );
    let twice = Compose::new(vec![
        Stage::CenterCrop(CenterCrop { size: (2, 2) }),
        Stage::CenterCrop(CenterCrop { size: (1, 1) }),
        Stage::PILToNDarray(PILToNDarray),
        Stage::PILToNDarray(PILToNDarray),
    ]);
    let out = twice.preprocess_image(red(5, 4)).unwrap();
    assert_eq!((out.channels, out.height, out.width), (3, 1, 1));
    assert_eq!(numbers(&out), vec![255.0, 0.0, 0.0]);
}

#[test]
fn resizers_may_give_what_they_like() {
    let compose = Compose::new(vec![
        Stage::Resize(Resize {
            size: ResizeSize::Exact {
                width: u32::MAX,
                height: u32::MAX,
            },
            resample: FilterType::Nearest,
        }),
        Stage::PILToNDarray(PILToNDarray),
    ]);
    let tiny = |_: Picture, _: u32, _: u32, _: FilterType| Ok(red(1, 2));
    let out = compose
        .preprocess_image_with_resize(red(3, 3), &tiny)
        .unwrap();
    assert_eq!((out.height, out.width), (2, 1));
    assert!(!compose.fits(3, 3));
    assert!(compose.fits_any_resizer(3, 3));
    assert!(compose.fits_any_resizer(0, 3));
    let deepghs = Compose::from_deepghs_bytes(DEEPGHS.as_bytes()).unwrap();
    assert!(deepghs.fits_any_resizer(3, 3));
    assert!(!deepghs.fits_any_resizer(0, 3));
    let crop = |side: u32| Stage::CenterCrop(CenterCrop { size: (side, side) });
    assert!(!Compose::new(vec![crop(u32::MAX)]).fits_any_resizer(3, 3));
    let after = |side: u32| {
        let size = ResizeDeepGhs {
            size: 2,
            max_size: 2,
        };
        Compose::new(vec![crop(side), Stage::ResizeDeepGhs(size)]).fits_any_resizer(3, 3)
    };
    assert!(after(2));
    assert!(!after(0));
    let failing = |_: Picture, _: u32, _: u32, _: FilterType| {
        Err::<Picture, Error>(Error::Other("no".to_string()))
    };
    assert_eq!(
        compose
            .preprocess_image_with_resize(red(3, 3), &failing)
            .unwrap_err()
            .to_string(),
        "no"
    );
}

#[test]
fn preprocessors_know_what_they_can_take() {
    let large = || {
        Stage::Resize(Resize {
            size: ResizeSize::Exact {
                width: 0x80_0001,
                height: 1,
            },
            resample: FilterType::Nearest,
        })
    };
    assert!(!Compose::new(vec![large()]).fits(4, 4));
    // What follows a tensor does not resize.
    assert!(Compose::new(vec![Stage::PILToNDarray(PILToNDarray), large()]).fits(4, 4));
    let cropped = Compose::new(vec![Stage::CenterCrop(CenterCrop { size: (3, 3) }), large()]);
    assert!(!cropped.fits(4, 4));
    assert!(cropped.fits(2, 4));
    assert!(Compose::from_deepghs_bytes(DEEPGHS.as_bytes()).unwrap().fits(1, 1));
    let deepghs = Compose::from_deepghs_bytes(DEEPGHS.as_bytes()).unwrap();
    assert!(!deepghs.fits(0, 1));
    // Whatever the aspect ratio, the height is resized to itself first.
    assert!(deepghs.fits(u32::MAX, 1));
    assert!(deepghs.fits(u32::MAX, 0x80_0000));
    assert!(deepghs.fits(1, 0x80_0000));
    assert!(!deepghs.fits(2, 0x80_0001));
}

#[test]
fn long_sides_can_be_resized_to_short_ones() {
    assert!(can_resize(u32::MAX, 1, 0x4_0000, 1));
    assert!(!can_resize(u32::MAX, 1, 0x4_0001, 1));
    assert!(can_resize(0x80_0000, 1, 0x80_0000, 2));
    assert!(!can_resize(0x80_0001, 1, 0x80_0001, 2));
    assert!(can_resize(0x80_0001, 1, 0x80_0001, 1));
    assert!(!can_resize(1, 0x80_0001, 2, 0x80_0001));
    assert!(!can_resize(u32::MAX, u32::MAX, u32::MAX, 0x4_0000));
    let compose = Compose::from_deepghs_bytes(DEEPGHS.as_bytes()).unwrap();
    assert!(compose.fits(0x80_0001, 1));
    let out = compose.preprocess_image(red(0x80_0001, 1)).unwrap();
    assert_eq!((out.channels, out.height, out.width), (3, 4, 4));
    assert!(at(&out, 0, 1, 1) > 0.9);
}

#[test]
fn deepghs_stages_give_square_tensors_for_every_picture() {
    let compose = Compose::from_deepghs_bytes(DEEPGHS.as_bytes()).unwrap();
    let side = compose.preprocess_image(red(4, 4)).unwrap().height;
    for (width, height) in [(1, 1), (1, 50), (50, 1), (7, 3), (4, 4)] {
        let out = compose.preprocess_image(red(width, height)).unwrap();
        assert_eq!((out.channels, out.height, out.width), (3, side, side));
        assert_eq!(out.values.len(), 3 * side * side);
    }
}
