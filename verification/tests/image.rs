use base64::engine::general_purpose;
use base64::Engine;
use image::{DynamicImage, GenericImageView, Rgb32FImage, Rgba, RgbaImage};
use wysiwyl::error::AppError;
use wysiwyl::image_processing::{
    apply_image_adjustments, apply_image_transform, brighten, crop_image,
    deduce_rows, encode_to_base64_png, grid_image, load_image, original_image, plan_adjustments,
    plan_transform, rgba_ipc_response, rotate_image, Adjustment, AdjustmentParams, try_apply_image_adjustments,
    try_apply_image_transform, try_brighten, try_encode_to_base64_png, try_crop_image, try_grid_image, try_load_image, try_rgba_ipc_response,
    ImageState, TransformParams,
};
use wysiwyl::levels::{black_point, is_stretchable, luma_histogram, pixel_luma8, white_point};
use wysiwyl::number::Single;
use wysiwyl::raster::{can_hold, has_exact_buffer, LONGEST_FILTERED_SIDE};

/// An image in which each pixel has its own color.
fn picture(width: u32, height: u32) -> DynamicImage {
    DynamicImage::ImageRgba8(RgbaImage::from_fn(width, height, |x, y| {
        Rgba([x as u8, y as u8, 50, 255])
    }))
}

fn loaded(width: u32, height: u32) -> ImageState {
    ImageState {
        original: Some(picture(width, height)),
        processed: None,
    }
}

fn decoded(base64_png: &str) -> DynamicImage {
    let bytes = general_purpose::STANDARD.decode(base64_png).unwrap();
    image::load_from_memory(&bytes).unwrap()
}

fn single(value: f32) -> Single {
    Single {
        bits: value.to_bits(),
    }
}

fn float_image() -> DynamicImage {
    DynamicImage::ImageRgb32F(Rgb32FImage::new(2, 2))
}

#[test]
fn images_travel_as_base64_png() {
    let image = picture(3, 2);
    let text = encode_to_base64_png(&image).unwrap();
    // every PNG file starts with the same eight bytes
    assert!(text.starts_with("iVBORw0KGg"));
    assert_eq!(decoded(&text), image);
}

#[test]
fn float_images_have_no_png() {
    assert!(matches!(
        encode_to_base64_png(&float_image()),
        Err(AppError::PngEncodingError { .. })
    ));
    let mut state = loaded(3, 2);
    assert!(matches!(
        load_image(&mut state, float_image(), 0),
        Err(AppError::PngEncodingError { .. })
    ));
    assert_eq!(state.original, Some(picture(3, 2)));
    // an edit replaces the original before it is encoded
    assert!(apply_image_transform(&mut state, float_image()).is_err());
    assert_eq!(state.original, Some(float_image()));
    assert_eq!(state.processed, None);
}

#[test]
fn raw_images_have_a_header() {
    let image = DynamicImage::ImageRgba8(RgbaImage::from_pixel(258, 1, Rgba([1, 2, 3, 4])));
    let bytes = rgba_ipc_response(&image);
    assert_eq!(bytes[..8], [2, 1, 0, 0, 1, 0, 0, 0]);
    assert_eq!(bytes.len(), 8 + 4 * 258);
    assert_eq!(bytes[8..12], [1, 2, 3, 4]);
    // gray images are converted
    let gray = DynamicImage::ImageLuma8(image::GrayImage::from_pixel(1, 1, image::Luma([9])));
    assert_eq!(rgba_ipc_response(&gray)[8..], [9, 9, 9, 255]);
}

#[test]
fn loading_installs_the_image() {
    let mut state = ImageState::default();
    let info = load_image(&mut state, picture(6, 4), 0).unwrap();
    assert_eq!((info.orig_width, info.orig_height), (6, 4));
    assert_eq!(decoded(&info.base64_png), picture(6, 4));
    assert_eq!(state.original, Some(picture(6, 4)));
    assert_eq!(state.processed, Some(picture(6, 4)));
    // as large as allowed
    load_image(&mut state, picture(6, 4), 6).unwrap();
    assert_eq!(state.original, Some(picture(6, 4)));
}

#[test]
fn oversized_images_are_downscaled() {
    let mut state = ImageState::default();
    let info = load_image(&mut state, picture(60, 30), 20).unwrap();
    assert_eq!((info.orig_width, info.orig_height), (20, 10));
    assert_eq!(state.original.as_ref().unwrap().dimensions(), (20, 10));
    assert_eq!(state.processed, state.original);
    let info = load_image(&mut state, picture(10, 200), 20).unwrap();
    assert_eq!((info.orig_width, info.orig_height), (1, 20));
}

#[test]
fn quarter_turns_go_clockwise() {
    let mut state = loaded(3, 2);
    let info = rotate_image(&mut state).unwrap();
    assert_eq!((info.orig_width, info.orig_height), (2, 3));
    let turned = state.original.clone().unwrap();
    assert_eq!(state.processed, state.original);
    for x in 0..3 {
        for y in 0..2 {
            assert_eq!(turned.get_pixel(1 - y, x), picture(3, 2).get_pixel(x, y));
        }
    }
    for _ in 0..3 {
        rotate_image(&mut state).unwrap();
    }
    assert_eq!(state.original, Some(picture(3, 2)));
}

#[test]
fn crops_stay_inside_the_image() {
    let mut state = loaded(8, 6);
    let info = crop_image(&mut state, 2, 1, 3, 4).unwrap();
    assert_eq!((info.orig_width, info.orig_height), (3, 4));
    let cropped = state.original.clone().unwrap();
    for x in 0..3 {
        for y in 0..4 {
            assert_eq!(cropped.get_pixel(x, y), picture(8, 6).get_pixel(x + 2, y + 1));
        }
    }
    // too far, and too much
    let mut state = loaded(8, 6);
    let info = crop_image(&mut state, 100, 5, 0, 100).unwrap();
    assert_eq!((info.orig_width, info.orig_height), (1, 1));
    assert_eq!(
        state.original.unwrap().get_pixel(0, 0),
        picture(8, 6).get_pixel(7, 5)
    );
}

#[test]
fn edits_need_an_image() {
    let mut state = ImageState::default();
    assert!(matches!(
        rotate_image(&mut state),
        Err(AppError::NoImageLoaded)
    ));
    assert!(matches!(
        crop_image(&mut state, 0, 0, 1, 1),
        Err(AppError::NoImageLoaded)
    ));
    assert!(matches!(
        apply_image_transform(&mut state, picture(1, 1)),
        Err(AppError::NoImageLoaded)
    ));
    assert!(matches!(
        apply_image_adjustments(&mut state, picture(1, 1)),
        Err(AppError::NoImageLoaded)
    ));
    assert!(matches!(
        grid_image(&state, 4),
        Err(AppError::NoImageLoaded)
    ));
    assert!(matches!(
        original_image(&state),
        Err(AppError::NoImageLoaded)
    ));
    assert_eq!(state.original, None);
    assert_eq!(state.processed, None);
}

#[test]
fn transformed_image_becomes_the_original() {
    let mut state = loaded(8, 6);
    assert_eq!(original_image(&state).unwrap(), &picture(8, 6));
    let info = apply_image_transform(&mut state, picture(5, 5)).unwrap();
    assert_eq!((info.orig_width, info.orig_height), (5, 5));
    assert_eq!(state.original, Some(picture(5, 5)));
    assert_eq!(state.processed, Some(picture(5, 5)));
}

#[test]
fn transform_leaves_out_what_is_zero() {
    let plan = |rotation: f32, v: f32, h: f32| {
        let plan = plan_transform(&TransformParams {
            rotation: single(rotation),
            perspective_v: single(v),
            perspective_h: single(h),
        });
        (plan.rotate, plan.correct_perspective)
    };
    assert_eq!(plan(0.0, 0.0, 0.0), (false, false));
    assert_eq!(plan(-0.0, -0.0, 0.0), (false, false));
    assert_eq!(plan(1.5, 0.0, 0.0), (true, false));
    assert_eq!(plan(0.0, -0.2, 0.0), (false, true));
    assert_eq!(plan(f32::NAN, 0.0, 1e-45), (true, true));
}

fn untouched() -> AdjustmentParams {
    AdjustmentParams {
        grid_width: 16,
        grid_height: None,
        contrast: single(0.0),
        brightness: 0,
        vibrance: single(0.0),
        posterize_levels: None,
        texture: single(0.0),
        clarity: single(0.0),
        simplify: single(0.0),
        auto_levels: false,
    }
}

#[test]
fn adjustments_come_in_their_order() {
    assert_eq!(plan_adjustments(&untouched()), vec![]);
    let all = AdjustmentParams {
        contrast: single(-10.0),
        brightness: -5,
        vibrance: single(30.0),
        posterize_levels: Some(2),
        texture: single(-1.0),
        clarity: single(4.0),
        simplify: single(50.0),
        auto_levels: true,
        ..untouched()
    };
    assert_eq!(
        plan_adjustments(&all),
        vec![
            Adjustment::AutoLevels,
            Adjustment::Simplify(single(50.0)),
            Adjustment::Clarity(single(4.0)),
            Adjustment::Texture(single(-1.0)),
            Adjustment::Vibrance(single(30.0)),
            Adjustment::Contrast(single(-10.0)),
            Adjustment::Brighten(-5),
            Adjustment::Posterize(2),
        ]
    );
    // one level is no posterization, and a negative amount no smoothing
    let idle = AdjustmentParams {
        posterize_levels: Some(1),
        simplify: single(-3.0),
        ..untouched()
    };
    assert_eq!(plan_adjustments(&idle), vec![]);
}

#[test]
fn grid_rows_follow_the_aspect_ratio() {
    assert_eq!(deduce_rows(800, 600, 32), 24);
    assert_eq!(deduce_rows(1000, 1, 10), 1);
    assert_eq!(deduce_rows(4, 3, 2), 2); // one and a half
    assert_eq!(deduce_rows(5, 3, 2), 1); // one and a fifth
    assert_eq!(deduce_rows(1, u32::MAX, 2), u32::MAX);
    for (width, height, columns) in [(801, 333, 64), (7, 9, 13), (1920, 1080, 256), (3, 1, 1)] {
        let rows = ((height as f64) * (columns as f64) / (width as f64))
            .round()
            .max(1.0) as u32;
        assert_eq!(deduce_rows(width, height, columns), rows);
    }
}

#[test]
fn grid_takes_the_nearest_pixels() {
    let state = loaded(8, 4);
    let grid = grid_image(&state, 4).unwrap();
    assert_eq!(grid.dimensions(), (4, 2));
    for x in 0..4 {
        for y in 0..2 {
            let pixel = grid.get_pixel(x, y);
            assert!(pixel[0] as u32 / 2 == x && pixel[1] as u32 / 2 == y);
        }
    }
    assert_eq!(grid_image(&state, 8).unwrap(), picture(8, 4));
    assert_eq!(grid_image(&state, 0).unwrap().dimensions(), (1, 1));
}

#[test]
fn brightening_adds_to_every_color() {
    let image = picture(3, 2);
    let bright = brighten(&image, 10);
    assert_eq!(bright.get_pixel(2, 1), Rgba([12, 11, 60, 255]));
    assert_eq!(
        brighten(&image, -300).get_pixel(2, 1),
        Rgba([0, 0, 0, 255])
    );
    assert_eq!(try_brighten(&image, 10), Some(bright));
    assert_eq!(try_brighten(&image, i32::MAX), None);
    assert_eq!(try_brighten(&float_image(), 1), None);
}

#[test]
fn adjusted_grid_is_what_plays() {
    let mut state = loaded(8, 4);
    let bytes = apply_image_adjustments(&mut state, picture(2, 1)).unwrap();
    assert_eq!(
        bytes,
        vec![2, 0, 0, 0, 1, 0, 0, 0, 0, 0, 50, 255, 1, 0, 50, 255]
    );
    assert_eq!(state.original, Some(picture(8, 4)));
    assert_eq!(state.processed, Some(picture(2, 1)));
}

#[test]
fn buffers_have_a_largest_size() {
    assert!(can_hold(4, 10_000, 10_000));
    assert!(can_hold(16, 0, u32::MAX));
    assert!(!can_hold(16, u32::MAX, u32::MAX));
}

#[test]
fn impossible_sizes_are_told() {
    let mut state = loaded(8, 4);
    assert_eq!(
        try_rgba_ipc_response(&picture(2, 1)).unwrap(),
        rgba_ipc_response(&picture(2, 1))
    );
    assert_eq!(
        try_grid_image(&state, 4).unwrap().unwrap(),
        grid_image(&state, 4).unwrap()
    );
    assert!(try_grid_image(&state, u32::MAX).is_none());
    assert!(try_grid_image(&ImageState::default(), u32::MAX)
        .unwrap()
        .is_err());
    let info = try_crop_image(&mut state, 1, 1, 2, 2).unwrap().unwrap();
    assert_eq!((info.orig_width, info.orig_height), (2, 2));
    let info = try_load_image(&mut state, picture(6, 3), 3).unwrap().unwrap();
    assert_eq!((info.orig_width, info.orig_height), (3, 2));
    let bytes = try_apply_image_adjustments(&mut state, picture(2, 1))
        .unwrap()
        .unwrap();
    assert_eq!(bytes.len(), 16);
    // an image without pixels has nothing to crop
    let mut empty = ImageState {
        original: Some(DynamicImage::ImageRgba8(RgbaImage::new(0, 5))),
        processed: None,
    };
    assert!(try_crop_image(&mut empty, 0, 0, 1, 1).is_none());
    assert!(try_crop_image(&mut ImageState::default(), 0, 0, 1, 1)
        .unwrap()
        .is_err());
}

/// A single pixel in a buffer that has room for two.
fn roomy() -> DynamicImage {
    DynamicImage::ImageRgba8(RgbaImage::from_raw(1, 1, vec![1, 2, 3, 4, 5, 6, 7, 8]).unwrap())
}

#[test]
fn buffers_longer_than_the_pixels_are_told() {
    assert!(has_exact_buffer(&picture(3, 2)));
    assert!(has_exact_buffer(&float_image()));
    assert!(!has_exact_buffer(&roomy()));
    assert_eq!(
        try_encode_to_base64_png(&picture(3, 2)).unwrap().unwrap(),
        encode_to_base64_png(&picture(3, 2)).unwrap()
    );
    assert!(try_encode_to_base64_png(&roomy()).is_none());
    let mut state = loaded(3, 2);
    assert!(try_load_image(&mut state, roomy(), 0).is_none());
    assert!(try_apply_image_transform(&mut state, roomy()).is_none());
    assert_eq!(state.original, Some(picture(3, 2)));
    assert!(try_apply_image_transform(&mut state, picture(2, 2))
        .unwrap()
        .is_ok());
    // a turn and a crop make a buffer of their own
    for edit in [0, 1] {
        let mut state = ImageState {
            original: Some(roomy()),
            processed: None,
        };
        if edit == 0 {
            rotate_image(&mut state).unwrap();
        } else {
            crop_image(&mut state, 0, 0, 1, 1).unwrap();
        }
        let original = state.original.unwrap();
        assert!(has_exact_buffer(&original));
        assert_eq!(original.get_pixel(0, 0), Rgba([1, 2, 3, 4]));
    }
}

#[test]
fn very_long_images_are_not_filtered() {
    let long = DynamicImage::ImageLuma8(image::GrayImage::new(LONGEST_FILTERED_SIDE + 1, 1));
    let mut state = ImageState::default();
    assert!(try_load_image(&mut state, long, LONGEST_FILTERED_SIDE).is_none());
    assert_eq!(state.original, None);
}

#[test]
fn luma_weighs_the_colors() {
    assert_eq!(pixel_luma8(255, 255, 255), 255);
    assert_eq!(pixel_luma8(200, 100, 50), 124);
    assert_eq!(pixel_luma8(0, 0, 255), 29);
}

#[test]
fn histogram_counts_the_levels() {
    let rgba = [7, 7, 7, 255, 9, 9, 9, 0, 7, 7, 7, 1];
    let histogram = luma_histogram(&rgba);
    assert_eq!(histogram.len(), 256);
    assert_eq!((histogram[7], histogram[9]), (2, 1));
    assert_eq!(histogram.iter().sum::<u32>(), 3);
    assert_eq!(black_point(&histogram, 1), 7);
    assert_eq!(black_point(&histogram, 2), 9);
    assert_eq!(white_point(&histogram, 0), 9);
    assert_eq!(white_point(&histogram, 1), 7);
    // more pixels clipped than there are
    assert_eq!(black_point(&histogram, 3), 255);
    assert_eq!(white_point(&histogram, 3), 0);
    assert!(!is_stretchable(10, 26));
    assert!(is_stretchable(10, 27));
    assert!(!is_stretchable(255, 0));
}

/// Stretches the luma of an image between its black and white points.
fn auto_levels(img: &DynamicImage) -> DynamicImage {
    let mut rgba = img.to_rgba8();
    let histogram = luma_histogram(rgba.as_raw());
    let count = rgba.as_raw().len() / 4;
    let clip = (count as f32 * 0.005).ceil() as u32;
    let black = black_point(&histogram, clip);
    let white = white_point(&histogram, clip);
    if !is_stretchable(black, white) {
        return DynamicImage::ImageRgba8(rgba);
    }
    let scale = 255.0 / (white - black) as f32;
    for pixel in rgba.pixels_mut() {
        let luma = pixel_luma8(pixel[0], pixel[1], pixel[2]) as f32;
        let stretched = (luma - black as f32) * scale;
        for channel in 0..3 {
            let v = pixel[channel] as f32;
            pixel[channel] = (stretched + v - luma).clamp(0.0, 255.0) as u8;
        }
    }
    DynamicImage::ImageRgba8(rgba)
}

#[test]
fn auto_levels_stretches_a_narrow_range() {
    // 32x32 grayscale gradient, luma 100..150
    let mut buf = image::RgbaImage::new(32, 32);
    for y in 0..32 {
        for x in 0..32 {
            let v = (100.0 + x as f32 * 50.0 / 31.0) as u8;
            buf.put_pixel(x, y, image::Rgba([v, v, v, 255]));
        }
    }
    let out = auto_levels(&DynamicImage::ImageRgba8(buf)).to_rgba8();

    assert!(out.get_pixel(0, 0)[0] <= 5, "dark end should reach black");
    assert_eq!(out.get_pixel(31, 0)[0], 255, "bright end should reach white");
}

#[test]
fn auto_levels_preserves_channel_ordering() {
    // Two uniform halves: warm dark on the left, warm bright on the right
    let mut buf = image::RgbaImage::new(32, 32);
    for y in 0..32 {
        for x in 0..32 {
            let px = if x < 16 {
                image::Rgba([100, 80, 60, 255])
            } else {
                image::Rgba([150, 130, 110, 255])
            };
            buf.put_pixel(x, y, px);
        }
    }
    let out = auto_levels(&DynamicImage::ImageRgba8(buf)).to_rgba8();

    let left = out.get_pixel(0, 0);
    let right = out.get_pixel(31, 0);
    assert!(
        left[0] > left[1] && left[1] >= left[2],
        "hue must survive the stretch (dark)"
    );
    assert!(
        right[0] > right[1] && right[1] > right[2],
        "hue must survive the stretch (bright)"
    );
    assert_eq!(right[0], 255, "bright half should reach white");
}

#[test]
fn auto_levels_is_a_noop_on_full_range_image() {
    // Alternating black and white columns: nothing to stretch
    let mut buf = image::RgbaImage::new(32, 32);
    for y in 0..32 {
        for x in 0..32 {
            let v = if x % 2 == 0 { 0 } else { 255 };
            buf.put_pixel(x, y, image::Rgba([v, v, v, 255]));
        }
    }
    let src = buf.clone();
    let out = auto_levels(&DynamicImage::ImageRgba8(buf)).to_rgba8();
    for y in 0..32 {
        for x in 0..32 {
            assert_eq!(
                out.get_pixel(x, y),
                src.get_pixel(x, y),
                "must stay untouched"
            );
        }
    }
}
