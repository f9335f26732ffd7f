//! The loaded image: what is kept of it, and how the grid that the
//! synthesizers read is made from it.

use image::DynamicImage;
use vstd::prelude::*;

use crate::error::AppError;
use crate::number::Single;
use crate::raster;

verus! {

/// The image as loaded, and the grid that the synthesizers read.
pub struct ImageState {
    pub original: Option<DynamicImage>,
    pub processed: Option<DynamicImage>,
}

impl Default for ImageState {
    fn default() -> (state: Self)
        ensures
            state.original is None,
            state.processed is None,
    {
        ImageState { original: None, processed: None }
    }
}

/// What the frontend is told of a loaded image.
pub struct LoadedImageInfo {
    pub base64_png: String,
    pub orig_width: u32,
    pub orig_height: u32,
}

/// The text in which an image travels to the frontend: its PNG file in
/// base64; `None` where it cannot be encoded.
pub open spec fn png_text(image: DynamicImage) -> Option<Seq<char>> {
    match raster::image_png(image) {
        Some(bytes) => Some(raster::base64_text(bytes)),
        None => None,
    }
}

/// True when a text is base64 and every image that its bytes decode to shows
/// the same pixels as the given one, and has the same text again; an image
/// whose buffer is not too long for the decoder does come back.
pub open spec fn carries(text: Seq<char>, image: DynamicImage) -> bool {
    &&& raster::base64_bytes(text) is Some
    &&& raster::buffer_length(image) <= raster::LONGEST_DECODED_BUFFER ==> !raster::refuses(
        raster::base64_bytes(text)->0,
    )
    &&& forall|decoded: DynamicImage| #[trigger]
        raster::decodes_to(raster::base64_bytes(text)->0, decoded) ==> {
            &&& raster::same_picture(decoded, image)
            &&& raster::exact_buffer(decoded)
            &&& png_text(decoded) == Some(text)
        }
}

/// True when an image has been encoded, or has no PNG file.
pub open spec fn is_encoded(image: DynamicImage, text: Result<String, AppError>) -> bool {
    match text {
        Ok(text) => png_text(image) == Some(text@) && carries(text@, image),
        Err(AppError::PngEncodingError { .. }) => png_text(image) is None,
        Err(_) => false,
    }
}

/// Encodes an image for the frontend.
pub fn encode_to_base64_png(image: &DynamicImage) -> (text: Result<String, AppError>)
    requires
        raster::exact_buffer(*image),
    ensures
        is_encoded(*image, text),
{
    match raster::png_bytes(image) {
        Ok(bytes) => Ok(raster::encode_base64(bytes.as_slice())),
        Err(error) => Err(
            AppError::PngEncodingError { details: raster::image_error_text(&error) },
        ),
    }
}

/// Encodes an image as `encode_to_base64_png` does; `None` when its buffer is
/// longer than its pixels.
pub fn try_encode_to_base64_png(image: &DynamicImage) -> (text: Option<Result<String, AppError>>)
    ensures
        match text {
            Some(text) => raster::exact_buffer(*image) && is_encoded(*image, text),
            None => !raster::exact_buffer(*image),
        },
{
    if raster::has_exact_buffer(image) {
        Some(encode_to_base64_png(image))
    } else {
        None
    }
}

/// True of what the frontend is told of an image.
pub open spec fn is_info(info: LoadedImageInfo, image: DynamicImage) -> bool {
    &&& png_text(image) == Some(info.base64_png@)
    &&& carries(info.base64_png@, image)
    &&& (info.orig_width, info.orig_height) == raster::image_size(image)
}

fn describe(image: &DynamicImage) -> (info: Result<LoadedImageInfo, AppError>)
    requires
        raster::exact_buffer(*image),
    ensures
        match info {
            Ok(info) => is_info(info, *image),
            Err(AppError::PngEncodingError { .. }) => png_text(*image) is None,
            Err(_) => false,
        },
{
    let (orig_width, orig_height) = raster::image_dimensions(image);
    match encode_to_base64_png(image) {
        Ok(base64_png) => Ok(LoadedImageInfo { base64_png, orig_width, orig_height }),
        Err(error) => Err(error),
    }
}

/// The four bytes of a number, the lowest first.
pub open spec fn little_endian(number: u32) -> Seq<u8> {
    seq![
        (number % 256) as u8,
        (number / 256 % 256) as u8,
        (number / 65536 % 256) as u8,
        (number / 16777216) as u8,
    ]
}

fn push_little_endian(bytes: &mut Vec<u8>, number: u32)
    ensures
        final(bytes)@ == old(bytes)@ + little_endian(number),
{
    bytes.push((number % 256) as u8);
    bytes.push((number / 256 % 256) as u8);
    bytes.push((number / 65536 % 256) as u8);
    bytes.push((number / 16777216) as u8);
    assert(bytes@ =~= old(bytes)@ + little_endian(number));
}

/// The raw format of an image: width and height, then the RGBA bytes.
pub open spec fn raw_image(image: DynamicImage) -> Seq<u8> {
    little_endian(raster::image_size(image).0) + little_endian(raster::image_size(image).1)
        + raster::image_rgba(image)
}

/// True when a raw image has its full length: the header, and four bytes for
/// each pixel.
pub open spec fn has_full_length(bytes: Seq<u8>, image: DynamicImage) -> bool {
    bytes.len() == 8 + 4 * (raster::image_size(image).0 * raster::image_size(image).1)
}

/// True when the RGBA bytes of an image fit into a vector.
pub open spec fn rgba_fits(image: DynamicImage) -> bool {
    raster::buffer_fits(
        4,
        raster::image_size(image).0 as int,
        raster::image_size(image).1 as int,
    )
}

/// Packs an image into the raw IPC format consumed by the frontend: an 8-byte
/// header (width and height as little-endian u32) followed by the flat RGBA
/// bytes. Transferred as binary (no PNG encoding, no base64, no JSON), then
/// painted directly on a canvas.
pub fn rgba_ipc_response(image: &DynamicImage) -> (bytes: Vec<u8>)
    requires
        rgba_fits(*image),
    ensures
        bytes@ == raw_image(*image),
        raster::exact_buffer(*image) ==> has_full_length(bytes@, *image),
{
    let mut rgba: Vec<u8> = raster::rgba_bytes(image);
    let (width, height) = raster::image_dimensions(image);
    let mut bytes: Vec<u8> = Vec::new();
    push_little_endian(&mut bytes, width);
    push_little_endian(&mut bytes, height);
    bytes.append(&mut rgba);
    assert(bytes@ =~= raw_image(*image));
    bytes
}

/// Packs an image as `rgba_ipc_response` does; `None` when its bytes do not
/// fit into a vector.
pub fn try_rgba_ipc_response(image: &DynamicImage) -> (bytes: Option<Vec<u8>>)
    ensures
        match bytes {
            Some(bytes) => {
                &&& rgba_fits(*image)
                &&& bytes@ == raw_image(*image)
                &&& raster::exact_buffer(*image) ==> has_full_length(bytes@, *image)
            },
            None => !rgba_fits(*image),
        },
{
    let (width, height) = raster::image_dimensions(image);
    if raster::can_hold(4, width, height) {
        Some(rgba_ipc_response(image))
    } else {
        None
    }
}

/// True when an imported image is larger than allowed (0 = unlimited).
pub open spec fn oversized(image: DynamicImage, max_size: u32) -> bool {
    max_size > 0 && (raster::image_size(image).0 > max_size || raster::image_size(image).1
        > max_size)
}

/// True when an image can be imported: its buffer holds nothing but its
/// pixels, and an oversized one can be downscaled, its sides no longer than
/// the filter places exactly and the buffers no larger than a vector can be.
pub open spec fn import_fits(image: DynamicImage, max_size: u32) -> bool {
    let (width, height) = raster::image_size(image);
    &&& raster::exact_buffer(image)
    &&& oversized(image, max_size) ==> {
        &&& width <= raster::LONGEST_FILTERED_SIDE
        &&& height <= raster::LONGEST_FILTERED_SIDE
        &&& raster::buffer_fits(16, width as int, max_size as int)
        &&& raster::buffer_fits(16, max_size as int, max_size as int)
    }
}

/// True when an opened image has been installed, downscaled where it was
/// oversized, or refused because it cannot be encoded.
pub open spec fn is_imported(
    before: ImageState,
    after: ImageState,
    image: DynamicImage,
    max_size: u32,
    result: Result<LoadedImageInfo, AppError>,
) -> bool {
    match result {
        Ok(info) => {
            &&& after.original is Some
            &&& after.processed == after.original
            &&& is_info(info, after.original->0)
            &&& raster::exact_buffer(after.original->0)
            &&& !oversized(after.original->0, max_size)
            &&& if oversized(image, max_size) {
                raster::fits_from(image, max_size, max_size, after.original->0)
            } else {
                after.original == Some(image)
            }
        },
        Err(AppError::PngEncodingError { .. }) => {
            &&& after == before
            &&& if oversized(image, max_size) {
                exists|resized: DynamicImage| #[trigger]
                    raster::fits_from(image, max_size, max_size, resized) && png_text(
                        resized,
                    ) is None
            } else {
                png_text(image) is None
            }
        },
        Err(_) => false,
    }
}

/// Installs an opened image as the original. Oversized originals are
/// downscaled so the app stays responsive.
pub fn load_image(state: &mut ImageState, image: DynamicImage, max_size: u32) -> (result: Result<
    LoadedImageInfo,
    AppError,
>)
    requires
        import_fits(image, max_size),
    ensures
        is_imported(*old(state), *final(state), image, max_size, result),
{
    let (width, height) = raster::image_dimensions(&image);
    let image: DynamicImage = if max_size > 0 && (width > max_size || height > max_size) {
        raster::resize_to_fit(&image, max_size, max_size)
    } else {
        image
    };
    match describe(&image) {
        Ok(info) => {
            state.original = Some(raster::copy_image(&image));
            state.processed = Some(image);
            Ok(info)
        },
        Err(error) => Err(error),
    }
}

/// Installs an opened image as `load_image` does; `None`, with nothing
/// changed, when it cannot be imported.
pub fn try_load_image(state: &mut ImageState, image: DynamicImage, max_size: u32) -> (result:
    Option<Result<LoadedImageInfo, AppError>>)
    ensures
        match result {
            Some(result) => import_fits(image, max_size) && is_imported(
                *old(state),
                *final(state),
                image,
                max_size,
                result,
            ),
            None => !import_fits(image, max_size) && *final(state) == *old(state),
        },
{
    let (width, height) = raster::image_dimensions(&image);
    let oversized: bool = max_size > 0 && (width > max_size || height > max_size);
    let filtered: bool = width <= raster::LONGEST_FILTERED_SIDE && height
        <= raster::LONGEST_FILTERED_SIDE && raster::can_hold(16, width, max_size)
        && raster::can_hold(16, max_size, max_size);
    if !raster::has_exact_buffer(&image) || (oversized && !filtered) {
        None
    } else {
        Some(load_image(state, image, max_size))
    }
}

/// True when an edit of the original has been carried out: `edited` is the
/// new original, and the processed image too once it could be encoded.
pub open spec fn installed(
    before: ImageState,
    after: ImageState,
    edited: DynamicImage,
    result: Result<LoadedImageInfo, AppError>,
) -> bool {
    &&& after.original == Some(edited)
    &&& raster::exact_buffer(edited)
    &&& match result {
        Ok(info) => after.processed == Some(edited) && is_info(info, edited),
        Err(AppError::PngEncodingError { .. }) => after.processed == before.processed && png_text(
            edited,
        ) is None,
        Err(_) => false,
    }
}

/// True when an edit has been refused for want of an image.
pub open spec fn refused(
    before: ImageState,
    after: ImageState,
    result: Result<LoadedImageInfo, AppError>,
) -> bool {
    before.original is None && after == before && result == Err::<LoadedImageInfo, AppError>(
        AppError::NoImageLoaded,
    )
}

fn install(state: &mut ImageState, edited: DynamicImage) -> (result: Result<
    LoadedImageInfo,
    AppError,
>)
    requires
        raster::exact_buffer(edited),
    ensures
        installed(*old(state), *final(state), edited, result),
{
    let info = describe(&edited);
    state.original = Some(raster::copy_image(&edited));
    match info {
        Ok(info) => {
            state.processed = Some(edited);
            Ok(info)
        },
        Err(error) => Err(error),
    }
}

/// The part of an image of the given size that a crop keeps: left, top, width
/// and height, brought into the image.
pub open spec fn crop_box(size: (u32, u32), x: u32, y: u32, width: u32, height: u32) -> (
    u32,
    u32,
    u32,
    u32,
) {
    let left = if x < size.0 {
        x as int
    } else {
        size.0 - 1
    };
    let top = if y < size.1 {
        y as int
    } else {
        size.1 - 1
    };
    (
        left as u32,
        top as u32,
        within(width as int, size.0 - left) as u32,
        within(height as int, size.1 - top) as u32,
    )
}

/// A number brought into 1..=high.
pub open spec fn within(number: int, high: int) -> int {
    if number < 1 {
        1
    } else if number > high {
        high
    } else {
        number
    }
}

fn bring_within(number: u32, high: u32) -> (result: u32)
    requires
        high >= 1,
    ensures
        result == within(number as int, high as int),
{
    if number < 1 {
        1
    } else if number > high {
        high
    } else {
        number
    }
}

fn kept_box(columns: u32, rows: u32, x: u32, y: u32, width: u32, height: u32) -> (kept: (
    u32,
    u32,
    u32,
    u32,
))
    requires
        columns > 0,
        rows > 0,
    ensures
        kept == crop_box((columns, rows), x, y, width, height),
        kept.0 + kept.2 <= columns,
        kept.1 + kept.3 <= rows,
{
    let left: u32 = if x < columns {
        x
    } else {
        columns - 1
    };
    let top: u32 = if y < rows {
        y
    } else {
        rows - 1
    };
    (left, top, bring_within(width, columns - left), bring_within(height, rows - top))
}

/// True when an image is the part of another one inside a box.
pub open spec fn is_part(
    part: DynamicImage,
    whole: DynamicImage,
    kept: (u32, u32, u32, u32),
) -> bool {
    &&& raster::image_size(part) == (kept.2, kept.3)
    &&& forall|column: int, row: int|
        0 <= column < kept.2 && 0 <= row < kept.3 ==> #[trigger] raster::pixel_spec(
            part,
            column,
            row,
        ) == raster::pixel_spec(whole, kept.0 + column, kept.1 + row)
}

/// True when there is something to crop, and its bytes fit into a vector.
pub open spec fn can_be_cropped(
    state: ImageState,
    x: u32,
    y: u32,
    width: u32,
    height: u32,
) -> bool {
    state.original matches Some(image) ==> {
        let size = raster::image_size(image);
        let kept = crop_box(size, x, y, width, height);
        &&& size.0 > 0
        &&& size.1 > 0
        &&& raster::buffer_fits(4, kept.2 as int, kept.3 as int)
    }
}

/// True when a crop has been carried out, or refused for want of an image.
pub open spec fn is_cropped(
    before: ImageState,
    after: ImageState,
    x: u32,
    y: u32,
    width: u32,
    height: u32,
    result: Result<LoadedImageInfo, AppError>,
) -> bool {
    match before.original {
        Some(image) => {
            let kept = crop_box(raster::image_size(image), x, y, width, height);
            &&& after.original is Some
            &&& is_part(after.original->0, image, kept)
            &&& installed(before, after, after.original->0, result)
        },
        None => refused(before, after, result),
    }
}

/// Crops the stored original image in place, in original pixel coordinates.
pub fn crop_image(state: &mut ImageState, x: u32, y: u32, width: u32, height: u32) -> (result: Result<
    LoadedImageInfo,
    AppError,
>)
    requires
        can_be_cropped(*old(state), x, y, width, height),
    ensures
        is_cropped(*old(state), *final(state), x, y, width, height, result),
{
    let cropped: DynamicImage = match &state.original {
        Some(original) => {
            let (columns, rows) = raster::image_dimensions(original);
            let (x, y, width, height) = kept_box(columns, rows, x, y, width, height);
            raster::crop_imm(original, x, y, width, height)
        },
        None => return Err(AppError::NoImageLoaded),
    };
    install(state, cropped)
}

/// Crops the stored original as `crop_image` does; `None`, with nothing
/// changed, when it has no pixels or the part that is kept is too large.
pub fn try_crop_image(state: &mut ImageState, x: u32, y: u32, width: u32, height: u32) -> (result:
    Option<Result<LoadedImageInfo, AppError>>)
    ensures
        match result {
            Some(result) => can_be_cropped(*old(state), x, y, width, height) && is_cropped(
                *old(state),
                *final(state),
                x,
                y,
                width,
                height,
                result,
            ),
            None => !can_be_cropped(*old(state), x, y, width, height) && *final(state) == *old(
                state,
            ),
        },
{
    if let Some(original) = &state.original {
        let (columns, rows) = raster::image_dimensions(original);
        if columns == 0 || rows == 0 {
            return None;
        }
        let (_, _, width, height) = kept_box(columns, rows, x, y, width, height);
        if !raster::can_hold(4, width, height) {
            return None;
        }
    }
    Some(crop_image(state, x, y, width, height))
}

/// True when an image is another one turned clockwise by 90 degrees: the
/// pixel in column `x`, row `y` comes to the column counted from the right by
/// `y`, row `x`.
pub open spec fn is_turned(turned: DynamicImage, image: DynamicImage) -> bool {
    let (width, height) = raster::image_size(image);
    &&& turned == raster::rotated_image(image)
    &&& raster::image_size(turned) == (height, width)
    &&& forall|x: int, y: int|
        0 <= x < width && 0 <= y < height ==> raster::pixel_spec(turned, height - 1 - y, x)
            == #[trigger] raster::pixel_spec(image, x, y)
}

/// Rotates the loaded original image by 90° clockwise, in place: the stored
/// original becomes the rotated image, so subsequent adjustments (and the
/// grid deduced from its ratio) apply to the rotated version.
pub fn rotate_image(state: &mut ImageState) -> (result: Result<LoadedImageInfo, AppError>)
    ensures
        match old(state).original {
            Some(image) => {
                &&& final(state).original is Some
                &&& is_turned(final(state).original->0, image)
                &&& installed(*old(state), *final(state), final(state).original->0, result)
            },
            None => refused(*old(state), *final(state), result),
        },
{
    let rotated: DynamicImage = match &state.original {
        Some(original) => raster::rotate90(original),
        None => return Err(AppError::NoImageLoaded),
    };
    install(state, rotated)
}

/// The fine transform of an image.
#[derive(Clone, Copy, Debug, PartialEq, Eq, Structural)]
pub struct TransformParams {
    /// Fine rotation in degrees (positive = clockwise).
    pub rotation: Single,
    /// Vertical keystone, fraction of the width, in (-1, 1).
    pub perspective_v: Single,
    /// Horizontal keystone, fraction of the height, in (-1, 1).
    pub perspective_h: Single,
}

/// The steps of a transform: a fine rotation first (canvas expanded,
/// transparent corners), then keystone extraction.
#[derive(Clone, Copy, Debug, PartialEq, Eq, Structural)]
pub struct TransformPlan {
    pub rotate: bool,
    pub correct_perspective: bool,
}

/// True when a transform turns the image.
pub open spec fn turns(params: TransformParams) -> bool {
    !params.rotation.is_zero()
}

/// True when a transform straightens the image.
pub open spec fn straightens(params: TransformParams) -> bool {
    !params.perspective_v.is_zero() || !params.perspective_h.is_zero()
}

/// Picks the steps of a transform; one whose amounts are zero is left out.
pub fn plan_transform(params: &TransformParams) -> (plan: TransformPlan)
    ensures
        plan.rotate == turns(*params),
        plan.correct_perspective == straightens(*params),
        plan.rotate == !params.rotation.is_zero(),
        plan.correct_perspective == !(params.perspective_v.is_zero()
            && params.perspective_h.is_zero()),
{
    TransformPlan {
        rotate: !params.rotation.is_zero(),
        correct_perspective: !params.perspective_v.is_zero() || !params.perspective_h.is_zero(),
    }
}

/// The stored original image.
pub fn original_image(state: &ImageState) -> (image: Result<&DynamicImage, AppError>)
    ensures
        match (state.original, image) {
            (Some(original), Ok(image)) => *image == original,
            (None, Err(AppError::NoImageLoaded)) => true,
            _ => false,
        },
{
    match &state.original {
        Some(image) => Ok(image),
        None => Err(AppError::NoImageLoaded),
    }
}

/// True when the transformed image has taken the place of the stored
/// original, or has been refused for want of one.
pub open spec fn is_transformed(
    before: ImageState,
    after: ImageState,
    transformed: DynamicImage,
    result: Result<LoadedImageInfo, AppError>,
) -> bool {
    if before.original is Some {
        installed(before, after, transformed, result)
    } else {
        refused(before, after, result)
    }
}

/// Puts the transformed image in the place of the stored original.
pub fn apply_image_transform(state: &mut ImageState, transformed: DynamicImage) -> (result: Result<
    LoadedImageInfo,
    AppError,
>)
    requires
        raster::exact_buffer(transformed),
    ensures
        is_transformed(*old(state), *final(state), transformed, result),
{
    if state.original.is_none() {
        return Err(AppError::NoImageLoaded);
    }
    install(state, transformed)
}

/// Installs a transformed image as `apply_image_transform` does; `None`, with
/// nothing changed, when its buffer is longer than its pixels.
pub fn try_apply_image_transform(state: &mut ImageState, transformed: DynamicImage) -> (result:
    Option<Result<LoadedImageInfo, AppError>>)
    ensures
        match result {
            Some(result) => raster::exact_buffer(transformed) && is_transformed(
                *old(state),
                *final(state),
                transformed,
                result,
            ),
            None => !raster::exact_buffer(transformed) && *final(state) == *old(state),
        },
{
    if raster::has_exact_buffer(&transformed) {
        Some(apply_image_transform(state, transformed))
    } else {
        None
    }
}

/// The settings of the image processing.
#[derive(Clone, Copy, Debug, PartialEq, Eq, Structural)]
pub struct AdjustmentParams {
    pub grid_width: u32,
    /// Always None for now: the ratio is deduced.
    pub grid_height: Option<u32>,
    pub contrast: Single,
    pub brightness: i32,
    pub vibrance: Single,
    pub posterize_levels: Option<u8>,
    pub texture: Single,
    pub clarity: Single,
    pub simplify: Single,
    pub auto_levels: bool,
}

/// One step of the image processing.
#[derive(Clone, Copy, Debug, PartialEq, Eq, Structural)]
pub enum Adjustment {
    AutoLevels,
    Simplify(Single),
    Clarity(Single),
    Texture(Single),
    Vibrance(Single),
    Contrast(Single),
    Brighten(i32),
    Posterize(u8),
}

/// A step, if it is asked for.
pub open spec fn step_if(wanted: bool, step: Adjustment) -> Seq<Adjustment> {
    if wanted {
        seq![step]
    } else {
        Seq::empty()
    }
}

/// The steps of the image processing in their order: the pattern adjustments
/// first, which act on the very pixels the synthesizers read, then the value
/// adjustments. A step with nothing to do is left out.
pub open spec fn adjustment_steps(params: AdjustmentParams) -> Seq<Adjustment> {
    step_if(params.auto_levels, Adjustment::AutoLevels) + step_if(
        params.simplify.is_positive(),
        Adjustment::Simplify(params.simplify),
    ) + step_if(!params.clarity.is_zero(), Adjustment::Clarity(params.clarity)) + step_if(
        !params.texture.is_zero(),
        Adjustment::Texture(params.texture),
    ) + step_if(!params.vibrance.is_zero(), Adjustment::Vibrance(params.vibrance)) + step_if(
        !params.contrast.is_zero(),
        Adjustment::Contrast(params.contrast),
    ) + step_if(params.brightness != 0, Adjustment::Brighten(params.brightness)) + (
    match params.posterize_levels {
        Some(levels) => step_if(levels >= 2, Adjustment::Posterize(levels)),
        None => Seq::empty(),
    })
}

fn add_step(steps: &mut Vec<Adjustment>, wanted: bool, step: Adjustment)
    ensures
        final(steps)@ == old(steps)@ + step_if(wanted, step),
{
    if wanted {
        steps.push(step);
    }
    assert(steps@ =~= old(steps)@ + step_if(wanted, step));
}

/// Plans the image processing.
pub fn plan_adjustments(params: &AdjustmentParams) -> (steps: Vec<Adjustment>)
    ensures
        steps@ == adjustment_steps(*params),
{
    let mut steps: Vec<Adjustment> = Vec::new();
    add_step(&mut steps, params.auto_levels, Adjustment::AutoLevels);
    assert(steps@ =~= step_if(params.auto_levels, Adjustment::AutoLevels));
    add_step(&mut steps, params.simplify.is_positive(), Adjustment::Simplify(params.simplify));
    add_step(&mut steps, !params.clarity.is_zero(), Adjustment::Clarity(params.clarity));
    add_step(&mut steps, !params.texture.is_zero(), Adjustment::Texture(params.texture));
    add_step(&mut steps, !params.vibrance.is_zero(), Adjustment::Vibrance(params.vibrance));
    add_step(&mut steps, !params.contrast.is_zero(), Adjustment::Contrast(params.contrast));
    add_step(&mut steps, params.brightness != 0, Adjustment::Brighten(params.brightness));
    match params.posterize_levels {
        Some(levels) => add_step(&mut steps, levels >= 2, Adjustment::Posterize(levels)),
        None => {
            assert(steps@ + Seq::<Adjustment>::empty() =~= steps@);
        },
    }
    steps
}

/// The columns of the grid: at least one.
pub open spec fn grid_columns(grid_width: u32) -> u32 {
    if grid_width < 1 {
        1
    } else {
        grid_width
    }
}

/// The rows of the grid: the number nearest to the one that keeps the aspect
/// ratio of the original, halves upward; at least one, and no more than can
/// be counted.
pub open spec fn grid_rows(size: (u32, u32), columns: u32) -> u32 {
    let (width, height) = size;
    if width == 0 {
        if height == 0 {
            1
        } else {
            u32::MAX
        }
    } else {
        within(
            (2 * (height * columns) + width) / (2 * width as int),
            u32::MAX as int,
        ) as u32
    }
}

/// Deduces the rows of the grid from the aspect ratio of the original.
pub fn deduce_rows(width: u32, height: u32, columns: u32) -> (rows: u32)
    ensures
        rows == grid_rows((width, height), columns),
        rows >= 1,
{
    if width == 0 {
        return if height == 0 {
            1
        } else {
            u32::MAX
        };
    }
    assert(0 <= height * columns <= 0xffff_ffff * 0xffff_ffff) by (nonlinear_arith)
        requires
            0 <= height <= 0xffff_ffff,
            0 <= columns <= 0xffff_ffff,
    ;
    let rows: u128 = (2 * (height as u128 * columns as u128) + width as u128) / (2
        * width as u128);
    if rows < 1 {
        1
    } else if rows > u32::MAX as u128 {
        u32::MAX
    } else {
        rows as u32
    }
}

/// True when the buffers for the grid are no larger than a vector can be.
pub open spec fn grid_fits(image: DynamicImage, grid_width: u32) -> bool {
    let size = raster::image_size(image);
    let columns = grid_columns(grid_width);
    let rows = grid_rows(size, columns) as int;
    raster::buffer_fits(16, size.0 as int, rows) && raster::buffer_fits(16, columns as int, rows)
}

/// True of the grid that is made of the stored original.
pub open spec fn is_grid(
    grid: Result<DynamicImage, AppError>,
    state: ImageState,
    grid_width: u32,
) -> bool {
    match (state.original, grid) {
        (Some(image), Ok(grid)) => {
            let columns = grid_columns(grid_width);
            let rows = grid_rows(raster::image_size(image), columns);
            &&& grid == raster::nearest_image(image, columns, rows)
            &&& raster::image_size(grid) == (columns, rows)
            &&& raster::exact_buffer(grid)
        },
        (None, Err(AppError::NoImageLoaded)) => true,
        _ => false,
    }
}

/// The actual downsampling: `grid_width` becomes the number of columns and
/// notes. The ratio is always deduced from the original image (no independent
/// grid height).
pub fn grid_image(state: &ImageState, grid_width: u32) -> (grid: Result<DynamicImage, AppError>)
    requires
        state.original matches Some(image) ==> grid_fits(image, grid_width),
    ensures
        is_grid(grid, *state, grid_width),
{
    match &state.original {
        Some(original) => {
            let (width, height) = raster::image_dimensions(original);
            let columns: u32 = if grid_width < 1 {
                1
            } else {
                grid_width
            };
            let rows: u32 = deduce_rows(width, height, columns);
            Ok(raster::resize_nearest(original, columns, rows))
        },
        None => Err(AppError::NoImageLoaded),
    }
}

/// Makes the grid as `grid_image` does; `None` when the buffers for it are
/// too large.
pub fn try_grid_image(state: &ImageState, grid_width: u32) -> (grid: Option<
    Result<DynamicImage, AppError>,
>)
    ensures
        match grid {
            Some(grid) => {
                &&& is_grid(grid, *state, grid_width)
                &&& state.original matches Some(image) ==> grid_fits(image, grid_width)
            },
            None => state.original matches Some(image) && !grid_fits(image, grid_width),
        },
{
    if let Some(original) = &state.original {
        let (width, height) = raster::image_dimensions(original);
        let columns: u32 = if grid_width < 1 {
            1
        } else {
            grid_width
        };
        let rows: u32 = deduce_rows(width, height, columns);
        if !raster::can_hold(16, width, rows) || !raster::can_hold(16, columns, rows) {
            return None;
        }
    }
    Some(grid_image(state, grid_width))
}

/// True when an image can be brightened by a value: every sum has to fit into
/// 32 bits.
pub open spec fn can_be_brightened(image: DynamicImage, value: i32) -> bool {
    value + 65535 <= i32::MAX && !raster::has_float_samples(image)
}

/// Brightens (or, for a negative value, darkens) the pixels of an image.
pub fn brighten(image: &DynamicImage, value: i32) -> (brightened: DynamicImage)
    requires
        can_be_brightened(*image, value),
    ensures
        brightened == raster::brightened_image(*image, value),
        raster::image_size(brightened) == raster::image_size(*image),
        raster::exact_buffer(brightened),
{
    raster::brighten(image, value)
}

/// Brightens as `brighten` does; `None` where it cannot be done.
pub fn try_brighten(image: &DynamicImage, value: i32) -> (brightened: Option<DynamicImage>)
    ensures
        match brightened {
            Some(brightened) => {
                &&& can_be_brightened(*image, value)
                &&& brightened == raster::brightened_image(*image, value)
                &&& raster::image_size(brightened) == raster::image_size(*image)
                &&& raster::exact_buffer(brightened)
            },
            None => !can_be_brightened(*image, value),
        },
{
    if value <= i32::MAX - 65535 && !raster::float_samples(image) {
        Some(brighten(image, value))
    } else {
        None
    }
}

/// True when the adjusted grid has become the one that the synthesizers read,
/// or has been refused for want of an image.
pub open spec fn is_adjusted(
    before: ImageState,
    after: ImageState,
    adjusted: DynamicImage,
    response: Result<Vec<u8>, AppError>,
) -> bool {
    match (before.original, response) {
        (Some(_), Ok(bytes)) => {
            &&& bytes@ == raw_image(adjusted)
            &&& raster::exact_buffer(adjusted) ==> has_full_length(bytes@, adjusted)
            &&& after == (ImageState { processed: Some(adjusted), ..before })
        },
        (None, Err(AppError::NoImageLoaded)) => after == before,
        _ => false,
    }
}

/// Makes the adjusted grid the one that the synthesizers read, and packs it
/// for the frontend.
pub fn apply_image_adjustments(state: &mut ImageState, adjusted: DynamicImage) -> (response: Result<
    Vec<u8>,
    AppError,
>)
    requires
        rgba_fits(adjusted),
    ensures
        is_adjusted(*old(state), *final(state), adjusted, response),
{
    if state.original.is_none() {
        return Err(AppError::NoImageLoaded);
    }
    let response = rgba_ipc_response(&adjusted);
    state.processed = Some(adjusted);
    Ok(response)
}

/// Installs an adjusted grid as `apply_image_adjustments` does; `None`, with
/// nothing changed, when its bytes do not fit into a vector.
pub fn try_apply_image_adjustments(state: &mut ImageState, adjusted: DynamicImage) -> (response:
    Option<Result<Vec<u8>, AppError>>)
    ensures
        match response {
            Some(response) => rgba_fits(adjusted) && is_adjusted(
                *old(state),
                *final(state),
                adjusted,
                response,
            ),
            None => !rgba_fits(adjusted) && *final(state) == *old(state),
        },
{
    let (width, height) = raster::image_dimensions(&adjusted);
    if raster::can_hold(4, width, height) {
        Some(apply_image_adjustments(state, adjusted))
    } else {
        None
    }
}

/// Four quarter turns bring every pixel back to its place.
pub proof fn four_turns_restore_the_image(
    image: DynamicImage,
    once: DynamicImage,
    twice: DynamicImage,
    thrice: DynamicImage,
    fully: DynamicImage,
    x: int,
    y: int,
)
    requires
        is_turned(once, image),
        is_turned(twice, once),
        is_turned(thrice, twice),
        is_turned(fully, thrice),
        0 <= x < raster::image_size(image).0,
        0 <= y < raster::image_size(image).1,
    ensures
        raster::image_size(fully) == raster::image_size(image),
        raster::pixel_spec(fully, x, y) == raster::pixel_spec(image, x, y),
{
    let (width, height) = raster::image_size(image);
    assert(raster::pixel_spec(once, height - 1 - y, x) == raster::pixel_spec(image, x, y));
    assert(raster::pixel_spec(twice, width - 1 - x, height - 1 - y) == raster::pixel_spec(
        once,
        height - 1 - y,
        x,
    ));
    assert(raster::pixel_spec(thrice, y, width - 1 - x) == raster::pixel_spec(
        twice,
        width - 1 - x,
        height - 1 - y,
    ));
    assert(raster::pixel_spec(fully, x, y) == raster::pixel_spec(thrice, y, width - 1 - x));
}

/// The grid keeps the aspect ratio of the original: its rows are off by at
/// most half a row, unless the number has to be brought into range.
pub proof fn grid_keeps_the_aspect_ratio(width: u32, height: u32, columns: u32)
    requires
        width > 0,
        1 < grid_rows((width, height), columns) < u32::MAX,
    ensures
        ({
            let rows = grid_rows((width, height), columns);
            -width <= 2 * (rows * width - height * columns) <= width
        }),
{
    let rows = grid_rows((width, height), columns) as int;
    let doubled = 2 * (height * columns) + width;
    vstd::arithmetic::div_mod::lemma_fundamental_div_mod(doubled, 2 * width as int);
    vstd::arithmetic::div_mod::lemma_mod_bound(doubled, 2 * width as int);
    assert(2 * width * rows == 2 * (rows * width)) by (nonlinear_arith);
}

/// A crop never leaves the image, and keeps at least one pixel.
pub proof fn crop_box_is_inside(size: (u32, u32), x: u32, y: u32, width: u32, height: u32)
    requires
        size.0 > 0,
        size.1 > 0,
    ensures
        ({
            let kept = crop_box(size, x, y, width, height);
            &&& kept.0 + kept.2 <= size.0
            &&& kept.1 + kept.3 <= size.1
            &&& kept.2 >= 1
            &&& kept.3 >= 1
        }),
{
}

} // verus!
