//! What holds of the image settings: the levels, the grid, the crop and the
//! steps of the processing.

use image::DynamicImage;
use vstd::prelude::*;

use crate::error::AppError;
use crate::image_processing::{
    self, Adjustment, AdjustmentParams, ImageState, LoadedImageInfo, TransformParams,
};
use crate::levels;
use crate::raster;
use crate::velocity;

verus! {

/// The luma of a color is the mean of its channels weighted 299, 587 and 114
/// in a thousand, rounded down; that of a gray is its level.
pub proof fn luma_is_a_weighted_mean(r: u8, g: u8, b: u8)
    ensures
        1000 * levels::luma(r, g, b) <= 299 * r + 587 * g + 114 * b,
        299 * r + 587 * g + 114 * b < 1000 * levels::luma(r, g, b) + 1000,
        0 <= levels::luma(r, g, b) <= 255,
        levels::luma(r, r, r) == r,
{
}

proof fn lemma_counts_agree(a: Seq<u8>, b: Seq<u8>, pixels: int, level: int)
    requires
        0 <= 4 * pixels <= a.len(),
        a.len() <= b.len(),
        forall|i: int| 0 <= i < a.len() ==> a[i] == b[i],
    ensures
        levels::level_count(a, pixels, level) == levels::level_count(b, pixels, level),
    decreases pixels,
{
    if pixels > 0 {
        lemma_counts_agree(a, b, pixels - 1, level);
    }
}

/// One more pixel adds one to the count of its luma, and to no other; without
/// pixels every count is zero.
pub proof fn each_pixel_is_counted_at_its_luma(
    rgba: Seq<u8>,
    pixel: (u8, u8, u8, u8),
    before: Seq<u32>,
    after: Seq<u32>,
    level: int,
)
    requires
        rgba.len() % 4 == 0,
        levels::is_histogram(before, rgba),
        levels::is_histogram(after, rgba + seq![pixel.0, pixel.1, pixel.2, pixel.3]),
        0 <= level < 256,
    ensures
        before.len() == 256,
        rgba.len() == 0 ==> before[level] == 0,
        after[level] == before[level] + (if levels::luma(pixel.0, pixel.1, pixel.2) == level {
            1int
        } else {
            0
        }),
{
    let longer = rgba + seq![pixel.0, pixel.1, pixel.2, pixel.3];
    let pixels = rgba.len() as int / 4;
    assert(longer.len() as int / 4 == pixels + 1);
    lemma_counts_agree(rgba, longer, pixels, level);
    assert(longer[4 * pixels] == pixel.0);
    assert(longer[4 * pixels + 1] == pixel.1);
    assert(longer[4 * pixels + 2] == pixel.2);
    assert(before[level] == levels::level_count(rgba, pixels, level));
    assert(after[level] == levels::level_count(longer, pixels + 1, level));
}

/// The pixels up to a level are those of the level and those below it; those
/// from a level on are those of the level and those above it.
pub proof fn counts_add_up(histogram: Seq<u32>, level: int)
    requires
        0 <= level < 256,
    ensures
        levels::count_up_to(histogram, -1) == 0,
        levels::count_from(histogram, 256) == 0,
        levels::count_up_to(histogram, level) == levels::count_up_to(histogram, level - 1)
            + histogram[level],
        levels::count_from(histogram, level) == levels::count_from(histogram, level + 1)
            + histogram[level],
{
}

/// The black point is the first level at which more than the clipped pixels
/// have been seen from the dark end, or the last level.
pub proof fn black_point_clips_the_darkest(black: int, histogram: Seq<u32>, clip: int)
    requires
        levels::is_black_point(black, histogram, clip),
        clip >= 0,
    ensures
        0 <= black <= 255,
        levels::count_up_to(histogram, black - 1) <= clip,
        black < 255 ==> levels::count_up_to(histogram, black) > clip,
{
}

proof fn lemma_mirrored_counts(histogram: Seq<u32>, level: int)
    requires
        histogram.len() == 256,
        -1 <= level < 256,
    ensures
        levels::count_up_to(histogram, level) == levels::count_from(
            histogram.reverse(),
            255 - level,
        ),
    decreases level + 1,
{
    if level >= 0 {
        lemma_mirrored_counts(histogram, level - 1);
        assert(histogram.reverse()[255 - level] == histogram[level]);
    }
}

/// The white point is the black point of the inverted image.
pub proof fn white_point_mirrors_the_black_point(level: int, histogram: Seq<u32>, clip: int)
    requires
        histogram.len() == 256,
    ensures
        levels::is_black_point(level, histogram, clip) <==> levels::is_white_point(
            255 - level,
            histogram.reverse(),
            clip,
        ),
{
    let mirrored = histogram.reverse();
    if 0 <= level <= 255 {
        lemma_mirrored_counts(histogram, level);
        if levels::is_black_point(level, histogram, clip) {
            assert forall|k: int| 255 - level < k <= 255 implies #[trigger] levels::count_from(
                mirrored,
                k,
            ) <= clip by {
                lemma_mirrored_counts(histogram, 255 - k);
                assert(levels::count_up_to(histogram, 255 - k) <= clip);
            }
        }
        if levels::is_white_point(255 - level, mirrored, clip) {
            assert forall|k: int| 0 <= k < level implies #[trigger] levels::count_up_to(
                histogram,
                k,
            ) <= clip by {
                lemma_mirrored_counts(histogram, k);
                assert(levels::count_from(mirrored, 255 - k) <= clip);
            }
        }
    }
}

/// A usable velocity range is kept as it is; a floor above 126 is taken as
/// 126, a ceiling below the floor as the floor, one above 127 as 127.
pub proof fn usable_ranges_are_kept(velocity_min: u8, velocity_max: u8)
    ensures
        ({
            let (low, high) = velocity::usable_bounds(velocity_min, velocity_max);
            &&& velocity_min <= 126 ==> low == velocity_min
            &&& velocity_min > 126 ==> low == 126
            &&& low <= velocity_max <= 127 ==> high == velocity_max
            &&& velocity_max < low ==> high == low
            &&& velocity_max > 127 ==> high == 127
        }),
{
}

/// A velocity within its range is kept; one outside is brought to the nearest
/// bound, and none below one is sent.
pub proof fn velocities_in_range_are_kept(velocity: int, low: u8, high: u8)
    requires
        low <= high,
        1 <= high,
    ensures
        low <= velocity <= high && velocity >= 1 ==> velocity::bounded(velocity, low, high)
            == velocity,
        velocity > high ==> velocity::bounded(velocity, low, high) == high,
        velocity < low && low >= 1 ==> velocity::bounded(velocity, low, high) == low,
        velocity < 1 && low == 0 ==> velocity::bounded(velocity, low, high) == 1,
{
}

/// Four bytes make up their number, each 256 times the one before.
pub proof fn little_endian_bytes_make_up_the_number(number: u32)
    ensures
        ({
            let bytes = image_processing::little_endian(number);
            &&& bytes.len() == 4
            &&& bytes[0] + 256 * bytes[1] + 65_536 * bytes[2] + 16_777_216 * bytes[3] == number
        }),
{
}

/// A raw image starts with its width and its height, four bytes each, and
/// goes on with its RGBA bytes.
pub proof fn raw_images_start_with_their_size(image: DynamicImage)
    ensures
        ({
            let bytes = image_processing::raw_image(image);
            &&& bytes.len() == 8 + raster::image_rgba(image).len()
            &&& bytes.take(4) == image_processing::little_endian(raster::image_size(image).0)
            &&& bytes.subrange(4, 8) == image_processing::little_endian(
                raster::image_size(image).1,
            )
            &&& bytes.skip(8) == raster::image_rgba(image)
        }),
{
    let bytes = image_processing::raw_image(image);
    assert(bytes.take(4) =~= image_processing::little_endian(raster::image_size(image).0));
    assert(bytes.subrange(4, 8) =~= image_processing::little_endian(raster::image_size(image).1));
    assert(bytes.skip(8) =~= raster::image_rgba(image));
}

/// An image is oversized when a side is longer than allowed; 0 allows any.
pub proof fn oversized_images_have_a_long_side(image: DynamicImage, max_size: u32)
    ensures
        ({
            let (width, height) = raster::image_size(image);
            image_processing::oversized(image, max_size) <==> max_size != 0 && (width > max_size
                || height > max_size)
        }),
{
}

/// A crop inside the image keeps exactly the part that was asked for; one
/// that reaches beyond it is cut at the edge, and one that starts beyond it
/// starts at the last column or row.
pub proof fn crops_keep_what_was_asked_for(
    size: (u32, u32),
    x: u32,
    y: u32,
    width: u32,
    height: u32,
)
    requires
        size.0 > 0,
        size.1 > 0,
    ensures
        ({
            let kept = image_processing::crop_box(size, x, y, width, height);
            &&& x < size.0 ==> kept.0 == x
            &&& x >= size.0 ==> kept.0 == size.0 - 1
            &&& y < size.1 ==> kept.1 == y
            &&& y >= size.1 ==> kept.1 == size.1 - 1
            &&& width >= 1 && kept.0 + width <= size.0 ==> kept.2 == width
            &&& kept.0 + width > size.0 && width >= 1 ==> kept.0 + kept.2 == size.0
            &&& width == 0 ==> kept.2 == 1
            &&& height >= 1 && kept.1 + height <= size.1 ==> kept.3 == height
            &&& kept.1 + height > size.1 && height >= 1 ==> kept.1 + kept.3 == size.1
            &&& height == 0 ==> kept.3 == 1
        }),
{
}

/// The grid has as many columns as asked for, one at least; its rows are the
/// number nearest to the one that keeps the aspect ratio, halves upward, one
/// at least.
pub proof fn grid_rows_are_the_nearest(width: u32, height: u32, columns: u32)
    requires
        width > 0,
    ensures
        ({
            let rows = image_processing::grid_rows((width, height), columns) as int;
            &&& 1 <= rows <= u32::MAX
            &&& rows > 1 ==> (2 * rows - 1) * width <= 2 * (height * columns)
            &&& rows < u32::MAX ==> 2 * (height * columns) < (2 * rows + 1) * width
        }),
        image_processing::grid_columns(columns) == (if columns == 0 {
            1
        } else {
            columns
        }),
{
    let rows = image_processing::grid_rows((width, height), columns) as int;
    let doubled = 2 * (height * columns) + width;
    let w = width as int;
    assert(0 <= height * columns) by (nonlinear_arith);
    let q = doubled / (2 * w);
    vstd::arithmetic::div_mod::lemma_fundamental_div_mod(doubled, 2 * w);
    vstd::arithmetic::div_mod::lemma_mod_bound(doubled, 2 * w);
    assert(2 * w * q <= doubled < 2 * w * q + 2 * w);
    if rows > 1 {
        assert(rows <= q);
        assert((2 * rows - 1) * w <= 2 * w * q - w) by (nonlinear_arith)
            requires
                rows <= q,
                w > 0,
        ;
    }
    if rows < u32::MAX {
        assert(rows >= q);
        assert(2 * w * q + w <= (2 * rows + 1) * w) by (nonlinear_arith)
            requires
                rows >= q,
                w > 0,
        ;
    }
}

/// The place of a step in the processing: the levels and the patterns first,
/// then the values.
pub open spec fn stage(step: Adjustment) -> int {
    match step {
        Adjustment::AutoLevels => 0,
        Adjustment::Simplify(_) => 1,
        Adjustment::Clarity(_) => 2,
        Adjustment::Texture(_) => 3,
        Adjustment::Vibrance(_) => 4,
        Adjustment::Contrast(_) => 5,
        Adjustment::Brighten(_) => 6,
        Adjustment::Posterize(_) => 7,
    }
}

spec fn staged(steps: Seq<Adjustment>, end: int) -> bool {
    &&& forall|i: int| 0 <= i < steps.len() ==> stage(#[trigger] steps[i]) < end
    &&& forall|i: int, j: int|
        0 <= i < j < steps.len() ==> stage(#[trigger] steps[i]) < stage(#[trigger] steps[j])
}

proof fn lemma_one_more_step(
    steps: Seq<Adjustment>,
    wanted: bool,
    step: Adjustment,
    other: Adjustment,
)
    requires
        staged(steps, stage(step)),
    ensures
        staged(steps + image_processing::step_if(wanted, step), stage(step) + 1),
        (steps + image_processing::step_if(wanted, step)).contains(other) <==> steps.contains(other)
            || (wanted && other == step),
{
    let more = image_processing::step_if(wanted, step);
    vstd::seq_lib::lemma_seq_concat_contains_all_elements(steps, more, other);
    if wanted {
        assert(more[0] == step);
    }
}

/// The steps on the patterns.
proof fn lemma_pattern_steps(params: AdjustmentParams, step: Adjustment) -> (steps: Seq<Adjustment>)
    ensures
        steps == image_processing::step_if(params.auto_levels, Adjustment::AutoLevels)
            + image_processing::step_if(
            params.simplify.is_positive(),
            Adjustment::Simplify(params.simplify),
        ) + image_processing::step_if(
            !params.clarity.is_zero(),
            Adjustment::Clarity(params.clarity),
        ) + image_processing::step_if(
            !params.texture.is_zero(),
            Adjustment::Texture(params.texture),
        ),
        staged(steps, 4),
        steps.contains(step) <==> {
            ||| params.auto_levels && step == Adjustment::AutoLevels
            ||| params.simplify.is_positive() && step == Adjustment::Simplify(params.simplify)
            ||| !params.clarity.is_zero() && step == Adjustment::Clarity(params.clarity)
            ||| !params.texture.is_zero() && step == Adjustment::Texture(params.texture)
        },
{
    let none = Seq::<Adjustment>::empty();
    let a = image_processing::step_if(params.auto_levels, Adjustment::AutoLevels);
    lemma_one_more_step(none, params.auto_levels, Adjustment::AutoLevels, step);
    assert(none + a =~= a);
    let b = a + image_processing::step_if(
        params.simplify.is_positive(),
        Adjustment::Simplify(params.simplify),
    );
    lemma_one_more_step(
        a,
        params.simplify.is_positive(),
        Adjustment::Simplify(params.simplify),
        step,
    );
    let c = b + image_processing::step_if(
        !params.clarity.is_zero(),
        Adjustment::Clarity(params.clarity),
    );
    lemma_one_more_step(b, !params.clarity.is_zero(), Adjustment::Clarity(params.clarity), step);
    lemma_one_more_step(c, !params.texture.is_zero(), Adjustment::Texture(params.texture), step);
    c + image_processing::step_if(!params.texture.is_zero(), Adjustment::Texture(params.texture))
}

/// The steps of the processing come in their order, each at most once; a step
/// is taken exactly when it has something to do, with the amount asked for.
pub proof fn steps_are_taken_in_their_order(params: AdjustmentParams, step: Adjustment)
    ensures
        ({
            let steps = image_processing::adjustment_steps(params);
            &&& forall|i: int, j: int|
                0 <= i < j < steps.len() ==> stage(#[trigger] steps[i]) < stage(#[trigger] steps[j])
            &&& steps.contains(step) <==> match step {
                Adjustment::AutoLevels => params.auto_levels,
                Adjustment::Simplify(amount) => amount == params.simplify && amount.is_positive(),
                Adjustment::Clarity(amount) => amount == params.clarity && !amount.is_zero(),
                Adjustment::Texture(amount) => amount == params.texture && !amount.is_zero(),
                Adjustment::Vibrance(amount) => amount == params.vibrance && !amount.is_zero(),
                Adjustment::Contrast(amount) => amount == params.contrast && !amount.is_zero(),
                Adjustment::Brighten(amount) => amount == params.brightness && amount != 0,
                Adjustment::Posterize(count) => params.posterize_levels == Some(count) && count
                    >= 2,
            }
        }),
{
    let d = lemma_pattern_steps(params, step);
    let e = d + image_processing::step_if(
        !params.vibrance.is_zero(),
        Adjustment::Vibrance(params.vibrance),
    );
    lemma_one_more_step(d, !params.vibrance.is_zero(), Adjustment::Vibrance(params.vibrance), step);
    let f = e + image_processing::step_if(
        !params.contrast.is_zero(),
        Adjustment::Contrast(params.contrast),
    );
    lemma_one_more_step(e, !params.contrast.is_zero(), Adjustment::Contrast(params.contrast), step);
    let g = f + image_processing::step_if(
        params.brightness != 0,
        Adjustment::Brighten(params.brightness),
    );
    lemma_one_more_step(f, params.brightness != 0, Adjustment::Brighten(params.brightness), step);
    let steps = image_processing::adjustment_steps(params);
    match params.posterize_levels {
        Some(count) => {
            lemma_one_more_step(g, count >= 2, Adjustment::Posterize(count), step);
        },
        None => {
            assert(steps =~= g);
        },
    }
}

/// An imported image takes the place of the original and of what is played.
/// It is the opened one, unless a side of that is too long; then it is one
/// resized to fit, and no side is. The frontend is told its size. An image
/// that cannot be encoded changes nothing.
pub proof fn imported_images_fit(
    before: ImageState,
    after: ImageState,
    image: DynamicImage,
    max_size: u32,
    result: Result<LoadedImageInfo, AppError>,
)
    requires
        image_processing::is_imported(before, after, image, max_size, result),
    ensures
        match result {
            Ok(info) => {
                let (width, height) = raster::image_size(image);
                &&& after.original matches Some(kept)
                &&& after.processed == Some(kept)
                &&& info.orig_width == raster::image_size(kept).0
                &&& info.orig_height == raster::image_size(kept).1
                &&& image_processing::png_text(kept) == Some(info.base64_png@)
                &&& max_size > 0 ==> info.orig_width <= max_size && info.orig_height <= max_size
                &&& max_size == 0 || (width <= max_size && height <= max_size) ==> kept == image
                &&& max_size > 0 && (width > max_size || height > max_size) ==> raster::fits_from(
                    image,
                    max_size,
                    max_size,
                    kept,
                )
            },
            Err(error) => after == before && error is PngEncodingError,
        },
{
}

/// An edited image takes the place of the original, and of what is played
/// once the frontend has been told of it.
pub proof fn edited_images_are_installed(
    before: ImageState,
    after: ImageState,
    edited: DynamicImage,
    result: Result<LoadedImageInfo, AppError>,
)
    requires
        image_processing::installed(before, after, edited, result),
    ensures
        after.original == Some(edited),
        match result {
            Ok(info) => {
                &&& after.processed == Some(edited)
                &&& info.orig_width == raster::image_size(edited).0
                &&& info.orig_height == raster::image_size(edited).1
                &&& image_processing::png_text(edited) == Some(info.base64_png@)
            },
            Err(error) => after.processed == before.processed && error is PngEncodingError,
        },
{
}

/// A crop inside the image has the size that was asked for, and its pixels are
/// those of the image from the given corner on. Without an image there is
/// nothing to crop, and nothing changes.
pub proof fn crops_show_the_part_asked_for(
    before: ImageState,
    after: ImageState,
    x: u32,
    y: u32,
    width: u32,
    height: u32,
    result: Result<LoadedImageInfo, AppError>,
    column: int,
    row: int,
)
    requires
        image_processing::is_cropped(before, after, x, y, width, height, result),
        before.original matches Some(image) ==> {
            &&& x + width <= raster::image_size(image).0
            &&& y + height <= raster::image_size(image).1
        },
        0 <= column < width,
        0 <= row < height,
    ensures
        match before.original {
            Some(image) => {
                &&& after.original matches Some(part)
                &&& raster::image_size(part) == (width, height)
                &&& raster::pixel_spec(part, column, row) == raster::pixel_spec(
                    image,
                    x + column,
                    y + row,
                )
            },
            None => after == before && result == Err::<LoadedImageInfo, AppError>(
                AppError::NoImageLoaded,
            ),
        },
{
}

/// A transformed image takes the place of the stored original, if there is
/// one; adjusting the grid replaces what is played, and leaves the original.
pub proof fn adjustments_leave_the_original(
    before: ImageState,
    after: ImageState,
    image: DynamicImage,
    result: Result<LoadedImageInfo, AppError>,
    response: Result<Vec<u8>, AppError>,
)
    ensures
        image_processing::is_transformed(before, after, image, result) ==> match before.original {
            Some(_) => after.original == Some(image),
            None => after == before && result == Err::<LoadedImageInfo, AppError>(
                AppError::NoImageLoaded,
            ),
        },
        image_processing::is_adjusted(before, after, image, response) ==> match before.original {
            Some(_) => {
                &&& after.original == before.original
                &&& after.processed == Some(image)
                &&& response matches Ok(bytes)
                &&& bytes@ == image_processing::raw_image(image)
            },
            None => after == before && response == Err::<Vec<u8>, AppError>(
                AppError::NoImageLoaded,
            ),
        },
{
}

/// The grid has the columns asked for, one at least, and the rows nearest to
/// the aspect ratio of the original.
pub proof fn grids_have_the_columns_asked_for(
    grid: DynamicImage,
    state: ImageState,
    image: DynamicImage,
    grid_width: u32,
)
    requires
        state.original == Some(image),
        raster::image_size(image).0 > 0,
        image_processing::is_grid(Ok(grid), state, grid_width),
    ensures
        ({
            let (width, height) = raster::image_size(image);
            let (columns, rows) = raster::image_size(grid);
            &&& grid == raster::nearest_image(image, columns, rows)
            &&& grid_width >= 1 ==> columns == grid_width
            &&& grid_width == 0 ==> columns == 1
            &&& rows >= 1
            &&& rows > 1 ==> (2 * rows - 1) * width <= 2 * (height * columns)
            &&& rows < u32::MAX ==> 2 * (height * columns) < (2 * rows + 1) * width
        }),
{
    let (width, height) = raster::image_size(image);
    grid_rows_are_the_nearest(width, height, image_processing::grid_columns(grid_width));
}

/// Levels are stretched only where more than sixteen of them lie between the
/// black and the white point.
pub proof fn flat_images_are_not_stretched(black: u8, white: u8)
    ensures
        levels::stretchable(black, white) <==> white - black > 16,
{
}

/// A transform turns the image unless its angle is zero, and straightens it
/// unless both keystones are.
pub proof fn transforms_skip_what_is_zero(params: TransformParams)
    ensures
        image_processing::turns(params) <==> params.rotation.bits % 0x8000_0000 != 0,
        image_processing::straightens(params) <==> params.perspective_v.bits % 0x8000_0000 != 0
            || params.perspective_h.bits % 0x8000_0000 != 0,
{
}

/// A buffer of less than two gibibytes fits wherever the library runs, and
/// one that is smaller than a buffer that fits does too.
pub proof fn smaller_buffers_fit(
    bytes_per_pixel: int,
    width: int,
    height: int,
    smaller_width: int,
    smaller_height: int,
)
    requires
        0 <= bytes_per_pixel,
        0 <= smaller_width <= width,
        0 <= smaller_height <= height,
    ensures
        bytes_per_pixel * (width * height) < 0x8000_0000 ==> raster::buffer_fits(
            bytes_per_pixel,
            width,
            height,
        ),
        raster::buffer_fits(bytes_per_pixel, width, height) ==> raster::buffer_fits(
            bytes_per_pixel,
            smaller_width,
            smaller_height,
        ),
{
    assert(0x7fff_ffff <= isize::MAX);
    assert(smaller_width * smaller_height <= width * height) by (nonlinear_arith)
        requires
            0 <= smaller_width <= width,
            0 <= smaller_height <= height,
    ;
    assert(bytes_per_pixel * (smaller_width * smaller_height) <= bytes_per_pixel * (width * height))
        by (nonlinear_arith)
        requires
            0 <= bytes_per_pixel,
            smaller_width * smaller_height <= width * height,
    ;
}

/// An image whose buffer holds nothing but its pixels can be imported, unless
/// it has to be downscaled; and then too while its sides are at most 8388608
/// long and a strip of it, as high as the longest side allowed, takes less
/// than two gibibytes at sixteen bytes per pixel.
pub proof fn images_can_be_imported(image: DynamicImage, max_size: u32)
    requires
        raster::exact_buffer(image),
    ensures
        ({
            let (width, height) = raster::image_size(image);
            let within = max_size == 0 || (width <= max_size && height <= max_size);
            let longest = if width > max_size {
                width as int
            } else {
                max_size as int
            };
            within || (width <= 8388608 && height <= 8388608 && 16 * (longest * max_size)
                < 0x8000_0000) ==> image_processing::import_fits(image, max_size)
        }),
{
    let (width, height) = raster::image_size(image);
    let longest = if width > max_size {
        width as int
    } else {
        max_size as int
    };
    smaller_buffers_fit(16, longest, max_size as int, width as int, max_size as int);
    smaller_buffers_fit(16, longest, max_size as int, max_size as int, max_size as int);
}

/// A part of an image whose bytes fit into a vector can be cut out of it,
/// whatever part is asked for.
pub proof fn images_can_be_cropped(
    state: ImageState,
    image: DynamicImage,
    x: u32,
    y: u32,
    width: u32,
    height: u32,
)
    requires
        state.original == Some(image),
        raster::image_size(image).0 > 0,
        raster::image_size(image).1 > 0,
        image_processing::rgba_fits(image),
    ensures
        image_processing::can_be_cropped(state, x, y, width, height),
{
    let size = raster::image_size(image);
    let kept = image_processing::crop_box(size, x, y, width, height);
    smaller_buffers_fit(4, size.0 as int, size.1 as int, kept.2 as int, kept.3 as int);
}

/// A grid can be made while its rows take less than two gibibytes at sixteen
/// bytes per pixel, as wide as the image and as wide as the grid.
pub proof fn grids_can_be_made(image: DynamicImage, columns: u32)
    requires
        columns > 0,
    ensures
        ({
            let size = raster::image_size(image);
            let rows = image_processing::grid_rows(size, columns) as int;
            16 * (size.0 * rows) < 0x8000_0000 && 16 * (columns * rows) < 0x8000_0000
                ==> image_processing::grid_fits(image, columns)
        }),
{
    let size = raster::image_size(image);
    let rows = image_processing::grid_rows(size, columns) as int;
    smaller_buffers_fit(16, size.0 as int, rows, size.0 as int, rows);
    smaller_buffers_fit(16, columns as int, rows, columns as int, rows);
}

/// An image of whole samples can be brightened by every value that can be
/// added to any sample of sixteen bits.
pub proof fn images_can_be_brightened(image: DynamicImage, value: i32)
    ensures
        image_processing::can_be_brightened(image, value) <==> {
            &&& !raster::has_float_samples(image)
            &&& forall|sample: u16| #[trigger] (sample + value) <= 0x7fff_ffff
        },
{
    if forall|sample: u16| #[trigger] (sample + value) <= 0x7fff_ffff {
        assert(0xffffu16 + value <= 0x7fff_ffff);
    }
}

} // verus!
