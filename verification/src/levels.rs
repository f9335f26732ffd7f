//! The luma histogram of an image, and its black and white points.

use vstd::prelude::*;

verus! {

/// The Rec. 601 luma of a color, in 0–255.
pub open spec fn luma(r: u8, g: u8, b: u8) -> int {
    (r * 299 + g * 587 + b * 114) / 1000
}

/// Rec. 601 luma, same weights as the luma conversion of the image crate.
pub fn pixel_luma8(r: u8, g: u8, b: u8) -> (level: u8)
    ensures
        level == luma(r, g, b),
{
    ((r as u32 * 299 + g as u32 * 587 + b as u32 * 114) / 1000) as u8
}

/// The luma of a pixel of flat RGBA bytes.
pub open spec fn pixel_level(rgba: Seq<u8>, pixel: int) -> int {
    luma(rgba[4 * pixel], rgba[4 * pixel + 1], rgba[4 * pixel + 2])
}

/// How many of the first pixels have a luma.
pub open spec fn level_count(rgba: Seq<u8>, pixels: int, level: int) -> int
    decreases pixels,
{
    if pixels <= 0 {
        0
    } else {
        level_count(rgba, pixels - 1, level) + if pixel_level(rgba, pixels - 1) == level {
            1int
        } else {
            0
        }
    }
}

/// True of the luma histogram of an image.
pub open spec fn is_histogram(histogram: Seq<u32>, rgba: Seq<u8>) -> bool {
    &&& histogram.len() == 256
    &&& forall|level: int|
        0 <= level < 256 ==> #[trigger] histogram[level] == level_count(
            rgba,
            rgba.len() as int / 4,
            level,
        )
}

proof fn lemma_count_is_bounded(rgba: Seq<u8>, pixels: int, level: int)
    requires
        pixels >= 0,
    ensures
        0 <= level_count(rgba, pixels, level) <= pixels,
    decreases pixels,
{
    if pixels > 0 {
        lemma_count_is_bounded(rgba, pixels - 1, level);
    }
}

/// Counts the pixels of each luma, in flat RGBA bytes.
pub fn luma_histogram(rgba: &[u8]) -> (histogram: Vec<u32>)
    requires
        rgba@.len() / 4 <= u32::MAX,
    ensures
        is_histogram(histogram@, rgba@),
{
    let mut histogram: Vec<u32> = Vec::new();
    let mut level: usize = 0;
    while level < 256
        invariant
            level <= 256,
            histogram@.len() == level,
            forall|k: int| 0 <= k < level ==> histogram@[k] == 0,
        decreases 256 - level,
    {
        histogram.push(0);
        level = level + 1;
    }
    let count: usize = rgba.len() / 4;
    let mut i: usize = 0;
    while i < count
        invariant
            i <= count,
            count == rgba@.len() / 4,
            rgba@.len() <= usize::MAX,
            count <= u32::MAX,
            histogram@.len() == 256,
            forall|k: int|
                0 <= k < 256 ==> #[trigger] histogram@[k] == level_count(rgba@, i as int, k),
        decreases count - i,
    {
        let level: u8 = pixel_luma8(rgba[4 * i], rgba[4 * i + 1], rgba[4 * i + 2]);
        proof {
            lemma_count_is_bounded(rgba@, i as int, level as int);
        }
        let seen: u32 = histogram[level as usize];
        histogram.set(level as usize, seen + 1);
        i = i + 1;
    }
    histogram
}

/// How many pixels have a luma of at most `level`.
pub open spec fn count_up_to(histogram: Seq<u32>, level: int) -> int
    decreases level + 1,
{
    if level < 0 {
        0
    } else {
        count_up_to(histogram, level - 1) + histogram[level]
    }
}

/// How many pixels have a luma of at least `level`.
pub open spec fn count_from(histogram: Seq<u32>, level: int) -> int
    decreases 256 - level,
{
    if level > 255 {
        0
    } else {
        count_from(histogram, level + 1) + histogram[level]
    }
}

/// True of the black point: the first level where more than `clip` pixels
/// have been seen from the dark end; the last level where there is none.
pub open spec fn is_black_point(black: int, histogram: Seq<u32>, clip: int) -> bool {
    &&& 0 <= black <= 255
    &&& black < 255 ==> count_up_to(histogram, black) > clip
    &&& forall|level: int| 0 <= level < black ==> #[trigger] count_up_to(histogram, level) <= clip
}

/// True of the white point: the first level where more than `clip` pixels
/// have been seen from the bright end; level 0 where there is none.
pub open spec fn is_white_point(white: int, histogram: Seq<u32>, clip: int) -> bool {
    &&& 0 <= white <= 255
    &&& white > 0 ==> count_from(histogram, white) > clip
    &&& forall|level: int| white < level <= 255 ==> #[trigger] count_from(histogram, level) <= clip
}

/// Finds the black point of a histogram.
pub fn black_point(histogram: &Vec<u32>, clip: u32) -> (black: u8)
    requires
        histogram@.len() == 256,
    ensures
        is_black_point(black as int, histogram@, clip as int),
{
    let mut seen: u64 = 0;
    let mut level: usize = 0;
    while level < 255
        invariant
            level <= 255,
            histogram@.len() == 256,
            seen == count_up_to(histogram@, level - 1),
            seen <= level * 0xffff_ffff,
            forall|k: int| 0 <= k < level ==> #[trigger] count_up_to(histogram@, k) <= clip,
        decreases 255 - level,
    {
        seen = seen + histogram[level] as u64;
        if seen > clip as u64 {
            return level as u8;
        }
        level = level + 1;
    }
    255
}

/// Finds the white point of a histogram.
pub fn white_point(histogram: &Vec<u32>, clip: u32) -> (white: u8)
    requires
        histogram@.len() == 256,
    ensures
        is_white_point(white as int, histogram@, clip as int),
{
    let mut seen: u64 = 0;
    let mut level: usize = 255;
    while level > 0
        invariant
            level <= 255,
            histogram@.len() == 256,
            seen == count_from(histogram@, level + 1),
            seen <= (255 - level) * 0xffff_ffff,
            forall|k: int| level < k <= 255 ==> #[trigger] count_from(histogram@, k) <= clip,
        decreases level,
    {
        seen = seen + histogram[level] as u64;
        if seen > clip as u64 {
            return level as u8;
        }
        level = level - 1;
    }
    0
}

/// True when the levels between the black and the white point are worth
/// stretching.
pub open spec fn stretchable(black: u8, white: u8) -> bool {
    white > black + 16
}

/// Tells whether the levels of an image are worth stretching: its black and
/// white points are apart by more than a few levels.
pub fn is_stretchable(black: u8, white: u8) -> (b: bool)
    ensures
        b == stretchable(black, white),
        b == (white > black + 16),
{
    white as u16 > black as u16 + 16
}

} // verus!
