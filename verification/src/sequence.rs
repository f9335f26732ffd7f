//! The order in which a synthesizer reads the pixels of its zones.

use vstd::prelude::*;
use vstd::relations::*;

use crate::state::{PixelZone, ReadingDirection, Synth};

verus! {

/// A grid cell, as (column, row).
pub type Cell = (int, int);

/// The length of the range `from..to`.
pub open spec fn span(from: int, to: int) -> nat {
    if from < to {
        (to - from) as nat
    } else {
        0
    }
}

/// Row `y`, columns `from..to`, left to right.
pub open spec fn rightward(y: int, from: int, to: int) -> Seq<Cell> {
    Seq::new(span(from, to), |i: int| (from + i, y))
}

/// Row `y`, columns `from..to`, right to left.
pub open spec fn leftward(y: int, from: int, to: int) -> Seq<Cell> {
    Seq::new(span(from, to), |i: int| (to - 1 - i, y))
}

/// Column `x`, rows `from..to`, top to bottom.
pub open spec fn downward(x: int, from: int, to: int) -> Seq<Cell> {
    Seq::new(span(from, to), |i: int| (x, from + i))
}

/// Column `x`, rows `from..to`, bottom to top.
pub open spec fn upward(x: int, from: int, to: int) -> Seq<Cell> {
    Seq::new(span(from, to), |i: int| (x, to - 1 - i))
}

/// The outermost ring of a rectangle, walked once around from its top-left
/// corner: clockwise, or counterclockwise with a first step downward.
pub open spec fn ring(left: int, top: int, right: int, bottom: int, clockwise: bool) -> Seq<Cell> {
    if clockwise {
        rightward(top, left, right) + downward(right - 1, top + 1, bottom) + (if bottom - top > 1 {
            leftward(bottom - 1, left, right - 1)
        } else {
            Seq::empty()
        }) + (if right - left > 1 {
            upward(left, top + 1, bottom - 1)
        } else {
            Seq::empty()
        })
    } else {
        downward(left, top, bottom) + rightward(bottom - 1, left + 1, right) + (if right - left > 1 {
            upward(right - 1, top, bottom - 1)
        } else {
            Seq::empty()
        }) + (if bottom - top > 1 {
            leftward(top, left + 1, right - 1)
        } else {
            Seq::empty()
        })
    }
}

/// A rectangle read in a spiral, ring after ring toward its center.
pub open spec fn spiral(left: int, top: int, right: int, bottom: int, clockwise: bool) -> Seq<Cell>
    decreases span(left, right),
{
    if left < right && top < bottom {
        ring(left, top, right, bottom, clockwise) + spiral(
            left + 1,
            top + 1,
            right - 1,
            bottom - 1,
            clockwise,
        )
    } else {
        Seq::empty()
    }
}

/// The index of a cell in an image of the given width.
pub open spec fn pixel_index(cell: Cell, width: int) -> usize {
    (cell.1 * width + cell.0) as usize
}

/// The indices of cells in an image of the given width, in the same order.
pub open spec fn indices(cells: Seq<Cell>, width: int) -> Seq<usize> {
    Seq::new(cells.len(), |i: int| pixel_index(cells[i], width))
}

proof fn lemma_indices_concat(a: Seq<Cell>, b: Seq<Cell>, width: int)
    ensures
        indices(a + b, width) == indices(a, width) + indices(b, width),
{
    assert(indices(a + b, width) =~= indices(a, width) + indices(b, width));
}

proof fn lemma_index_fits(x: int, y: int, max_x: int, max_y: int, width: int)
    by (nonlinear_arith)
    requires
        0 <= x <= max_x,
        0 <= y <= max_y,
        0 <= width,
    ensures
        0 <= y * width <= y * width + x <= max_y * width + max_x,
{
}

/// Appends the pixels of row `y`, columns `from..to`, left to right.
fn push_rightward(sequence: &mut Vec<usize>, y: usize, from: usize, to: usize, width: usize)
    requires
        from < to ==> y * width + (to - 1) <= usize::MAX,
    ensures
        final(sequence)@ == old(sequence)@ + indices(rightward(y as int, from as int, to as int), width as int),
{
    let ghost cells = rightward(y as int, from as int, to as int);
    let mut x: usize = from;
    while x < to
        invariant
            from < to ==> y * width + (to - 1) <= usize::MAX,
            from <= x,
            x <= to || x == from,
            cells == rightward(y as int, from as int, to as int),
            sequence@ == old(sequence)@ + indices(cells, width as int).take(x - from),
        decreases to - x,
    {
        proof {
            lemma_index_fits(x as int, y as int, (to - 1) as int, y as int, width as int);
        }
        sequence.push(y * width + x);
        assert(indices(cells, width as int).take(x + 1 - from) =~= indices(
            cells,
            width as int,
        ).take(x - from).push(indices(cells, width as int)[x - from]));
        x = x + 1;
    }
    assert(indices(cells, width as int).take(x - from) =~= indices(cells, width as int));
}

/// Appends the pixels of row `y`, columns `from..to`, right to left.
fn push_leftward(sequence: &mut Vec<usize>, y: usize, from: usize, to: usize, width: usize)
    requires
        from < to ==> y * width + (to - 1) <= usize::MAX,
    ensures
        final(sequence)@ == old(sequence)@ + indices(leftward(y as int, from as int, to as int), width as int),
{
    let ghost cells = leftward(y as int, from as int, to as int);
    if from >= to {
        assert(indices(cells, width as int) =~= Seq::empty());
        return;
    }
    let mut end: usize = to;
    while end > from
        invariant
            from < to ==> y * width + (to - 1) <= usize::MAX,
            from <= end <= to,
            cells == leftward(y as int, from as int, to as int),
            sequence@ == old(sequence)@ + indices(cells, width as int).take(to - end),
        decreases end - from,
    {
        end = end - 1;
        let x: usize = end;
        proof {
            lemma_index_fits(x as int, y as int, (to - 1) as int, y as int, width as int);
        }
        sequence.push(y * width + x);
        assert(indices(cells, width as int).take(to - end) =~= indices(
            cells,
            width as int,
        ).take(to - end - 1).push(indices(cells, width as int)[to - end - 1]));
    }
    assert(indices(cells, width as int).take(to - end) =~= indices(cells, width as int));
}

/// Appends the pixels of column `x`, rows `from..to`, top to bottom.
fn push_downward(sequence: &mut Vec<usize>, x: usize, from: usize, to: usize, width: usize)
    requires
        from < to ==> (to - 1) * width + x <= usize::MAX,
    ensures
        final(sequence)@ == old(sequence)@ + indices(downward(x as int, from as int, to as int), width as int),
{
    let ghost cells = downward(x as int, from as int, to as int);
    let mut y: usize = from;
    while y < to
        invariant
            from < to ==> (to - 1) * width + x <= usize::MAX,
            from <= y,
            y <= to || y == from,
            cells == downward(x as int, from as int, to as int),
            sequence@ == old(sequence)@ + indices(cells, width as int).take(y - from),
        decreases to - y,
    {
        proof {
            lemma_index_fits(x as int, y as int, x as int, (to - 1) as int, width as int);
        }
        sequence.push(y * width + x);
        assert(indices(cells, width as int).take(y + 1 - from) =~= indices(
            cells,
            width as int,
        ).take(y - from).push(indices(cells, width as int)[y - from]));
        y = y + 1;
    }
    assert(indices(cells, width as int).take(y - from) =~= indices(cells, width as int));
}

/// Appends the pixels of column `x`, rows `from..to`, bottom to top.
fn push_upward(sequence: &mut Vec<usize>, x: usize, from: usize, to: usize, width: usize)
    requires
        from < to ==> (to - 1) * width + x <= usize::MAX,
    ensures
        final(sequence)@ == old(sequence)@ + indices(upward(x as int, from as int, to as int), width as int),
{
    let ghost cells = upward(x as int, from as int, to as int);
    if from >= to {
        assert(indices(cells, width as int) =~= Seq::empty());
        return;
    }
    let mut end: usize = to;
    while end > from
        invariant
            from < to ==> (to - 1) * width + x <= usize::MAX,
            from <= end <= to,
            cells == upward(x as int, from as int, to as int),
            sequence@ == old(sequence)@ + indices(cells, width as int).take(to - end),
        decreases end - from,
    {
        end = end - 1;
        let y: usize = end;
        proof {
            lemma_index_fits(x as int, y as int, x as int, (to - 1) as int, width as int);
        }
        sequence.push(y * width + x);
        assert(indices(cells, width as int).take(to - end) =~= indices(
            cells,
            width as int,
        ).take(to - end - 1).push(indices(cells, width as int)[to - end - 1]));
    }
    assert(indices(cells, width as int).take(to - end) =~= indices(cells, width as int));
}

/// Appends the outermost ring of a non-empty rectangle, clockwise.
fn push_clockwise_ring(
    sequence: &mut Vec<usize>,
    left: usize,
    top: usize,
    right: usize,
    bottom: usize,
    width: usize,
)
    requires
        left < right,
        top < bottom,
        (bottom - 1) * width + (right - 1) <= usize::MAX,
    ensures
        final(sequence)@ == old(sequence)@ + indices(
            ring(left as int, top as int, right as int, bottom as int, true),
            width as int,
        ),
{
    let ghost (l, t, r, b, w) = (left as int, top as int, right as int, bottom as int, width as int);
    proof {
        lemma_index_fits(r - 1, t, r - 1, b - 1, w);
        lemma_index_fits(l, b - 1, r - 1, b - 1, w);
        if b - t > 1 {
            lemma_index_fits(l, b - 2, r - 1, b - 1, w);
        }
    }
    push_rightward(sequence, top, left, right, width);
    push_downward(sequence, right - 1, top + 1, bottom, width);
    if bottom - top > 1 {
        push_leftward(sequence, bottom - 1, left, right - 1, width);
    }
    if right - left > 1 {
        push_upward(sequence, left, top + 1, bottom - 1, width);
    }
    proof {
        let first = rightward(t, l, r);
        let second = downward(r - 1, t + 1, b);
        let third = if b - t > 1 {
            leftward(b - 1, l, r - 1)
        } else {
            Seq::empty()
        };
        let fourth = if r - l > 1 {
            upward(l, t + 1, b - 1)
        } else {
            Seq::empty()
        };
        lemma_indices_concat(first, second, w);
        lemma_indices_concat(first + second, third, w);
        lemma_indices_concat(first + second + third, fourth, w);
        assert(sequence@ =~= old(sequence)@ + indices(ring(l, t, r, b, true), w));
    }
}

/// Appends the outermost ring of a non-empty rectangle, counterclockwise.
fn push_counterclockwise_ring(
    sequence: &mut Vec<usize>,
    left: usize,
    top: usize,
    right: usize,
    bottom: usize,
    width: usize,
)
    requires
        left < right,
        top < bottom,
        (bottom - 1) * width + (right - 1) <= usize::MAX,
    ensures
        final(sequence)@ == old(sequence)@ + indices(
            ring(left as int, top as int, right as int, bottom as int, false),
            width as int,
        ),
{
    let ghost (l, t, r, b, w) = (left as int, top as int, right as int, bottom as int, width as int);
    proof {
        lemma_index_fits(r - 1, t, r - 1, b - 1, w);
        lemma_index_fits(l, b - 1, r - 1, b - 1, w);
        if r - l > 1 {
            lemma_index_fits(r - 2, t, r - 1, b - 1, w);
        }
        if b - t > 1 {
            lemma_index_fits(r - 1, b - 2, r - 1, b - 1, w);
        }
    }
    push_downward(sequence, left, top, bottom, width);
    push_rightward(sequence, bottom - 1, left + 1, right, width);
    if right - left > 1 {
        push_upward(sequence, right - 1, top, bottom - 1, width);
    }
    if bottom - top > 1 {
        push_leftward(sequence, top, left + 1, right - 1, width);
    }
    proof {
        let first = downward(l, t, b);
        let second = rightward(b - 1, l + 1, r);
        let third = if r - l > 1 {
            upward(r - 1, t, b - 1)
        } else {
            Seq::empty()
        };
        let fourth = if b - t > 1 {
            leftward(t, l + 1, r - 1)
        } else {
            Seq::empty()
        };
        lemma_indices_concat(first, second, w);
        lemma_indices_concat(first + second, third, w);
        lemma_indices_concat(first + second + third, fourth, w);
        assert(sequence@ =~= old(sequence)@ + indices(ring(l, t, r, b, false), w));
    }
}

/// Pushes the pixels of a rectangle in a spiral order, from its top-left
/// corner toward its center: clockwise (first step to the right) or
/// counterclockwise (first step downward). The bounds shrink by one on
/// every side after each turn, until opposite edges meet in the middle.
pub fn push_spiral_rect(
    sequence: &mut Vec<usize>,
    x0: usize,
    y0: usize,
    x1: usize,
    y1: usize,
    width: usize,
    clockwise: bool,
)
    requires
        x0 < x1 && y0 < y1 ==> (y1 - 1) * width + (x1 - 1) <= usize::MAX,
    ensures
        final(sequence)@ == old(sequence)@ + indices(
            spiral(x0 as int, y0 as int, x1 as int, y1 as int, clockwise),
            width as int,
        ),
{
    let ghost w = width as int;
    let ghost whole = spiral(x0 as int, y0 as int, x1 as int, y1 as int, clockwise);
    let mut left: usize = x0;
    let mut top: usize = y0;
    let mut right: usize = x1;
    let mut bottom: usize = y1;
    while left < right && top < bottom
        invariant
            w == width as int,
            x0 < x1 && y0 < y1 ==> (y1 - 1) * width + (x1 - 1) <= usize::MAX,
            x0 <= left,
            y0 <= top,
            right <= x1,
            bottom <= y1,
            old(sequence)@ + indices(whole, w) == sequence@ + indices(
                spiral(left as int, top as int, right as int, bottom as int, clockwise),
                w,
            ),
        decreases right,
    {
        let ghost (l, t, r, b) = (left as int, top as int, right as int, bottom as int);
        let ghost before = sequence@;
        let ghost turn = ring(l, t, r, b, clockwise);
        let ghost inner = spiral(l + 1, t + 1, r - 1, b - 1, clockwise);
        proof {
            lemma_index_fits(r - 1, b - 1, x1 - 1, y1 - 1, w);
            lemma_indices_concat(turn, inner, w);
        }
        if clockwise {
            push_clockwise_ring(sequence, left, top, right, bottom, width);
        } else {
            push_counterclockwise_ring(sequence, left, top, right, bottom, width);
        }
        left = left + 1;
        top = top + 1;
        right = right - 1;
        bottom = bottom - 1;
        assert(before + (indices(turn, w) + indices(inner, w)) =~= sequence@ + indices(inner, w));
    }
    assert(sequence@ + indices(Seq::empty(), w) =~= sequence@);
}

/// True when the zone covers the cell in column `x`, row `y`.
pub open spec fn covers(zone: PixelZone, x: int, y: int) -> bool {
    zone.x <= x < zone.x + zone.w && zone.y <= y < zone.y + zone.h
}

/// True when one of the zones covers the cell in column `x`, row `y`.
pub open spec fn selected(zones: Seq<PixelZone>, x: int, y: int) -> bool {
    exists|i: int| 0 <= i < zones.len() && covers(#[trigger] zones[i], x, y)
}

pub open spec fn min(a: int, b: int) -> int {
    if a < b {
        a
    } else {
        b
    }
}

pub open spec fn max(a: int, b: int) -> int {
    if a < b {
        b
    } else {
        a
    }
}

/// A rectangle read in the given direction: line by line for the
/// horizontal directions, column by column for the vertical ones, ring by
/// ring for the spirals.
pub open spec fn sweep(
    left: int,
    top: int,
    right: int,
    bottom: int,
    direction: ReadingDirection,
) -> Seq<Cell>
    decreases span(left, right) + span(top, bottom),
{
    match direction {
        ReadingDirection::LeftToRight => if top < bottom {
            rightward(top, left, right) + sweep(left, top + 1, right, bottom, direction)
        } else {
            Seq::empty()
        },
        ReadingDirection::RightToLeft => if top < bottom {
            leftward(top, left, right) + sweep(left, top + 1, right, bottom, direction)
        } else {
            Seq::empty()
        },
        ReadingDirection::TopToBottom => if left < right {
            downward(left, top, bottom) + sweep(left + 1, top, right, bottom, direction)
        } else {
            Seq::empty()
        },
        ReadingDirection::BottomToTop => if left < right {
            upward(left, top, bottom) + sweep(left + 1, top, right, bottom, direction)
        } else {
            Seq::empty()
        },
        ReadingDirection::Spiral => spiral(left, top, right, bottom, true),
        ReadingDirection::SpiralReverse => spiral(left, top, right, bottom, false),
    }
}

/// The part of a zone inside the image, read in the given direction.
pub open spec fn zone_cells(
    zone: PixelZone,
    width: int,
    height: int,
    direction: ReadingDirection,
) -> Seq<Cell> {
    let left = min(zone.x as int, width);
    let top = min(zone.y as int, height);
    sweep(left, top, min(left + zone.w, width), min(top + zone.h, height), direction)
}

/// The zones read in full, one after the other.
pub open spec fn zone_by_zone(
    zones: Seq<PixelZone>,
    width: int,
    height: int,
    direction: ReadingDirection,
) -> Seq<Cell>
    decreases zones.len(),
{
    if zones.len() == 0 {
        Seq::empty()
    } else {
        zone_by_zone(zones.drop_last(), width, height, direction) + zone_cells(
            zones.last(),
            width,
            height,
            direction,
        )
    }
}

/// The leftmost column of the zones, 0 without any zone.
pub open spec fn leftmost(zones: Seq<PixelZone>) -> int
    decreases zones.len(),
{
    if zones.len() == 0 {
        0
    } else if zones.len() == 1 {
        zones[0].x as int
    } else {
        min(leftmost(zones.drop_last()), zones.last().x as int)
    }
}

/// The topmost row of the zones, 0 without any zone.
pub open spec fn topmost(zones: Seq<PixelZone>) -> int
    decreases zones.len(),
{
    if zones.len() == 0 {
        0
    } else if zones.len() == 1 {
        zones[0].y as int
    } else {
        min(topmost(zones.drop_last()), zones.last().y as int)
    }
}

/// The end of the columns that the zones reach, 0 without any zone.
pub open spec fn right_end(zones: Seq<PixelZone>) -> int
    decreases zones.len(),
{
    if zones.len() == 0 {
        0
    } else {
        max(right_end(zones.drop_last()), zones.last().x + zones.last().w)
    }
}

/// The end of the rows that the zones reach, 0 without any zone.
pub open spec fn bottom_end(zones: Seq<PixelZone>) -> int
    decreases zones.len(),
{
    if zones.len() == 0 {
        0
    } else {
        max(bottom_end(zones.drop_last()), zones.last().y + zones.last().h)
    }
}

/// True of the pixels that one of the zones covers.
pub open spec fn selected_pixel(zones: Seq<PixelZone>, width: int) -> spec_fn(usize) -> bool {
    |p: usize| selected(zones, p as int % width, p as int / width)
}

/// The bounding box of the zones, inside the image, read in a spiral.
pub open spec fn box_spiral(
    zones: Seq<PixelZone>,
    width: int,
    height: int,
    clockwise: bool,
) -> Seq<Cell> {
    spiral(
        leftmost(zones),
        topmost(zones),
        min(right_end(zones), width),
        min(bottom_end(zones), height),
        clockwise,
    )
}

/// The place of a pixel in a sweep of the whole image, to be compared
/// lexicographically: (row, column) for the horizontal directions and
/// (column, row) for the vertical ones, the second part counted backward
/// where the direction is reversed.
pub open spec fn sweep_rank(p: usize, width: usize, direction: ReadingDirection) -> (usize, usize) {
    let column = p % width;
    let row = p / width;
    match direction {
        ReadingDirection::RightToLeft => (row, (usize::MAX - column) as usize),
        ReadingDirection::TopToBottom => (column, row),
        ReadingDirection::BottomToTop => (column, (usize::MAX - row) as usize),
        _ => (row, column),
    }
}

/// The lexicographic order of pairs.
pub open spec fn lexicographic(a: (usize, usize), b: (usize, usize)) -> bool {
    a.0 < b.0 || (a.0 == b.0 && a.1 <= b.1)
}

/// The order in which a sweep of the whole image meets its pixels.
pub open spec fn sweep_order(width: usize, direction: ReadingDirection) -> spec_fn(
    usize,
    usize,
) -> bool {
    |p: usize, q: usize|
        lexicographic(sweep_rank(p, width, direction), sweep_rank(q, width, direction))
}

pub open spec fn is_spiral(direction: ReadingDirection) -> bool {
    direction is Spiral || direction is SpiralReverse
}

/// The pixel indices covered by the zones, in the order in which they are
/// read.
pub open spec fn pixel_sequence(
    zones: Seq<PixelZone>,
    width: usize,
    height: usize,
    direction: ReadingDirection,
    sorted: bool,
) -> Seq<usize> {
    let blocks = indices(zone_by_zone(zones, width as int, height as int, direction), width as int);
    if !sorted || width == 0 {
        blocks
    } else if is_spiral(direction) {
        indices(
            box_spiral(zones, width as int, height as int, direction is Spiral),
            width as int,
        ).filter(selected_pixel(zones, width as int))
    } else {
        blocks.sort_by(sweep_order(width, direction))
    }
}

/// True when the pixel at (x, y) is covered by one of the given zones
/// (rectangles in grid cells, same convention as `build_pixel_sequence`).
pub fn pixel_in_zones(zones: &[PixelZone], x: u32, y: u32) -> (covered: bool)
    ensures
        covered == selected(zones@, x as int, y as int),
{
    cell_in_zones(zones, x as u64, y as u64)
}

fn cell_in_zones(zones: &[PixelZone], x: u64, y: u64) -> (covered: bool)
    ensures
        covered == selected(zones@, x as int, y as int),
{
    let mut i: usize = 0;
    while i < zones.len()
        invariant
            i <= zones.len(),
            forall|j: int| 0 <= j < i ==> !covers(#[trigger] zones@[j], x as int, y as int),
        decreases zones.len() - i,
    {
        let zone = zones[i];
        if x >= zone.x as u64 && x < zone.x as u64 + zone.w as u64 && y >= zone.y as u64 && y
            < zone.y as u64 + zone.h as u64 {
            assert(covers(zones@[i as int], x as int, y as int));
            return true;
        }
        i = i + 1;
    }
    false
}

/// The sort key of a pixel in a sweep of the whole image.
pub fn sweep_key(p: usize, width: usize, direction: ReadingDirection) -> (key: (usize, usize))
    requires
        width > 0,
    ensures
        key == sweep_rank(p, width, direction),
{
    let column: usize = p % width;
    let row: usize = p / width;
    match direction {
        ReadingDirection::RightToLeft => (row, usize::MAX - column),
        ReadingDirection::TopToBottom => (column, row),
        ReadingDirection::BottomToTop => (column, usize::MAX - row),
        _ => (row, column),
    }
}

/// Calls `slice::sort_unstable_by_key`: the same pixels come back, ordered
/// by their sweep key, pairs of integers being ordered lexicographically.
#[verifier::external_body]
fn sort_by_sweep_key(sequence: &mut Vec<usize>, width: usize, direction: ReadingDirection)
    requires
        width > 0,
    ensures
        final(sequence)@.to_multiset() == old(sequence)@.to_multiset(),
        sorted_by(final(sequence)@, sweep_order(width, direction)),
{
    sequence.sort_unstable_by_key(|p| sweep_key(*p, width, direction));
}

pub proof fn lemma_sweep_order_is_total(width: usize, direction: ReadingDirection)
    requires
        width > 0,
    ensures
        total_ordering(sweep_order(width, direction)),
{
    let order = sweep_order(width, direction);
    assert forall|p: usize, q: usize| #[trigger] order(p, q) && #[trigger] order(q, p) implies p == q by {
        vstd::arithmetic::div_mod::lemma_fundamental_div_mod(p as int, width as int);
        vstd::arithmetic::div_mod::lemma_fundamental_div_mod(q as int, width as int);
    }
}

/// Appends the part of a zone inside the image, in the given direction.
fn push_zone(
    sequence: &mut Vec<usize>,
    zone: PixelZone,
    width: usize,
    height: usize,
    direction: ReadingDirection,
)
    requires
        width * height <= usize::MAX,
    ensures
        final(sequence)@ == old(sequence)@ + indices(
            zone_cells(zone, width as int, height as int, direction),
            width as int,
        ),
{
    let x0: usize = if (zone.x as usize) < width {
        zone.x as usize
    } else {
        width
    };
    let y0: usize = if (zone.y as usize) < height {
        zone.y as usize
    } else {
        height
    };
    let x1: usize = if (zone.w as usize) < width - x0 {
        x0 + zone.w as usize
    } else {
        width
    };
    let y1: usize = if (zone.h as usize) < height - y0 {
        y0 + zone.h as usize
    } else {
        height
    };
    let ghost w = width as int;
    let ghost whole = sweep(x0 as int, y0 as int, x1 as int, y1 as int, direction);
    proof {
        if x0 < x1 && y0 < y1 {
            lemma_in_image(x1 - 1, y1 - 1, w, height as int);
        }
    }
    match direction {
        ReadingDirection::LeftToRight | ReadingDirection::RightToLeft => {
            let mut y: usize = y0;
            while y < y1
                invariant
                    w == width as int,
                    width * height <= usize::MAX,
                    direction is LeftToRight || direction is RightToLeft,
                    y0 <= y <= y1 <= height,
                    x1 <= width,
                    old(sequence)@ + indices(whole, w) == sequence@ + indices(
                        sweep(x0 as int, y as int, x1 as int, y1 as int, direction),
                        w,
                    ),
                decreases y1 - y,
            {
                let ghost before = sequence@;
                let ghost rest = sweep(x0 as int, y + 1, x1 as int, y1 as int, direction);
                proof {
                    if x0 < x1 {
                        lemma_in_image(x1 - 1, y as int, w, height as int);
                    }
                    lemma_indices_concat(rightward(y as int, x0 as int, x1 as int), rest, w);
                    lemma_indices_concat(leftward(y as int, x0 as int, x1 as int), rest, w);
                }
                if let ReadingDirection::LeftToRight = direction {
                    push_rightward(sequence, y, x0, x1, width);
                } else {
                    push_leftward(sequence, y, x0, x1, width);
                }
                y = y + 1;
                assert(before + indices(
                    sweep(x0 as int, y - 1, x1 as int, y1 as int, direction),
                    w,
                ) =~= sequence@ + indices(rest, w));
            }
            assert(sequence@ + indices(Seq::empty(), w) =~= sequence@);
        },
        ReadingDirection::TopToBottom | ReadingDirection::BottomToTop => {
            let mut x: usize = x0;
            while x < x1
                invariant
                    w == width as int,
                    width * height <= usize::MAX,
                    direction is TopToBottom || direction is BottomToTop,
                    x0 <= x <= x1 <= width,
                    y1 <= height,
                    old(sequence)@ + indices(whole, w) == sequence@ + indices(
                        sweep(x as int, y0 as int, x1 as int, y1 as int, direction),
                        w,
                    ),
                decreases x1 - x,
            {
                let ghost before = sequence@;
                let ghost rest = sweep(x + 1, y0 as int, x1 as int, y1 as int, direction);
                proof {
                    if y0 < y1 {
                        lemma_in_image(x as int, y1 - 1, w, height as int);
                    }
                    lemma_indices_concat(downward(x as int, y0 as int, y1 as int), rest, w);
                    lemma_indices_concat(upward(x as int, y0 as int, y1 as int), rest, w);
                }
                if let ReadingDirection::TopToBottom = direction {
                    push_downward(sequence, x, y0, y1, width);
                } else {
                    push_upward(sequence, x, y0, y1, width);
                }
                x = x + 1;
                assert(before + indices(
                    sweep(x - 1, y0 as int, x1 as int, y1 as int, direction),
                    w,
                ) =~= sequence@ + indices(rest, w));
            }
            assert(sequence@ + indices(Seq::empty(), w) =~= sequence@);
        },
        ReadingDirection::Spiral => {
            push_spiral_rect(sequence, x0, y0, x1, y1, width, true);
        },
        ReadingDirection::SpiralReverse => {
            push_spiral_rect(sequence, x0, y0, x1, y1, width, false);
        },
    }
}

proof fn lemma_in_image(x: int, y: int, width: int, height: int)
    by (nonlinear_arith)
    requires
        0 <= x < width,
        0 <= y < height,
    ensures
        0 <= y * width + x < width * height,
{
}

/// The bounding box of the zones, as (left, top, right, bottom), its right
/// and bottom ends clamped to the image.
fn bounding_box(zones: &[PixelZone], width: usize, height: usize) -> (b: (
    usize,
    usize,
    usize,
    usize,
))
    ensures
        b.0 == leftmost(zones@),
        b.1 == topmost(zones@),
        b.2 == min(right_end(zones@), width as int),
        b.3 == min(bottom_end(zones@), height as int),
{
    let mut left: u32 = 0;
    let mut top: u32 = 0;
    let mut right: u64 = 0;
    let mut bottom: u64 = 0;
    let mut i: usize = 0;
    while i < zones.len()
        invariant
            i <= zones.len(),
            left == leftmost(zones@.take(i as int)),
            top == topmost(zones@.take(i as int)),
            right == right_end(zones@.take(i as int)),
            bottom == bottom_end(zones@.take(i as int)),
        decreases zones.len() - i,
    {
        let zone = zones[i];
        assert(zones@.take(i + 1).drop_last() =~= zones@.take(i as int));
        if i == 0 || zone.x < left {
            left = zone.x;
        }
        if i == 0 || zone.y < top {
            top = zone.y;
        }
        let zone_right: u64 = zone.x as u64 + zone.w as u64;
        if zone_right > right {
            right = zone_right;
        }
        let zone_bottom: u64 = zone.y as u64 + zone.h as u64;
        if zone_bottom > bottom {
            bottom = zone_bottom;
        }
        i = i + 1;
    }
    assert(zones@.take(i as int) =~= zones@);
    let right: usize = if right < width as u64 {
        right as usize
    } else {
        width
    };
    let bottom: usize = if bottom < height as u64 {
        bottom as usize
    } else {
        height
    };
    (left as usize, top as usize, right, bottom)
}

/// The pixels that one of the zones covers, in the same order.
fn keep_selected(spiral: &Vec<usize>, zones: &[PixelZone], width: usize) -> (kept: Vec<usize>)
    requires
        width > 0,
    ensures
        kept@ == spiral@.filter(selected_pixel(zones@, width as int)),
{
    let ghost pred = selected_pixel(zones@, width as int);
    let mut kept: Vec<usize> = Vec::new();
    let mut i: usize = 0;
    proof {
        reveal(Seq::filter);
    }
    while i < spiral.len()
        invariant
            i <= spiral.len(),
            width > 0,
            pred == selected_pixel(zones@, width as int),
            kept@ == spiral@.take(i as int).filter(pred),
        decreases spiral.len() - i,
    {
        let p: usize = spiral[i];
        assert(spiral@.take(i + 1).drop_last() =~= spiral@.take(i as int));
        proof {
            reveal(Seq::filter);
        }
        if cell_in_zones(zones, (p % width) as u64, (p / width) as u64) {
            kept.push(p);
        }
        i = i + 1;
    }
    assert(spiral@.take(i as int) =~= spiral@);
    kept
}

/// Builds the flat, ordered list of pixel indices covered by the synth's
/// zones. By default each zone is read in full, one after the other in
/// drawing order, following the reading direction: line by line for the
/// horizontal directions, column by column for the vertical ones, and with
/// a spiral from the zone's top-left corner toward its center for the two
/// spiral directions. With `sorted` the pixels of all zones are merged and
/// ordered by their absolute position in the image (in the reading
/// direction) — one continuous sweep instead of per-zone blocks — except
/// for the spiral directions, where the spiral is computed globally over
/// the whole selection (bounding box spiral, filtered to the selected
/// pixels, deduplicated): a scattered selection then reads in a seemingly
/// random yet reproducible order. An empty zone list yields an empty
/// sequence (nothing selected); zones are clipped to the image bounds.
pub fn build_pixel_sequence(
    zones: &[PixelZone],
    width: usize,
    height: usize,
    direction: ReadingDirection,
    sorted: bool,
) -> (sequence: Vec<usize>)
    requires
        width * height <= usize::MAX,
    ensures
        sequence@ == pixel_sequence(zones@, width, height, direction, sorted),
{
    let mut sequence: Vec<usize> = Vec::new();
    let spiral_reading = match direction {
        ReadingDirection::Spiral | ReadingDirection::SpiralReverse => true,
        _ => false,
    };
    if sorted && width > 0 && spiral_reading {
        let (left, top, right, bottom) = bounding_box(zones, width, height);
        let clockwise = match direction {
            ReadingDirection::Spiral => true,
            _ => false,
        };
        proof {
            if left < right && top < bottom {
                lemma_in_image(right - 1, bottom - 1, width as int, height as int);
            }
        }
        push_spiral_rect(&mut sequence, left, top, right, bottom, width, clockwise);
        assert(sequence@ =~= indices(
            box_spiral(zones@, width as int, height as int, clockwise),
            width as int,
        ));
        return keep_selected(&sequence, zones, width);
    }
    let mut i: usize = 0;
    while i < zones.len()
        invariant
            i <= zones.len(),
            width * height <= usize::MAX,
            sequence@ == indices(
                zone_by_zone(zones@.take(i as int), width as int, height as int, direction),
                width as int,
            ),
        decreases zones.len() - i,
    {
        proof {
            assert(zones@.take(i + 1).drop_last() =~= zones@.take(i as int));
            lemma_indices_concat(
                zone_by_zone(zones@.take(i as int), width as int, height as int, direction),
                zone_cells(zones@[i as int], width as int, height as int, direction),
                width as int,
            );
        }
        push_zone(&mut sequence, zones[i], width, height, direction);
        i = i + 1;
    }
    assert(zones@.take(i as int) =~= zones@);
    if sorted && width > 0 {
        let ghost blocks = sequence@;
        let ghost order = sweep_order(width, direction);
        sort_by_sweep_key(&mut sequence, width, direction);
        proof {
            lemma_sweep_order_is_total(width, direction);
            blocks.lemma_sort_by_ensures(order);
            vstd::seq_lib::lemma_sorted_unique(sequence@, blocks.sort_by(order), order);
        }
    }
    sequence
}

/// The first place of a pixel in a sequence; its length where the pixel is
/// missing.
pub open spec fn place_of(sequence: Seq<usize>, pixel: usize) -> nat
    decreases sequence.len(),
{
    if sequence.len() == 0 || sequence[0] == pixel {
        0
    } else {
        1 + place_of(sequence.drop_first(), pixel)
    }
}

/// The cursor that keeps the playhead on its pixel when the sequence `old`
/// gives way to `new`: the beginning where there is no such pixel.
pub open spec fn moved_cursor(cursor: usize, old: Seq<usize>, new: Seq<usize>) -> nat {
    if old.len() == 0 {
        0
    } else {
        let place = place_of(new, old[cursor as int % old.len() as int]);
        if place < new.len() {
            place
        } else {
            0
        }
    }
}

/// Computes the sequence index of the pixel currently under the synth's
/// playhead, once its sequence has changed (zones edited, sorted reading
/// or reading direction changed): keeps the playhead on the same pixel
/// instead of restarting at the beginning. Returns 0 when the pixel is no
/// longer selected (or the old sequence was empty).
pub fn remapped_cursor(
    synth: &Synth,
    old_zones: &[PixelZone],
    new_zones: &[PixelZone],
    old_sorted: bool,
    new_sorted: bool,
    old_direction: ReadingDirection,
    new_direction: ReadingDirection,
    width: usize,
    height: usize,
) -> (cursor: usize)
    requires
        width * height <= usize::MAX,
    ensures
        cursor == moved_cursor(
            synth.cursor,
            pixel_sequence(old_zones@, width, height, old_direction, old_sorted),
            pixel_sequence(new_zones@, width, height, new_direction, new_sorted),
        ),
{
    let old_seq = build_pixel_sequence(old_zones, width, height, old_direction, old_sorted);
    if old_seq.len() == 0 {
        return 0;
    }
    let pixel: usize = old_seq[synth.cursor % old_seq.len()];
    let new_seq = build_pixel_sequence(new_zones, width, height, new_direction, new_sorted);
    let mut i: usize = 0;
    assert(new_seq@.skip(0) =~= new_seq@);
    while i < new_seq.len()
        invariant
            i <= new_seq.len(),
            place_of(new_seq@, pixel) == i + place_of(new_seq@.skip(i as int), pixel),
            old_seq.len() > 0,
            pixel == old_seq@[synth.cursor as int % old_seq@.len() as int],
            old_seq@ == pixel_sequence(old_zones@, width, height, old_direction, old_sorted),
            new_seq@ == pixel_sequence(new_zones@, width, height, new_direction, new_sorted),
        decreases new_seq.len() - i,
    {
        if new_seq[i] == pixel {
            return i;
        }
        assert(new_seq@.skip(i as int).drop_first() =~= new_seq@.skip(i + 1));
        i = i + 1;
    }
    0
}

} // verus!
