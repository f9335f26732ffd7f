//! What holds of every pixel sequence, whatever the zones.

use vstd::prelude::*;
use vstd::relations::*;

use crate::sequence::{self, Cell};
use crate::state::{PixelZone, ReadingDirection};

verus! {

/// True of the cells in columns `left..right`, rows `top..bottom`.
pub open spec fn inside(cell: Cell, left: int, top: int, right: int, bottom: int) -> bool {
    left <= cell.0 < right && top <= cell.1 < bottom
}

/// True when the sequence holds every cell of the rectangle exactly once,
/// and no other cell.
pub open spec fn visits_once(cells: Seq<Cell>, left: int, top: int, right: int, bottom: int) -> bool {
    &&& cells.no_duplicates()
    &&& forall|cell: Cell| #[trigger]
        cells.contains(cell) <==> inside(cell, left, top, right, bottom)
}

proof fn lemma_rightward(y: int, from: int, to: int)
    ensures
        visits_once(sequence::rightward(y, from, to), from, y, to, y + 1),
{
    let cells = sequence::rightward(y, from, to);
    assert forall|cell: Cell| inside(cell, from, y, to, y + 1) implies #[trigger] cells.contains(
        cell,
    ) by {
        assert(cells[cell.0 - from] == cell);
    }
}

proof fn lemma_leftward(y: int, from: int, to: int)
    ensures
        visits_once(sequence::leftward(y, from, to), from, y, to, y + 1),
{
    let cells = sequence::leftward(y, from, to);
    assert forall|cell: Cell| inside(cell, from, y, to, y + 1) implies #[trigger] cells.contains(
        cell,
    ) by {
        assert(cells[to - 1 - cell.0] == cell);
    }
}

proof fn lemma_downward(x: int, from: int, to: int)
    ensures
        visits_once(sequence::downward(x, from, to), x, from, x + 1, to),
{
    let cells = sequence::downward(x, from, to);
    assert forall|cell: Cell| inside(cell, x, from, x + 1, to) implies #[trigger] cells.contains(
        cell,
    ) by {
        assert(cells[cell.1 - from] == cell);
    }
}

proof fn lemma_upward(x: int, from: int, to: int)
    ensures
        visits_once(sequence::upward(x, from, to), x, from, x + 1, to),
{
    let cells = sequence::upward(x, from, to);
    assert forall|cell: Cell| inside(cell, x, from, x + 1, to) implies #[trigger] cells.contains(
        cell,
    ) by {
        assert(cells[to - 1 - cell.1] == cell);
    }
}

/// Two duplicate-free sequences without a common cell, one after the other.
proof fn lemma_disjoint_concat(a: Seq<Cell>, b: Seq<Cell>)
    requires
        a.no_duplicates(),
        b.no_duplicates(),
        forall|cell: Cell| !(#[trigger] a.contains(cell) && #[trigger] b.contains(cell)),
    ensures
        (a + b).no_duplicates(),
        forall|cell: Cell| #[trigger]
            (a + b).contains(cell) <==> a.contains(cell) || b.contains(cell),
{
    assert forall|i: int, j: int| 0 <= i < a.len() && 0 <= j < b.len() implies a[i] != b[j] by {
        assert(a.contains(a[i]));
        assert(b.contains(b[j]));
    }
    vstd::seq_lib::lemma_no_dup_in_concat(a, b);
    assert forall|cell: Cell| #[trigger] (a + b).contains(cell) <==> a.contains(cell) || b.contains(
        cell,
    ) by {
        vstd::seq_lib::lemma_seq_concat_contains_all_elements(a, b, cell);
    }
}

/// A ring holds each cell on the border of its rectangle exactly once.
proof fn lemma_ring(left: int, top: int, right: int, bottom: int, clockwise: bool)
    requires
        left < right,
        top < bottom,
    ensures
        sequence::ring(left, top, right, bottom, clockwise).no_duplicates(),
        forall|cell: Cell| #[trigger]
            sequence::ring(left, top, right, bottom, clockwise).contains(cell) <==> (inside(
                cell,
                left,
                top,
                right,
                bottom,
            ) && !inside(cell, left + 1, top + 1, right - 1, bottom - 1)),
{
    if clockwise {
        let first = sequence::rightward(top, left, right);
        let second = sequence::downward(right - 1, top + 1, bottom);
        let third = if bottom - top > 1 {
            sequence::leftward(bottom - 1, left, right - 1)
        } else {
            Seq::empty()
        };
        let fourth = if right - left > 1 {
            sequence::upward(left, top + 1, bottom - 1)
        } else {
            Seq::empty()
        };
        lemma_rightward(top, left, right);
        lemma_downward(right - 1, top + 1, bottom);
        lemma_leftward(bottom - 1, left, right - 1);
        lemma_upward(left, top + 1, bottom - 1);
        lemma_disjoint_concat(first, second);
        lemma_disjoint_concat(first + second, third);
        lemma_disjoint_concat(first + second + third, fourth);
    } else {
        let first = sequence::downward(left, top, bottom);
        let second = sequence::rightward(bottom - 1, left + 1, right);
        let third = if right - left > 1 {
            sequence::upward(right - 1, top, bottom - 1)
        } else {
            Seq::empty()
        };
        let fourth = if bottom - top > 1 {
            sequence::leftward(top, left + 1, right - 1)
        } else {
            Seq::empty()
        };
        lemma_downward(left, top, bottom);
        lemma_rightward(bottom - 1, left + 1, right);
        lemma_upward(right - 1, top, bottom - 1);
        lemma_leftward(top, left + 1, right - 1);
        lemma_disjoint_concat(first, second);
        lemma_disjoint_concat(first + second, third);
        lemma_disjoint_concat(first + second + third, fourth);
    }
}

/// A spiral holds each cell of its rectangle exactly once, degenerate
/// rectangles included.
pub proof fn spiral_visits_every_cell_once(
    left: int,
    top: int,
    right: int,
    bottom: int,
    clockwise: bool,
)
    ensures
        visits_once(sequence::spiral(left, top, right, bottom, clockwise), left, top, right, bottom),
    decreases sequence::span(left, right),
{
    if left < right && top < bottom {
        spiral_visits_every_cell_once(left + 1, top + 1, right - 1, bottom - 1, clockwise);
        lemma_ring(left, top, right, bottom, clockwise);
        lemma_disjoint_concat(
            sequence::ring(left, top, right, bottom, clockwise),
            sequence::spiral(left + 1, top + 1, right - 1, bottom - 1, clockwise),
        );
    }
}

/// Whatever the direction, a rectangle is read in full: each of its cells
/// comes exactly once.
pub proof fn sweep_visits_every_cell_once(
    left: int,
    top: int,
    right: int,
    bottom: int,
    direction: ReadingDirection,
)
    ensures
        visits_once(sequence::sweep(left, top, right, bottom, direction), left, top, right, bottom),
    decreases sequence::span(left, right) + sequence::span(top, bottom),
{
    match direction {
        ReadingDirection::LeftToRight => if top < bottom {
            sweep_visits_every_cell_once(left, top + 1, right, bottom, direction);
            lemma_rightward(top, left, right);
            lemma_disjoint_concat(
                sequence::rightward(top, left, right),
                sequence::sweep(left, top + 1, right, bottom, direction),
            );
        },
        ReadingDirection::RightToLeft => if top < bottom {
            sweep_visits_every_cell_once(left, top + 1, right, bottom, direction);
            lemma_leftward(top, left, right);
            lemma_disjoint_concat(
                sequence::leftward(top, left, right),
                sequence::sweep(left, top + 1, right, bottom, direction),
            );
        },
        ReadingDirection::TopToBottom => if left < right {
            sweep_visits_every_cell_once(left + 1, top, right, bottom, direction);
            lemma_downward(left, top, bottom);
            lemma_disjoint_concat(
                sequence::downward(left, top, bottom),
                sequence::sweep(left + 1, top, right, bottom, direction),
            );
        },
        ReadingDirection::BottomToTop => if left < right {
            sweep_visits_every_cell_once(left + 1, top, right, bottom, direction);
            lemma_upward(left, top, bottom);
            lemma_disjoint_concat(
                sequence::upward(left, top, bottom),
                sequence::sweep(left + 1, top, right, bottom, direction),
            );
        },
        ReadingDirection::Spiral => spiral_visits_every_cell_once(left, top, right, bottom, true),
        ReadingDirection::SpiralReverse => spiral_visits_every_cell_once(
            left,
            top,
            right,
            bottom,
            false,
        ),
    }
}

/// The cell of a pixel in an image of the given width.
pub open spec fn cell_of(p: usize, width: usize) -> Cell {
    (p as int % width as int, p as int / width as int)
}

/// In an image, cells and pixel indices stand for one another.
proof fn lemma_index_of_cell(cell: Cell, width: usize, height: usize)
    requires
        inside(cell, 0, 0, width as int, height as int),
        width * height <= usize::MAX,
    ensures
        sequence::pixel_index(cell, width as int) < width * height,
        cell_of(sequence::pixel_index(cell, width as int), width) == cell,
{
    assert(0 <= cell.1 * width + cell.0 < width * height) by (nonlinear_arith)
        requires
            0 <= cell.0 < width,
            0 <= cell.1 < height,
    ;
    vstd::arithmetic::div_mod::lemma_fundamental_div_mod_converse(
        cell.1 * width + cell.0,
        width as int,
        cell.1,
        cell.0,
    );
}

proof fn lemma_cell_of_index(p: usize, width: usize, height: usize)
    requires
        p < width * height,
        width * height <= usize::MAX,
    ensures
        width > 0,
        inside(cell_of(p, width), 0, 0, width as int, height as int),
        sequence::pixel_index(cell_of(p, width), width as int) == p,
{
    assert(width > 0) by (nonlinear_arith)
        requires
            p < width * height,
            p >= 0,
            width >= 0,
    ;
    vstd::arithmetic::div_mod::lemma_fundamental_div_mod(p as int, width as int);
    let row = p as int / width as int;
    assert(row < height) by (nonlinear_arith)
        requires
            p < width * height,
            p == width * row + p as int % width as int,
            0 <= p as int % width as int,
            width > 0,
    ;
    assert(row * width == width * row) by (nonlinear_arith);
}

proof fn lemma_indices_hold(cells: Seq<Cell>, width: usize, height: usize)
    requires
        width * height <= usize::MAX,
        forall|cell: Cell| #[trigger]
            cells.contains(cell) ==> inside(cell, 0, 0, width as int, height as int),
    ensures
        forall|p: usize| #[trigger]
            sequence::indices(cells, width as int).contains(p) <==> (p < width * height && cells.contains(
                cell_of(p, width),
            )),
        cells.no_duplicates() ==> sequence::indices(cells, width as int).no_duplicates(),
{
    let w = width as int;
    assert forall|i: int| 0 <= i < cells.len() implies sequence::pixel_index(#[trigger] cells[i], w) < width
        * height && cell_of(sequence::pixel_index(cells[i], w), width) == cells[i] by {
        assert(cells.contains(cells[i]));
        lemma_index_of_cell(cells[i], width, height);
    }
    assert forall|p: usize| #[trigger] sequence::indices(cells, w).contains(p) <==> (p < width * height
        && cells.contains(cell_of(p, width))) by {
        if sequence::indices(cells, w).contains(p) {
            let i = choose|i: int| 0 <= i < cells.len() && sequence::indices(cells, w)[i] == p;
            assert(cells.contains(cells[i]));
        }
        if p < width * height && cells.contains(cell_of(p, width)) {
            let i = choose|i: int| 0 <= i < cells.len() && cells[i] == cell_of(p, width);
            lemma_cell_of_index(p, width, height);
            assert(sequence::indices(cells, w)[i] == p);
        }
    }
    if cells.no_duplicates() {
        assert forall|i: int, j: int| 0 <= i < j < cells.len() implies sequence::indices(cells, w)[i]
            != sequence::indices(cells, w)[j] by {
            assert(cells[i] != cells[j]);
        }
    }
}

proof fn lemma_zone_cells(zone: PixelZone, width: int, height: int, direction: ReadingDirection)
    requires
        0 <= width,
        0 <= height,
    ensures
        sequence::zone_cells(zone, width, height, direction).no_duplicates(),
        forall|cell: Cell| #[trigger]
            sequence::zone_cells(zone, width, height, direction).contains(cell) <==> (inside(
                cell,
                0,
                0,
                width,
                height,
            ) && sequence::covers(zone, cell.0, cell.1)),
{
    let left = sequence::min(zone.x as int, width);
    let top = sequence::min(zone.y as int, height);
    sweep_visits_every_cell_once(
        left,
        top,
        sequence::min(left + zone.w, width),
        sequence::min(top + zone.h, height),
        direction,
    );
}

proof fn lemma_zone_by_zone(
    zones: Seq<PixelZone>,
    width: int,
    height: int,
    direction: ReadingDirection,
)
    requires
        0 <= width,
        0 <= height,
    ensures
        forall|cell: Cell| #[trigger]
            sequence::zone_by_zone(zones, width, height, direction).contains(cell) <==> (inside(
                cell,
                0,
                0,
                width,
                height,
            ) && sequence::selected(zones, cell.0, cell.1)),
    decreases zones.len(),
{
    if zones.len() > 0 {
        let before = sequence::zone_by_zone(zones.drop_last(), width, height, direction);
        let last = sequence::zone_cells(zones.last(), width, height, direction);
        lemma_zone_by_zone(zones.drop_last(), width, height, direction);
        lemma_zone_cells(zones.last(), width, height, direction);
        assert forall|cell: Cell| #[trigger]
            sequence::zone_by_zone(zones, width, height, direction).contains(cell) <==> (inside(
                cell,
                0,
                0,
                width,
                height,
            ) && sequence::selected(zones, cell.0, cell.1)) by {
            vstd::seq_lib::lemma_seq_concat_contains_all_elements(before, last, cell);
            if sequence::selected(zones.drop_last(), cell.0, cell.1) {
                let i = choose|i: int|
                    0 <= i < zones.drop_last().len() && sequence::covers(
                        #[trigger] zones.drop_last()[i],
                        cell.0,
                        cell.1,
                    );
                assert(sequence::covers(zones[i], cell.0, cell.1));
            }
            if sequence::covers(zones.last(), cell.0, cell.1) {
                assert(sequence::covers(zones[zones.len() - 1], cell.0, cell.1));
            }
            if sequence::selected(zones, cell.0, cell.1) {
                let i = choose|i: int|
                    0 <= i < zones.len() && sequence::covers(#[trigger] zones[i], cell.0, cell.1);
                if i < zones.len() - 1 {
                    assert(sequence::covers(zones.drop_last()[i], cell.0, cell.1));
                }
            }
        }
    }
}

/// The bounding box of the zones reaches every cell that they cover.
proof fn lemma_bounding_box(zones: Seq<PixelZone>, i: int)
    requires
        0 <= i < zones.len(),
    ensures
        0 <= sequence::leftmost(zones) <= zones[i].x,
        0 <= sequence::topmost(zones) <= zones[i].y,
        zones[i].x + zones[i].w <= sequence::right_end(zones),
        zones[i].y + zones[i].h <= sequence::bottom_end(zones),
    decreases zones.len(),
{
    if zones.len() > 1 {
        if i < zones.len() - 1 {
            lemma_bounding_box(zones.drop_last(), i);
        } else {
            lemma_bounding_box(zones.drop_last(), 0);
        }
    }
}

proof fn lemma_box_spiral(zones: Seq<PixelZone>, width: int, height: int, clockwise: bool)
    requires
        0 <= width,
        0 <= height,
    ensures
        sequence::box_spiral(zones, width, height, clockwise).no_duplicates(),
        forall|cell: Cell| #[trigger]
            sequence::box_spiral(zones, width, height, clockwise).contains(cell) ==> inside(
                cell,
                0,
                0,
                width,
                height,
            ),
        forall|cell: Cell|
            inside(cell, 0, 0, width, height) && sequence::selected(zones, cell.0, cell.1)
                ==> #[trigger] sequence::box_spiral(zones, width, height, clockwise).contains(cell),
{
    spiral_visits_every_cell_once(
        sequence::leftmost(zones),
        sequence::topmost(zones),
        sequence::min(sequence::right_end(zones), width),
        sequence::min(sequence::bottom_end(zones), height),
        clockwise,
    );
    if zones.len() > 0 {
        lemma_bounding_box(zones, 0);
    }
    assert forall|cell: Cell|
        inside(cell, 0, 0, width, height) && sequence::selected(
            zones,
            cell.0,
            cell.1,
        ) implies #[trigger] sequence::box_spiral(zones, width, height, clockwise).contains(cell) by {
        let i = choose|i: int|
            0 <= i < zones.len() && sequence::covers(#[trigger] zones[i], cell.0, cell.1);
        lemma_bounding_box(zones, i);
    }
}

proof fn lemma_filter_keeps_no_duplicates(pixels: Seq<usize>, pred: spec_fn(usize) -> bool)
    requires
        pixels.no_duplicates(),
    ensures
        pixels.filter(pred).no_duplicates(),
        forall|p: usize| #[trigger]
            pixels.filter(pred).contains(p) <==> pixels.contains(p) && pred(p),
    decreases pixels.len(),
{
    reveal(Seq::filter);
    if pixels.len() > 0 {
        let rest = pixels.drop_last();
        lemma_filter_keeps_no_duplicates(rest, pred);
        assert forall|p: usize| #[trigger] pixels.filter(pred).contains(p) <==> pixels.contains(p)
            && pred(p) by {
            if pixels.contains(p) {
                let i = choose|i: int| 0 <= i < pixels.len() && pixels[i] == p;
                if i < pixels.len() - 1 {
                    assert(rest[i] == p);
                    assert(rest.contains(p));
                }
            }
            if rest.contains(p) {
                let i = choose|i: int| 0 <= i < rest.len() && rest[i] == p;
                assert(pixels[i] == p);
            }
            if pred(pixels.last()) {
                let kept = rest.filter(pred);
                assert(pixels.filter(pred) == kept.push(pixels.last()));
                assert(kept.push(pixels.last())[kept.len() as int] == pixels.last());
                if kept.contains(p) {
                    let i = choose|i: int| 0 <= i < kept.len() && kept[i] == p;
                    assert(kept.push(pixels.last())[i] == p);
                }
            }
        }
        assert(!rest.contains(pixels.last())) by {
            if rest.contains(pixels.last()) {
                let i = choose|i: int| 0 <= i < rest.len() && rest[i] == pixels.last();
                assert(pixels[i] == pixels[pixels.len() - 1]);
            }
        }
        assert(!rest.filter(pred).contains(pixels.last()));
    }
}

/// A sequence holds the selected pixels of the image and no others,
/// whatever the reading direction and whether it is sorted or not: a
/// change of direction or of the sorting never loses the pixel that is
/// being played.
pub proof fn sequence_holds_the_selected_pixels(
    zones: Seq<PixelZone>,
    width: usize,
    height: usize,
    direction: ReadingDirection,
    sorted: bool,
)
    requires
        width * height <= usize::MAX,
    ensures
        forall|p: usize| #[trigger]
            sequence::pixel_sequence(zones, width, height, direction, sorted).contains(p) <==> (p < width
                * height && sequence::selected(zones, p as int % width as int, p as int / width as int)),
{
    let w = width as int;
    let h = height as int;
    let blocks = sequence::indices(sequence::zone_by_zone(zones, w, h, direction), w);
    lemma_zone_by_zone(zones, w, h, direction);
    lemma_indices_hold(sequence::zone_by_zone(zones, w, h, direction), width, height);
    assert forall|p: usize| #[trigger] blocks.contains(p) <==> (p < width * height && sequence::selected(
        zones,
        p as int % w,
        p as int / w,
    )) by {
        if p < width * height {
            lemma_cell_of_index(p, width, height);
        }
    }
    if sorted && width > 0 {
        if sequence::is_spiral(direction) {
            let whole = sequence::box_spiral(zones, w, h, direction is Spiral);
            lemma_box_spiral(zones, w, h, direction is Spiral);
            lemma_indices_hold(whole, width, height);
            lemma_filter_keeps_no_duplicates(sequence::indices(whole, w), sequence::selected_pixel(zones, w));
            assert forall|p: usize| #[trigger]
                sequence::pixel_sequence(zones, width, height, direction, sorted).contains(p) <==> (p < width
                    * height && sequence::selected(zones, p as int % w, p as int / w)) by {
                if p < width * height {
                    lemma_cell_of_index(p, width, height);
                }
            }
        } else {
            sorted_reading_replays_the_same_pixels(zones, width, height, direction);
            let sweep = sequence::pixel_sequence(zones, width, height, direction, sorted);
            blocks.to_multiset_ensures();
            sweep.to_multiset_ensures();
            assert forall|p: usize| #[trigger] sweep.contains(p) <==> blocks.contains(p) by {
                assert(sweep.to_multiset().count(p) == blocks.to_multiset().count(p));
            }
        }
    }
}

/// Sorting a linear reading plays the same pixels, each as many times as
/// before.
pub proof fn sorted_reading_replays_the_same_pixels(
    zones: Seq<PixelZone>,
    width: usize,
    height: usize,
    direction: ReadingDirection,
)
    requires
        !sequence::is_spiral(direction),
    ensures
        sequence::pixel_sequence(zones, width, height, direction, true).to_multiset() == sequence::pixel_sequence(
            zones,
            width,
            height,
            direction,
            false,
        ).to_multiset(),
{
    if width > 0 {
        sequence::lemma_sweep_order_is_total(width, direction);
        sequence::pixel_sequence(zones, width, height, direction, false).lemma_sort_by_ensures(
            sequence::sweep_order(width, direction),
        );
    }
}

/// A sorted linear reading is one continuous sweep of the image: rows from
/// top to bottom for the horizontal directions, each in the reading
/// direction; columns from left to right for the vertical ones.
pub proof fn sorted_reading_is_one_sweep(
    zones: Seq<PixelZone>,
    width: usize,
    height: usize,
    direction: ReadingDirection,
    i: int,
    j: int,
)
    requires
        !sequence::is_spiral(direction),
        width > 0,
        0 <= i < j < sequence::pixel_sequence(zones, width, height, direction, true).len(),
    ensures
        ({
            let (x, y) = cell_of(
                sequence::pixel_sequence(zones, width, height, direction, true)[i],
                width,
            );
            let (later_x, later_y) = cell_of(
                sequence::pixel_sequence(zones, width, height, direction, true)[j],
                width,
            );
            match direction {
                ReadingDirection::LeftToRight => y < later_y || (y == later_y && x <= later_x),
                ReadingDirection::RightToLeft => y < later_y || (y == later_y && x >= later_x),
                ReadingDirection::TopToBottom => x < later_x || (x == later_x && y <= later_y),
                _ => x < later_x || (x == later_x && y >= later_y),
            }
        }),
{
    let order = sequence::sweep_order(width, direction);
    let blocks = sequence::pixel_sequence(zones, width, height, direction, false);
    sequence::lemma_sweep_order_is_total(width, direction);
    blocks.lemma_sort_by_ensures(order);
    let sweep = sequence::pixel_sequence(zones, width, height, direction, true);
    assert(sorted_by(sweep, order));
    assert(order(sweep[i], sweep[j]));
}

/// A sorted spiral reads each selected pixel exactly once, even where zones
/// overlap.
pub proof fn sorted_spiral_has_no_duplicates(
    zones: Seq<PixelZone>,
    width: usize,
    height: usize,
    direction: ReadingDirection,
)
    requires
        sequence::is_spiral(direction),
        width * height <= usize::MAX,
    ensures
        sequence::pixel_sequence(zones, width, height, direction, true).no_duplicates(),
{
    let w = width as int;
    let h = height as int;
    if width > 0 {
        let whole = sequence::box_spiral(zones, w, h, direction is Spiral);
        lemma_box_spiral(zones, w, h, direction is Spiral);
        lemma_indices_hold(whole, width, height);
        lemma_filter_keeps_no_duplicates(sequence::indices(whole, w), sequence::selected_pixel(zones, w));
    } else {
        sequence_holds_the_selected_pixels(zones, width, height, direction, true);
        let sequence = sequence::pixel_sequence(zones, width, height, direction, true);
        if sequence.len() > 0 {
            assert(sequence.contains(sequence[0]));
            assert(width * height == 0) by (nonlinear_arith)
                requires
                    width == 0,
            ;
        }
    }
}

/// Without zones there is nothing to read.
pub proof fn no_zone_reads_nothing(
    width: usize,
    height: usize,
    direction: ReadingDirection,
    sorted: bool,
)
    requires
        width * height <= usize::MAX,
    ensures
        sequence::pixel_sequence(Seq::empty(), width, height, direction, sorted).len() == 0,
{
    let zones = Seq::<PixelZone>::empty();
    sequence_holds_the_selected_pixels(zones, width, height, direction, sorted);
    let sequence = sequence::pixel_sequence(zones, width, height, direction, sorted);
    if sequence.len() > 0 {
        assert(sequence.contains(sequence[0]));
    }
}

proof fn lemma_place_of(sequence: Seq<usize>, pixel: usize)
    requires
        sequence.contains(pixel),
    ensures
        sequence::place_of(sequence, pixel) < sequence.len(),
        sequence[sequence::place_of(sequence, pixel) as int] == pixel,
    decreases sequence.len(),
{
    if sequence[0] != pixel {
        let i = choose|i: int| 0 <= i < sequence.len() && sequence[i] == pixel;
        assert(sequence.drop_first()[i - 1] == pixel);
        lemma_place_of(sequence.drop_first(), pixel);
    }
}

/// The playhead stays on its pixel across an edit of the zones, a sort
/// toggle or a change of direction, as long as the pixel is still selected.
pub proof fn playhead_stays_on_its_pixel(
    cursor: usize,
    width: usize,
    height: usize,
    old_zones: Seq<PixelZone>,
    new_zones: Seq<PixelZone>,
    old_sorted: bool,
    new_sorted: bool,
    old_direction: ReadingDirection,
    new_direction: ReadingDirection,
)
    requires
        width * height <= usize::MAX,
        ({
            let old = sequence::pixel_sequence(old_zones, width, height, old_direction, old_sorted);
            let (x, y) = cell_of(old[cursor as int % old.len() as int], width);
            old.len() > 0 && sequence::selected(new_zones, x, y)
        }),
    ensures
        ({
            let old = sequence::pixel_sequence(old_zones, width, height, old_direction, old_sorted);
            let new = sequence::pixel_sequence(new_zones, width, height, new_direction, new_sorted);
            let place = sequence::moved_cursor(cursor, old, new);
            place < new.len() && new[place as int] == old[cursor as int % old.len() as int]
        }),
{
    let old = sequence::pixel_sequence(old_zones, width, height, old_direction, old_sorted);
    let new = sequence::pixel_sequence(new_zones, width, height, new_direction, new_sorted);
    let pixel = old[cursor as int % old.len() as int];
    sequence_holds_the_selected_pixels(old_zones, width, height, old_direction, old_sorted);
    sequence_holds_the_selected_pixels(new_zones, width, height, new_direction, new_sorted);
    assert(old.contains(pixel));
    assert(new.contains(pixel));
    lemma_place_of(new, pixel);
}

/// The way from one cell to another, as (columns, rows).
pub open spec fn way(from: Cell, to: Cell) -> Cell {
    (to.0 - from.0, to.1 - from.1)
}

/// True when a way leads to one of the four neighboring cells.
pub open spec fn is_step(way: Cell) -> bool {
    way == (1int, 0int) || way == (0int, 1int) || way == (-1int, 0int) || way == (0int, -1int)
}

/// How two ways turn, rows counted downward: positive to the right, negative
/// to the left, 0 straight on.
pub open spec fn turn(first: Cell, second: Cell) -> int {
    first.0 * second.1 - first.1 * second.0
}

/// True when the cell after place `i` is a neighbor of the one at it.
pub open spec fn steps_at(cells: Seq<Cell>, i: int) -> bool {
    is_step(way(cells[i], cells[i + 1]))
}

/// True when the two steps after place `i` go straight on or turn in the given
/// sense.
pub open spec fn bends_at(cells: Seq<Cell>, i: int, clockwise: bool) -> bool {
    let bend = turn(way(cells[i], cells[i + 1]), way(cells[i + 1], cells[i + 2]));
    if clockwise {
        bend >= 0
    } else {
        bend <= 0
    }
}

/// True of a walk over a rectangle from its top-left corner, from neighbor to
/// neighbor: clockwise it sets out to the right and never turns left,
/// counterclockwise it sets out downward and never turns right (unless the
/// rectangle is only one column or row wide).
pub open spec fn winds(
    cells: Seq<Cell>,
    left: int,
    top: int,
    right: int,
    bottom: int,
    clockwise: bool,
) -> bool {
    &&& cells.len() > 0 ==> cells[0] == (left, top)
    &&& cells.len() > 1 ==> cells[1] == (if right - left > 1 && (clockwise || bottom - top <= 1) {
        (left + 1, top)
    } else {
        (left, top + 1)
    })
    &&& forall|i: int| 0 <= i < cells.len() - 1 ==> #[trigger] steps_at(cells, i)
    &&& forall|i: int| 0 <= i < cells.len() - 2 ==> #[trigger] bends_at(cells, i, clockwise)
}

/// A ring, cell by cell.
proof fn lemma_ring_cells(left: int, top: int, right: int, bottom: int, clockwise: bool)
    requires
        left < right,
        top < bottom,
    ensures
        ({
            let cells = sequence::ring(left, top, right, bottom, clockwise);
            let (w, h) = (right - left, bottom - top);
            &&& cells.len() == (if w > 1 && h > 1 {
                2 * w + 2 * h - 4
            } else {
                w + h - 1
            })
            &&& forall|i: int|
                0 <= i < cells.len() ==> #[trigger] cells[i] == (if clockwise {
                    if i < w {
                        (left + i, top)
                    } else if i < w + h - 1 {
                        (right - 1, top + 1 + i - w)
                    } else if i < 2 * w + h - 2 {
                        (right - 2 - (i - (w + h - 1)), bottom - 1)
                    } else {
                        (left, bottom - 2 - (i - (2 * w + h - 2)))
                    }
                } else {
                    if i < h {
                        (left, top + i)
                    } else if i < w + h - 1 {
                        (left + 1 + i - h, bottom - 1)
                    } else if i < w + 2 * h - 2 {
                        (right - 1, bottom - 2 - (i - (w + h - 1)))
                    } else {
                        (right - 2 - (i - (w + 2 * h - 2)), top)
                    }
                })
        }),
{
}

proof fn lemma_ring_winds(left: int, top: int, right: int, bottom: int, clockwise: bool)
    requires
        left < right,
        top < bottom,
    ensures
        winds(
            sequence::ring(left, top, right, bottom, clockwise),
            left,
            top,
            right,
            bottom,
            clockwise,
        ),
{
    lemma_ring_cells(left, top, right, bottom, clockwise);
    let cells = sequence::ring(left, top, right, bottom, clockwise);
    assert forall|i: int| 0 <= i < cells.len() - 1 implies #[trigger] steps_at(cells, i) by {
        lemma_ring_steps(left, top, right, bottom, clockwise, i);
    }
    assert forall|i: int| 0 <= i < cells.len() - 2 implies #[trigger] bends_at(
        cells,
        i,
        clockwise,
    ) by {
        lemma_ring_steps(left, top, right, bottom, clockwise, i);
        lemma_ring_steps(left, top, right, bottom, clockwise, i + 1);
        lemma_turn_of_steps(way(cells[i], cells[i + 1]), way(cells[i + 1], cells[i + 2]));
    }
}

/// The step after each place of a ring.
proof fn lemma_ring_steps(
    left: int,
    top: int,
    right: int,
    bottom: int,
    clockwise: bool,
    i: int,
)
    requires
        left < right,
        top < bottom,
        0 <= i < sequence::ring(left, top, right, bottom, clockwise).len() - 1,
    ensures
        ({
            let cells = sequence::ring(left, top, right, bottom, clockwise);
            let (w, h) = (right - left, bottom - top);
            way(cells[i], cells[i + 1]) == (if clockwise {
                if i < w - 1 {
                    (1int, 0int)
                } else if i < w + h - 2 {
                    (0int, 1int)
                } else if i < 2 * w + h - 3 {
                    (-1int, 0int)
                } else {
                    (0int, -1int)
                }
            } else {
                if i < h - 1 {
                    (0int, 1int)
                } else if i < w + h - 2 {
                    (1int, 0int)
                } else if i < w + 2 * h - 3 {
                    (0int, -1int)
                } else {
                    (-1int, 0int)
                }
            })
        }),
{
    lemma_ring_cells(left, top, right, bottom, clockwise);
    let cells = sequence::ring(left, top, right, bottom, clockwise);
    let a = cells[i];
    let b = cells[i + 1];
    assert(way(a, b) == (b.0 - a.0, b.1 - a.1));
}

proof fn lemma_turn_of_steps(first: Cell, second: Cell)
    requires
        is_step(first),
        is_step(second),
    ensures
        turn(first, second) == (if first == (1int, 0int) {
            second.1
        } else if first == (-1int, 0int) {
            -second.1
        } else if first == (0int, 1int) {
            -second.0
        } else {
            second.0
        }),
{
}

/// True when a walk goes from neighbor to neighbor, turning in one sense.
spec fn walks(cells: Seq<Cell>, clockwise: bool) -> bool {
    &&& forall|i: int| 0 <= i < cells.len() - 1 ==> #[trigger] steps_at(cells, i)
    &&& forall|i: int| 0 <= i < cells.len() - 2 ==> #[trigger] bends_at(cells, i, clockwise)
}

/// Two walks joined, where the joint bends in the same sense.
proof fn lemma_joined_walks(a: Seq<Cell>, b: Seq<Cell>, clockwise: bool)
    requires
        walks(a, clockwise),
        walks(b, clockwise),
        b.len() > 0 ==> a.len() > 1 && is_step(way(a[a.len() - 1], b[0])) && bends_at(
            seq![a[a.len() - 2], a[a.len() - 1], b[0]],
            0,
            clockwise,
        ),
        b.len() > 1 ==> bends_at(seq![a[a.len() - 1], b[0], b[1]], 0, clockwise),
    ensures
        walks(a + b, clockwise),
{
    let cells = a + b;
    let n = a.len() as int;
    assert forall|i: int| 0 <= i < cells.len() - 1 implies #[trigger] steps_at(cells, i) by {
        if i + 1 < n {
            assert(steps_at(a, i));
        } else if i >= n {
            assert(steps_at(b, i - n));
        }
    }
    assert forall|i: int| 0 <= i < cells.len() - 2 implies #[trigger] bends_at(
        cells,
        i,
        clockwise,
    ) by {
        if i + 2 < n {
            assert(bends_at(a, i, clockwise));
        } else if i >= n {
            assert(bends_at(b, i - n, clockwise));
        }
    }
}

/// A spiral keeps its sense to the very center: from the top-left corner it
/// goes from neighbor to neighbor, clockwise first to the right and never
/// turning left, counterclockwise first downward and never turning right.
pub proof fn spiral_keeps_its_sense(
    left: int,
    top: int,
    right: int,
    bottom: int,
    clockwise: bool,
)
    ensures
        winds(
            sequence::spiral(left, top, right, bottom, clockwise),
            left,
            top,
            right,
            bottom,
            clockwise,
        ),
    decreases sequence::span(left, right),
{
    if left < right && top < bottom {
        let outer = sequence::ring(left, top, right, bottom, clockwise);
        let inner = sequence::spiral(left + 1, top + 1, right - 1, bottom - 1, clockwise);
        lemma_ring_winds(left, top, right, bottom, clockwise);
        spiral_keeps_its_sense(left + 1, top + 1, right - 1, bottom - 1, clockwise);
        let (l, t, r, b) = (left + 1, top + 1, right - 1, bottom - 1);
        spiral_visits_every_cell_once(l, t, r, b, clockwise);
        if inner.len() > 0 {
            assert(inner.contains(inner[0]));
            lemma_ring_ends(left, top, right, bottom, clockwise);
            lemma_turn_of_steps(
                way(outer[outer.len() - 2], outer[outer.len() - 1]),
                way(outer[outer.len() - 1], inner[0]),
            );
            if inner.len() > 1 {
                assert(steps_at(inner, 0));
                lemma_turn_of_steps(
                    way(outer[outer.len() - 1], inner[0]),
                    way(inner[0], inner[1]),
                );
            }
        } else {
            lemma_ring_starts(left, top, right, bottom, clockwise);
        }
        lemma_joined_walks(outer, inner, clockwise);
    }
}

/// The first and the last cells of a ring around something.
proof fn lemma_ring_ends(left: int, top: int, right: int, bottom: int, clockwise: bool)
    requires
        right - left >= 3,
        bottom - top >= 3,
    ensures
        ({
            let cells = sequence::ring(left, top, right, bottom, clockwise);
            &&& cells.len() > 3
            &&& cells[0] == (left, top)
            &&& cells[1] == (if clockwise {
                (left + 1, top)
            } else {
                (left, top + 1)
            })
            &&& cells[cells.len() - 2] == (if clockwise {
                (left, top + 2)
            } else {
                (left + 2, top)
            })
            &&& cells[cells.len() - 1] == (if clockwise {
                (left, top + 1)
            } else {
                (left + 1, top)
            })
        }),
{
    lemma_ring_cells(left, top, right, bottom, clockwise);
}

/// The first cells of a ring.
proof fn lemma_ring_starts(left: int, top: int, right: int, bottom: int, clockwise: bool)
    requires
        left < right,
        top < bottom,
    ensures
        ({
            let cells = sequence::ring(left, top, right, bottom, clockwise);
            &&& cells.len() > 0
            &&& cells[0] == (left, top)
            &&& cells.len() > 1 ==> cells[1] == (if right - left > 1 && (clockwise || bottom - top
                <= 1) {
                (left + 1, top)
            } else {
                (left, top + 1)
            })
        }),
{
    lemma_ring_cells(left, top, right, bottom, clockwise);
}

/// Every ring of a spiral sets out in the same sense: at each depth that is
/// more than one column and one row wide, the top-left cell is followed by its
/// right neighbor when the spiral is clockwise, by the one below it otherwise.
pub proof fn spiral_sets_out_alike_at_every_depth(
    left: int,
    top: int,
    right: int,
    bottom: int,
    clockwise: bool,
    depth: nat,
)
    requires
        left + depth + 1 < right - depth,
        top + depth + 1 < bottom - depth,
    ensures
        exists|i: int|
            0 <= i && i + 1 < sequence::spiral(left, top, right, bottom, clockwise).len()
                && #[trigger] sequence::spiral(left, top, right, bottom, clockwise)[i] == (
                left + depth,
                top + depth,
            ) && sequence::spiral(left, top, right, bottom, clockwise)[i + 1] == (if clockwise {
                (left + depth + 1, top + depth)
            } else {
                (left + depth, top + depth + 1)
            }),
    decreases depth,
{
    let cells = sequence::spiral(left, top, right, bottom, clockwise);
    let outer = sequence::ring(left, top, right, bottom, clockwise);
    lemma_ring_cells(left, top, right, bottom, clockwise);
    if depth == 0 {
        assert(cells[0] == outer[0] && cells[1] == outer[1]);
    } else {
        let inner = sequence::spiral(left + 1, top + 1, right - 1, bottom - 1, clockwise);
        spiral_sets_out_alike_at_every_depth(
            left + 1,
            top + 1,
            right - 1,
            bottom - 1,
            clockwise,
            (depth - 1) as nat,
        );
        let i = choose|i: int|
            0 <= i && i + 1 < inner.len() && #[trigger] inner[i] == (left + depth, top + depth)
                && inner[i + 1] == (if clockwise {
                (left + depth + 1, top + depth)
            } else {
                (left + depth, top + depth + 1)
            });
        assert(cells[outer.len() + i] == inner[i]);
        assert(cells[outer.len() + i + 1] == inner[i + 1]);
    }
}

/// The cells of some pixels, in the same order.
pub open spec fn cells_of_pixels(pixels: Seq<usize>, width: usize) -> Seq<Cell> {
    Seq::new(pixels.len(), |i: int| cell_of(pixels[i], width))
}

proof fn lemma_cells_come_back(cells: Seq<Cell>, width: usize, height: usize)
    requires
        width * height <= usize::MAX,
        forall|cell: Cell| #[trigger]
            cells.contains(cell) ==> inside(cell, 0, 0, width as int, height as int),
    ensures
        cells_of_pixels(sequence::indices(cells, width as int), width) == cells,
{
    let w = width as int;
    let back = cells_of_pixels(sequence::indices(cells, w), width);
    assert forall|i: int| 0 <= i < cells.len() implies back[i] == cells[i] by {
        assert(cells.contains(cells[i]));
        lemma_index_of_cell(cells[i], width, height);
    }
    assert(back =~= cells);
}

proof fn lemma_zones_in_turn(
    zones: Seq<PixelZone>,
    more: Seq<PixelZone>,
    width: int,
    height: int,
    direction: ReadingDirection,
)
    ensures
        sequence::zone_by_zone(zones + more, width, height, direction) == sequence::zone_by_zone(
            zones,
            width,
            height,
            direction,
        ) + sequence::zone_by_zone(more, width, height, direction),
    decreases more.len(),
{
    let first = sequence::zone_by_zone(zones, width, height, direction);
    if more.len() == 0 {
        assert(zones + more =~= zones);
        assert(first + Seq::<Cell>::empty() =~= first);
    } else {
        lemma_zones_in_turn(zones, more.drop_last(), width, height, direction);
        assert((zones + more).drop_last() =~= zones + more.drop_last());
        assert(sequence::zone_by_zone(zones + more, width, height, direction) =~= first
            + sequence::zone_by_zone(more, width, height, direction));
    }
}

/// Unsorted zones are read in full one after the other, in their drawing
/// order: what more zones add comes after all the others, and is what they
/// read by themselves.
pub proof fn zones_are_read_in_turn(
    zones: Seq<PixelZone>,
    more: Seq<PixelZone>,
    width: usize,
    height: usize,
    direction: ReadingDirection,
)
    ensures
        sequence::pixel_sequence(zones + more, width, height, direction, false)
            == sequence::pixel_sequence(zones, width, height, direction, false)
            + sequence::pixel_sequence(more, width, height, direction, false),
{
    let (w, h) = (width as int, height as int);
    lemma_zones_in_turn(zones, more, w, h, direction);
    assert(sequence::pixel_sequence(zones + more, width, height, direction, false)
        =~= sequence::pixel_sequence(zones, width, height, direction, false)
        + sequence::pixel_sequence(more, width, height, direction, false));
}

/// True when a cell comes before another one in a linear reading: rows from
/// top to bottom for the horizontal directions, each in the reading direction;
/// columns from left to right for the vertical ones.
spec fn comes_before(cell: Cell, later: Cell, direction: ReadingDirection) -> bool {
    match direction {
        ReadingDirection::LeftToRight => cell.1 < later.1 || (cell.1 == later.1 && cell.0
            < later.0),
        ReadingDirection::RightToLeft => cell.1 < later.1 || (cell.1 == later.1 && cell.0
            > later.0),
        ReadingDirection::TopToBottom => cell.0 < later.0 || (cell.0 == later.0 && cell.1
            < later.1),
        _ => cell.0 < later.0 || (cell.0 == later.0 && cell.1 > later.1),
    }
}

proof fn lemma_sweep_order(
    left: int,
    top: int,
    right: int,
    bottom: int,
    direction: ReadingDirection,
)
    requires
        !sequence::is_spiral(direction),
    ensures
        forall|i: int, j: int|
            0 <= i < j < sequence::sweep(left, top, right, bottom, direction).len()
                ==> comes_before(
                #[trigger] sequence::sweep(left, top, right, bottom, direction)[i],
                #[trigger] sequence::sweep(left, top, right, bottom, direction)[j],
                direction,
            ),
    decreases sequence::span(left, right) + sequence::span(top, bottom),
{
    let all = sequence::sweep(left, top, right, bottom, direction);
    let by_rows = direction is LeftToRight || direction is RightToLeft;
    if (by_rows && top < bottom) || (!by_rows && left < right) {
        let first = match direction {
            ReadingDirection::LeftToRight => sequence::rightward(top, left, right),
            ReadingDirection::RightToLeft => sequence::leftward(top, left, right),
            ReadingDirection::TopToBottom => sequence::downward(left, top, bottom),
            _ => sequence::upward(left, top, bottom),
        };
        let (l, t) = if by_rows {
            (left, top + 1)
        } else {
            (left + 1, top)
        };
        let rest = sequence::sweep(l, t, right, bottom, direction);
        lemma_sweep_order(l, t, right, bottom, direction);
        sweep_visits_every_cell_once(l, t, right, bottom, direction);
        assert(all == first + rest);
        assert forall|i: int, j: int| 0 <= i < j < all.len() implies comes_before(
            #[trigger] all[i],
            #[trigger] all[j],
            direction,
        ) by {
            if i >= first.len() {
                assert(all[i] == rest[i - first.len()] && all[j] == rest[j - first.len()]);
            } else if j >= first.len() {
                assert(all[i] == first[i]);
                assert(rest.contains(rest[j - first.len()]));
            } else {
                assert(all[i] == first[i] && all[j] == first[j]);
            }
        }
    }
}

proof fn lemma_single_zone(zone: PixelZone, width: usize, height: usize, direction: ReadingDirection)
    requires
        width * height <= usize::MAX,
    ensures
        cells_of_pixels(
            sequence::pixel_sequence(seq![zone], width, height, direction, false),
            width,
        ) == sequence::zone_cells(zone, width as int, height as int, direction),
{
    let (w, h) = (width as int, height as int);
    let cells = sequence::zone_cells(zone, w, h, direction);
    reveal_with_fuel(sequence::zone_by_zone, 2);
    assert(seq![zone].drop_last() =~= Seq::empty());
    assert(sequence::zone_by_zone(seq![zone], w, h, direction) =~= cells);
    lemma_zone_cells(zone, w, h, direction);
    lemma_cells_come_back(cells, width, height);
}

/// A zone read in a linear direction goes line by line, or column by column,
/// and never meets a pixel twice: rows from top to bottom, left to right or
/// right to left; columns from left to right, top to bottom or bottom to top.
pub proof fn zone_is_read_in_its_direction(
    zone: PixelZone,
    width: usize,
    height: usize,
    direction: ReadingDirection,
    i: int,
    j: int,
)
    requires
        width * height <= usize::MAX,
        !sequence::is_spiral(direction),
        0 <= i < j < sequence::pixel_sequence(seq![zone], width, height, direction, false).len(),
    ensures
        ({
            let pixels = sequence::pixel_sequence(seq![zone], width, height, direction, false);
            let (x, y) = (pixels[i] as int % width as int, pixels[i] as int / width as int);
            let (later_x, later_y) = (
                pixels[j] as int % width as int,
                pixels[j] as int / width as int,
            );
            match direction {
                ReadingDirection::LeftToRight => y < later_y || (y == later_y && x < later_x),
                ReadingDirection::RightToLeft => y < later_y || (y == later_y && x > later_x),
                ReadingDirection::TopToBottom => x < later_x || (x == later_x && y < later_y),
                _ => x < later_x || (x == later_x && y > later_y),
            }
        }),
{
    let pixels = sequence::pixel_sequence(seq![zone], width, height, direction, false);
    let cells = sequence::zone_cells(zone, width as int, height as int, direction);
    lemma_single_zone(zone, width, height, direction);
    assert(cells_of_pixels(pixels, width)[i] == cells[i]);
    assert(cells_of_pixels(pixels, width)[j] == cells[j]);
    let left = sequence::min(zone.x as int, width as int);
    let top = sequence::min(zone.y as int, height as int);
    lemma_sweep_order(
        left,
        top,
        sequence::min(left + zone.w, width as int),
        sequence::min(top + zone.h, height as int),
        direction,
    );
}

proof fn lemma_filter_keeps_all(pixels: Seq<usize>, pred: spec_fn(usize) -> bool)
    requires
        forall|i: int| 0 <= i < pixels.len() ==> pred(#[trigger] pixels[i]),
    ensures
        pixels.filter(pred) == pixels,
    decreases pixels.len(),
{
    reveal(Seq::filter);
    if pixels.len() > 0 {
        lemma_filter_keeps_all(pixels.drop_last(), pred);
        assert(pixels.drop_last().push(pixels.last()) =~= pixels);
    }
}

/// A zone read in a spiral, sorted or not, goes from its top-left cell toward
/// its center without ever changing its sense: clockwise for `Spiral`,
/// counterclockwise for `SpiralReverse`.
pub proof fn zone_is_read_in_a_spiral(
    zone: PixelZone,
    width: usize,
    height: usize,
    direction: ReadingDirection,
    sorted: bool,
)
    requires
        width * height <= usize::MAX,
        zone.x < width,
        zone.y < height,
        direction is Spiral || direction is SpiralReverse,
    ensures
        ({
            let pixels = sequence::pixel_sequence(seq![zone], width, height, direction, sorted);
            let right = if zone.x + zone.w < width {
                zone.x + zone.w
            } else {
                width as int
            };
            let bottom = if zone.y + zone.h < height {
                zone.y + zone.h
            } else {
                height as int
            };
            winds(
                Seq::new(
                    pixels.len(),
                    |i: int| (pixels[i] as int % width as int, pixels[i] as int / width as int),
                ),
                zone.x as int,
                zone.y as int,
                right,
                bottom,
                direction is Spiral,
            )
        }),
{
    let pixels = sequence::pixel_sequence(seq![zone], width, height, direction, sorted);
    let cells = sequence::zone_cells(zone, width as int, height as int, direction);
    lemma_single_zone(zone, width, height, direction);
    spiral_keeps_its_sense(
        zone.x as int,
        zone.y as int,
        sequence::min(zone.x + zone.w, width as int),
        sequence::min(zone.y + zone.h, height as int),
        direction is Spiral,
    );
    sorting_one_zone_keeps_its_spiral(zone, width, height, direction);
    assert(Seq::new(
        pixels.len(),
        |i: int| (pixels[i] as int % width as int, pixels[i] as int / width as int),
    ) =~= cells_of_pixels(pixels, width));
}

/// True when a zone is the bounding box of some zones: it reaches as far as
/// they do on each side, and no further.
pub open spec fn bounds_zones(frame: PixelZone, zones: Seq<PixelZone>) -> bool {
    &&& forall|i: int|
        0 <= i < zones.len() ==> {
            &&& frame.x <= (#[trigger] zones[i]).x
            &&& frame.y <= zones[i].y
            &&& zones[i].x + zones[i].w <= frame.x + frame.w
            &&& zones[i].y + zones[i].h <= frame.y + frame.h
        }
    &&& exists|i: int| 0 <= i < zones.len() && (#[trigger] zones[i]).x == frame.x
    &&& exists|i: int| 0 <= i < zones.len() && (#[trigger] zones[i]).y == frame.y
    &&& exists|i: int|
        0 <= i < zones.len() && (#[trigger] zones[i]).x + zones[i].w == frame.x + frame.w
    &&& exists|i: int|
        0 <= i < zones.len() && (#[trigger] zones[i]).y + zones[i].h == frame.y + frame.h
}

/// The sides of the bounding box are sides of zones.
proof fn lemma_box_is_touched(zones: Seq<PixelZone>) -> (r: (int, int, int, int))
    requires
        zones.len() > 0,
    ensures
        0 <= r.0 < zones.len() && zones[r.0].x == sequence::leftmost(zones),
        0 <= r.1 < zones.len() && zones[r.1].y == sequence::topmost(zones),
        0 <= r.2 < zones.len() && zones[r.2].x + zones[r.2].w == sequence::right_end(zones),
        0 <= r.3 < zones.len() && zones[r.3].y + zones[r.3].h == sequence::bottom_end(zones),
    decreases zones.len(),
{
    let last = zones.len() - 1;
    let rest = zones.drop_last();
    if zones.len() == 1 {
        assert(sequence::right_end(rest) == 0);
        assert(sequence::bottom_end(rest) == 0);
        (0, 0, 0, 0)
    } else {
        let (a, b, c, d) = lemma_box_is_touched(rest);
        (
            if sequence::leftmost(rest) < zones[last].x {
                a
            } else {
                last
            },
            if sequence::topmost(rest) < zones[last].y {
                b
            } else {
                last
            },
            if sequence::right_end(rest) < zones[last].x + zones[last].w {
                last
            } else {
                c
            },
            if sequence::bottom_end(rest) < zones[last].y + zones[last].h {
                last
            } else {
                d
            },
        )
    }
}

/// The spiral of sorted zones is computed over the whole selection: it meets
/// the selected pixels in the order in which a spiral over their bounding box
/// does.
pub proof fn sorted_spiral_runs_over_the_bounding_box(
    zones: Seq<PixelZone>,
    frame: PixelZone,
    width: usize,
    height: usize,
    direction: ReadingDirection,
)
    requires
        width * height <= usize::MAX,
        direction is Spiral || direction is SpiralReverse,
        bounds_zones(frame, zones),
    ensures
        sequence::pixel_sequence(zones, width, height, direction, true)
            == sequence::pixel_sequence(seq![frame], width, height, direction, false).filter(
            sequence::selected_pixel(zones, width as int),
        ),
{
    let (w, h) = (width as int, height as int);
    let (a, b, c, d) = lemma_box_is_touched(zones);
    let i = choose|i: int| 0 <= i < zones.len() && (#[trigger] zones[i]).x == frame.x;
    lemma_bounding_box(zones, i);
    let i = choose|i: int| 0 <= i < zones.len() && (#[trigger] zones[i]).y == frame.y;
    lemma_bounding_box(zones, i);
    let i = choose|i: int|
        0 <= i < zones.len() && (#[trigger] zones[i]).x + zones[i].w == frame.x + frame.w;
    lemma_bounding_box(zones, i);
    let i = choose|i: int|
        0 <= i < zones.len() && (#[trigger] zones[i]).y + zones[i].h == frame.y + frame.h;
    lemma_bounding_box(zones, i);
    assert(sequence::leftmost(zones) == frame.x);
    assert(sequence::topmost(zones) == frame.y);
    assert(sequence::right_end(zones) == frame.x + frame.w);
    assert(sequence::bottom_end(zones) == frame.y + frame.h);
    reveal_with_fuel(sequence::zone_by_zone, 2);
    assert(seq![frame].drop_last() =~= Seq::empty());
    let cells = sequence::zone_cells(frame, w, h, direction);
    assert(sequence::zone_by_zone(seq![frame], w, h, direction) =~= cells);
    if width == 0 {
        sequence_holds_the_selected_pixels(zones, width, height, direction, true);
        sequence_holds_the_selected_pixels(seq![frame], width, height, direction, false);
        assert(width * height == 0) by (nonlinear_arith)
            requires
                width == 0,
        ;
        let left = sequence::pixel_sequence(zones, width, height, direction, true);
        let right = sequence::pixel_sequence(seq![frame], width, height, direction, false);
        assert(left.len() == 0) by {
            if left.len() > 0 {
                assert(left.contains(left[0]));
            }
        }
        assert(right.len() == 0) by {
            if right.len() > 0 {
                assert(right.contains(right[0]));
            }
        }
        reveal(Seq::filter);
        assert(left =~= right.filter(sequence::selected_pixel(zones, w)));
    } else {
        assert(cells =~= sequence::box_spiral(zones, w, h, direction is Spiral));
    }
}

/// With a single zone, sorting changes nothing about its spiral.
pub proof fn sorting_one_zone_keeps_its_spiral(
    zone: PixelZone,
    width: usize,
    height: usize,
    direction: ReadingDirection,
)
    requires
        width * height <= usize::MAX,
        direction is Spiral || direction is SpiralReverse,
    ensures
        sequence::pixel_sequence(seq![zone], width, height, direction, true)
            == sequence::pixel_sequence(seq![zone], width, height, direction, false),
{
    let pixels = sequence::pixel_sequence(seq![zone], width, height, direction, false);
    assert(seq![zone][0] == zone);
    sorted_spiral_runs_over_the_bounding_box(seq![zone], zone, width, height, direction);
    sequence_holds_the_selected_pixels(seq![zone], width, height, direction, false);
    let pred = sequence::selected_pixel(seq![zone], width as int);
    assert forall|i: int| 0 <= i < pixels.len() implies pred(#[trigger] pixels[i]) by {
        assert(pixels.contains(pixels[i]));
    }
    lemma_filter_keeps_all(pixels, pred);
}

proof fn lemma_place_is_first(sequence: Seq<usize>, pixel: usize)
    ensures
        sequence::place_of(sequence, pixel) <= sequence.len(),
        forall|i: int| 0 <= i < sequence::place_of(sequence, pixel) ==> sequence[i] != pixel,
        sequence::place_of(sequence, pixel) < sequence.len() ==> sequence[sequence::place_of(
            sequence,
            pixel,
        ) as int] == pixel,
    decreases sequence.len(),
{
    if sequence.len() > 0 && sequence[0] != pixel {
        let rest = sequence.drop_first();
        lemma_place_is_first(rest, pixel);
        assert forall|i: int| 0 <= i < sequence::place_of(sequence, pixel) implies sequence[i]
            != pixel by {
            if i > 0 {
                assert(rest[i - 1] == sequence[i]);
            }
        }
    }
}

/// The cursor goes to the first place at which the new sequence has the pixel
/// under the playhead, and to the beginning where it has none, or where
/// nothing was being read.
pub proof fn cursor_goes_to_the_first_such_pixel(cursor: usize, old: Seq<usize>, new: Seq<usize>)
    ensures
        old.len() == 0 ==> sequence::moved_cursor(cursor, old, new) == 0,
        old.len() > 0 && !new.contains(old[cursor as int % old.len() as int])
            ==> sequence::moved_cursor(cursor, old, new) == 0,
        old.len() > 0 && new.contains(old[cursor as int % old.len() as int]) ==> {
            let place = sequence::moved_cursor(cursor, old, new) as int;
            &&& place < new.len()
            &&& new[place] == old[cursor as int % old.len() as int]
            &&& forall|i: int| 0 <= i < place ==> new[i] != old[cursor as int % old.len() as int]
        },
{
    if old.len() > 0 {
        let pixel = old[cursor as int % old.len() as int];
        lemma_place_is_first(new, pixel);
        if new.contains(pixel) {
            lemma_place_of(new, pixel);
        }
    }
}

/// A cell is selected when it lies in one of the rectangles: from the left
/// column of a zone, as many columns as it is wide; from its top row, as many
/// rows as it is high.
pub proof fn zones_select_their_rectangles(zones: Seq<PixelZone>, x: int, y: int)
    ensures
        sequence::selected(zones, x, y) <==> exists|i: int|
            0 <= i < zones.len() && (#[trigger] zones[i]).x <= x && x - zones[i].x < zones[i].w
                && zones[i].y <= y && y - zones[i].y < zones[i].h,
{
    if sequence::selected(zones, x, y) {
        let i = choose|i: int| 0 <= i < zones.len() && sequence::covers(#[trigger] zones[i], x, y);
        assert(zones[i].x <= x);
    }
    if exists|i: int|
        0 <= i < zones.len() && (#[trigger] zones[i]).x <= x && x - zones[i].x < zones[i].w
            && zones[i].y <= y && y - zones[i].y < zones[i].h {
        let i = choose|i: int|
            0 <= i < zones.len() && (#[trigger] zones[i]).x <= x && x - zones[i].x < zones[i].w
                && zones[i].y <= y && y - zones[i].y < zones[i].h;
        assert(sequence::covers(zones[i], x, y));
    }
}

} // verus!
