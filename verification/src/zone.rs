//! Exact zone model: run-length-encoded rows grouped into connected
//! components.
//!
//! A [`Zone`] is one connected component of grid cells (4-connectivity:
//! cells touching along an edge are contiguous, corner-touching cells are
//! not). Its shape is stored as horizontal runs of cells, one [`RowRun`]
//! per maximal stretch of selected cells on a row. The exact
//! representation keeps a lasso's shape, never over-covers, and gives exact
//! pixel counts.
//!
//! Zones carry a creation `order` so the reading "zone by zone" (unsorted,
//! per-component) is deterministic: fusions keep the eldest order, and an
//! erase that splits a zone keeps the parent's order for every fragment
//! (fragments are then told apart by their top-left corner).

use vstd::prelude::*;
use vstd::relations::*;

verus! {

/// A maximal horizontal run of selected cells on row `y`: columns
/// `x0..=x1` (closed interval, `x1 >= x0`).
#[derive(Clone, Copy, Debug, PartialEq, Eq, Structural)]
pub struct RowRun {
    pub y: u32,
    pub x0: u32,
    pub x1: u32,
}

impl RowRun {
    /// True when the run covers column `x` of row `y`.
    pub open spec fn covers(self, x: int, y: int) -> bool {
        self.y == y && self.x0 <= x <= self.x1
    }

    /// The number of cells of the run.
    pub open spec fn length(self) -> int {
        self.x1 - self.x0 + 1
    }
}

/// One connected component of cells, encoded as runs sorted by `(y, x0)`;
/// the runs of a row are disjoint (a lasso shape can carry several of them
/// — the gaps of a U-shape's bottom row, for instance). `order` is the
/// creation rank used as the canonical reading order.
#[derive(Clone, Debug, PartialEq, Eq)]
pub struct Zone {
    pub order: u64,
    pub runs: Vec<RowRun>,
}

/// The number of cells of all the runs together.
pub open spec fn total_length(runs: Seq<RowRun>) -> int
    decreases runs.len(),
{
    if runs.len() == 0 {
        0
    } else {
        total_length(runs.drop_last()) + runs.last().length()
    }
}

/// True when one of the runs covers the cell in column `x`, row `y`.
pub open spec fn runs_cover(runs: Seq<RowRun>, x: int, y: int) -> bool {
    exists|i: int| 0 <= i < runs.len() && (#[trigger] runs[i]).covers(x, y)
}

/// The runs are non-empty, sorted by `(y, x0)`, and each is maximal: on a
/// row, at least one unselected cell separates one run from the next.
pub open spec fn runs_are_maximal(runs: Seq<RowRun>) -> bool {
    &&& forall|i: int| 0 <= i < runs.len() ==> (#[trigger] runs[i]).x0 <= runs[i].x1
    &&& forall|i: int, j: int|
        0 <= i < j < runs.len() ==> (#[trigger] runs[i]).y < (#[trigger] runs[j]).y || (runs[i].y
            == runs[j].y && runs[i].x1 + 1 < runs[j].x0)
}

/// The lexicographic order of cells given as (row, column).
pub open spec fn row_order() -> spec_fn((u32, u32), (u32, u32)) -> bool {
    |a: (u32, u32), b: (u32, u32)| a.0 < b.0 || (a.0 == b.0 && a.1 <= b.1)
}

impl Zone {
    /// True when a run covers the cell in column `x`, row `y`.
    pub open spec fn has(self, x: int, y: int) -> bool {
        runs_cover(self.runs@, x, y)
    }

    /// The runs are in their canonical form.
    pub open spec fn well_formed(self) -> bool {
        runs_are_maximal(self.runs@)
    }

    /// The rows of the runs never go up.
    pub open spec fn rows_sorted(self) -> bool {
        forall|i: int, j: int|
            0 <= i < j < self.runs@.len() ==> (#[trigger] self.runs@[i]).y <= (
            #[trigger] self.runs@[j]).y
    }

    /// A zone covering the rectangle `x..x+w`, `y..y+h`. One without width or
    /// height holds no cell, and has no runs.
    pub fn from_rect(order: u64, x: u32, y: u32, w: u32, h: u32) -> (zone: Zone)
        requires
            y + h <= u32::MAX,
            w > 0 && h > 0 ==> x + w <= u32::MAX,
        ensures
            zone.order == order,
            zone.well_formed(),
            w == 0 ==> zone.runs@.len() == 0,
            w > 0 ==> zone.runs@ == Seq::new(
                h as nat,
                |i: int| RowRun { y: (y + i) as u32, x0: x, x1: (x + w - 1) as u32 },
            ),
            total_length(zone.runs@) == w * h,
            forall|cx: int, cy: int| #[trigger]
                zone.has(cx, cy) <==> x <= cx < x + w && y <= cy < y + h,
    {
        let mut runs: Vec<RowRun> = Vec::new();
        if w == 0 {
            return Zone { order, runs };
        }
        let mut row: u32 = y;
        while row < y + h
            invariant
                y <= row <= y + h <= u32::MAX,
                w > 0,
                h > 0 ==> x + w <= u32::MAX,
                runs@ == Seq::new(
                    (row - y) as nat,
                    |i: int| RowRun { y: (y + i) as u32, x0: x, x1: (x + w - 1) as u32 },
                ),
                total_length(runs@) == w * (row - y),
            decreases y + h - row,
        {
            let ghost before = runs@;
            runs.push(RowRun { y: row, x0: x, x1: x + w - 1 });
            proof {
                assert(runs@.drop_last() =~= before);
                assert(w * (row - y) + w == w * (row + 1 - y)) by (nonlinear_arith);
            }
            row = row + 1;
        }
        let zone = Zone { order, runs };
        assert forall|cx: int, cy: int| x <= cx < x + w && y <= cy < y + h implies #[trigger]
            zone.has(cx, cy) by {
            assert(zone.runs@[cy - y].covers(cx, cy));
        }
        zone
    }

    /// A zone from a raw set of cells: runs are rebuilt per row, in no
    /// particular input order. An empty set yields an empty zone (no runs).
    pub fn from_cells(order: u64, cells: &[(u32, u32)]) -> (zone: Zone)
        ensures
            zone.order == order,
            zone.well_formed(),
            forall|x: u32, y: u32| #[trigger]
                zone.has(x as int, y as int) <==> cells@.contains((x, y)),
            total_length(zone.runs@) <= cells@.len(),
    {
        let mut by_row: Vec<(u32, u32)> = Vec::new();
        let mut i: usize = 0;
        while i < cells.len()
            invariant
                i <= cells.len(),
                by_row@ == Seq::new(i as nat, |k: int| (cells@[k].1, cells@[k].0)),
            decreases cells.len() - i,
        {
            let (x, y) = cells[i];
            by_row.push((y, x));
            i = i + 1;
        }
        let ghost unsorted = by_row@;
        sort_cells(&mut by_row);
        proof {
            unsorted.to_multiset_ensures();
            by_row@.to_multiset_ensures();
        }
        let zone = Zone { order, runs: runs_of_sorted(&by_row) };
        assert forall|x: u32, y: u32| #[trigger]
            zone.has(x as int, y as int) <==> cells@.contains((x, y)) by {
            unsorted.to_multiset_ensures();
            by_row@.to_multiset_ensures();
            assert(by_row@.to_multiset().count((y, x)) == unsorted.to_multiset().count((y, x)));
            if cells@.contains((x, y)) {
                let k = choose|k: int| 0 <= k < cells@.len() && cells@[k] == (x, y);
                assert(unsorted[k] == (y, x));
                assert(unsorted.contains((y, x)));
            }
            if unsorted.contains((y, x)) {
                let k = choose|k: int| 0 <= k < unsorted.len() && unsorted[k] == (y, x);
                assert(cells@[k] == (x, y));
            }
        }
        zone
    }

    /// True when the cell (x, y) belongs to the zone.
    pub fn contains(&self, x: u32, y: u32) -> (found: bool)
        requires
            self.rows_sorted(),
        ensures
            found == self.has(x as int, y as int),
    {
        // Runs are sorted by (y, x0) and a row may carry SEVERAL runs (a
        // U-shaped lasso has disjoint segments on its bottom row): skip to
        // the row's first run, then scan the row's runs
        let mut start: usize = 0;
        let mut end: usize = self.runs.len();
        while start < end
            invariant
                self.rows_sorted(),
                start <= end <= self.runs@.len(),
                forall|k: int| 0 <= k < start ==> (#[trigger] self.runs@[k]).y < y,
                forall|k: int| end <= k < self.runs@.len() ==> (#[trigger] self.runs@[k]).y >= y,
            decreases end - start,
        {
            let middle: usize = start + (end - start) / 2;
            if self.runs[middle].y < y {
                start = middle + 1;
            } else {
                end = middle;
            }
        }
        let mut i: usize = start;
        while i < self.runs.len() && self.runs[i].y == y
            invariant
                self.rows_sorted(),
                start <= i <= self.runs@.len(),
                forall|k: int| start <= k < self.runs@.len() ==> (#[trigger] self.runs@[k]).y >= y,
                forall|k: int|
                    0 <= k < i ==> !(#[trigger] self.runs@[k]).covers(x as int, y as int),
            decreases self.runs@.len() - i,
        {
            let run = self.runs[i];
            if x >= run.x0 && x <= run.x1 {
                assert(self.runs@[i as int].covers(x as int, y as int));
                return true;
            }
            i = i + 1;
        }
        assert forall|k: int| 0 <= k < self.runs@.len() implies !(
        #[trigger] self.runs@[k]).covers(x as int, y as int) by {
            if k > i {
                assert(self.runs@[i as int].y <= self.runs@[k].y);
            }
        }
        false
    }

    /// Exact number of cells covered (runs never overlap, so a plain sum of
    /// lengths is exact).
    pub fn pixel_count(&self) -> (count: u64)
        requires
            forall|i: int| 0 <= i < self.runs@.len() ==> (#[trigger] self.runs@[i]).x0
                <= self.runs@[i].x1,
            total_length(self.runs@) <= u64::MAX,
        ensures
            count == total_length(self.runs@),
    {
        let mut count: u64 = 0;
        let mut i: usize = 0;
        while i < self.runs.len()
            invariant
                i <= self.runs@.len(),
                forall|k: int| 0 <= k < self.runs@.len() ==> (#[trigger] self.runs@[k]).x0
                    <= self.runs@[k].x1,
                total_length(self.runs@) <= u64::MAX,
                count == total_length(self.runs@.take(i as int)),
            decreases self.runs@.len() - i,
        {
            proof {
                assert(self.runs@.take(i + 1).drop_last() =~= self.runs@.take(i as int));
                lemma_total_length_grows(self.runs@, i + 1);
            }
            let run = self.runs[i];
            count = count + (run.x1 - run.x0) as u64 + 1;
            i = i + 1;
        }
        assert(self.runs@.take(i as int) =~= self.runs@);
        count
    }

    /// Top-left cell of the bounding box as (row, column) — the canonical
    /// tie-break between fragments of the same creation order, row first
    /// like the reading order.
    pub fn top_left(&self) -> (corner: Option<(u32, u32)>)
        ensures
            self.runs@.len() == 0 ==> corner is None,
            self.runs@.len() > 0 ==> corner == Some((self.runs@[0].y, self.runs@[0].x0)),
    {
        if self.runs.len() == 0 {
            None
        } else {
            let run = self.runs[0];
            Some((run.y, run.x0))
        }
    }

    /// The zone's bounding box, as (x, y, w, h); None when empty.
    pub fn bounding_box(&self) -> (b: Option<(u32, u32, u32, u32)>)
        requires
            self.runs@.len() > 0 ==> {
                &&& 0 <= self.runs@.last().y - self.runs@[0].y < u32::MAX
                &&& 0 <= last_column(self.runs@) - first_column(self.runs@) < u32::MAX
            },
        ensures
            self.runs@.len() == 0 ==> b is None,
            self.runs@.len() > 0 ==> b == Some(
                (
                    first_column(self.runs@) as u32,
                    self.runs@[0].y,
                    (last_column(self.runs@) - first_column(self.runs@) + 1) as u32,
                    (self.runs@.last().y - self.runs@[0].y + 1) as u32,
                ),
            ),
    {
        if self.runs.len() == 0 {
            return None;
        }
        let y0: u32 = self.runs[0].y;
        let y1: u32 = self.runs[self.runs.len() - 1].y;
        let mut x0: u32 = self.runs[0].x0;
        let mut x1: u32 = self.runs[0].x1;
        let mut i: usize = 1;
        while i < self.runs.len()
            invariant
                1 <= i <= self.runs@.len(),
                x0 == first_column(self.runs@.take(i as int)),
                x1 == last_column(self.runs@.take(i as int)),
            decreases self.runs@.len() - i,
        {
            assert(self.runs@.take(i + 1).drop_last() =~= self.runs@.take(i as int));
            let run = self.runs[i];
            if run.x0 < x0 {
                x0 = run.x0;
            }
            if run.x1 > x1 {
                x1 = run.x1;
            }
            i = i + 1;
        }
        assert(self.runs@.take(i as int) =~= self.runs@);
        Some((x0, y0, x1 - x0 + 1, y1 - y0 + 1))
    }
}

/// The leftmost column of the runs, 0 without any run.
pub open spec fn first_column(runs: Seq<RowRun>) -> int
    decreases runs.len(),
{
    if runs.len() == 0 {
        0
    } else if runs.len() == 1 || runs.last().x0 < first_column(runs.drop_last()) {
        runs.last().x0 as int
    } else {
        first_column(runs.drop_last())
    }
}

/// The rightmost column of the runs, 0 without any run.
pub open spec fn last_column(runs: Seq<RowRun>) -> int
    decreases runs.len(),
{
    if runs.len() == 0 {
        0
    } else if runs.len() == 1 || runs.last().x1 > last_column(runs.drop_last()) {
        runs.last().x1 as int
    } else {
        last_column(runs.drop_last())
    }
}

proof fn lemma_total_length_grows(runs: Seq<RowRun>, n: int)
    requires
        0 <= n <= runs.len(),
        forall|i: int| 0 <= i < runs.len() ==> (#[trigger] runs[i]).x0 <= runs[i].x1,
    ensures
        total_length(runs.take(n)) <= total_length(runs),
    decreases runs.len() - n,
{
    if n == runs.len() {
        assert(runs.take(n) =~= runs);
    } else {
        lemma_total_length_grows(runs, n + 1);
        assert(runs.take(n + 1).drop_last() =~= runs.take(n));
    }
}

/// Calls `slice::sort_unstable` on (row, column) pairs: the same pairs come
/// back in lexicographic order.
#[verifier::external_body]
fn sort_cells(cells: &mut Vec<(u32, u32)>)
    ensures
        final(cells)@.to_multiset() == old(cells)@.to_multiset(),
        sorted_by(final(cells)@, row_order()),
{
    cells.sort_unstable();
}

/// The maximal runs of cells given as (row, column) in lexicographic order.
fn runs_of_sorted(cells: &Vec<(u32, u32)>) -> (runs: Vec<RowRun>)
    requires
        sorted_by(cells@, row_order()),
    ensures
        runs_are_maximal(runs@),
        forall|x: u32, y: u32| #[trigger]
            runs_cover(runs@, x as int, y as int) <==> cells@.contains((y, x)),
        total_length(runs@) <= cells@.len(),
{
    let mut runs: Vec<RowRun> = Vec::new();
    let mut i: usize = 0;
    while i < cells.len()
        invariant
            i <= cells.len(),
            sorted_by(cells@, row_order()),
            runs_are_maximal(runs@),
            total_length(runs@) <= i,
            i == 0 <==> runs@.len() == 0,
            i > 0 ==> runs@.last().y == cells@[i - 1].0 && runs@.last().x1 == cells@[i - 1].1,
            forall|x: u32, y: u32| #[trigger]
                runs_cover(runs@, x as int, y as int) <==> cells@.take(i as int).contains((y, x)),
        decreases cells.len() - i,
    {
        let (y, x) = cells[i];
        let ghost before = runs@;
        if i > 0 {
            assert(row_order()(cells@[i - 1], cells@[i as int]));
        }
        let count: usize = runs.len();
        if count > 0 && runs[count - 1].y == y && x - runs[count - 1].x1 <= 1 {
            let last = runs[count - 1];
            runs.set(count - 1, RowRun { y, x0: last.x0, x1: x });
            assert(runs@.drop_last() =~= before.drop_last());
        } else {
            runs.push(RowRun { y, x0: x, x1: x });
            assert(runs@.drop_last() =~= before);
        }
        proof {
            assert forall|cx: u32, cy: u32| #[trigger]
                runs_cover(runs@, cx as int, cy as int) <==> cells@.take(i + 1).contains(
                    (cy, cx),
                ) by {
                lemma_one_more_cell(before, runs@, cells@, i as int, cx, cy);
            }
        }
        i = i + 1;
    }
    assert(cells@.take(i as int) =~= cells@);
    runs
}

proof fn lemma_one_more_cell(
    before: Seq<RowRun>,
    after: Seq<RowRun>,
    cells: Seq<(u32, u32)>,
    i: int,
    x: u32,
    y: u32,
)
    requires
        0 <= i < cells.len(),
        runs_cover(before, x as int, y as int) <==> cells.take(i).contains((y, x)),
        ({
            let (cy, cx) = cells[i];
            ||| after == before.push(RowRun { y: cy, x0: cx, x1: cx })
            ||| before.len() > 0 && before.last().y == cy && 0 <= cx - before.last().x1 <= 1
                && before.last().x0 <= before.last().x1 && after == before.update(
                before.len() - 1,
                RowRun { y: cy, x0: before.last().x0, x1: cx },
            )
        }),
    ensures
        runs_cover(after, x as int, y as int) <==> cells.take(i + 1).contains((y, x)),
{
    let last = after.len() - 1;
    assert(cells.take(i + 1) =~= cells.take(i).push(cells[i]));
    if cells.take(i).contains((y, x)) {
        let k = choose|k: int| 0 <= k < before.len() && (#[trigger] before[k]).covers(
            x as int,
            y as int,
        );
        assert(after[k].covers(x as int, y as int));
        let c = choose|c: int| 0 <= c < i && cells.take(i)[c] == (y, x);
        assert(cells.take(i + 1)[c] == (y, x));
    }
    if (y, x) == cells[i] {
        assert(after[last].covers(x as int, y as int));
        assert(cells.take(i + 1)[i] == (y, x));
    }
    if runs_cover(after, x as int, y as int) {
        let k = choose|k: int| 0 <= k < after.len() && (#[trigger] after[k]).covers(
            x as int,
            y as int,
        );
        if k < last || after.len() == before.len() {
            if (y, x) != cells[i] {
                assert(before[k].covers(x as int, y as int));
            }
        }
    }
}

/// The cells of a zone, as (column, row).
pub open spec fn cells_of(runs: Seq<RowRun>) -> Set<(int, int)>
    decreases runs.len(),
{
    if runs.len() == 0 {
        Set::empty()
    } else {
        cells_of(runs.drop_last()).union(
            vstd::set_lib::set_int_range(runs.last().x0 as int, runs.last().x1 + 1).map(
                |x: int| (x, runs.last().y as int),
            ),
        )
    }
}

/// A canonical zone counts each of its cells once: the pixel count is the
/// number of distinct cells that the zone contains.
pub proof fn pixel_count_is_exact(zone: Zone)
    requires
        zone.well_formed(),
    ensures
        cells_of(zone.runs@).finite(),
        forall|x: int, y: int| #[trigger]
            cells_of(zone.runs@).contains((x, y)) <==> zone.has(x, y),
        total_length(zone.runs@) == cells_of(zone.runs@).len(),
{
    lemma_cells_of_runs(zone.runs@);
}

proof fn lemma_cells_of_runs(runs: Seq<RowRun>)
    requires
        runs_are_maximal(runs),
    ensures
        cells_of(runs).finite(),
        forall|x: int, y: int| #[trigger]
            cells_of(runs).contains((x, y)) <==> runs_cover(runs, x, y),
        total_length(runs) == cells_of(runs).len(),
    decreases runs.len(),
{
    if runs.len() > 0 {
        let rest = runs.drop_last();
        let run = runs.last();
        let columns = vstd::set_lib::set_int_range(run.x0 as int, run.x1 + 1);
        let place = |x: int| (x, run.y as int);
        let added = columns.map(place);
        lemma_cells_of_runs(rest);
        vstd::set_lib::lemma_int_range(run.x0 as int, run.x1 + 1);
        vstd::set_lib::lemma_map_size(columns, added, place);
        assert forall|x: int, y: int| #[trigger] added.contains((x, y)) <==> run.covers(x, y) by {
            if run.covers(x, y) {
                assert(columns.contains(x));
                assert(place(x) == (x, y));
            }
        }
        assert forall|x: int, y: int| #[trigger]
            cells_of(runs).contains((x, y)) <==> runs_cover(runs, x, y) by {
            if runs_cover(rest, x, y) {
                let k = choose|k: int| 0 <= k < rest.len() && (#[trigger] rest[k]).covers(x, y);
                assert(runs[k].covers(x, y));
            }
            if run.covers(x, y) {
                assert(runs[runs.len() - 1].covers(x, y));
            }
            if runs_cover(runs, x, y) {
                let k = choose|k: int| 0 <= k < runs.len() && (#[trigger] runs[k]).covers(x, y);
                if k < runs.len() - 1 {
                    assert(rest[k].covers(x, y));
                }
            }
        }
        assert(cells_of(rest).disjoint(added)) by {
            assert forall|c: (int, int)| !(cells_of(rest).contains(c) && added.contains(c)) by {
                if cells_of(rest).contains(c) && added.contains(c) {
                    assert(cells_of(rest).contains((c.0, c.1)));
                    assert(added.contains((c.0, c.1)));
                    let k = choose|k: int|
                        0 <= k < rest.len() && (#[trigger] rest[k]).covers(c.0, c.1);
                    assert(runs[k].covers(c.0, c.1));
                    assert(runs[k].x1 + 1 < runs[runs.len() - 1].x0);
                }
            }
        }
        vstd::set_lib::lemma_set_disjoint_lens(cells_of(rest), added);
    }
}

/// The top-left cell of a canonical zone belongs to it, and comes before
/// all its other cells in (row, column) order.
pub proof fn top_left_comes_first(zone: Zone, x: int, y: int)
    requires
        zone.well_formed(),
        zone.has(x, y),
    ensures
        zone.runs@.len() > 0,
        zone.has(zone.runs@[0].x0 as int, zone.runs@[0].y as int),
        zone.runs@[0].y < y || (zone.runs@[0].y == y && zone.runs@[0].x0 <= x),
{
    let k = choose|k: int|
        0 <= k < zone.runs@.len() && (#[trigger] zone.runs@[k]).covers(x, y);
    assert(zone.runs@[0].covers(zone.runs@[0].x0 as int, zone.runs@[0].y as int));
    assert(zone.runs@[k].covers(x, y));
}

/// The bounding box of a canonical zone covers the shape, and touches it on
/// its left and right sides; its first and last rows hold cells.
pub proof fn bounding_box_covers_the_shape(zone: Zone, x: int, y: int)
    requires
        zone.well_formed(),
        zone.has(x, y),
    ensures
        first_column(zone.runs@) <= x <= last_column(zone.runs@),
        zone.runs@[0].y <= y <= zone.runs@.last().y,
        exists|row: int| #[trigger] zone.has(first_column(zone.runs@), row),
        exists|row: int| #[trigger] zone.has(last_column(zone.runs@), row),
        exists|column: int| #[trigger] zone.has(column, zone.runs@[0].y as int),
        exists|column: int| #[trigger] zone.has(column, zone.runs@.last().y as int),
{
    let runs = zone.runs@;
    let k = choose|k: int| 0 <= k < runs.len() && (#[trigger] runs[k]).covers(x, y);
    assert(runs[k].covers(x, y));
    let (a, b) = lemma_column_bounds(runs);
    assert(runs[a].covers(first_column(runs), runs[a].y as int));
    assert(runs[b].covers(last_column(runs), runs[b].y as int));
    assert(zone.has(first_column(runs), runs[a].y as int));
    assert(zone.has(last_column(runs), runs[b].y as int));
    assert(runs[0].covers(runs[0].x0 as int, runs[0].y as int));
    assert(zone.has(runs[0].x0 as int, runs[0].y as int));
    assert(runs[runs.len() - 1].covers(runs.last().x0 as int, runs.last().y as int));
    assert(zone.has(runs.last().x0 as int, runs.last().y as int));
}

proof fn lemma_column_bounds(runs: Seq<RowRun>) -> (r: (int, int))
    requires
        runs.len() > 0,
    ensures
        0 <= r.0 < runs.len(),
        0 <= r.1 < runs.len(),
        runs[r.0].x0 == first_column(runs),
        runs[r.1].x1 == last_column(runs),
        forall|i: int|
            0 <= i < runs.len() ==> first_column(runs) <= (#[trigger] runs[i]).x0 && runs[i].x1
                <= last_column(runs),
    decreases runs.len(),
{
    if runs.len() == 1 {
        (0, 0)
    } else {
        let rest = runs.drop_last();
        let (a, b) = lemma_column_bounds(rest);
        assert forall|i: int| 0 <= i < runs.len() implies first_column(runs) <= (
        #[trigger] runs[i]).x0 && runs[i].x1 <= last_column(runs) by {
            if i < rest.len() {
                assert(rest[i] == runs[i]);
            }
        }
        let first = if runs.last().x0 < first_column(rest) {
            runs.len() - 1
        } else {
            a
        };
        let last = if runs.last().x1 > last_column(rest) {
            runs.len() - 1
        } else {
            b
        };
        (first, last)
    }
}

/// The runs of a canonical zone are its maximal stretches, row by row from
/// the top and from left to right: the cells next to a run on its row do not
/// belong to the zone.
pub proof fn runs_are_the_maximal_stretches(zone: Zone, i: int, j: int)
    requires
        zone.well_formed(),
        0 <= i < zone.runs@.len(),
        0 <= j < zone.runs@.len(),
    ensures
        ({
            let run = zone.runs@[i];
            let other = zone.runs@[j];
            &&& run.x0 <= run.x1
            &&& !zone.has(run.x0 - 1, run.y as int)
            &&& !zone.has(run.x1 + 1, run.y as int)
            &&& forall|x: int| run.x0 <= x <= run.x1 ==> #[trigger] zone.has(x, run.y as int)
            &&& i < j ==> run.y < other.y || (run.y == other.y && run.x1 < other.x0)
        }),
{
    let runs = zone.runs@;
    let run = runs[i];
    if zone.has(run.x0 - 1, run.y as int) {
        let k = choose|k: int|
            0 <= k < runs.len() && (#[trigger] runs[k]).covers(run.x0 - 1, run.y as int);
        assert(runs[k].y == runs[i].y);
    }
    if zone.has(run.x1 + 1, run.y as int) {
        let k = choose|k: int|
            0 <= k < runs.len() && (#[trigger] runs[k]).covers(run.x1 + 1, run.y as int);
        assert(runs[k].y == runs[i].y);
    }
    assert forall|x: int| run.x0 <= x <= run.x1 implies #[trigger] zone.has(x, run.y as int) by {
        assert(runs[i].covers(x, run.y as int));
    }
}

} // verus!
