use wysiwyl::zone::{RowRun, Zone};

fn rect(order: u64, x: u32, y: u32, w: u32, h: u32) -> Zone {
    Zone::from_rect(order, x, y, w, h)
}

fn runs_of(zone: &Zone) -> Vec<(u32, u32, u32)> {
    zone.runs.iter().map(|r| (r.y, r.x0, r.x1)).collect()
}

// --- Constructors ---

#[test]
fn from_rect_builds_one_run_per_row() {
    let z = rect(0, 2, 1, 3, 2);
    assert_eq!(runs_of(&z), vec![(1, 2, 4), (2, 2, 4)]);
    assert_eq!(z.pixel_count(), 6);
}

#[test]
fn from_cells_merges_and_sorts() {
    // Cells given in arbitrary order, with a gap on one row
    let cells = vec![(5, 1), (3, 1), (4, 1), (9, 1), (0, 0)];
    let z = Zone::from_cells(0, &cells);
    // Row 1: 3,4,5 fuse into one run; 9 stays apart; row 0: single
    assert_eq!(runs_of(&z), vec![(0, 0, 0), (1, 3, 5), (1, 9, 9)]);
    assert_eq!(z.pixel_count(), 5);
}

#[test]
fn from_cells_empty_yields_empty_zone() {
    let z = Zone::from_cells(0, &[]);
    assert!(z.runs.is_empty());
    assert_eq!(z.pixel_count(), 0);
    assert!(z.top_left().is_none());
}

// --- Containment ---

#[test]
fn contains_checks_row_then_interval() {
    let z = rect(0, 2, 1, 3, 2); // rows 1-2, cols 2-4
    assert!(z.contains(2, 1));
    assert!(z.contains(4, 2));
    assert!(!z.contains(5, 1)); // right of the run
    assert!(!z.contains(1, 1)); // left of the run
    assert!(!z.contains(2, 0)); // above
    assert!(!z.contains(2, 3)); // below
}

#[test]
fn contains_scans_every_run_of_a_row() {
    // A U-shaped component: the bottom row carries TWO disjoint runs
    // (cols 0-1 and cols 4-5, joined through the rows above). 
    let cells = [
        (0, 0), (1, 0),
        (0, 1), (1, 1), (4, 1), (5, 1),
        (0, 2), (1, 2), (2, 2), (3, 2), (4, 2), (5, 2),
    ];
    let u = Zone::from_cells(0, &cells);
    // Both arms of the U on the middle row must be found
    assert!(u.contains(0, 1));
    assert!(u.contains(1, 1));
    assert!(u.contains(4, 1));
    assert!(u.contains(5, 1));
    // The gap between them must not
    assert!(!u.contains(2, 1));
    assert!(!u.contains(3, 1));
    // And the bridge below still works
    assert!(u.contains(2, 2));
    assert!(!u.contains(2, 0));
}

#[test]
fn bounding_box_covers_the_shape() {
    let z = Zone::from_cells(0, &[(5, 0), (0, 2), (5, 2)]);
    assert_eq!(z.bounding_box(), Some((0, 0, 6, 3)));
    // Top-left as (row, column): the highest row, leftmost cell ON
    // that row (there is no cell at (0, 0) in this shape)
    assert_eq!(z.top_left(), Some((0, 5)));
}

#[test]
fn cells_given_twice_count_once() {
    let z = Zone::from_cells(7, &[(1, 1), (1, 1), (2, 1)]);
    assert_eq!(z.order, 7);
    assert_eq!(z.runs, vec![RowRun { y: 1, x0: 1, x1: 2 }]);
    assert_eq!(z.pixel_count(), 2);
    assert_eq!(z.bounding_box(), Some((1, 1, 2, 1)));
}

#[test]
fn zone_at_the_far_corner() {
    let z = Zone::from_cells(0, &[(u32::MAX, u32::MAX), (u32::MAX - 1, u32::MAX)]);
    assert_eq!(runs_of(&z), vec![(u32::MAX, u32::MAX - 1, u32::MAX)]);
    assert!(z.contains(u32::MAX, u32::MAX));
    assert_eq!(z.top_left(), Some((u32::MAX, u32::MAX - 1)));
}

#[test]
fn empty_zone_has_no_box() {
    assert_eq!(Zone::from_cells(0, &[]).bounding_box(), None);
    assert!(!Zone::from_cells(0, &[]).contains(0, 0));
}

#[test]
fn rectangle_without_cells_has_no_runs() {
    for (x, w, h) in [(3, 0, 2), (0, 0, 2), (3, 2, 0), (u32::MAX, 0, 1)] {
        let zone = Zone::from_rect(0, x, 1, w, h);
        assert!(zone.runs.is_empty());
        assert_eq!(zone.pixel_count(), 0);
        assert_eq!(zone.bounding_box(), None);
        assert!(!zone.contains(x, 1));
    }
}
