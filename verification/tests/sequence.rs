use wysiwyl::sequence::{build_pixel_sequence, pixel_in_zones, push_spiral_rect, remapped_cursor};
use wysiwyl::state::{PixelZone, ReadingDirection, Synth};

#[test]
fn sorted_reading_merges_zones_by_absolute_position() {
    // Zone B (bottom row) drawn first, zone A (top row) second
    let zones = [
        PixelZone {
            x: 1,
            y: 1,
            w: 3,
            h: 1,
        }, // row 1, cols 1–3
        PixelZone {
            x: 2,
            y: 0,
            w: 2,
            h: 1,
        }, // row 0, cols 2–3
    ];
    let (width, height) = (8usize, 2usize);

    // Zone-by-zone: B entirely, then A
    let per_zone =
        build_pixel_sequence(&zones, width, height, ReadingDirection::LeftToRight, false);
    assert_eq!(per_zone, vec![9, 10, 11, 2, 3]);

    // Sorted: one left→right sweep, row 0 first
    let sorted =
        build_pixel_sequence(&zones, width, height, ReadingDirection::LeftToRight, true);
    assert_eq!(sorted, vec![2, 3, 9, 10, 11]);

    // Right→left: rows ascending, columns descending
    let sorted_rtl =
        build_pixel_sequence(&zones, width, height, ReadingDirection::RightToLeft, true);
    assert_eq!(sorted_rtl, vec![3, 2, 11, 10, 9]);

    // Top→bottom: each column ascending, within a column top→bottom
    let sorted_ttb =
        build_pixel_sequence(&zones, width, height, ReadingDirection::TopToBottom, true);
    assert_eq!(sorted_ttb, vec![9, 2, 10, 3, 11]);
}

#[test]
fn build_pixel_sequence_spiral_per_zone() {
    // A 3×3 zone: clockwise spiral from the top-left, then the same
    // zone counterclockwise (first step downward)
    let zones = [PixelZone {
        x: 0,
        y: 0,
        w: 3,
        h: 3,
    }];
    let (width, height) = (3usize, 3usize);

    // Clockwise: top row →, right column ↓, bottom row ←, left column ↑, center
    let cw = build_pixel_sequence(&zones, width, height, ReadingDirection::Spiral, false);
    assert_eq!(cw, vec![0, 1, 2, 5, 8, 7, 6, 3, 4]);

    // Counterclockwise: left column ↓, bottom row →, right column ↑, top row ←, center
    let ccw = build_pixel_sequence(
        &zones,
        width,
        height,
        ReadingDirection::SpiralReverse,
        false,
    );
    assert_eq!(ccw, vec![0, 3, 6, 7, 8, 5, 2, 1, 4]);

    // Degenerate rectangles: a single row and a single column walk
    // each pixel exactly once, no duplicates
    let row = [PixelZone {
        x: 1,
        y: 1,
        w: 5,
        h: 1,
    }];
    assert_eq!(
        build_pixel_sequence(&row, 8, 4, ReadingDirection::Spiral, false),
        vec![9, 10, 11, 12, 13]
    );
    assert_eq!(
        build_pixel_sequence(&row, 8, 4, ReadingDirection::SpiralReverse, false),
        vec![9, 10, 11, 12, 13]
    );
    let col = [PixelZone {
        x: 2,
        y: 0,
        w: 1,
        h: 4,
    }];
    assert_eq!(
        build_pixel_sequence(&col, 8, 4, ReadingDirection::Spiral, false),
        vec![2, 10, 18, 26]
    );
    assert_eq!(
        build_pixel_sequence(&col, 8, 4, ReadingDirection::SpiralReverse, false),
        vec![2, 10, 18, 26]
    );

    // Zone by zone: the first zone's spiral entirely, then the second's
    let zones = [
        PixelZone {
            x: 0,
            y: 0,
            w: 2,
            h: 2,
        },
        PixelZone {
            x: 3,
            y: 0,
            w: 2,
            h: 2,
        },
    ];
    let per_zone = build_pixel_sequence(&zones, 5, 2, ReadingDirection::Spiral, false);
    assert_eq!(per_zone, vec![0, 1, 6, 5, 3, 4, 9, 8]);
}

#[test]
fn build_pixel_sequence_spiral_sorted_is_global_over_the_selection() {
    // Two disjoint zones in the same bounding box: the sorted spiral
    // walks the box's spiral keeping only the selected pixels
    let zones = [
        PixelZone {
            x: 0,
            y: 0,
            w: 1,
            h: 3,
        }, // left column
        PixelZone {
            x: 2,
            y: 0,
            w: 1,
            h: 3,
        }, // right column
    ];
    let (width, height) = (3usize, 3usize);

    // Clockwise bounding-box spiral: 0,1,2,5,8,7,6,3,4 — with column 1
    // unselected, only the two selected columns remain, in spiral order
    let sorted = build_pixel_sequence(&zones, width, height, ReadingDirection::Spiral, true);
    assert_eq!(sorted, vec![0, 2, 5, 8, 6, 3]);

    // Counterclockwise: 0,3,6,7,8,5,2,1,4 filtered the same way
    let sorted_ccw =
        build_pixel_sequence(&zones, width, height, ReadingDirection::SpiralReverse, true);
    assert_eq!(sorted_ccw, vec![0, 3, 6, 8, 5, 2]);

    // Overlapping zones: each selected pixel appears exactly once
    // (deduplicated), unlike the linear directions which replay it
    let overlap = [
        PixelZone {
            x: 0,
            y: 0,
            w: 2,
            h: 2,
        },
        PixelZone {
            x: 1,
            y: 0,
            w: 1,
            h: 2,
        },
    ];
    let sorted_overlap =
        build_pixel_sequence(&overlap, width, height, ReadingDirection::Spiral, true);
    assert_eq!(sorted_overlap, vec![0, 1, 4, 3]);
}

#[test]
fn remapped_cursor_keeps_the_playhead_pixel_across_sort_toggle() {
    // Two zones, one pixel each; playing the first zone's pixel
    let zones = [
        PixelZone {
            x: 5,
            y: 0,
            w: 1,
            h: 1,
        },
        PixelZone {
            x: 1,
            y: 0,
            w: 1,
            h: 1,
        },
    ];
    let synth = Synth::new(1); // cursor 0
    let (width, height) = (8usize, 1usize);

    // Playhead on pixel 5 (index 0 of the per-zone sequence)
    // Toggling sorted on: pixel 5 becomes index 1 of the new sequence
    let cursor = remapped_cursor(
        &synth,
        &zones,
        &zones,
        false,
        true,
        ReadingDirection::LeftToRight,
        ReadingDirection::LeftToRight,
        width,
        height,
    );
    assert_eq!(cursor, 1);

    // Toggling back off: the playhead returns to index 0
    let mut synth = synth;
    synth.cursor = 1;
    let cursor = remapped_cursor(
        &synth,
        &zones,
        &zones,
        true,
        false,
        ReadingDirection::LeftToRight,
        ReadingDirection::LeftToRight,
        width,
        height,
    );
    assert_eq!(cursor, 0);
}

#[test]
fn remapped_cursor_keeps_the_playhead_pixel_across_direction_change() {
    // One full row zone, sorted reading; the playhead is on the
    // sequence's last pixel in left→right order
    let zones = [PixelZone {
        x: 0,
        y: 0,
        w: 4,
        h: 1,
    }];
    let mut synth = Synth::new(1);
    synth.cursor = 3;
    let (width, height) = (4usize, 2usize);

    // Same pixel (3) becomes index 0 when reading right→left
    let cursor = remapped_cursor(
        &synth,
        &zones,
        &zones,
        true,
        true,
        ReadingDirection::LeftToRight,
        ReadingDirection::RightToLeft,
        width,
        height,
    );
    assert_eq!(cursor, 0);

    // And it is the last-but-one index when reading top→bottom of a
    // 2-row selection
    let zones = [PixelZone {
        x: 0,
        y: 0,
        w: 2,
        h: 2,
    }];
    let cursor = remapped_cursor(
        &synth,
        &zones,
        &zones,
        true,
        true,
        ReadingDirection::LeftToRight,
        ReadingDirection::TopToBottom,
        width,
        height,
    );
    assert_eq!(cursor, 3);
}

fn zone(x: u32, y: u32, w: u32, h: u32) -> PixelZone {
    PixelZone { x, y, w, h }
}

#[test]
fn no_zone_is_an_empty_sequence() {
    for direction in [
        ReadingDirection::LeftToRight,
        ReadingDirection::RightToLeft,
        ReadingDirection::TopToBottom,
        ReadingDirection::BottomToTop,
        ReadingDirection::Spiral,
        ReadingDirection::SpiralReverse,
    ] {
        for sorted in [false, true] {
            assert!(build_pixel_sequence(&[], 4, 4, direction, sorted).is_empty());
        }
    }
}

#[test]
fn zones_are_clipped_to_the_image() {
    let zones = [zone(2, 1, 10, 10), zone(7, 0, 1, 1)];
    for sorted in [false, true] {
        assert_eq!(
            build_pixel_sequence(&zones, 4, 2, ReadingDirection::LeftToRight, sorted),
            vec![6, 7]
        );
    }
    assert_eq!(
        build_pixel_sequence(&zones, 4, 2, ReadingDirection::Spiral, false),
        vec![6, 7]
    );
    // the box of the selection reaches up to the zone outside the image
    assert_eq!(
        build_pixel_sequence(&zones, 4, 2, ReadingDirection::Spiral, true),
        vec![7, 6]
    );
}

#[test]
fn linear_directions_read_a_zone_in_their_order() {
    let zones = [zone(1, 0, 2, 2)];
    let read = |direction| build_pixel_sequence(&zones, 4, 2, direction, false);
    assert_eq!(read(ReadingDirection::LeftToRight), vec![1, 2, 5, 6]);
    assert_eq!(read(ReadingDirection::RightToLeft), vec![2, 1, 6, 5]);
    assert_eq!(read(ReadingDirection::TopToBottom), vec![1, 5, 2, 6]);
    assert_eq!(read(ReadingDirection::BottomToTop), vec![5, 1, 6, 2]);
}

#[test]
fn sorted_bottom_to_top_reads_the_columns_upward() {
    let zones = [zone(2, 0, 1, 3), zone(0, 1, 1, 2)];
    assert_eq!(
        build_pixel_sequence(&zones, 3, 3, ReadingDirection::BottomToTop, true),
        vec![6, 3, 8, 5, 2]
    );
}

#[test]
fn overlapping_zones_are_replayed_by_the_linear_directions() {
    let zones = [zone(0, 0, 2, 1), zone(1, 0, 1, 1)];
    assert_eq!(
        build_pixel_sequence(&zones, 3, 1, ReadingDirection::LeftToRight, false),
        vec![0, 1, 1]
    );
    assert_eq!(
        build_pixel_sequence(&zones, 3, 1, ReadingDirection::LeftToRight, true),
        vec![0, 1, 1]
    );
}

#[test]
fn spiral_of_a_rectangle_inside_an_image() {
    let mut sequence = vec![99];
    push_spiral_rect(&mut sequence, 1, 1, 4, 3, 10, true);
    assert_eq!(sequence, vec![99, 11, 12, 13, 23, 22, 21]);
    let mut reverse = Vec::new();
    push_spiral_rect(&mut reverse, 1, 1, 4, 3, 10, false);
    assert_eq!(reverse, vec![11, 21, 22, 23, 13, 12]);
}

#[test]
fn pixels_in_zones_are_found() {
    let zones = [zone(1, 1, 2, 1), zone(5, 0, 1, 3)];
    assert!(pixel_in_zones(&zones, 1, 1));
    assert!(pixel_in_zones(&zones, 2, 1));
    assert!(!pixel_in_zones(&zones, 3, 1));
    assert!(!pixel_in_zones(&zones, 1, 2));
    assert!(pixel_in_zones(&zones, 5, 2));
    assert!(!pixel_in_zones(&[], 0, 0));
}

#[test]
fn lost_pixel_moves_the_playhead_to_the_beginning() {
    let mut synth = Synth::new(1);
    synth.cursor = 5;
    let old = [zone(0, 0, 4, 1)];
    let new = [zone(2, 0, 2, 1)];
    let direction = ReadingDirection::LeftToRight;
    // the cursor counts around the four pixels: it is on pixel 1
    assert_eq!(
        remapped_cursor(&synth, &old, &new, false, false, direction, direction, 4, 1),
        0
    );
    synth.cursor = 7;
    assert_eq!(
        remapped_cursor(&synth, &old, &new, false, false, direction, direction, 4, 1),
        1
    );
    assert_eq!(
        remapped_cursor(&synth, &[], &new, false, false, direction, direction, 4, 1),
        0
    );
}
