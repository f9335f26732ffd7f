//! What holds of every step from a place on the playable range to a pitch.

use vstd::prelude::*;

use crate::pitch::{self, RangeBounds};
use crate::state::Scale;

verus! {

/// True when each enabled range has its bounds in order.
pub open spec fn bounds_in_order(bounds: RangeBounds, toggles: [bool; 3]) -> bool {
    forall|i: int| 0 <= i < 3 && #[trigger] toggles@[i] ==> bounds@[i].0 <= bounds@[i].1
}

/// The number of notes below `note` that the ranges hold.
spec fn held_below(note: int, ranges: Seq<(u8, u8)>) -> int
    decreases note,
{
    if note <= 0 {
        0
    } else {
        held_below(note - 1, ranges) + if pitch::in_ranges(note - 1, ranges) {
            1int
        } else {
            0
        }
    }
}

/// The number of playable notes below `note`.
pub open spec fn playable_below(note: int, bounds: RangeBounds, toggles: [bool; 3]) -> int
    decreases note,
{
    if note <= 0 {
        0
    } else {
        playable_below(note - 1, bounds, toggles) + if pitch::playable(note - 1, bounds, toggles) {
            1int
        } else {
            0
        }
    }
}

spec fn in_order(ranges: Seq<(u8, u8)>) -> bool {
    forall|i: int| 0 <= i < ranges.len() ==> (#[trigger] ranges[i]).0 <= ranges[i].1
}

proof fn lemma_first_range(ranges: Seq<(u8, u8)>, note: int)
    requires
        ranges.len() > 0,
    ensures
        pitch::in_ranges(note, ranges) <==> ranges[0].0 <= note <= ranges[0].1 || pitch::in_ranges(
            note,
            ranges.drop_first(),
        ),
{
    let rest = ranges.drop_first();
    if pitch::in_ranges(note, rest) {
        let i = choose|i: int| 0 <= i < rest.len() && (#[trigger] rest[i]).0 <= note <= rest[i].1;
        assert(ranges[i + 1].0 <= note <= ranges[i + 1].1);
    }
    if pitch::in_ranges(note, ranges) {
        let i = choose|i: int|
            0 <= i < ranges.len() && (#[trigger] ranges[i]).0 <= note <= ranges[i].1;
        if i > 0 {
            assert(rest[i - 1].0 <= note <= rest[i - 1].1);
        }
    }
    if ranges[0].0 <= note <= ranges[0].1 {
        assert(pitch::in_ranges(note, ranges));
    }
}

/// The notes below `note` are those of the first range and those of the
/// others.
proof fn lemma_held_below_splits(note: int, ranges: Seq<(u8, u8)>)
    requires
        ranges.len() > 0,
        pitch::separated(ranges),
        in_order(ranges),
    ensures
        held_below(note, ranges) == held_below(note, ranges.drop_first()) + (if note
            <= ranges[0].0 {
            0
        } else if note <= ranges[0].1 {
            note - ranges[0].0
        } else {
            pitch::note_count(ranges[0])
        }),
    decreases note,
{
    assert(ranges[0].0 <= ranges[0].1);
    if note > 0 {
        lemma_held_below_splits(note - 1, ranges);
        lemma_first_range(ranges, note - 1);
        if ranges[0].0 <= note - 1 <= ranges[0].1 {
            lemma_not_held_before(ranges, note - 1);
        }
    }
}

/// No later range holds a note up to the end of the first one.
proof fn lemma_not_held_before(ranges: Seq<(u8, u8)>, note: int)
    requires
        ranges.len() > 0,
        pitch::separated(ranges),
        note <= ranges[0].1,
    ensures
        !pitch::in_ranges(note, ranges.drop_first()),
{
    let rest = ranges.drop_first();
    if pitch::in_ranges(note, rest) {
        let i = choose|i: int| 0 <= i < rest.len() && (#[trigger] rest[i]).0 <= note <= rest[i].1;
        assert(ranges[0].1 + 1 < ranges[i + 1].0);
    }
}

proof fn lemma_nothing_held_below(ranges: Seq<(u8, u8)>, note: int)
    requires
        forall|n: int| n < note ==> !#[trigger] pitch::in_ranges(n, ranges),
    ensures
        held_below(note, ranges) == 0,
    decreases note,
{
    if note > 0 {
        lemma_nothing_held_below(ranges, note - 1);
    }
}

/// The sum of the spans of ranges from the front.
proof fn lemma_total_from_front(ranges: Seq<(u8, u8)>)
    requires
        ranges.len() > 0,
    ensures
        pitch::total_notes(ranges) == pitch::note_count(ranges[0]) + pitch::total_notes(
            ranges.drop_first(),
        ),
    decreases ranges.len(),
{
    if ranges.len() == 1 {
        assert(ranges.drop_last() =~= Seq::empty());
        assert(ranges.drop_first() =~= Seq::empty());
        reveal_with_fuel(pitch::total_notes, 2);
    } else {
        lemma_total_from_front(ranges.drop_last());
        assert(ranges.drop_last().drop_first() =~= ranges.drop_first().drop_last());
    }
}

proof fn lemma_note_at(ranges: Seq<(u8, u8)>, index: int)
    requires
        pitch::separated(ranges),
        in_order(ranges),
        0 <= index < pitch::total_notes(ranges),
    ensures
        pitch::in_ranges(pitch::note_at(ranges, index) as int, ranges),
        held_below(pitch::note_at(ranges, index) as int, ranges) == index,
    decreases ranges.len(),
{
    if ranges.len() == 0 {
        assert(pitch::total_notes(ranges) == 0);
    } else {
        lemma_total_from_front(ranges);
        let rest = ranges.drop_first();
        let first = ranges[0];
        assert(first.0 <= first.1);
        if index < pitch::note_count(first) {
            let note = first.0 + index;
            lemma_first_range(ranges, note);
            assert forall|n: int| n < note implies !#[trigger] pitch::in_ranges(n, rest) by {
                lemma_not_held_before(ranges, n);
            }
            lemma_nothing_held_below(rest, note);
            lemma_held_below_splits(note, ranges);
        } else {
            assert forall|i: int, j: int| 0 <= i < j < rest.len() implies (#[trigger] rest[i]).1 + 1
                < (#[trigger] rest[j]).0 && rest[i].0 <= rest[j].0 by {
                assert(ranges[i + 1].1 + 1 < ranges[j + 1].0);
            }
            assert forall|i: int| 0 <= i < rest.len() implies (#[trigger] rest[i]).0
                <= rest[i].1 by {
                assert(ranges[i + 1].0 <= ranges[i + 1].1);
            }
            if ranges.len() == 1 {
                assert(rest =~= Seq::empty());
                assert(pitch::total_notes(rest) == 0);
            }
            lemma_note_at(rest, index - pitch::note_count(first));
            let note = pitch::note_at(rest, index - pitch::note_count(first)) as int;
            lemma_first_range(ranges, note);
            if note <= first.1 {
                lemma_not_held_before(ranges, note);
            }
            lemma_held_below_splits(note, ranges);
        }
    }
}

proof fn lemma_total(ranges: Seq<(u8, u8)>)
    requires
        pitch::separated(ranges),
        in_order(ranges),
    ensures
        held_below(256, ranges) == pitch::total_notes(ranges),
    decreases ranges.len(),
{
    if ranges.len() == 0 {
        lemma_nothing_held_below(ranges, 256);
    } else {
        let rest = ranges.drop_first();
        assert forall|i: int, j: int| 0 <= i < j < rest.len() implies (#[trigger] rest[i]).1 + 1 < (
        #[trigger] rest[j]).0 && rest[i].0 <= rest[j].0 by {
            assert(ranges[i + 1].1 + 1 < ranges[j + 1].0);
        }
        assert forall|i: int| 0 <= i < rest.len() implies (#[trigger] rest[i]).0 <= rest[i].1 by {
            assert(ranges[i + 1].0 <= ranges[i + 1].1);
        }
        lemma_total(rest);
        lemma_total_from_front(ranges);
        lemma_held_below_splits(256, ranges);
    }
}

proof fn lemma_same_count(note: int, bounds: RangeBounds, toggles: [bool; 3])
    ensures
        playable_below(note, bounds, toggles) == held_below(
            note,
            pitch::playable_ranges(bounds, toggles),
        ),
    decreases note,
{
    if note > 0 {
        lemma_same_count(note - 1, bounds, toggles);
        pitch::merged_ranges_are_the_union(bounds, toggles);
        assert(pitch::in_ranges(note - 1, pitch::playable_ranges(bounds, toggles))
            <==> pitch::playable(note - 1, bounds, toggles));
    }
}

/// Inserting and merging ranges with their bounds in order keeps the bounds
/// in order.
proof fn lemma_playable_ranges_in_order(bounds: RangeBounds, toggles: [bool; 3])
    requires
        bounds_in_order(bounds, toggles),
    ensures
        in_order(pitch::playable_ranges(bounds, toggles)),
{
    let enabled = pitch::enabled_ranges(bounds, toggles);
    assert(in_order(enabled)) by {
        assert(toggles@[0] ==> bounds@[0].0 <= bounds@[0].1);
        assert(toggles@[1] ==> bounds@[1].0 <= bounds@[1].1);
        assert(toggles@[2] ==> bounds@[2].0 <= bounds@[2].1);
    }
    lemma_sort_in_order(enabled);
    lemma_merge_in_order(pitch::sorted_ranges(enabled));
}

proof fn lemma_insert_in_order(sorted: Seq<(u8, u8)>, range: (u8, u8))
    requires
        in_order(sorted),
        range.0 <= range.1,
    ensures
        in_order(pitch::insert_range(sorted, range)),
    decreases sorted.len(),
{
    if sorted.len() > 0 && !pitch::range_before(sorted.last(), range) {
        lemma_insert_in_order(sorted.drop_last(), range);
    }
}

proof fn lemma_sort_in_order(ranges: Seq<(u8, u8)>)
    requires
        in_order(ranges),
    ensures
        in_order(pitch::sorted_ranges(ranges)),
    decreases ranges.len(),
{
    if ranges.len() > 0 {
        lemma_sort_in_order(ranges.drop_last());
        lemma_insert_in_order(pitch::sorted_ranges(ranges.drop_last()), ranges.last());
    }
}

proof fn lemma_merge_in_order(sorted: Seq<(u8, u8)>)
    requires
        in_order(sorted),
    ensures
        in_order(pitch::merge_ranges(sorted)),
    decreases sorted.len(),
{
    if sorted.len() > 0 {
        lemma_merge_in_order(sorted.drop_last());
    }
}

proof fn lemma_below_is_monotonic(low: int, high: int, bounds: RangeBounds, toggles: [bool; 3])
    requires
        low <= high,
    ensures
        playable_below(low, bounds, toggles) <= playable_below(high, bounds, toggles),
    decreases high - low,
{
    if low < high {
        lemma_below_is_monotonic(low, high - 1, bounds, toggles);
        lemma_below_step(high, bounds, toggles);
    }
}

proof fn lemma_below_step(note: int, bounds: RangeBounds, toggles: [bool; 3])
    ensures
        playable_below(note - 1, bounds, toggles) <= playable_below(note, bounds, toggles),
{
    if note <= 0 {
        assert(playable_below(note - 1, bounds, toggles) == 0);
    }
}

/// The sweep over the enabled ranges walks through their notes one by one:
/// the note at a place is playable, and exactly that many playable notes lie
/// below it. It never lands in a disabled gap.
pub proof fn sweep_takes_each_playable_note_in_turn(
    index: int,
    bounds: RangeBounds,
    toggles: [bool; 3],
)
    requires
        bounds_in_order(bounds, toggles),
        0 <= index < pitch::total_notes(pitch::playable_ranges(bounds, toggles)),
    ensures
        ({
            let note = pitch::note_at(pitch::playable_ranges(bounds, toggles), index) as int;
            pitch::playable(note, bounds, toggles) && playable_below(note, bounds, toggles) == index
        }),
{
    let ranges = pitch::playable_ranges(bounds, toggles);
    let note = pitch::note_at(ranges, index) as int;
    pitch::merged_ranges_are_the_union(bounds, toggles);
    lemma_playable_ranges_in_order(bounds, toggles);
    lemma_note_at(ranges, index);
    lemma_same_count(note, bounds, toggles);
    assert(pitch::in_ranges(note, ranges) <==> pitch::playable(note, bounds, toggles));
}

/// The places of a sweep are as many as the playable notes: overlapping
/// ranges count no note twice.
pub proof fn playable_total_counts_each_note_once(bounds: RangeBounds, toggles: [bool; 3])
    requires
        bounds_in_order(bounds, toggles),
    ensures
        pitch::total_notes(pitch::playable_ranges(bounds, toggles)) == playable_below(
            256,
            bounds,
            toggles,
        ),
{
    let ranges = pitch::playable_ranges(bounds, toggles);
    pitch::merged_ranges_are_the_union(bounds, toggles);
    lemma_playable_ranges_in_order(bounds, toggles);
    lemma_total(ranges);
    lemma_same_count(256, bounds, toggles);
}

/// The pitch rises with the place.
pub proof fn sweep_rises(low: int, high: int, bounds: RangeBounds, toggles: [bool; 3])
    requires
        bounds_in_order(bounds, toggles),
        0 <= low < high < pitch::total_notes(pitch::playable_ranges(bounds, toggles)),
    ensures
        pitch::note_at(pitch::playable_ranges(bounds, toggles), low) < pitch::note_at(
            pitch::playable_ranges(bounds, toggles),
            high,
        ),
{
    let ranges = pitch::playable_ranges(bounds, toggles);
    let a = pitch::note_at(ranges, low) as int;
    let b = pitch::note_at(ranges, high) as int;
    sweep_takes_each_playable_note_in_turn(low, bounds, toggles);
    sweep_takes_each_playable_note_in_turn(high, bounds, toggles);
    if b <= a {
        lemma_below_is_monotonic(b, a, bounds, toggles);
    }
}

/// The sweep reaches from the lowest playable note, at its first place, to
/// the highest one, at its last.
pub proof fn sweep_spans_the_playable_notes(note: u8, bounds: RangeBounds, toggles: [bool; 3])
    requires
        bounds_in_order(bounds, toggles),
        pitch::playable(note as int, bounds, toggles),
    ensures
        ({
            let ranges = pitch::playable_ranges(bounds, toggles);
            pitch::note_at(ranges, 0) <= note <= pitch::note_at(
                ranges,
                pitch::total_notes(ranges) - 1,
            )
        }),
{
    let ranges = pitch::playable_ranges(bounds, toggles);
    let total = pitch::total_notes(ranges);
    let place = playable_below(note as int, bounds, toggles);
    playable_total_counts_each_note_once(bounds, toggles);
    lemma_below_is_monotonic(0, note as int, bounds, toggles);
    lemma_below_is_monotonic(note + 1, 256, bounds, toggles);
    assert(playable_below(note + 1, bounds, toggles) == place + 1);
    assert(0 <= place < total);
    let first = pitch::note_at(ranges, 0) as int;
    let last = pitch::note_at(ranges, total - 1) as int;
    sweep_takes_each_playable_note_in_turn(0, bounds, toggles);
    sweep_takes_each_playable_note_in_turn(total - 1, bounds, toggles);
    if note < first {
        lemma_below_is_monotonic(note + 1, first, bounds, toggles);
    }
    if note > last {
        assert(playable_below(last + 1, bounds, toggles) == total);
        lemma_below_is_monotonic(last + 1, note as int, bounds, toggles);
    }
}

/// Where the scale has a degree within the enabled ranges, the played note
/// is one, and none is nearer to the raw note.
pub proof fn snapping_lands_on_the_nearest_degree(
    note: u8,
    scale: Scale,
    root: u8,
    bounds: RangeBounds,
    toggles: [bool; 3],
)
    requires
        exists|pitch: u8| #[trigger]
            pitch::allowed_pitch(pitch as int, scale, root, bounds, toggles),
    ensures
        pitch::is_nearest_pitch(
            pitch::snapped(note, scale, root, bounds, toggles),
            note,
            scale,
            root,
            bounds,
            toggles,
        ),
{
    let some = choose|pitch: u8| #[trigger]
        pitch::allowed_pitch(pitch as int, scale, root, bounds, toggles);
    let best = lemma_nearest_exists(255, some, note, scale, root, bounds, toggles);
    assert(pitch::is_nearest_pitch(best, note, scale, root, bounds, toggles));
}

/// Among the allowed pitches up to `limit`, and one more, one is the best.
proof fn lemma_nearest_exists(
    limit: int,
    some: u8,
    note: u8,
    scale: Scale,
    root: u8,
    bounds: RangeBounds,
    toggles: [bool; 3],
) -> (best: u8)
    requires
        limit <= 255,
        pitch::allowed_pitch(some as int, scale, root, bounds, toggles),
    ensures
        pitch::allowed_pitch(best as int, scale, root, bounds, toggles),
        pitch::nearer(best, some, note),
        forall|other: u8|
            other <= limit && #[trigger] pitch::allowed_pitch(
                other as int,
                scale,
                root,
                bounds,
                toggles,
            ) ==> pitch::nearer(best, other, note),
    decreases limit + 1,
{
    if limit < 0 {
        some
    } else {
        let best = lemma_nearest_exists(limit - 1, some, note, scale, root, bounds, toggles);
        let candidate = limit as u8;
        if pitch::allowed_pitch(candidate as int, scale, root, bounds, toggles) && !pitch::nearer(
            best,
            candidate,
            note,
        ) {
            candidate
        } else {
            best
        }
    }
}

/// A note that the scale and the ranges allow is left alone.
pub proof fn snapping_keeps_allowed_notes(
    note: u8,
    scale: Scale,
    root: u8,
    bounds: RangeBounds,
    toggles: [bool; 3],
)
    requires
        pitch::allowed_pitch(note as int, scale, root, bounds, toggles),
    ensures
        pitch::snapped(note, scale, root, bounds, toggles) == note,
{
    snapping_lands_on_the_nearest_degree(note, scale, root, bounds, toggles);
    assert(pitch::nearer(pitch::snapped(note, scale, root, bounds, toggles), note, note));
}

/// Snapping to a scale keeps the order of the notes.
pub proof fn snapping_is_monotonic(
    low: u8,
    high: u8,
    scale: Scale,
    root: u8,
    bounds: RangeBounds,
    toggles: [bool; 3],
)
    requires
        low <= high,
    ensures
        pitch::snapped(low, scale, root, bounds, toggles) <= pitch::snapped(
            high,
            scale,
            root,
            bounds,
            toggles,
        ),
{
    if exists|pitch: u8| #[trigger]
        pitch::allowed_pitch(pitch as int, scale, root, bounds, toggles) {
        let a = pitch::snapped(low, scale, root, bounds, toggles);
        let b = pitch::snapped(high, scale, root, bounds, toggles);
        snapping_lands_on_the_nearest_degree(low, scale, root, bounds, toggles);
        snapping_lands_on_the_nearest_degree(high, scale, root, bounds, toggles);
        assert(pitch::nearer(a, b, low));
        assert(pitch::nearer(b, a, high));
    }
}

/// A quantized sweep never falls as the place moves up.
pub proof fn quantized_sweep_rises(
    low: int,
    high: int,
    scale: Scale,
    root: u8,
    bounds: RangeBounds,
    toggles: [bool; 3],
)
    requires
        bounds_in_order(bounds, toggles),
        0 <= low <= high < pitch::total_notes(pitch::playable_ranges(bounds, toggles)),
    ensures
        pitch::effective_note(low, scale, root, bounds, toggles) <= pitch::effective_note(
            high,
            scale,
            root,
            bounds,
            toggles,
        ),
{
    if low < high {
        sweep_rises(low, high, bounds, toggles);
    }
    let ranges = pitch::playable_ranges(bounds, toggles);
    snapping_is_monotonic(
        pitch::note_at(ranges, low),
        pitch::note_at(ranges, high),
        scale,
        root,
        bounds,
        toggles,
    );
}

/// Whatever the scale, a sweep plays only notes that the range filters
/// allow.
pub proof fn played_notes_are_playable(
    index: int,
    scale: Scale,
    root: u8,
    bounds: RangeBounds,
    toggles: [bool; 3],
)
    requires
        bounds_in_order(bounds, toggles),
        0 <= index < pitch::total_notes(pitch::playable_ranges(bounds, toggles)),
    ensures
        pitch::playable(
            pitch::effective_note(index, scale, root, bounds, toggles) as int,
            bounds,
            toggles,
        ),
{
    sweep_takes_each_playable_note_in_turn(index, bounds, toggles);
    if exists|pitch: u8| #[trigger]
        pitch::allowed_pitch(pitch as int, scale, root, bounds, toggles) {
        let note = pitch::note_at(pitch::playable_ranges(bounds, toggles), index);
        snapping_lands_on_the_nearest_degree(note, scale, root, bounds, toggles);
    }
}

/// A color channel reaches from the first place of a range to its last, and
/// never moves down as its value grows.
pub proof fn channel_places_rise(low: u8, high: u8, total: int)
    requires
        low <= high,
        total >= 1,
    ensures
        pitch::channel_place(0, total) == 0,
        pitch::channel_place(255, total) == total - 1,
        pitch::channel_place(low, total) <= pitch::channel_place(high, total),
{
    assert(low * (total - 1) <= high * (total - 1)) by (nonlinear_arith)
        requires
            low <= high,
            total >= 1,
    ;
}

proof fn lemma_contains(degrees: Seq<u8>, degree: u8)
    requires
        degrees.len() <= 12,
    ensures
        degrees.contains(degree) <==> {
            ||| degrees.len() > 0 && degrees[0] == degree
            ||| degrees.len() > 1 && degrees[1] == degree
            ||| degrees.len() > 2 && degrees[2] == degree
            ||| degrees.len() > 3 && degrees[3] == degree
            ||| degrees.len() > 4 && degrees[4] == degree
            ||| degrees.len() > 5 && degrees[5] == degree
            ||| degrees.len() > 6 && degrees[6] == degree
            ||| degrees.len() > 7 && degrees[7] == degree
            ||| degrees.len() > 8 && degrees[8] == degree
            ||| degrees.len() > 9 && degrees[9] == degree
            ||| degrees.len() > 10 && degrees[10] == degree
            ||| degrees.len() > 11 && degrees[11] == degree
        },
{
    if degrees.contains(degree) {
        let i = choose|i: int| 0 <= i < degrees.len() && degrees[i] == degree;
        assert(degrees[i] == degree);
    }
}

/// True when a note has the pitch class that lies some fifths above a tonic.
pub open spec fn is_fifths_above(note: int, root: u8, fifths: int) -> bool {
    (note - root - 7 * fifths) % 12 == 0
}

/// The major scale is the seven notes that follow one another in fifths, from
/// the one below the tonic; its pentatonic scale is the tonic and the four
/// fifths above it. The whole-tone scale takes every second note, and the
/// chromatic one takes them all.
pub proof fn scales_are_built_on_their_tonic(note: int, root: u8)
    ensures
        pitch::in_scale(note, Scale::Chromatic, root),
        pitch::in_scale(note, Scale::WholeTone, root) <==> (note - root) % 2 == 0,
        pitch::in_scale(note, Scale::Major, root) <==> {
            ||| is_fifths_above(note, root, -1)
            ||| is_fifths_above(note, root, 0)
            ||| is_fifths_above(note, root, 1)
            ||| is_fifths_above(note, root, 2)
            ||| is_fifths_above(note, root, 3)
            ||| is_fifths_above(note, root, 4)
            ||| is_fifths_above(note, root, 5)
        },
        pitch::in_scale(note, Scale::MajorPentatonic, root) <==> {
            ||| is_fifths_above(note, root, 0)
            ||| is_fifths_above(note, root, 1)
            ||| is_fifths_above(note, root, 2)
            ||| is_fifths_above(note, root, 3)
            ||| is_fifths_above(note, root, 4)
        },
{
    let degree = ((note - root) % 12) as u8;
    lemma_contains(pitch::scale_degrees(Scale::Chromatic), degree);
    lemma_contains(pitch::scale_degrees(Scale::WholeTone), degree);
    lemma_contains(pitch::scale_degrees(Scale::Major), degree);
    lemma_contains(pitch::scale_degrees(Scale::MajorPentatonic), degree);
}

/// The modes have the notes of the major scale on another tonic: the natural
/// minor those of the one a minor third above, and so on; the minor pentatonic
/// scale has those of the major pentatonic one a minor third above.
pub proof fn modes_share_the_notes_of_a_major_scale(note: int, root: u8)
    ensures
        pitch::in_scale(note, Scale::NaturalMinor, root) <==> pitch::in_scale(
            note - 3,
            Scale::Major,
            root,
        ),
        pitch::in_scale(note, Scale::Dorian, root) <==> pitch::in_scale(
            note + 2,
            Scale::Major,
            root,
        ),
        pitch::in_scale(note, Scale::Phrygian, root) <==> pitch::in_scale(
            note + 4,
            Scale::Major,
            root,
        ),
        pitch::in_scale(note, Scale::Lydian, root) <==> pitch::in_scale(
            note + 5,
            Scale::Major,
            root,
        ),
        pitch::in_scale(note, Scale::Mixolydian, root) <==> pitch::in_scale(
            note + 7,
            Scale::Major,
            root,
        ),
        pitch::in_scale(note, Scale::Locrian, root) <==> pitch::in_scale(
            note + 11,
            Scale::Major,
            root,
        ),
        pitch::in_scale(note, Scale::MinorPentatonic, root) <==> pitch::in_scale(
            note - 3,
            Scale::MajorPentatonic,
            root,
        ),
{
    let degree = ((note - root) % 12) as u8;
    lemma_contains(pitch::scale_degrees(Scale::NaturalMinor), degree);
    lemma_contains(pitch::scale_degrees(Scale::Dorian), degree);
    lemma_contains(pitch::scale_degrees(Scale::Phrygian), degree);
    lemma_contains(pitch::scale_degrees(Scale::Lydian), degree);
    lemma_contains(pitch::scale_degrees(Scale::Mixolydian), degree);
    lemma_contains(pitch::scale_degrees(Scale::Locrian), degree);
    lemma_contains(pitch::scale_degrees(Scale::MinorPentatonic), degree);
    let major = pitch::scale_degrees(Scale::Major);
    lemma_contains(major, ((note - 3 - root) % 12) as u8);
    lemma_contains(major, ((note + 2 - root) % 12) as u8);
    lemma_contains(major, ((note + 4 - root) % 12) as u8);
    lemma_contains(major, ((note + 5 - root) % 12) as u8);
    lemma_contains(major, ((note + 7 - root) % 12) as u8);
    lemma_contains(major, ((note + 11 - root) % 12) as u8);
    lemma_contains(
        pitch::scale_degrees(Scale::MajorPentatonic),
        ((note - 3 - root) % 12) as u8,
    );
}

/// The harmonic minor is the natural one with its seventh degree raised; the
/// melodic minor is the major scale with its third degree lowered; the blues
/// scale is the minor pentatonic one with the tritone added.
pub proof fn altered_scales_differ_in_one_degree(note: int, root: u8)
    ensures
        pitch::in_scale(note, Scale::HarmonicMinor, root) <==> {
            ||| (note - root - 11) % 12 == 0
            ||| pitch::in_scale(note, Scale::NaturalMinor, root) && (note - root - 10) % 12 != 0
        },
        pitch::in_scale(note, Scale::MelodicMinor, root) <==> {
            ||| (note - root - 3) % 12 == 0
            ||| pitch::in_scale(note, Scale::Major, root) && (note - root - 4) % 12 != 0
        },
        pitch::in_scale(note, Scale::Blues, root) <==> {
            ||| (note - root - 6) % 12 == 0
            ||| pitch::in_scale(note, Scale::MinorPentatonic, root)
        },
{
    let degree = ((note - root) % 12) as u8;
    lemma_contains(pitch::scale_degrees(Scale::HarmonicMinor), degree);
    lemma_contains(pitch::scale_degrees(Scale::NaturalMinor), degree);
    lemma_contains(pitch::scale_degrees(Scale::MelodicMinor), degree);
    lemma_contains(pitch::scale_degrees(Scale::Major), degree);
    lemma_contains(pitch::scale_degrees(Scale::Blues), degree);
    lemma_contains(pitch::scale_degrees(Scale::MinorPentatonic), degree);
}

/// The degrees of a scale rise from the tonic within one octave, and are the
/// notes that belong to it: no more and no fewer.
pub proof fn degrees_rise_within_the_octave(scale: Scale, degree: u8, root: u8)
    ensures
        pitch::scale_degrees(scale).len() > 0,
        pitch::scale_degrees(scale)[0] == 0,
        pitch::scale_degrees(scale).last() < 12,
        forall|i: int, j: int|
            0 <= i < j < pitch::scale_degrees(scale).len() ==> #[trigger] pitch::scale_degrees(
                scale,
            )[i] < #[trigger] pitch::scale_degrees(scale)[j],
        degree < 12 ==> (pitch::scale_degrees(scale).contains(degree) <==> pitch::in_scale(
            root + degree,
            scale,
            root,
        )),
{
}

/// The filters let through the notes of the enabled ranges, bounds included;
/// with none enabled, every MIDI note.
pub proof fn filters_let_the_enabled_ranges_through(
    note: int,
    bounds: RangeBounds,
    toggles: [bool; 3],
)
    ensures
        pitch::playable(note, bounds, toggles) <==> {
            ||| toggles@[0] && bounds@[0].0 <= note && note <= bounds@[0].1
            ||| toggles@[1] && bounds@[1].0 <= note && note <= bounds@[1].1
            ||| toggles@[2] && bounds@[2].0 <= note && note <= bounds@[2].1
            ||| !toggles@[0] && !toggles@[1] && !toggles@[2] && 0 <= note && note <= 127
        },
{
    if toggles@[0] && bounds@[0].0 <= note <= bounds@[0].1 {
        assert(pitch::playable(note, bounds, toggles));
    }
    if toggles@[1] && bounds@[1].0 <= note <= bounds@[1].1 {
        assert(pitch::playable(note, bounds, toggles));
    }
    if toggles@[2] && bounds@[2].0 <= note <= bounds@[2].1 {
        assert(pitch::playable(note, bounds, toggles));
    }
}

/// The distance between two notes.
pub open spec fn gap(a: u8, b: u8) -> int {
    if a < b {
        b - a
    } else {
        a - b
    }
}

/// True of the pitch that a place among the playable notes comes to: of the
/// note with that many playable notes below it, the nearest pitch that is
/// playable and in the scale, the lower of two; that note itself where there
/// is no such pitch.
pub open spec fn lands(
    pitch: u8,
    place: int,
    scale: Scale,
    root: u8,
    bounds: RangeBounds,
    toggles: [bool; 3],
) -> bool {
    exists|raw: u8|
        {
            &&& #[trigger] pitch::playable(raw as int, bounds, toggles)
            &&& playable_below(raw as int, bounds, toggles) == place
            &&& if exists|other: u8|
                pitch::playable(other as int, bounds, toggles) && #[trigger] pitch::in_scale(
                    other as int,
                    scale,
                    root,
                ) {
                &&& pitch::playable(pitch as int, bounds, toggles)
                &&& pitch::in_scale(pitch as int, scale, root)
                &&& forall|other: u8|
                    pitch::playable(other as int, bounds, toggles) && #[trigger] pitch::in_scale(
                        other as int,
                        scale,
                        root,
                    ) ==> gap(pitch, raw) < gap(other, raw) || (gap(pitch, raw) == gap(other, raw)
                        && pitch <= other)
            } else {
                pitch == raw
            }
        }
}

/// Whatever the scale, a place is played as the nearest pitch of the scale
/// within the enabled ranges.
pub proof fn places_land_in_the_scale(
    place: int,
    scale: Scale,
    root: u8,
    bounds: RangeBounds,
    toggles: [bool; 3],
)
    requires
        bounds_in_order(bounds, toggles),
        0 <= place < playable_below(256, bounds, toggles),
    ensures
        lands(
            pitch::effective_note(place, scale, root, bounds, toggles),
            place,
            scale,
            root,
            bounds,
            toggles,
        ),
{
    let raw = pitch::note_at(pitch::playable_ranges(bounds, toggles), place);
    let note = pitch::effective_note(place, scale, root, bounds, toggles);
    playable_total_counts_each_note_once(bounds, toggles);
    sweep_takes_each_playable_note_in_turn(place, bounds, toggles);
    assert(pitch::playable(raw as int, bounds, toggles));
    if exists|other: u8|
        pitch::playable(other as int, bounds, toggles) && #[trigger] pitch::in_scale(
            other as int,
            scale,
            root,
        ) {
        let some = choose|other: u8|
            pitch::playable(other as int, bounds, toggles) && #[trigger] pitch::in_scale(
                other as int,
                scale,
                root,
            );
        assert(pitch::allowed_pitch(some as int, scale, root, bounds, toggles));
        snapping_lands_on_the_nearest_degree(raw, scale, root, bounds, toggles);
        scales_are_built_on_their_tonic(raw as int, root);
        if scale is Chromatic {
            assert(pitch::allowed_pitch(raw as int, scale, root, bounds, toggles));
            snapping_keeps_allowed_notes(raw, scale, root, bounds, toggles);
        }
        assert forall|other: u8|
            pitch::playable(other as int, bounds, toggles) && #[trigger] pitch::in_scale(
                other as int,
                scale,
                root,
            ) implies gap(note, raw) < gap(other, raw) || (gap(note, raw) == gap(other, raw) && note
            <= other) by {
            assert(pitch::allowed_pitch(other as int, scale, root, bounds, toggles));
            assert(pitch::nearer(note, other, raw));
        }
    } else {
        scales_are_built_on_their_tonic(raw as int, root);
        assert forall|p: u8| !#[trigger] pitch::allowed_pitch(
            p as int,
            scale,
            root,
            bounds,
            toggles,
        ) by {
            assert(!(pitch::playable(p as int, bounds, toggles) && pitch::in_scale(
                p as int,
                scale,
                root,
            )));
        }
    }
}

proof fn lemma_all_playable(note: int, bounds: RangeBounds, toggles: [bool; 3])
    requires
        !toggles@[0],
        !toggles@[1],
        !toggles@[2],
        0 <= note <= 128,
    ensures
        playable_below(note, bounds, toggles) == note,
        note == 128 ==> playable_below(256, bounds, toggles) == 128,
    decreases note,
{
    if note > 0 {
        lemma_all_playable(note - 1, bounds, toggles);
        assert(pitch::playable(note - 1, bounds, toggles));
    }
    if note == 128 {
        lemma_none_playable_above(256, bounds, toggles);
    }
}

proof fn lemma_none_playable_above(note: int, bounds: RangeBounds, toggles: [bool; 3])
    requires
        !toggles@[0],
        !toggles@[1],
        !toggles@[2],
        note >= 128,
    ensures
        playable_below(note, bounds, toggles) == playable_below(128, bounds, toggles),
    decreases note,
{
    if note > 128 {
        lemma_none_playable_above(note - 1, bounds, toggles);
        assert(!pitch::playable(note - 1, bounds, toggles));
    }
}

/// Without filters and without a scale, each of the 128 places is the MIDI
/// note of its number.
pub proof fn unfiltered_places_are_the_midi_notes(
    place: int,
    root: u8,
    bounds: RangeBounds,
    toggles: [bool; 3],
)
    requires
        !toggles@[0],
        !toggles@[1],
        !toggles@[2],
        0 <= place <= 127,
    ensures
        pitch::total_notes(pitch::playable_ranges(bounds, toggles)) == 128,
        pitch::effective_note(place, Scale::Chromatic, root, bounds, toggles) == place,
{
    lemma_all_playable(128, bounds, toggles);
    playable_total_counts_each_note_once(bounds, toggles);
    sweep_takes_each_playable_note_in_turn(place, bounds, toggles);
    let note = pitch::note_at(pitch::playable_ranges(bounds, toggles), place) as int;
    assert(0 <= note <= 127);
    lemma_all_playable(note, bounds, toggles);
}

/// The place of a color channel value is the integer nearest to its share of
/// the way from the first place to the last.
pub proof fn channel_place_is_the_nearest(value: u8, total: int)
    ensures
        -255 < 2 * (255 * pitch::channel_place(value, total) - value * (total - 1)) < 255,
        total >= 1 ==> 0 <= pitch::channel_place(value, total) <= total - 1,
{
    if total >= 1 {
        assert(0 <= value * (total - 1) <= 255 * (total - 1)) by (nonlinear_arith)
            requires
                0 <= value <= 255,
                total >= 1,
        ;
    } else {
        assert(value * (1 - total) == -(value * (total - 1))) by (nonlinear_arith);
    }
}

/// Among allowed pitches, the nearest to a note is one of them that none is
/// nearer to, the lower of two.
pub proof fn nearest_of_a_list(pitch: u8, note: u8, allowed: Seq<u8>)
    ensures
        pitch::is_nearest(pitch, note, allowed) <==> {
            &&& allowed.contains(pitch)
            &&& forall|i: int|
                0 <= i < allowed.len() ==> gap(pitch, note) < gap(#[trigger] allowed[i], note) || (
                gap(pitch, note) == gap(allowed[i], note) && pitch <= allowed[i])
        },
{
    if pitch::is_nearest(pitch, note, allowed) {
        assert forall|i: int| 0 <= i < allowed.len() implies gap(pitch, note) < gap(
            #[trigger] allowed[i],
            note,
        ) || (gap(pitch, note) == gap(allowed[i], note) && pitch <= allowed[i]) by {
            assert(pitch::nearer(pitch, allowed[i], note));
        }
    }
}

/// With their bounds in order, the filters let some note through.
pub proof fn some_note_is_playable(bounds: RangeBounds, toggles: [bool; 3])
    requires
        bounds_in_order(bounds, toggles),
    ensures
        playable_below(256, bounds, toggles) >= 1,
        pitch::total_notes(pitch::playable_ranges(bounds, toggles)) >= 1,
{
    playable_total_counts_each_note_once(bounds, toggles);
    let note: u8 = if toggles@[0] {
        bounds@[0].0
    } else if toggles@[1] {
        bounds@[1].0
    } else if toggles@[2] {
        bounds@[2].0
    } else {
        0
    };
    assert(toggles@[0] ==> bounds@[0].0 <= bounds@[0].1);
    assert(toggles@[1] ==> bounds@[1].0 <= bounds@[1].1);
    assert(toggles@[2] ==> bounds@[2].0 <= bounds@[2].1);
    filters_let_the_enabled_ranges_through(note as int, bounds, toggles);
    assert(playable_below(note + 1, bounds, toggles) == playable_below(note as int, bounds, toggles)
        + 1);
    lemma_below_is_monotonic(0, note as int, bounds, toggles);
    lemma_below_is_monotonic(note + 1, 256, bounds, toggles);
}

/// A synth may land on the playable notes of its scale; the list of them
/// rises.
pub proof fn allowed_pitches_are_playable_degrees(
    note: int,
    notes: Seq<u8>,
    scale: Scale,
    root: u8,
    bounds: RangeBounds,
    toggles: [bool; 3],
)
    ensures
        pitch::allowed_pitch(note, scale, root, bounds, toggles) <==> pitch::playable(
            note,
            bounds,
            toggles,
        ) && pitch::in_scale(note, scale, root),
        pitch::ascending(notes) <==> forall|i: int, j: int|
            0 <= i < j < notes.len() ==> #[trigger] notes[i] < #[trigger] notes[j],
{
}

/// No two scales have the same degrees.
pub proof fn scales_have_degrees_of_their_own(a: Scale, b: Scale)
    ensures
        pitch::scale_degrees(a) == pitch::scale_degrees(b) ==> a == b,
{
    let x = pitch::scale_degrees(a);
    let y = pitch::scale_degrees(b);
    if x == y {
        assert(x.len() == y.len());
        assert(x[1] == y[1] && x[2] == y[2] && x[3] == y[3] && x[4] == y[4]);
        assert(x.len() > 5 ==> x[5] == y[5]);
        assert(x.len() > 6 ==> x[6] == y[6]);
    }
}

} // verus!
