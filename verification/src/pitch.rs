//! From a position on the playable range to a pitch of the scale.

use vstd::prelude::*;

use crate::state::{Scale, Synth};

verus! {

/// The (low, high) bounds of the bass, medium and treble note ranges.
pub type RangeBounds = [(u8, u8); 3];

/// The bounds of the enabled ranges, in their order.
pub open spec fn enabled_ranges(bounds: RangeBounds, toggles: [bool; 3]) -> Seq<(u8, u8)> {
    (if toggles@[0] {
        seq![bounds@[0]]
    } else {
        Seq::empty()
    }) + (if toggles@[1] {
        seq![bounds@[1]]
    } else {
        Seq::empty()
    }) + (if toggles@[2] {
        seq![bounds@[2]]
    } else {
        Seq::empty()
    })
}

/// The lexicographic order of ranges.
pub open spec fn range_before(a: (u8, u8), b: (u8, u8)) -> bool {
    a.0 < b.0 || (a.0 == b.0 && a.1 <= b.1)
}

/// A range put in its place among sorted ranges.
pub open spec fn insert_range(sorted: Seq<(u8, u8)>, range: (u8, u8)) -> Seq<(u8, u8)>
    decreases sorted.len(),
{
    if sorted.len() == 0 || range_before(sorted.last(), range) {
        sorted.push(range)
    } else {
        insert_range(sorted.drop_last(), range).push(sorted.last())
    }
}

/// The ranges in ascending order.
pub open spec fn sorted_ranges(ranges: Seq<(u8, u8)>) -> Seq<(u8, u8)>
    decreases ranges.len(),
{
    if ranges.len() == 0 {
        ranges
    } else {
        insert_range(sorted_ranges(ranges.drop_last()), ranges.last())
    }
}

/// Adds a range after the ranges merged so far: into the last one where the
/// two overlap or touch, as a new one otherwise.
pub open spec fn merge_range(merged: Seq<(u8, u8)>, range: (u8, u8)) -> Seq<(u8, u8)> {
    if merged.len() > 0 && range.0 <= merged.last().1 + 1 {
        if range.1 > merged.last().1 {
            merged.update(merged.len() - 1, (merged.last().0, range.1))
        } else {
            merged
        }
    } else {
        merged.push(range)
    }
}

/// Sorted ranges with the overlapping and adjacent ones merged.
pub open spec fn merge_ranges(sorted: Seq<(u8, u8)>) -> Seq<(u8, u8)>
    decreases sorted.len(),
{
    if sorted.len() == 0 {
        sorted
    } else {
        merge_range(merge_ranges(sorted.drop_last()), sorted.last())
    }
}

/// The enabled ranges, sorted, with the overlapping and adjacent ones merged.
pub open spec fn merged_ranges(bounds: RangeBounds, toggles: [bool; 3]) -> Seq<(u8, u8)> {
    merge_ranges(sorted_ranges(enabled_ranges(bounds, toggles)))
}

/// The ranges a synth may play in: the merged enabled ranges, or the full
/// MIDI range with none enabled.
pub open spec fn playable_ranges(bounds: RangeBounds, toggles: [bool; 3]) -> Seq<(u8, u8)> {
    let merged = merged_ranges(bounds, toggles);
    if merged.len() == 0 {
        seq![(0u8, 127u8)]
    } else {
        merged
    }
}

/// The number of notes of a range, bounds included.
pub open spec fn note_count(range: (u8, u8)) -> int {
    range.1 - range.0 + 1
}

/// The number of notes of all the ranges together.
pub open spec fn total_notes(ranges: Seq<(u8, u8)>) -> int
    decreases ranges.len(),
{
    if ranges.len() == 0 {
        0
    } else {
        total_notes(ranges.drop_last()) + note_count(ranges.last())
    }
}

/// The note at a place among the concatenated notes of the ranges, the high
/// bound of the last range past their end.
pub open spec fn note_at(ranges: Seq<(u8, u8)>, index: int) -> u8
    decreases ranges.len(),
{
    if ranges.len() == 0 {
        0
    } else if index < note_count(ranges[0]) {
        (ranges[0].0 + index) as u8
    } else if ranges.len() == 1 {
        ranges[0].1
    } else {
        note_at(ranges.drop_first(), index - note_count(ranges[0]))
    }
}

/// Collects the (low, high) bounds of the enabled sub-ranges. Toggles are
/// cumulative: the allowed range is the union of the enabled sub-ranges;
/// the bounds are user-configurable.
pub fn active_note_ranges(bounds: &RangeBounds, toggles: &[bool; 3]) -> (ranges: Vec<(u8, u8)>)
    ensures
        ranges@ == enabled_ranges(*bounds, *toggles),
{
    let mut ranges: Vec<(u8, u8)> = Vec::new();
    if toggles[0] {
        ranges.push(bounds[0]);
    }
    if toggles[1] {
        ranges.push(bounds[1]);
    }
    if toggles[2] {
        ranges.push(bounds[2]);
    }
    assert(ranges@ =~= enabled_ranges(*bounds, *toggles));
    ranges
}

/// Puts a range in its place among sorted ranges.
fn insert_in_order(sorted: &mut Vec<(u8, u8)>, range: (u8, u8))
    ensures
        final(sorted)@ == insert_range(old(sorted)@, range),
{
    let mut place: usize = sorted.len();
    let ghost whole = sorted@;
    assert(whole.take(place as int) =~= whole);
    assert(whole.skip(place as int) =~= Seq::empty());
    assert(insert_range(whole, range) =~= insert_range(whole.take(place as int), range)
        + whole.skip(place as int));
    while place > 0 && !(sorted[place - 1].0 < range.0 || (sorted[place - 1].0 == range.0
        && sorted[place - 1].1 <= range.1))
        invariant
            place <= whole.len(),
            sorted@ == whole,
            insert_range(whole, range) == insert_range(whole.take(place as int), range)
                + whole.skip(place as int),
        decreases place,
    {
        proof {
            let head = whole.take(place as int);
            assert(head.drop_last() =~= whole.take(place - 1));
            assert(insert_range(head, range) + whole.skip(place as int) =~= insert_range(
                whole.take(place - 1),
                range,
            ) + whole.skip(place - 1));
        }
        place = place - 1;
    }
    sorted.insert(place, range);
    assert(sorted@ =~= whole.take(place as int).push(range) + whole.skip(place as int));
}

/// Sorts the enabled sub-ranges and merges the overlapping/adjacent ones so
/// their union is walked exactly once, in ascending order. An empty result
/// means no sub-range is enabled (the full 0–127 range is used).
pub fn merged_note_ranges(bounds: &RangeBounds, toggles: &[bool; 3]) -> (merged: Vec<(u8, u8)>)
    ensures
        merged@ == merged_ranges(*bounds, *toggles),
        merged@.len() == 0 <==> !toggles@[0] && !toggles@[1] && !toggles@[2],
{
    let active = active_note_ranges(bounds, toggles);
    let mut allowed: Vec<(u8, u8)> = Vec::new();
    let mut i: usize = 0;
    while i < active.len()
        invariant
            i <= active.len(),
            allowed@ == sorted_ranges(active@.take(i as int)),
        decreases active.len() - i,
    {
        assert(active@.take(i + 1).drop_last() =~= active@.take(i as int));
        insert_in_order(&mut allowed, active[i]);
        i = i + 1;
    }
    assert(active@.take(i as int) =~= active@);
    let mut merged: Vec<(u8, u8)> = Vec::new();
    i = 0;
    while i < allowed.len()
        invariant
            i <= allowed.len(),
            merged@ == merge_ranges(allowed@.take(i as int)),
        decreases allowed.len() - i,
    {
        assert(allowed@.take(i + 1).drop_last() =~= allowed@.take(i as int));
        let (lo, hi) = allowed[i];
        let count: usize = merged.len();
        if count > 0 && lo as i32 <= merged[count - 1].1 as i32 + 1 {
            if hi > merged[count - 1].1 {
                let first: u8 = merged[count - 1].0;
                merged.set(count - 1, (first, hi));
            }
        } else {
            merged.push((lo, hi));
        }
        i = i + 1;
    }
    assert(allowed@.take(i as int) =~= allowed@);
    proof {
        lemma_merge_keeps_some(active@);
    }
    merged
}

proof fn lemma_insert_len(sorted: Seq<(u8, u8)>, range: (u8, u8))
    ensures
        insert_range(sorted, range).len() == sorted.len() + 1,
    decreases sorted.len(),
{
    if sorted.len() > 0 && !range_before(sorted.last(), range) {
        lemma_insert_len(sorted.drop_last(), range);
    }
}

proof fn lemma_sort_len(ranges: Seq<(u8, u8)>)
    ensures
        sorted_ranges(ranges).len() == ranges.len(),
    decreases ranges.len(),
{
    if ranges.len() > 0 {
        lemma_sort_len(ranges.drop_last());
        lemma_insert_len(sorted_ranges(ranges.drop_last()), ranges.last());
    }
}

proof fn lemma_merge_len(sorted: Seq<(u8, u8)>)
    ensures
        merge_ranges(sorted).len() <= sorted.len(),
        sorted.len() > 0 ==> merge_ranges(sorted).len() > 0,
    decreases sorted.len(),
{
    if sorted.len() > 0 {
        lemma_merge_len(sorted.drop_last());
    }
}

/// Merging ranges keeps at least one of them, and adds none.
proof fn lemma_merge_keeps_some(ranges: Seq<(u8, u8)>)
    ensures
        merge_ranges(sorted_ranges(ranges)).len() <= ranges.len(),
        merge_ranges(sorted_ranges(ranges)).len() == 0 <==> ranges.len() == 0,
{
    lemma_sort_len(ranges);
    lemma_merge_len(sorted_ranges(ranges));
}

/// Semitone offsets from the tonic of each scale, within one octave.
pub open spec fn scale_degrees(scale: Scale) -> Seq<u8> {
    match scale {
        Scale::Chromatic => seq![0u8, 1, 2, 3, 4, 5, 6, 7, 8, 9, 10, 11],
        Scale::Major => seq![0u8, 2, 4, 5, 7, 9, 11],
        Scale::NaturalMinor => seq![0u8, 2, 3, 5, 7, 8, 10],
        Scale::HarmonicMinor => seq![0u8, 2, 3, 5, 7, 8, 11],
        Scale::MelodicMinor => seq![0u8, 2, 3, 5, 7, 9, 11],
        Scale::MajorPentatonic => seq![0u8, 2, 4, 7, 9],
        Scale::MinorPentatonic => seq![0u8, 3, 5, 7, 10],
        Scale::Blues => seq![0u8, 3, 5, 6, 7, 10],
        Scale::Dorian => seq![0u8, 2, 3, 5, 7, 9, 10],
        Scale::Phrygian => seq![0u8, 1, 3, 5, 7, 8, 10],
        Scale::Lydian => seq![0u8, 2, 4, 6, 7, 9, 11],
        Scale::Mixolydian => seq![0u8, 2, 4, 5, 7, 9, 10],
        Scale::Locrian => seq![0u8, 1, 3, 5, 6, 8, 10],
        Scale::WholeTone => seq![0u8, 2, 4, 6, 8, 10],
    }
}

/// Semitone offsets from the tonic of each scale, within one octave.
pub fn scale_intervals(scale: Scale) -> (degrees: Vec<u8>)
    ensures
        degrees@ == scale_degrees(scale),
{
    let degrees: Vec<u8> = match scale {
        Scale::Chromatic => vec![0, 1, 2, 3, 4, 5, 6, 7, 8, 9, 10, 11],
        Scale::Major => vec![0, 2, 4, 5, 7, 9, 11],
        Scale::NaturalMinor => vec![0, 2, 3, 5, 7, 8, 10],
        Scale::HarmonicMinor => vec![0, 2, 3, 5, 7, 8, 11],
        Scale::MelodicMinor => vec![0, 2, 3, 5, 7, 9, 11],
        Scale::MajorPentatonic => vec![0, 2, 4, 7, 9],
        Scale::MinorPentatonic => vec![0, 3, 5, 7, 10],
        Scale::Blues => vec![0, 3, 5, 6, 7, 10],
        Scale::Dorian => vec![0, 2, 3, 5, 7, 9, 10],
        Scale::Phrygian => vec![0, 1, 3, 5, 7, 8, 10],
        Scale::Lydian => vec![0, 2, 4, 6, 7, 9, 11],
        Scale::Mixolydian => vec![0, 2, 4, 5, 7, 9, 10],
        Scale::Locrian => vec![0, 1, 3, 5, 6, 8, 10],
        Scale::WholeTone => vec![0, 2, 4, 6, 8, 10],
    };
    assert(degrees@ =~= scale_degrees(scale));
    degrees
}

/// True of the notes that are a degree of the scale built on the tonic.
pub open spec fn in_scale(note: int, scale: Scale, root: u8) -> bool {
    scale_degrees(scale).contains(((note - root) % 12) as u8)
}

/// True of the notes that one of the ranges holds.
pub open spec fn in_ranges(note: int, ranges: Seq<(u8, u8)>) -> bool {
    exists|i: int| 0 <= i < ranges.len() && (#[trigger] ranges[i]).0 <= note <= ranges[i].1
}

/// True of the notes that a synth may play with these range filters: those
/// of the enabled ranges, or of the full MIDI range with none enabled.
pub open spec fn playable(note: int, bounds: RangeBounds, toggles: [bool; 3]) -> bool {
    if toggles@[0] || toggles@[1] || toggles@[2] {
        exists|i: int|
            0 <= i < 3 && #[trigger] toggles@[i] && bounds@[i].0 <= note <= bounds@[i].1
    } else {
        0 <= note <= 127
    }
}

/// True when the notes rise from each one to the next.
pub open spec fn ascending(notes: Seq<u8>) -> bool {
    forall|i: int, j: int| 0 <= i < j < notes.len() ==> notes[i] < notes[j]
}

/// The number of playable notes (the sum of the spans of the merged enabled
/// ranges, 128 with none enabled).
pub fn playable_total(bounds: &RangeBounds, toggles: &[bool; 3]) -> (total: i16)
    ensures
        total == total_notes(playable_ranges(*bounds, *toggles)),
        -768 <= total <= 768,
{
    let merged = merged_note_ranges(bounds, toggles);
    if merged.len() == 0 {
        proof {
            let full = seq![(0u8, 127u8)];
            reveal_with_fuel(total_notes, 2);
            assert(total_notes(full) == 128);
        }
        return 128;
    }
    proof {
        lemma_merge_keeps_some(enabled_ranges(*bounds, *toggles));
    }
    let mut total: i16 = 0;
    let mut i: usize = 0;
    while i < merged.len()
        invariant
            i <= merged.len() <= 3,
            -256 * i <= total <= 256 * i,
            total == total_notes(merged@.take(i as int)),
        decreases merged.len() - i,
    {
        assert(merged@.take(i + 1).drop_last() =~= merged@.take(i as int));
        let (lo, hi) = merged[i];
        total = total + (hi as i16 - lo as i16 + 1);
        i = i + 1;
    }
    assert(merged@.take(i as int) =~= merged@);
    total
}

/// The note at a place among the playable notes: the pitch rises gradually
/// and continuously from the low bound of the first enabled sub-range to
/// the high bound of the last one as the place moves up. With several
/// disjoint sub-ranges enabled, the sweep walks through each of them in
/// order, skipping the gaps. With no sub-range enabled, the full MIDI range
/// (0–127) is used.
pub fn rescale_into_range(index: i16, bounds: &RangeBounds, toggles: &[bool; 3]) -> (note: u8)
    ensures
        note == note_at(playable_ranges(*bounds, *toggles), index as int),
{
    let mut ranges = merged_note_ranges(bounds, toggles);
    if ranges.len() == 0 {
        ranges.push((0, 127));
        assert(ranges@ =~= seq![(0u8, 127u8)]);
    }
    proof {
        lemma_merge_keeps_some(enabled_ranges(*bounds, *toggles));
    }
    let mut rest: i32 = index as i32;
    let mut i: usize = 0;
    let ghost target = note_at(ranges@, index as int);
    assert(ranges@.skip(0) =~= ranges@);
    while i < ranges.len()
        invariant
            i <= ranges.len() <= 3,
            target == note_at(playable_ranges(*bounds, *toggles), index as int),
            -40_000 - 256 * i <= rest <= 40_000 + 256 * i,
            i < ranges.len() ==> target == note_at(ranges@.skip(i as int), rest as int),
            i == ranges.len() ==> target == ranges@.last().1,
            ranges.len() > 0,
        decreases ranges.len() - i,
    {
        let (lo, hi) = ranges[i];
        let count: i32 = hi as i32 - lo as i32 + 1;
        assert(ranges@.skip(i as int).drop_first() =~= ranges@.skip(i + 1));
        if rest < count {
            return #[verifier::truncate] ((lo as i32 + rest) as u8);
        }
        rest = rest - count;
        i = i + 1;
    }
    ranges[ranges.len() - 1].1
}

/// Maps a color channel value (0–255) to a MIDI note 0–127.
pub fn channel_to_midi_note(value: u8) -> (note: u8)
    ensures
        note <= 127,
        // the nearest integer to value × 127 / 255
        -255 < 2 * (note * 255 - value * 127) < 255,
{
    ((value as u32 * 254 + 255) / 510) as u8
}

/// The integer nearest to `value / 255 × (total - 1)`.
pub open spec fn channel_place(value: u8, total: int) -> int {
    if total >= 1 {
        (2 * (value * (total - 1)) + 255) / 510
    } else {
        -((2 * (value * (1 - total)) + 255) / 510)
    }
}

/// The place of a color channel value (0–255) on a range of notes: the
/// nearest integer to `value / 255 × (total - 1)`.
pub fn channel_position(value: u8, total: i16) -> (index: i16)
    requires
        -768 <= total <= 768,
    ensures
        index == channel_place(value, total as int),
        -255 < 2 * (index * 255 - value * (total - 1)) < 255,
{
    let last: i32 = total as i32 - 1;
    if last >= 0 {
        assert(0 <= value * last <= 255 * 768) by (nonlinear_arith)
            requires
                0 <= value <= 255,
                0 <= last <= 768,
        ;
        let scaled: i32 = value as i32 * last;
        // 2 × scaled is even and 255 odd: there is never a tie
        ((2 * scaled + 255) / 510) as i16
    } else {
        let span: i32 = -last;
        assert(0 <= value * span <= 255 * 770) by (nonlinear_arith)
            requires
                0 <= value <= 255,
                0 <= span <= 770,
        ;
        assert(value * span == -(value * last)) by (nonlinear_arith)
            requires
                span == -last,
        ;
        let scaled: i32 = value as i32 * span;
        -(((2 * scaled + 255) / 510) as i16)
    }
}

/// True when the ranges are separated by at least one note that belongs to
/// none of them, from each one to the next.
pub open spec fn separated(ranges: Seq<(u8, u8)>) -> bool {
    forall|i: int, j: int|
        0 <= i < j < ranges.len() ==> (#[trigger] ranges[i]).1 + 1 < (#[trigger] ranges[j]).0
            && ranges[i].0 <= ranges[j].0
}

/// True when the ranges are in ascending order.
spec fn in_order(ranges: Seq<(u8, u8)>) -> bool {
    forall|i: int, j: int|
        0 <= i < j < ranges.len() ==> range_before(#[trigger] ranges[i], #[trigger] ranges[j])
}

proof fn lemma_in_ranges_push(ranges: Seq<(u8, u8)>, range: (u8, u8), note: int)
    ensures
        in_ranges(note, ranges.push(range)) <==> in_ranges(note, ranges) || range.0 <= note
            <= range.1,
{
    let longer = ranges.push(range);
    if in_ranges(note, ranges) {
        let i = choose|i: int|
            0 <= i < ranges.len() && (#[trigger] ranges[i]).0 <= note <= ranges[i].1;
        assert(longer[i].0 <= note <= longer[i].1);
    }
    if range.0 <= note <= range.1 {
        assert(longer[ranges.len() as int].0 <= note <= longer[ranges.len() as int].1);
    }
    if in_ranges(note, longer) {
        let i = choose|i: int|
            0 <= i < longer.len() && (#[trigger] longer[i]).0 <= note <= longer[i].1;
        if i < ranges.len() {
            assert(ranges[i].0 <= note <= ranges[i].1);
        }
    }
}

proof fn lemma_insert(sorted: Seq<(u8, u8)>, range: (u8, u8))
    requires
        in_order(sorted),
    ensures
        in_order(insert_range(sorted, range)),
        forall|note: int| #[trigger]
            in_ranges(note, insert_range(sorted, range)) <==> in_ranges(note, sorted) || range.0
                <= note <= range.1,
        insert_range(sorted, range).len() > 0,
        insert_range(sorted, range).last() == range || (sorted.len() > 0 && insert_range(
            sorted,
            range,
        ).last() == sorted.last()),
        forall|i: int|
            0 <= i < insert_range(sorted, range).len() ==> #[trigger] insert_range(
                sorted,
                range,
            )[i] == range || sorted.contains(insert_range(sorted, range)[i]),
    decreases sorted.len(),
{
    if sorted.len() == 0 || range_before(sorted.last(), range) {
        let longer = sorted.push(range);
        assert forall|i: int, j: int| 0 <= i < j < longer.len() implies range_before(
            #[trigger] longer[i],
            #[trigger] longer[j],
        ) by {
            if j == sorted.len() && i < sorted.len() - 1 {
                assert(range_before(sorted[i], sorted[sorted.len() - 1]));
            }
        }
        assert forall|note: int| #[trigger] in_ranges(note, longer) <==> in_ranges(note, sorted)
            || range.0 <= note <= range.1 by {
            lemma_in_ranges_push(sorted, range, note);
        }
        assert forall|i: int| 0 <= i < longer.len() implies #[trigger] longer[i] == range
            || sorted.contains(longer[i]) by {
            if i < sorted.len() {
                assert(sorted[i] == longer[i]);
            }
        }
    } else {
        let rest = sorted.drop_last();
        lemma_insert(rest, range);
        let shorter = insert_range(rest, range);
        let longer = shorter.push(sorted.last());
        assert(sorted == rest.push(sorted.last()));
        assert forall|i: int| 0 <= i < shorter.len() implies range_before(
            #[trigger] shorter[i],
            sorted.last(),
        ) && (shorter[i] == range || sorted.contains(shorter[i])) by {
            if shorter[i] != range {
                let k = choose|k: int| 0 <= k < rest.len() && rest[k] == shorter[i];
                assert(sorted[k] == shorter[i]);
                assert(range_before(sorted[k], sorted[sorted.len() - 1]));
            }
        }
        assert forall|i: int| 0 <= i < longer.len() implies #[trigger] longer[i] == range
            || sorted.contains(longer[i]) by {
            if i < shorter.len() {
                assert(longer[i] == shorter[i]);
            } else {
                assert(sorted[sorted.len() - 1] == longer[i]);
            }
        }
        assert forall|note: int| #[trigger] in_ranges(note, longer) <==> in_ranges(note, sorted)
            || range.0 <= note <= range.1 by {
            lemma_in_ranges_push(shorter, sorted.last(), note);
            lemma_in_ranges_push(rest, sorted.last(), note);
            assert(in_ranges(note, shorter) <==> in_ranges(note, rest) || range.0 <= note
                <= range.1);
        }
    }
}

proof fn lemma_sorted_ranges(ranges: Seq<(u8, u8)>)
    ensures
        in_order(sorted_ranges(ranges)),
        forall|note: int| #[trigger]
            in_ranges(note, sorted_ranges(ranges)) <==> in_ranges(note, ranges),
    decreases ranges.len(),
{
    if ranges.len() > 0 {
        lemma_sorted_ranges(ranges.drop_last());
        lemma_insert(sorted_ranges(ranges.drop_last()), ranges.last());
        assert forall|note: int| #[trigger]
            in_ranges(note, sorted_ranges(ranges)) <==> in_ranges(note, ranges) by {
            lemma_in_ranges_push(ranges.drop_last(), ranges.last(), note);
            assert(ranges =~= ranges.drop_last().push(ranges.last()));
            assert(in_ranges(note, sorted_ranges(ranges.drop_last())) <==> in_ranges(
                note,
                ranges.drop_last(),
            ));
        }
    }
}

proof fn lemma_merge(sorted: Seq<(u8, u8)>)
    requires
        in_order(sorted),
    ensures
        separated(merge_ranges(sorted)),
        sorted.len() > 0 ==> merge_ranges(sorted).len() > 0 && merge_ranges(sorted).last().0
            <= sorted.last().0,
        forall|note: int| #[trigger]
            in_ranges(note, merge_ranges(sorted)) <==> in_ranges(note, sorted),
    decreases sorted.len(),
{
    if sorted.len() > 0 {
        let rest = sorted.drop_last();
        let before = merge_ranges(rest);
        let range = sorted.last();
        lemma_merge(rest);
        if rest.len() > 0 {
            assert(range_before(sorted[sorted.len() - 2], sorted[sorted.len() - 1]));
        }
        assert forall|note: int| #[trigger]
            in_ranges(note, merge_ranges(sorted)) <==> in_ranges(note, sorted) by {
            lemma_in_ranges_push(rest, range, note);
            assert(sorted =~= rest.push(range));
            assert(in_ranges(note, before) <==> in_ranges(note, rest));
            if before.len() > 0 && range.0 <= before.last().1 + 1 {
                let shorter = before.drop_last();
                lemma_in_ranges_push(shorter, before.last(), note);
                assert(before =~= shorter.push(before.last()));
                if range.1 > before.last().1 {
                    lemma_in_ranges_push(shorter, (before.last().0, range.1), note);
                    assert(merge_ranges(sorted) =~= shorter.push((before.last().0, range.1)));
                }
            } else {
                lemma_in_ranges_push(before, range, note);
            }
        }
    }
}

/// The merged ranges hold the notes of the enabled ranges and no others,
/// and stand apart from one another: their union is walked exactly once, in
/// ascending order.
pub proof fn merged_ranges_are_the_union(bounds: RangeBounds, toggles: [bool; 3])
    ensures
        separated(playable_ranges(bounds, toggles)),
        forall|note: int| #[trigger]
            in_ranges(note, playable_ranges(bounds, toggles)) <==> playable(note, bounds, toggles),
{
    let enabled = enabled_ranges(bounds, toggles);
    lemma_sorted_ranges(enabled);
    lemma_merge(sorted_ranges(enabled));
    lemma_merge_keeps_some(enabled);
    assert forall|note: int| #[trigger]
        in_ranges(note, playable_ranges(bounds, toggles)) <==> playable(note, bounds, toggles) by {
        if toggles@[0] || toggles@[1] || toggles@[2] {
            let none = Seq::<(u8, u8)>::empty();
            let first = if toggles@[0] {
                none.push(bounds@[0])
            } else {
                none
            };
            let second = if toggles@[1] {
                first.push(bounds@[1])
            } else {
                first
            };
            let third = if toggles@[2] {
                second.push(bounds@[2])
            } else {
                second
            };
            assert(enabled =~= third);
            lemma_in_ranges_push(none, bounds@[0], note);
            lemma_in_ranges_push(first, bounds@[1], note);
            lemma_in_ranges_push(second, bounds@[2], note);
            assert(in_ranges(note, merged_ranges(bounds, toggles)) <==> in_ranges(
                note,
                sorted_ranges(enabled),
            ));
            if toggles@[0] && bounds@[0].0 <= note <= bounds@[0].1 {
                assert(playable(note, bounds, toggles));
            }
            if toggles@[1] && bounds@[1].0 <= note <= bounds@[1].1 {
                assert(playable(note, bounds, toggles));
            }
            if toggles@[2] && bounds@[2].0 <= note <= bounds@[2].1 {
                assert(playable(note, bounds, toggles));
            }
        } else {
            let full = seq![(0u8, 127u8)];
            assert(full[0].0 <= note <= full[0].1 <==> 0 <= note <= 127);
        }
    }
}

/// True of the pitches a synth may land on: playable ones that belong to
/// its scale.
pub open spec fn allowed_pitch(
    note: int,
    scale: Scale,
    root: u8,
    bounds: RangeBounds,
    toggles: [bool; 3],
) -> bool {
    playable(note, bounds, toggles) && in_scale(note, scale, root)
}

fn is_degree(note: u8, degrees: &Vec<u8>, root: u8) -> (b: bool)
    ensures
        b == degrees@.contains(((note - root) % 12) as u8),
{
    let rel: u8 = ((note as u16 + 264 - root as u16) % 12) as u8;
    assert(rel == (note - root) % 12);
    let mut i: usize = 0;
    while i < degrees.len()
        invariant
            i <= degrees.len(),
            rel == ((note - root) % 12) as u8,
            forall|k: int| 0 <= k < i ==> degrees@[k] != rel,
        decreases degrees.len() - i,
    {
        if degrees[i] == rel {
            return true;
        }
        i = i + 1;
    }
    false
}

/// All pitches a synth may land on: those within its merged enabled
/// note-range sub-ranges (the full 0–127 range when none is enabled) that
/// also belong to its scale, relative to its tonic. The result is sorted
/// ascending; it can be empty when the ranges are too narrow to contain any
/// degree of the scale.
pub fn allowed_pitches(synth: &Synth, bounds: &RangeBounds, toggles: &[bool; 3]) -> (pitches: Vec<
    u8,
>)
    ensures
        ascending(pitches@),
        forall|note: u8| #[trigger]
            pitches@.contains(note) <==> allowed_pitch(
                note as int,
                synth.scale,
                synth.scale_root,
                *bounds,
                *toggles,
            ),
{
    let degrees = scale_intervals(synth.scale);
    let mut ranges = merged_note_ranges(bounds, toggles);
    if ranges.len() == 0 {
        ranges.push((0, 127));
        assert(ranges@ =~= seq![(0u8, 127u8)]);
    }
    proof {
        merged_ranges_are_the_union(*bounds, *toggles);
    }
    let mut out: Vec<u8> = Vec::new();
    let mut i: usize = 0;
    while i < ranges.len()
        invariant
            i <= ranges.len(),
            separated(ranges@),
            degrees@ == scale_degrees(synth.scale),
            ascending(out@),
            forall|note: u8| #[trigger]
                out@.contains(note) <==> in_ranges(note as int, ranges@.take(i as int)) && in_scale(
                    note as int,
                    synth.scale,
                    synth.scale_root,
                ),
        decreases ranges.len() - i,
    {
        let (lo, hi) = ranges[i];
        let mut next: u16 = lo as u16;
        assert forall|note: u8| #[trigger] out@.contains(note) implies note < lo by {
            let k = choose|k: int|
                0 <= k < i && (#[trigger] ranges@.take(i as int)[k]).0 <= note <= ranges@.take(
                    i as int,
                )[k].1;
            assert(ranges@[k].1 + 1 < ranges@[i as int].0);
        }
        while next <= hi as u16
            invariant
                i < ranges.len(),
                lo == ranges@[i as int].0,
                hi == ranges@[i as int].1,
                lo <= next,
                next <= hi + 1 || next == lo,
                degrees@ == scale_degrees(synth.scale),
                ascending(out@),
                forall|note: u8| #[trigger] out@.contains(note) ==> note < next,
                forall|note: u8| #[trigger]
                    out@.contains(note) <==> (in_ranges(note as int, ranges@.take(i as int)) || lo
                        <= note < next) && in_scale(note as int, synth.scale, synth.scale_root),
            decreases hi + 1 - next,
        {
            let note: u8 = next as u8;
            let ghost before = out@;
            if is_degree(note, &degrees, synth.scale_root) {
                assert forall|k: int| 0 <= k < before.len() implies before[k] < note by {
                    assert(before.contains(before[k]));
                }
                out.push(note);
                assert forall|n: u8| #[trigger] out@.contains(n) <==> before.contains(n) || n
                    == note by {
                    vstd::seq_lib::lemma_seq_contains_after_push(before, note, n);
                }
            }
            next = next + 1;
        }
        assert forall|note: u8| #[trigger] out@.contains(note) <==> in_ranges(
            note as int,
            ranges@.take(i + 1),
        ) && in_scale(note as int, synth.scale, synth.scale_root) by {
            lemma_in_ranges_push(ranges@.take(i as int), ranges@[i as int], note as int);
            assert(ranges@.take(i + 1) =~= ranges@.take(i as int).push(ranges@[i as int]));
        }
        i = i + 1;
    }
    assert(ranges@.take(i as int) =~= ranges@);
    out
}

/// How far two notes are apart.
pub open spec fn distance(a: int, b: int) -> int {
    if a < b {
        b - a
    } else {
        a - b
    }
}

/// True when `a` is the better choice for `note`: nearer to it, or lower
/// where both are equally near.
pub open spec fn nearer(a: u8, b: u8, note: u8) -> bool {
    distance(a as int, note as int) < distance(b as int, note as int) || (distance(
        a as int,
        note as int,
    ) == distance(b as int, note as int) && a <= b)
}

/// True when `pitch` is the best choice for `note` among the allowed ones.
pub open spec fn is_nearest(pitch: u8, note: u8, allowed: Seq<u8>) -> bool {
    allowed.contains(pitch) && forall|i: int|
        0 <= i < allowed.len() ==> nearer(pitch, #[trigger] allowed[i], note)
}

/// Snaps a note to the nearest pitch of the allowed set (the nearest scale
/// degree within the enabled ranges). Ties go to the lower pitch. A note
/// already in the set is returned unchanged; an empty set returns the note
/// as-is (a range too narrow for the scale falls back to the unquantized
/// pitch rather than going silent).
pub fn snap_to_allowed(note: u8, allowed: &[u8]) -> (pitch: u8)
    requires
        forall|i: int, j: int| 0 <= i < j < allowed@.len() ==> allowed@[i] <= allowed@[j],
    ensures
        allowed@.len() == 0 ==> pitch == note,
        allowed@.len() > 0 ==> is_nearest(pitch, note, allowed@),
        allowed@.contains(note) ==> pitch == note,
{
    let mut start: usize = 0;
    let mut end: usize = allowed.len();
    while start < end
        invariant
            start <= end <= allowed@.len(),
            forall|i: int, j: int| 0 <= i < j < allowed@.len() ==> allowed@[i] <= allowed@[j],
            forall|i: int| 0 <= i < start ==> allowed@[i] < note,
            forall|i: int| end <= i < allowed@.len() ==> allowed@[i] >= note,
        decreases end - start,
    {
        let middle: usize = start + (end - start) / 2;
        if allowed[middle] < note {
            start = middle + 1;
        } else {
            end = middle;
        }
    }
    if allowed.len() == 0 {
        return note;
    }
    if start < allowed.len() && allowed[start] == note {
        assert(allowed@[start as int] == note);
        return note;
    }
    if start == 0 {
        assert(allowed@.contains(allowed@[0]));
        return allowed[0];
    }
    let lower: u8 = allowed[start - 1];
    assert(allowed@.contains(lower));
    if start == allowed.len() {
        return lower;
    }
    let upper: u8 = allowed[start];
    assert(allowed@.contains(upper));
    if note - lower <= upper - note {
        lower
    } else {
        upper
    }
}

/// True when `pitch` is the best choice for `note` among the pitches that
/// the scale and the range filters allow.
pub open spec fn is_nearest_pitch(
    pitch: u8,
    note: u8,
    scale: Scale,
    root: u8,
    bounds: RangeBounds,
    toggles: [bool; 3],
) -> bool {
    allowed_pitch(pitch as int, scale, root, bounds, toggles) && forall|other: u8|
        #[trigger] allowed_pitch(other as int, scale, root, bounds, toggles) ==> nearer(
            pitch,
            other,
            note,
        )
}

/// A note snapped to the scale within the range filters; unchanged where
/// they leave no pitch at all.
pub open spec fn snapped(
    note: u8,
    scale: Scale,
    root: u8,
    bounds: RangeBounds,
    toggles: [bool; 3],
) -> u8 {
    if exists|pitch: u8| #[trigger] allowed_pitch(pitch as int, scale, root, bounds, toggles) {
        choose|pitch: u8| #[trigger] is_nearest_pitch(pitch, note, scale, root, bounds, toggles)
    } else {
        note
    }
}

/// The note played for a place among the playable notes.
pub open spec fn effective_note(
    index: int,
    scale: Scale,
    root: u8,
    bounds: RangeBounds,
    toggles: [bool; 3],
) -> u8 {
    let note = note_at(playable_ranges(bounds, toggles), index);
    if scale is Chromatic {
        note
    } else {
        snapped(note, scale, root, bounds, toggles)
    }
}

/// The best choice is unique.
proof fn lemma_nearest_is_unique(
    a: u8,
    b: u8,
    note: u8,
    scale: Scale,
    root: u8,
    bounds: RangeBounds,
    toggles: [bool; 3],
)
    requires
        is_nearest_pitch(a, note, scale, root, bounds, toggles),
        is_nearest_pitch(b, note, scale, root, bounds, toggles),
    ensures
        a == b,
{
    assert(nearer(a, b, note));
    assert(nearer(b, a, note));
}

/// Full pixel-to-pitch translation for one voice: finds the note at the
/// given place of the enabled note-range sub-ranges, then quantizes it to
/// the synth's scale (no-op when Chromatic — every semitone allowed).
pub fn effective_note_for(
    synth: &Synth,
    index: i16,
    bounds: &RangeBounds,
    toggles: &[bool; 3],
) -> (note: u8)
    ensures
        note == effective_note(index as int, synth.scale, synth.scale_root, *bounds, *toggles),
{
    let note: u8 = rescale_into_range(index, bounds, toggles);
    if let Scale::Chromatic = synth.scale {
        return note;
    }
    let allowed = allowed_pitches(synth, bounds, toggles);
    let pitch: u8 = snap_to_allowed(note, &allowed);
    proof {
        let scale = synth.scale;
        let root = synth.scale_root;
        if allowed@.len() == 0 {
            assert forall|p: u8| !#[trigger] allowed_pitch(
                p as int,
                scale,
                root,
                *bounds,
                *toggles,
            ) by {
                assert(!allowed@.contains(p));
            }
        } else {
            assert(allowed@.contains(pitch));
            assert(allowed_pitch(pitch as int, scale, root, *bounds, *toggles));
            assert forall|other: u8| #[trigger]
                allowed_pitch(other as int, scale, root, *bounds, *toggles) implies nearer(
                pitch,
                other,
                note,
            ) by {
                assert(allowed@.contains(other));
                let i = choose|i: int| 0 <= i < allowed@.len() && allowed@[i] == other;
                assert(nearer(pitch, allowed@[i], note));
            }
            assert(is_nearest_pitch(pitch, note, scale, root, *bounds, *toggles));
            lemma_nearest_is_unique(
                pitch,
                snapped(note, scale, root, *bounds, *toggles),
                note,
                scale,
                root,
                *bounds,
                *toggles,
            );
        }
    }
    pitch
}

} // verus!
