//! Note lengths: how long a pixel is played.

use vstd::prelude::*;
use vstd::relations::*;

use crate::number::{Double, ONE_BITS, ZERO_BITS};
use crate::state::{NoteLength, Synth};

verus! {

/// The duration of a note length, in sixteenth notes.
pub open spec fn sixteenths(length: NoteLength) -> int {
    match length {
        NoteLength::Whole => 16,
        NoteLength::Half => 8,
        NoteLength::Quarter => 4,
        NoteLength::Eighth => 2,
        NoteLength::Sixteenth => 1,
    }
}

/// The duration of a note length in beats, as a number.
pub open spec fn beats(length: NoteLength) -> Double {
    match length {
        NoteLength::Whole => Double { bits: 0x4010_0000_0000_0000 },
        NoteLength::Half => Double { bits: 0x4000_0000_0000_0000 },
        NoteLength::Quarter => Double { bits: ONE_BITS },
        NoteLength::Eighth => Double { bits: 0x3fe0_0000_0000_0000 },
        NoteLength::Sixteenth => Double { bits: 0x3fd0_0000_0000_0000 },
    }
}

/// One minus the duration of a note length in beats, as a number: -3, -1,
/// 0, 0.5 or 0.75.
pub open spec fn rewound(length: NoteLength) -> Double {
    match length {
        NoteLength::Whole => Double { bits: 0xc008_0000_0000_0000 },
        NoteLength::Half => Double { bits: 0xbff0_0000_0000_0000 },
        NoteLength::Quarter => Double { bits: ZERO_BITS },
        NoteLength::Eighth => Double { bits: 0x3fe0_0000_0000_0000 },
        NoteLength::Sixteenth => Double { bits: 0x3fe8_0000_0000_0000 },
    }
}

/// Duration of a note length, in beats of the synth's own tempo.
pub fn length_beats(length: NoteLength) -> (number: Double)
    ensures
        number == beats(length),
{
    match length {
        NoteLength::Whole => Double { bits: 0x4010_0000_0000_0000 },
        NoteLength::Half => Double { bits: 0x4000_0000_0000_0000 },
        NoteLength::Quarter => Double { bits: ONE_BITS },
        NoteLength::Eighth => Double { bits: 0x3fe0_0000_0000_0000 },
        NoteLength::Sixteenth => Double { bits: 0x3fd0_0000_0000_0000 },
    }
}

/// The tempo accumulator after a note of the given length: the next pixel is
/// due once it has climbed back to one.
pub fn rewound_accumulator(length: NoteLength) -> (number: Double)
    ensures
        number == rewound(length),
{
    match length {
        NoteLength::Whole => Double { bits: 0xc008_0000_0000_0000 },
        NoteLength::Half => Double { bits: 0xbff0_0000_0000_0000 },
        NoteLength::Quarter => Double { bits: ZERO_BITS },
        NoteLength::Eighth => Double { bits: 0x3fe0_0000_0000_0000 },
        NoteLength::Sixteenth => Double { bits: 0x3fe8_0000_0000_0000 },
    }
}

/// The order of note lengths: from the shortest to the longest, or the other
/// way round.
pub open spec fn length_order(reversed: bool) -> spec_fn(NoteLength, NoteLength) -> bool {
    |a: NoteLength, b: NoteLength|
        if reversed {
            sixteenths(a) >= sixteenths(b)
        } else {
            sixteenths(a) <= sixteenths(b)
        }
}

/// The band that a brightness level falls into when its range, 0 to 127, is
/// split into `count` equal bands.
pub open spec fn band(level: u8, count: int) -> int {
    if level * count / 128 < count {
        level * count / 128
    } else {
        count - 1
    }
}

/// The length that a pixel is played for: the enabled lengths in order, one
/// to each band of brightness.
pub open spec fn picked_length(
    lengths: Seq<NoteLength>,
    reversed: bool,
    level: u8,
) -> NoteLength {
    lengths.sort_by(length_order(reversed))[band(level, lengths.len() as int)]
}

pub(crate) proof fn lemma_length_order_is_total(reversed: bool)
    ensures
        total_ordering(length_order(reversed)),
{
}

fn is_ordered(a: NoteLength, b: NoteLength, reversed: bool) -> (ordered: bool)
    ensures
        ordered == length_order(reversed)(a, b),
{
    let a: u8 = count_sixteenths(a);
    let b: u8 = count_sixteenths(b);
    if reversed {
        a >= b
    } else {
        a <= b
    }
}

fn count_sixteenths(length: NoteLength) -> (count: u8)
    ensures
        count == sixteenths(length),
{
    match length {
        NoteLength::Whole => 16,
        NoteLength::Half => 8,
        NoteLength::Quarter => 4,
        NoteLength::Eighth => 2,
        NoteLength::Sixteenth => 1,
    }
}

/// Puts a length in its place among sorted ones.
fn insert_length(sorted: &mut Vec<NoteLength>, length: NoteLength, reversed: bool)
    requires
        sorted_by(old(sorted)@, length_order(reversed)),
    ensures
        sorted_by(final(sorted)@, length_order(reversed)),
        final(sorted)@.to_multiset() == old(sorted)@.to_multiset().insert(length),
{
    let mut i: usize = sorted.len();
    while i > 0 && !is_ordered(sorted[i - 1], length, reversed)
        invariant
            i <= sorted.len(),
            sorted@ == old(sorted)@,
            sorted_by(sorted@, length_order(reversed)),
            forall|k: int|
                i <= k < sorted.len() ==> !length_order(reversed)(#[trigger] sorted@[k], length),
        decreases i,
    {
        i = i - 1;
    }
    sorted.insert(i, length);
    proof {
        broadcast use vstd::seq_lib::group_to_multiset_ensures;

        let before = old(sorted)@;
        let order = length_order(reversed);
        assert(before.insert(i as int, length).to_multiset() =~= before.to_multiset().insert(
            length,
        ));
        assert forall|a: int, b: int| 0 <= a < b < sorted@.len() implies #[trigger] order(
            sorted@[a],
            sorted@[b],
        ) by {
            if i > 0 && a < i - 1 && b == i {
                assert(order(before[a], before[i - 1]));
            }
            let x = if a < i {
                before[a]
            } else if a == i {
                length
            } else {
                before[a - 1]
            };
            let y = if b < i {
                before[b]
            } else if b == i {
                length
            } else {
                before[b - 1]
            };
            assert(sorted@[a] == x && sorted@[b] == y);
        }
    }
}

/// Maps the pixel's brightness level (0–127) to a duration among the enabled
/// note lengths: the level range is split into as many equal bands as
/// enabled lengths. By default the darkest band gets the shortest length and
/// the brightest the longest; `note_length_reversed` flips the direction.
pub fn pick_note_length(synth: &Synth, brightness_level: u8) -> (length: NoteLength)
    requires
        synth.note_lengths.len() > 0,
    ensures
        length == picked_length(
            synth.note_lengths@,
            synth.note_length_reversed,
            brightness_level,
        ),
{
    let reversed: bool = synth.note_length_reversed;
    let ghost order = length_order(reversed);
    let mut lengths: Vec<NoteLength> = Vec::new();
    let mut i: usize = 0;
    proof {
        lemma_length_order_is_total(reversed);
        assert(synth.note_lengths@.take(0) =~= Seq::<NoteLength>::empty());
    }
    while i < synth.note_lengths.len()
        invariant
            i <= synth.note_lengths.len(),
            order == length_order(reversed),
            sorted_by(lengths@, order),
            lengths@.to_multiset() == synth.note_lengths@.take(i as int).to_multiset(),
        decreases synth.note_lengths.len() - i,
    {
        insert_length(&mut lengths, synth.note_lengths[i], reversed);
        proof {
            broadcast use vstd::seq_lib::group_to_multiset_ensures;

            assert(synth.note_lengths@.take(i + 1) =~= synth.note_lengths@.take(i as int).push(
                synth.note_lengths@[i as int],
            ));
        }
        i = i + 1;
    }
    proof {
        assert(synth.note_lengths@.take(i as int) =~= synth.note_lengths@);
        synth.note_lengths@.lemma_sort_by_ensures(order);
        vstd::seq_lib::lemma_sorted_unique(lengths@, synth.note_lengths@.sort_by(order), order);
        synth.note_lengths@.to_multiset_ensures();
        synth.note_lengths@.sort_by(order).to_multiset_ensures();
        assert(lengths@.len() == synth.note_lengths@.len());
    }
    let count: u128 = lengths.len() as u128;
    assert(brightness_level * count <= 255 * 0xffff_ffff_ffff_ffff) by (nonlinear_arith)
        requires
            brightness_level <= 255,
            count <= 0xffff_ffff_ffff_ffff,
    ;
    let place: u128 = brightness_level as u128 * count / 128;
    let place: u128 = if place < count {
        place
    } else {
        count - 1
    };
    lengths[place as usize]
}

/// A pixel is played for one of the enabled lengths.
pub proof fn picked_length_is_enabled(lengths: Seq<NoteLength>, reversed: bool, level: u8)
    requires
        lengths.len() > 0,
    ensures
        lengths.contains(picked_length(lengths, reversed, level)),
{
    let order = length_order(reversed);
    let sorted = lengths.sort_by(order);
    lemma_length_order_is_total(reversed);
    lengths.lemma_sort_by_ensures(order);
    lengths.to_multiset_ensures();
    sorted.to_multiset_ensures();
    assert(level * lengths.len() >= 0) by (nonlinear_arith);
    let place = band(level, lengths.len() as int);
    assert(0 <= place < sorted.len());
    assert(sorted.contains(sorted[place]));
    assert(sorted.to_multiset().count(sorted[place]) > 0);
}

/// Brighter pixels are never played shorter; with the direction reversed,
/// never longer.
pub proof fn brightness_orders_the_lengths(
    lengths: Seq<NoteLength>,
    reversed: bool,
    darker: u8,
    brighter: u8,
)
    requires
        lengths.len() > 0,
        darker <= brighter,
    ensures
        if reversed {
            sixteenths(picked_length(lengths, reversed, darker)) >= sixteenths(
                picked_length(lengths, reversed, brighter),
            )
        } else {
            sixteenths(picked_length(lengths, reversed, darker)) <= sixteenths(
                picked_length(lengths, reversed, brighter),
            )
        },
{
    let order = length_order(reversed);
    let sorted = lengths.sort_by(order);
    lemma_length_order_is_total(reversed);
    lengths.lemma_sort_by_ensures(order);
    lengths.to_multiset_ensures();
    sorted.to_multiset_ensures();
    let count = lengths.len() as int;
    assert(0 <= darker * count <= brighter * count) by (nonlinear_arith)
        requires
            0 <= darker <= brighter,
            count >= 0,
    ;
    let low = band(darker, count);
    let high = band(brighter, count);
    assert(0 <= low <= high < sorted.len());
    assert(order(sorted[low], sorted[low]));
    if low < high {
        assert(order(sorted[low], sorted[high]));
    }
}

/// The brightness range 0 to 127 is split into equal bands: each level below
/// 128 has the band that its share of the range falls into, from the first to
/// the last.
pub proof fn bands_split_the_brightness_range(level: u8, count: int)
    requires
        level <= 127,
        count >= 1,
    ensures
        band(level, count) == level * count / 128,
        0 <= band(level, count) < count,
        band(0, count) == 0,
        count <= 128 ==> band(127, count) == count - 1,
{
    assert(0 <= level * count < 128 * count) by (nonlinear_arith)
        requires
            0 <= level <= 127,
            count >= 1,
    ;
}

} // verus!
