//! What holds of the note lengths that pixels are played for.

use vstd::prelude::*;
use vstd::relations::*;

use crate::number_laws;
use crate::rhythm;
use crate::state::NoteLength;

verus! {

/// The real duration of a note length: its beats, as the number that they are.
pub open spec fn duration(length: NoteLength) -> int {
    number_laws::steps(rhythm::beats(length))
}

/// Lengths are ranked by their real duration: four sixteenths make a beat.
pub proof fn four_sixteenths_make_a_beat(length: NoteLength)
    ensures
        4 * duration(length) == rhythm::sixteenths(length) * duration(NoteLength::Quarter),
        duration(NoteLength::Quarter) > 0,
{
    number_laws::lengths_double_from_one_to_the_next();
    vstd::arithmetic::power2::lemma_pow2_pos(1074);
}

/// A length ranks before another when it is shorter.
proof fn lemma_rank(a: NoteLength, b: NoteLength)
    ensures
        rhythm::sixteenths(a) <= rhythm::sixteenths(b) <==> duration(a) <= duration(b),
{
    four_sixteenths_make_a_beat(a);
    four_sixteenths_make_a_beat(b);
    let beat = duration(NoteLength::Quarter);
    let (m, n) = (rhythm::sixteenths(a), rhythm::sixteenths(b));
    assert(m <= n <==> m * beat <= n * beat) by (nonlinear_arith)
        requires
            beat > 0,
    ;
}

/// Brighter pixels are never played shorter, in real duration; with the
/// direction reversed, never longer.
pub proof fn brighter_pixels_play_longer(
    lengths: Seq<NoteLength>,
    reversed: bool,
    darker: u8,
    brighter: u8,
)
    requires
        lengths.len() > 0,
        darker <= brighter,
    ensures
        ({
            let dark = duration(rhythm::picked_length(lengths, reversed, darker));
            let bright = duration(rhythm::picked_length(lengths, reversed, brighter));
            if reversed {
                dark >= bright
            } else {
                dark <= bright
            }
        }),
{
    let dark = rhythm::picked_length(lengths, reversed, darker);
    let bright = rhythm::picked_length(lengths, reversed, brighter);
    rhythm::brightness_orders_the_lengths(lengths, reversed, darker, brighter);
    lemma_rank(dark, bright);
    lemma_rank(bright, dark);
}

/// How many lengths of a list satisfy a condition.
pub open spec fn count_of(lengths: Seq<NoteLength>, wanted: spec_fn(NoteLength) -> bool) -> int
    decreases lengths.len(),
{
    if lengths.len() == 0 {
        0
    } else {
        count_of(lengths.drop_last(), wanted) + (if wanted(lengths.last()) {
            1int
        } else {
            0
        })
    }
}

spec fn weight(
    lengths: Seq<NoteLength>,
    wanted: spec_fn(NoteLength) -> bool,
    length: NoteLength,
) -> int {
    if wanted(length) {
        lengths.to_multiset().count(length) as int
    } else {
        0
    }
}

/// The count depends on how often each length occurs, and on nothing else.
proof fn lemma_count_by_length(lengths: Seq<NoteLength>, wanted: spec_fn(NoteLength) -> bool)
    ensures
        count_of(lengths, wanted) == weight(lengths, wanted, NoteLength::Whole) + weight(
            lengths,
            wanted,
            NoteLength::Half,
        ) + weight(lengths, wanted, NoteLength::Quarter) + weight(
            lengths,
            wanted,
            NoteLength::Eighth,
        ) + weight(lengths, wanted, NoteLength::Sixteenth),
    decreases lengths.len(),
{
    broadcast use vstd::seq_lib::group_to_multiset_ensures;

    if lengths.len() > 0 {
        lemma_count_by_length(lengths.drop_last(), wanted);
        assert(lengths =~= lengths.drop_last().push(lengths.last()));
        assert(lengths.to_multiset() =~= lengths.drop_last().to_multiset().insert(lengths.last()));
    } else {
        assert(lengths.to_multiset() =~= vstd::multiset::Multiset::empty());
    }
}

proof fn lemma_count_at_most(
    lengths: Seq<NoteLength>,
    wanted: spec_fn(NoteLength) -> bool,
    limit: int,
)
    requires
        0 <= limit,
        forall|i: int| limit <= i < lengths.len() ==> !wanted(#[trigger] lengths[i]),
    ensures
        0 <= count_of(lengths, wanted) <= limit,
        count_of(lengths, wanted) <= lengths.len(),
    decreases lengths.len(),
{
    if lengths.len() > 0 {
        let rest = lengths.drop_last();
        assert forall|i: int| limit <= i < rest.len() implies !wanted(#[trigger] rest[i]) by {
            assert(rest[i] == lengths[i]);
        }
        lemma_count_at_most(rest, wanted, limit);
        assert(lengths.last() == lengths[lengths.len() - 1]);
    }
}

proof fn lemma_count_at_least(
    lengths: Seq<NoteLength>,
    wanted: spec_fn(NoteLength) -> bool,
    limit: int,
)
    requires
        0 <= limit <= lengths.len(),
        forall|i: int| 0 <= i < limit ==> wanted(#[trigger] lengths[i]),
    ensures
        count_of(lengths, wanted) >= limit,
    decreases lengths.len(),
{
    if lengths.len() > 0 {
        let rest = lengths.drop_last();
        let shorter = if limit < lengths.len() {
            limit
        } else {
            limit - 1
        };
        assert forall|i: int| 0 <= i < shorter implies wanted(#[trigger] rest[i]) by {
            assert(rest[i] == lengths[i]);
        }
        lemma_count_at_least(rest, wanted, shorter);
        assert(lengths.last() == lengths[lengths.len() - 1]);
    }
}

/// Each band of brightness has its length: the darkest the shortest one that
/// is enabled, the next the next longer, and so on to the brightest and the
/// longest; with the direction reversed the other way round. The bands are
/// equal parts of the levels 0 to 127, and as many as the enabled lengths:
/// of these, no more are shorter than the one picked than there are bands
/// below, and enough are no longer.
pub proof fn each_band_has_its_length(lengths: Seq<NoteLength>, reversed: bool, level: u8)
    requires
        lengths.len() > 0,
    ensures
        ({
            let picked = duration(rhythm::picked_length(lengths, reversed, level));
            let count = lengths.len() as int;
            let below = if level <= 127 {
                level * count / 128
            } else {
                count - 1
            };
            if reversed {
                &&& count_of(lengths, |length: NoteLength| duration(length) > picked) <= below
                &&& below < count_of(lengths, |length: NoteLength| duration(length) >= picked)
            } else {
                &&& count_of(lengths, |length: NoteLength| duration(length) < picked) <= below
                &&& below < count_of(lengths, |length: NoteLength| duration(length) <= picked)
            }
        }),
{
    let order = rhythm::length_order(reversed);
    let sorted = lengths.sort_by(order);
    let count = lengths.len() as int;
    let place = rhythm::band(level, count);
    let picked = rhythm::picked_length(lengths, reversed, level);
    rhythm::lemma_length_order_is_total(reversed);
    lengths.lemma_sort_by_ensures(order);
    lengths.to_multiset_ensures();
    sorted.to_multiset_ensures();
    if level <= 127 {
        rhythm::bands_split_the_brightness_range(level, count);
    } else {
        assert(level * count >= 128 * count) by (nonlinear_arith)
            requires
                level >= 128,
                count >= 1,
        ;
    }
    assert(0 <= place < sorted.len());
    let strictly = if reversed {
        |length: NoteLength| duration(length) > duration(picked)
    } else {
        |length: NoteLength| duration(length) < duration(picked)
    };
    let loosely = if reversed {
        |length: NoteLength| duration(length) >= duration(picked)
    } else {
        |length: NoteLength| duration(length) <= duration(picked)
    };
    assert forall|i: int| place <= i < sorted.len() implies !strictly(#[trigger] sorted[i]) by {
        assert(order(sorted[place], sorted[place]));
        assert(place < i ==> order(sorted[place], sorted[i]));
        lemma_rank(sorted[place], sorted[i]);
        lemma_rank(sorted[i], sorted[place]);
    }
    assert forall|i: int| 0 <= i < place + 1 implies loosely(#[trigger] sorted[i]) by {
        assert(order(sorted[place], sorted[place]));
        assert(i < place ==> order(sorted[i], sorted[place]));
        lemma_rank(sorted[place], sorted[i]);
        lemma_rank(sorted[i], sorted[place]);
    }
    lemma_count_at_most(sorted, strictly, place);
    lemma_count_at_least(sorted, loosely, place + 1);
    lemma_count_by_length(sorted, strictly);
    lemma_count_by_length(lengths, strictly);
    lemma_count_by_length(sorted, loosely);
    lemma_count_by_length(lengths, loosely);
}

} // verus!
