//! The commands on synthesizers.

use std::collections::{HashMap, HashSet};

use image::DynamicImage;
use vstd::prelude::*;

use crate::config::{self, SynthTemplate};
use crate::error::{synth_not_found, AppError};
use crate::number::{Double, ZERO_BITS};
use crate::playback::{self, release_all, NoteMessage};
use crate::raster;
use crate::sequence::{self, remapped_cursor};
use crate::state::{
    ChannelVoice, NoteLength, PixelZone, ReadingDirection, Scale, Synth, SynthMode, SynthState,
};
use crate::text;

verus! {

broadcast use vstd::std_specs::hash::group_hash_axioms;

/// True when two registries hold the same.
pub open spec fn same_registry(a: SynthState, b: SynthState) -> bool {
    a.synths@ == b.synths@ && a.next_id == b.next_id && a.next_display_number
        == b.next_display_number
}

/// True when the registry `after` is `before` with the synth of an id
/// replaced.
pub open spec fn replaced(before: SynthState, after: SynthState, id: u32, synth: Synth) -> bool {
    after.synths@ == before.synths@.insert(id, synth) && after.next_id == before.next_id
        && after.next_display_number == before.next_display_number
}

/// What a command does that edits one synth: an unknown id is refused, and
/// nothing changes; otherwise that synth alone is edited.
pub open spec fn edits(
    before: SynthState,
    after: SynthState,
    id: u32,
    result: Result<(), AppError>,
    edit: spec_fn(Synth) -> Synth,
) -> bool {
    if before.synths@.contains_key(id) {
        result is Ok && replaced(before, after, id, edit(before.synths@[id]))
    } else {
        result == Err::<(), AppError>(AppError::SynthNotFound { id }) && same_registry(
            before,
            after,
        )
    }
}

/// Takes a synth out of the registry.
pub(crate) fn take(state: &mut SynthState, id: u32) -> (synth: Option<Synth>)
    ensures
        match synth {
            Some(synth) => {
                &&& old(state).synths@.contains_key(id)
                &&& synth == old(state).synths@[id]
                &&& final(state).synths@ == old(state).synths@.remove(id)
                &&& final(state).next_id == old(state).next_id
                &&& final(state).next_display_number == old(state).next_display_number
            },
            None => !old(state).synths@.contains_key(id) && same_registry(
                *old(state),
                *final(state),
            ),
        },
{
    let synth = state.synths.remove(&id);
    proof {
        if synth is None {
            assert(old(state).synths@.remove(id) =~= old(state).synths@);
        }
    }
    synth
}

/// Puts a synth that was taken out back under its id.
pub(crate) fn put(
    state: &mut SynthState,
    id: u32,
    synth: Synth,
    Ghost(before): Ghost<Map<u32, Synth>>,
)
    requires
        old(state).synths@ == before.remove(id),
        before.contains_key(id),
    ensures
        final(state).synths@ == before.insert(id, synth),
        final(state).next_id == old(state).next_id,
        final(state).next_display_number == old(state).next_display_number,
{
    state.synths.insert(id, synth);
    assert(before.remove(id).insert(id, synth) =~= before.insert(id, synth));
}

/// The ids in use, in no particular order.
pub fn synth_ids(synths: &HashMap<u32, Synth>) -> (ids: Vec<u32>)
    ensures
        ids@.no_duplicates(),
        ids@.to_set() == synths@.dom(),
{
    let mut ids: Vec<u32> = Vec::new();
    for key in it: synths.keys()
        invariant
            ids@ == it.seq().unref().take(it.index()),
            it.seq().no_duplicates(),
            it.seq().unref().to_set() == synths@.dom(),
            it.index() == it.seq().len() ==> ids@ == it.seq().unref(),
    {
        ids.push(*key);
    }
    ids
}

/// True when an order lists every synth exactly once.
pub open spec fn lists_every_synth(order: Seq<u32>, synths: Map<u32, Synth>) -> bool {
    order.no_duplicates() && order.to_set() == synths.dom()
}

/// The synths numbered 1..N in the given order.
pub open spec fn renumbered(order: Seq<u32>, synths: Map<u32, Synth>) -> Map<u32, Synth> {
    Map::new(
        |id: u32| 1 <= id <= order.len(),
        |id: u32| Synth { id, ..synths[order[id - 1]] },
    )
}

/// Tells whether an order lists every synth exactly once.
fn is_complete_order(synths: &HashMap<u32, Synth>, order: &[u32]) -> (complete: bool)
    ensures
        complete == lists_every_synth(order@, synths@),
{
    let count: usize = synths.len();
    let mut seen: HashSet<u32> = HashSet::new();
    let mut known: bool = true;
    let mut i: usize = 0;
    assert(order@.take(0).to_set() =~= Set::<u32>::empty());
    while i < order.len()
        invariant
            i <= order.len(),
            seen@ == order@.take(i as int).to_set(),
            known <==> order@.take(i as int).to_set().subset_of(synths@.dom()),
        decreases order.len() - i,
    {
        proof {
            assert(order@.take(i + 1) =~= order@.take(i as int).push(order@[i as int]));
            lemma_push_to_set(order@.take(i as int), order@[i as int]);
        }
        known = known && synths.contains_key(&order[i]);
        seen.insert(order[i]);
        i = i + 1;
    }
    proof {
        assert(order@.take(i as int) =~= order@);
        if order@.len() == count && seen@.len() == count && known {
            order@.lemma_no_dup_set_cardinality();
            vstd::set_lib::lemma_subset_equality(order@.to_set(), synths@.dom());
        }
        if lists_every_synth(order@, synths@) {
            order@.unique_seq_to_set();
        }
    }
    order.len() == count && seen.len() == count && known
}

proof fn lemma_push_to_set(list: Seq<u32>, item: u32)
    ensures
        list.push(item).to_set() == list.to_set().insert(item),
{
    assert forall|other: u32| #[trigger]
        list.push(item).to_set().contains(other) <==> list.to_set().insert(item).contains(
            other,
        ) by {
        vstd::seq_lib::lemma_seq_contains_after_push(list, item, other);
    }
    assert(list.push(item).to_set() =~= list.to_set().insert(item));
}

/// Reassigns the synthesizers' ids 1..N following the given display order
/// (the complete list of the current ids, top to bottom of the stack), so a
/// synth's id always matches its position: external MIDI controllers will
/// address the synths by this number. `next_id` is reset to N+1 so the next
/// created synth continues the sequence.
pub fn renumber_synths(
    synths: &mut HashMap<u32, Synth>,
    next_id: &mut u32,
    order: &[u32],
) -> (result: Result<(), AppError>)
    requires
        old(synths)@.len() < u32::MAX,
    ensures
        if lists_every_synth(order@, old(synths)@) {
            &&& result is Ok
            &&& final(synths)@ == renumbered(order@, old(synths)@)
            &&& *final(next_id) == order@.len() + 1
        } else {
            &&& result == Err::<(), AppError>(AppError::SynthOrderMismatch)
            &&& final(synths)@ == old(synths)@
            &&& *final(next_id) == *old(next_id)
        },
{
    if !is_complete_order(synths, order) {
        return Err(AppError::SynthOrderMismatch);
    }
    let ghost before = synths@;
    let mut ordered: Vec<Synth> = Vec::new();
    let mut i: usize = 0;
    proof {
        order@.unique_seq_to_set();
        assert(before.remove_keys(order@.take(0).to_set()) =~= before);
    }
    while i < order.len()
        invariant
            i <= order.len(),
            lists_every_synth(order@, before),
            synths@ == before.remove_keys(order@.take(i as int).to_set()),
            ordered@.len() == i,
            forall|k: int| 0 <= k < i ==> #[trigger] ordered@[k] == before[order@[k]],
        decreases order.len() - i,
    {
        proof {
            let id = order@[i as int];
            assert(order@.to_set().contains(id));
            assert(order@.take(i + 1) =~= order@.take(i as int).push(id));
            lemma_push_to_set(order@.take(i as int), id);
            if order@.take(i as int).contains(id) {
                let k = choose|k: int| 0 <= k < i && order@.take(i as int)[k] == id;
                assert(order@[k] == order@[i as int]);
            }
            assert(synths@.remove(id) =~= before.remove_keys(order@.take(i + 1).to_set()));
        }
        if let Some(synth) = synths.remove(&order[i]) {
            ordered.push(synth);
        }
        i = i + 1;
    }
    proof {
        assert(order@.take(i as int) =~= order@);
        assert(synths@ =~= Map::<u32, Synth>::empty());
    }
    number_from_one(synths, ordered);
    *next_id = order.len() as u32 + 1;
    assert(synths@ =~= renumbered(order@, before));
    Ok(())
}

/// Files synths under the ids 1..N.
fn number_from_one(synths: &mut HashMap<u32, Synth>, ordered: Vec<Synth>)
    requires
        old(synths)@ == Map::<u32, Synth>::empty(),
        ordered@.len() < u32::MAX,
    ensures
        final(synths)@ == Map::new(
            |id: u32| 1 <= id <= ordered@.len(),
            |id: u32| Synth { id, ..ordered@[id - 1] },
        ),
{
    let mut rest: Vec<Synth> = ordered;
    let ghost all = ordered@;
    let ghost filed = |from: int|
        Map::new(
            |id: u32| from < id <= all.len(),
            |id: u32| Synth { id, ..all[id - 1] },
        );
    assert(synths@ =~= filed(all.len() as int));
    while rest.len() > 0
        invariant
            rest@.len() <= all.len() < u32::MAX,
            rest@ == all.take(rest@.len() as int),
            filed == (|from: int|
                Map::new(
                    |id: u32| from < id <= all.len(),
                    |id: u32| Synth { id, ..all[id - 1] },
                )),
            synths@ == filed(rest@.len() as int),
        decreases rest.len(),
    {
        let id: u32 = rest.len() as u32;
        if let Some(mut synth) = rest.pop() {
            synth.id = id;
            synths.insert(id, synth);
        }
        assert(synths@ =~= filed(rest@.len() as int));
    }
}

/// The smaller of two numbers.
pub open spec fn least(a: int, b: int) -> int {
    if a < b {
        a
    } else {
        b
    }
}

fn lesser(a: u8, b: u8) -> (c: u8)
    ensures
        c == least(a as int, b as int),
{
    if a < b {
        a
    } else {
        b
    }
}

/// The ceiling of a velocity range: at least its floor and at least 1, so that
/// there is a velocity that sounds; at most 127.
pub open spec fn velocity_ceiling(velocity_min: u8, velocity_max: u8) -> u8 {
    let low = least(velocity_min as int, 126);
    if velocity_max < low {
        low as u8
    } else if velocity_max < 1 {
        1
    } else {
        least(velocity_max as int, 127) as u8
    }
}

/// The slowest tempo ratio, 0.05.
pub open spec fn slowest() -> Double {
    Double { bits: 0x3fa9_9999_9999_999a }
}

/// The fastest tempo ratio, 4.
pub open spec fn fastest() -> Double {
    Double { bits: 0x4010_0000_0000_0000 }
}

/// Rewinds a synth to the beginning of its sequence.
pub fn reset_synth_cursor(id: u32, state: &mut SynthState) -> (result: Result<(), AppError>)
    ensures
        edits(
            *old(state),
            *final(state),
            id,
            result,
            |synth: Synth|
                Synth {
                    cursor: 0,
                    end_pending: false,
                    tempo_accumulator: Double { bits: ZERO_BITS },
                    ..synth
                },
        ),
        old(state).well_formed() ==> final(state).well_formed(),
{
    match take(state, id) {
        Some(mut synth) => {
            synth.cursor = 0;
            synth.end_pending = false;
            synth.tempo_accumulator = Double { bits: ZERO_BITS };
            put(state, id, synth, Ghost(old(state).synths@));
            Ok(())
        },
        None => Err(synth_not_found(id)),
    }
}

/// Starts a synth.
pub fn start_synth(id: u32, state: &mut SynthState) -> (result: Result<(), AppError>)
    ensures
        edits(
            *old(state),
            *final(state),
            id,
            result,
            |synth: Synth|
                Synth {
                    playing: true,
                    end_pending: false,
                    ..synth
                },
        ),
        old(state).well_formed() ==> final(state).well_formed(),
{
    match take(state, id) {
        Some(mut synth) => {
            synth.playing = true;
            // the end of the sequence may have been reached by manual steps
            // while paused
            synth.end_pending = false;
            put(state, id, synth, Ghost(old(state).synths@));
            Ok(())
        },
        None => Err(synth_not_found(id)),
    }
}

/// Sets the MIDI channel of a synth, 15 at most.
pub fn set_synth_channel(
    id: u32,
    channel: u8,
    state: &mut SynthState,
) -> (result: Result<(), AppError>)
    ensures
        edits(
            *old(state),
            *final(state),
            id,
            result,
            |synth: Synth|
                Synth {
                    channel: least(channel as int, 15) as u8,
                    ..synth
                },
        ),
        old(state).well_formed() ==> final(state).well_formed(),
{
    match take(state, id) {
        Some(mut synth) => {
            synth.channel = lesser(channel, 15);
            put(state, id, synth, Ghost(old(state).synths@));
            Ok(())
        },
        None => Err(synth_not_found(id)),
    }
}

/// Toggles the velocity mapping mode: relative (rescaled onto the [min, max]
/// range) or clamp (native 1–127 mapping, values outside the range brought to
/// the nearest bound).
pub fn set_synth_velocity_relative(
    id: u32,
    enabled: bool,
    state: &mut SynthState,
) -> (result: Result<(), AppError>)
    ensures
        edits(
            *old(state),
            *final(state),
            id,
            result,
            |synth: Synth|
                Synth {
                    velocity_relative: enabled,
                    ..synth
                },
        ),
        old(state).well_formed() ==> final(state).well_formed(),
{
    match take(state, id) {
        Some(mut synth) => {
            synth.velocity_relative = enabled;
            put(state, id, synth, Ghost(old(state).synths@));
            Ok(())
        },
        None => Err(synth_not_found(id)),
    }
}

/// Sets the velocity range, kept usable: min below 127, max between min and
/// 127, and never 0.
pub fn set_synth_velocity_range(
    id: u32,
    velocity_min: u8,
    velocity_max: u8,
    state: &mut SynthState,
) -> (result: Result<(), AppError>)
    ensures
        edits(
            *old(state),
            *final(state),
            id,
            result,
            |synth: Synth|
                Synth {
                    velocity_min: least(velocity_min as int, 126) as u8,
                    velocity_max: velocity_ceiling(velocity_min, velocity_max),
                    ..synth
                },
        ),
        result is Ok ==> {
            let synth = final(state).synths@[id];
            &&& synth.velocity_min <= 126
            &&& synth.velocity_min <= synth.velocity_max
            &&& 1 <= synth.velocity_max <= 127
        },
        old(state).well_formed() ==> final(state).well_formed(),
{
    match take(state, id) {
        Some(mut synth) => {
            let low: u8 = lesser(velocity_min, 126);
            synth.velocity_min = low;
            synth.velocity_max = if velocity_max < low {
                low
            } else if velocity_max < 1 {
                1
            } else {
                lesser(velocity_max, 127)
            };
            put(state, id, synth, Ghost(old(state).synths@));
            Ok(())
        },
        None => Err(synth_not_found(id)),
    }
}

/// Sets the brightness window, within 0–127.
pub fn set_synth_brightness_range(
    id: u32,
    brightness_min: u8,
    brightness_max: u8,
    state: &mut SynthState,
) -> (result: Result<(), AppError>)
    ensures
        edits(
            *old(state),
            *final(state),
            id,
            result,
            |synth: Synth|
                Synth {
                    brightness_min: least(brightness_min as int, 127) as u8,
                    brightness_max: least(brightness_max as int, 127) as u8,
                    ..synth
                },
        ),
        old(state).well_formed() ==> final(state).well_formed(),
{
    match take(state, id) {
        Some(mut synth) => {
            synth.brightness_min = lesser(brightness_min, 127);
            synth.brightness_max = lesser(brightness_max, 127);
            put(state, id, synth, Ghost(old(state).synths@));
            Ok(())
        },
        None => Err(synth_not_found(id)),
    }
}

/// Sets the tempo of a synth relative to the metronome, within 0.05–4.
pub fn set_synth_tempo(
    id: u32,
    tempo: Double,
    state: &mut SynthState,
) -> (result: Result<(), AppError>)
    ensures
        edits(
            *old(state),
            *final(state),
            id,
            result,
            |synth: Synth|
                Synth {
                    tempo_ratio: tempo.clamped_spec(slowest(), fastest()),
                    ..synth
                },
        ),
        old(state).well_formed() ==> final(state).well_formed(),
{
    match take(state, id) {
        Some(mut synth) => {
            synth.tempo_ratio =
            tempo.clamped(
                Double { bits: 0x3fa9_9999_9999_999a },
                Double { bits: 0x4010_0000_0000_0000 },
            );
            put(state, id, synth, Ghost(old(state).synths@));
            Ok(())
        },
        None => Err(synth_not_found(id)),
    }
}

/// A synth after its loop has been switched.
pub open spec fn looped(synth: Synth, loop_enabled: bool) -> Synth {
    Synth {
        loop_enabled,
        back_and_forth: !loop_enabled && synth.back_and_forth,
        end_pending: !loop_enabled && synth.end_pending,
        ..synth
    }
}

/// A synth after its back-and-forth playback has been switched.
pub open spec fn bounced(synth: Synth, enabled: bool) -> Synth {
    Synth {
        back_and_forth: enabled,
        loop_enabled: !enabled && synth.loop_enabled,
        end_pending: !enabled && synth.end_pending,
        ..synth
    }
}

/// Enables the loop. Loop and back-and-forth are mutually exclusive.
pub fn set_synth_loop(
    id: u32,
    loop_enabled: bool,
    state: &mut SynthState,
) -> (result: Result<(), AppError>)
    ensures
        edits(
            *old(state),
            *final(state),
            id,
            result,
            |synth: Synth| looped(synth, loop_enabled),
        ),
        old(state).well_formed() ==> final(state).well_formed(),
{
    match take(state, id) {
        Some(mut synth) => {
            synth.loop_enabled = loop_enabled;
            if loop_enabled {
                synth.back_and_forth = false;
                synth.end_pending = false;
            }
            put(state, id, synth, Ghost(old(state).synths@));
            Ok(())
        },
        None => Err(synth_not_found(id)),
    }
}

/// Enables the back-and-forth (ping-pong) playback: the playhead bounces
/// between the bounds of the pixel sequence. Mutually exclusive with the loop.
pub fn set_synth_back_n_forth(
    id: u32,
    enabled: bool,
    state: &mut SynthState,
) -> (result: Result<(), AppError>)
    ensures
        edits(
            *old(state),
            *final(state),
            id,
            result,
            |synth: Synth| bounced(synth, enabled),
        ),
        old(state).well_formed() ==> final(state).well_formed(),
{
    match take(state, id) {
        Some(mut synth) => {
            synth.back_and_forth = enabled;
            if enabled {
                synth.loop_enabled = false;
                synth.end_pending = false;
            }
            put(state, id, synth, Ghost(old(state).synths@));
            Ok(())
        },
        None => Err(synth_not_found(id)),
    }
}

/// Sets the direction in which the pixel sequence is read. The playhead
/// restarts from the beginning of the newly ordered sequence.
pub fn set_synth_reading_direction(
    id: u32,
    direction: ReadingDirection,
    state: &mut SynthState,
) -> (result: Result<(), AppError>)
    ensures
        edits(
            *old(state),
            *final(state),
            id,
            result,
            |synth: Synth|
                Synth {
                    reading_direction: direction,
                    cursor: 0,
                    play_forward: true,
                    end_pending: false,
                    tempo_accumulator: Double { bits: ZERO_BITS },
                    ..synth
                },
        ),
        old(state).well_formed() ==> final(state).well_formed(),
{
    match take(state, id) {
        Some(mut synth) => {
            synth.reading_direction = direction;
            synth.cursor = 0;
            synth.play_forward = true;
            synth.end_pending = false;
            synth.tempo_accumulator = Double { bits: ZERO_BITS };
            put(state, id, synth, Ghost(old(state).synths@));
            Ok(())
        },
        None => Err(synth_not_found(id)),
    }
}

/// Sets the enabled note lengths.
pub fn set_synth_note_lengths(
    id: u32,
    lengths: Vec<NoteLength>,
    state: &mut SynthState,
) -> (result: Result<(), AppError>)
    ensures
        edits(
            *old(state),
            *final(state),
            id,
            result,
            |synth: Synth|
                Synth {
                    note_lengths: lengths,
                    ..synth
                },
        ),
        old(state).well_formed() ==> final(state).well_formed(),
{
    match take(state, id) {
        Some(mut synth) => {
            synth.note_lengths = lengths;
            put(state, id, synth, Ghost(old(state).synths@));
            Ok(())
        },
        None => Err(synth_not_found(id)),
    }
}

/// Flips the brightness-to-length mapping direction.
pub fn set_synth_note_length_reversed(
    id: u32,
    reversed: bool,
    state: &mut SynthState,
) -> (result: Result<(), AppError>)
    ensures
        edits(
            *old(state),
            *final(state),
            id,
            result,
            |synth: Synth|
                Synth {
                    note_length_reversed: reversed,
                    ..synth
                },
        ),
        old(state).well_formed() ==> final(state).well_formed(),
{
    match take(state, id) {
        Some(mut synth) => {
            synth.note_length_reversed = reversed;
            put(state, id, synth, Ghost(old(state).synths@));
            Ok(())
        },
        None => Err(synth_not_found(id)),
    }
}

/// Sets the MIDI note range filters: one triplet of toggles (bass, medium,
/// treble) for the monophonic note, and one per R/G/B voice in polyphonic
/// mode. All toggles off = full 0–127 range.
pub fn set_synth_note_ranges(
    id: u32,
    mono: [bool; 3],
    voices: [[bool; 3]; 3],
    state: &mut SynthState,
) -> (result: Result<(), AppError>)
    ensures
        edits(
            *old(state),
            *final(state),
            id,
            result,
            |synth: Synth|
                Synth {
                    mono_note_range: mono,
                    voice_note_ranges: voices,
                    ..synth
                },
        ),
        old(state).well_formed() ==> final(state).well_formed(),
{
    match take(state, id) {
        Some(mut synth) => {
            synth.mono_note_range = mono;
            synth.voice_note_ranges = voices;
            put(state, id, synth, Ghost(old(state).synths@));
            Ok(())
        },
        None => Err(synth_not_found(id)),
    }
}

/// Sets the scale the synth's notes are quantized to, and its tonic (a pitch
/// class 0–11, 0 = C). The scale is shared by the monophonic note and every
/// polyphonic voice. Chromatic disables quantization.
pub fn set_synth_scale(
    id: u32,
    scale: Scale,
    root: u8,
    state: &mut SynthState,
) -> (result: Result<(), AppError>)
    ensures
        edits(
            *old(state),
            *final(state),
            id,
            result,
            |synth: Synth|
                Synth {
                    scale,
                    scale_root: least(root as int, 11) as u8,
                    ..synth
                },
        ),
        old(state).well_formed() ==> final(state).well_formed(),
{
    match take(state, id) {
        Some(mut synth) => {
            synth.scale = scale;
            synth.scale_root = lesser(root, 11);
            put(state, id, synth, Ghost(old(state).synths@));
            Ok(())
        },
        None => Err(synth_not_found(id)),
    }
}

/// Sets the hue shift in degrees, 360 at most.
pub fn set_synth_hue_shift(
    id: u32,
    hue_shift: u16,
    state: &mut SynthState,
) -> (result: Result<(), AppError>)
    ensures
        edits(
            *old(state),
            *final(state),
            id,
            result,
            |synth: Synth|
                Synth {
                    hue_shift: least(hue_shift as int, 360) as u16,
                    ..synth
                },
        ),
        old(state).well_formed() ==> final(state).well_formed(),
{
    match take(state, id) {
        Some(mut synth) => {
            synth.hue_shift = if hue_shift < 360 {
                hue_shift
            } else {
                360
            };
            put(state, id, synth, Ghost(old(state).synths@));
            Ok(())
        },
        None => Err(synth_not_found(id)),
    }
}

/// Sets the manual silence zones of a synthesizer: selected pixels inside
/// these rectangles are muted by hand (rests). The playback sequence is
/// unchanged: the playhead still travels over the silent pixels.
pub fn set_synth_mute_zones(
    id: u32,
    zones: Vec<PixelZone>,
    state: &mut SynthState,
) -> (result: Result<(), AppError>)
    ensures
        edits(
            *old(state),
            *final(state),
            id,
            result,
            |synth: Synth|
                Synth {
                    mute_zones: zones,
                    ..synth
                },
        ),
        old(state).well_formed() ==> final(state).well_formed(),
{
    match take(state, id) {
        Some(mut synth) => {
            synth.mute_zones = zones;
            put(state, id, synth, Ghost(old(state).synths@));
            Ok(())
        },
        None => Err(synth_not_found(id)),
    }
}

/// What a command does that edits one synth and sends note messages: an
/// unknown id is refused, and nothing changes; otherwise that synth alone is
/// edited.
pub open spec fn edits_and_sends(
    before: SynthState,
    after: SynthState,
    id: u32,
    result: Result<Vec<NoteMessage>, AppError>,
    edit: spec_fn(Synth) -> Synth,
    sent: spec_fn(Synth) -> Seq<NoteMessage>,
) -> bool {
    if before.synths@.contains_key(id) {
        &&& result matches Ok(messages)
        &&& messages@ == sent(before.synths@[id])
        &&& replaced(before, after, id, edit(before.synths@[id]))
    } else {
        &&& result == Err::<Vec<NoteMessage>, AppError>(AppError::SynthNotFound { id })
        &&& same_registry(before, after)
    }
}

/// The synth after it has been stopped.
pub open spec fn stopped(synth: Synth) -> Synth {
    playback::silenced(
        Synth {
            playing: false,
            end_pending: false,
            tempo_accumulator: Double { bits: ZERO_BITS },
            ..synth
        },
    )
}

/// Releases every note of a synth.
fn release(synth: &mut Synth) -> (messages: Vec<NoteMessage>)
    ensures
        *final(synth) == playback::silenced(*old(synth)),
        messages@ == playback::releases(*old(synth)),
{
    let mut messages: Vec<NoteMessage> = Vec::new();
    release_all(synth, &mut messages);
    assert(messages@ =~= playback::releases(*old(synth)));
    messages
}

/// Stops a synth, and immediately turns off its notes that still sound.
pub fn stop_synth(id: u32, state: &mut SynthState) -> (result: Result<Vec<NoteMessage>, AppError>)
    ensures
        edits_and_sends(
            *old(state),
            *final(state),
            id,
            result,
            |synth: Synth| stopped(synth),
            |synth: Synth| playback::releases(synth),
        ),
        old(state).well_formed() ==> final(state).well_formed(),
{
    match take(state, id) {
        Some(mut synth) => {
            let messages = release(&mut synth);
            synth.playing = false;
            synth.end_pending = false;
            synth.tempo_accumulator = Double { bits: ZERO_BITS };
            put(state, id, synth, Ghost(old(state).synths@));
            Ok(messages)
        },
        None => Err(synth_not_found(id)),
    }
}

/// The synth after the kill switch: stopped, and its note generation bumped
/// so pending delayed Note Offs cancel themselves.
pub open spec fn panicked(synth: Synth) -> Synth {
    Synth {
        note_generation: playback::generation_after(synth.note_generation, 1),
        ..stopped(synth)
    }
}

/// The Note Offs of several synths, one after the other.
pub open spec fn all_releases(synths: Map<u32, Synth>, ids: Seq<u32>) -> Seq<NoteMessage>
    decreases ids.len(),
{
    if ids.len() == 0 {
        Seq::empty()
    } else {
        all_releases(synths, ids.drop_last()) + playback::releases(synths[ids.last()])
    }
}

/// Stops the listed synths one after the other.
pub fn panic_in_order(state: &mut SynthState, ids: &[u32]) -> (messages: Vec<NoteMessage>)
    requires
        lists_every_synth(ids@, old(state).synths@),
    ensures
        messages@ == all_releases(old(state).synths@, ids@),
        final(state).synths@ == old(state).synths@.map_values(|synth: Synth| panicked(synth)),
        final(state).next_id == old(state).next_id,
        final(state).next_display_number == old(state).next_display_number,
        old(state).well_formed() ==> final(state).well_formed(),
{
    let ghost before = state.synths@;
    let mut messages: Vec<NoteMessage> = Vec::new();
    let mut i: usize = 0;
    while i < ids.len()
        invariant
            i <= ids.len(),
            lists_every_synth(ids@, before),
            messages@ == all_releases(before, ids@.take(i as int)),
            state.synths@.dom() == before.dom(),
            forall|id: u32| #[trigger]
                before.contains_key(id) ==> state.synths@[id] == (if ids@.take(i as int).contains(
                    id,
                ) {
                    panicked(before[id])
                } else {
                    before[id]
                }),
            state.next_id == old(state).next_id,
            state.next_display_number == old(state).next_display_number,
        decreases ids.len() - i,
    {
        let id: u32 = ids[i];
        let ghost now = state.synths@;
        proof {
            assert(ids@.to_set().contains(id));
            assert(ids@.take(i + 1).drop_last() =~= ids@.take(i as int));
            assert(ids@.take(i + 1) =~= ids@.take(i as int).push(id));
            if ids@.take(i as int).contains(id) {
                let k = choose|k: int| 0 <= k < i && ids@.take(i as int)[k] == id;
                assert(ids@[k] == ids@[i as int]);
            }
        }
        if let Some(mut synth) = take(state, id) {
            assert(synth == before[id]);
            release_all(&mut synth, &mut messages);
            synth.playing = false;
            synth.end_pending = false;
            synth.tempo_accumulator = Double { bits: ZERO_BITS };
            synth.note_generation = synth.note_generation.wrapping_add(1);
            assert(synth == panicked(before[id]));
            put(state, id, synth, Ghost(now));
        }
        proof {
            assert(state.synths@.dom() =~= before.dom());
            assert forall|other: u32| #[trigger] before.contains_key(other) implies state.synths@[other]
                == (if ids@.take(i + 1).contains(other) {
                panicked(before[other])
            } else {
                before[other]
            }) by {
                vstd::seq_lib::lemma_seq_contains_after_push(ids@.take(i as int), id, other);
            }
        }
        i = i + 1;
    }
    proof {
        assert(ids@.take(i as int) =~= ids@);
        assert forall|id: u32| #[trigger] before.contains_key(id) implies ids@.contains(id) by {
            assert(ids@.to_set().contains(id));
        }
        assert(state.synths@ =~= before.map_values(|synth: Synth| panicked(synth)));
    }
    messages
}

/// Kill switch: stops every synthesizer and immediately turns off all
/// sounding notes (mono + polyphonic voices), one synth after the other in no
/// particular order. The note generation is bumped so pending delayed Note
/// Offs cancel themselves.
pub fn panic_all(state: &mut SynthState) -> (messages: Vec<NoteMessage>)
    ensures
        exists|ids: Seq<u32>|
            #![trigger all_releases(old(state).synths@, ids)]
            lists_every_synth(ids, old(state).synths@) && messages@ == all_releases(
                old(state).synths@,
                ids,
            ),
        final(state).synths@ == old(state).synths@.map_values(|synth: Synth| panicked(synth)),
        final(state).next_id == old(state).next_id,
        final(state).next_display_number == old(state).next_display_number,
        old(state).well_formed() ==> final(state).well_formed(),
{
    let ids = synth_ids(&state.synths);
    panic_in_order(state, &ids)
}

/// Whether a synth is playing; one that does not exist is not.
pub fn is_synth_playing(id: u32, state: &SynthState) -> (playing: bool)
    ensures
        playing == (state.synths@.contains_key(id) && state.synths@[id].playing),
{
    match state.synths.get(&id) {
        Some(synth) => synth.playing,
        None => false,
    }
}

/// Removes a synth.
pub fn remove_synth(id: u32, state: &mut SynthState)
    ensures
        final(state).synths@ == old(state).synths@.remove(id),
        final(state).next_id == old(state).next_id,
        final(state).next_display_number == old(state).next_display_number,
        old(state).well_formed() ==> final(state).well_formed(),
{
    state.synths.remove(&id);
}

/// Creates a synthesizer from the default-synth template, and returns its
/// full initial state so the frontend can reflect it. The display number
/// comes from its own counter: it survives renumbering and is never reused
/// after a removal.
pub fn add_synth(template: &SynthTemplate, state: &mut SynthState) -> (result: Result<
    Synth,
    AppError,
>)
    requires
        old(state).next_id < u32::MAX,
        old(state).next_display_number < u32::MAX,
    ensures
        result matches Ok(synth) && {
            &&& template.describes(synth)
            &&& synth.display_number == old(state).next_display_number
            &&& config::fresh(
                (Synth { display_number: synth.id, ..synth }),
                old(state).next_id,
            )
            &&& final(state).synths@.contains_key(old(state).next_id)
            &&& final(state).synths@[old(state).next_id].same_as(synth)
            &&& final(state).synths@ == old(state).synths@.insert(
                old(state).next_id,
                final(state).synths@[old(state).next_id],
            )
        },
        final(state).next_id == old(state).next_id + 1,
        final(state).next_display_number == old(state).next_display_number + 1,
        old(state).well_formed() ==> final(state).well_formed(),
{
    let id: u32 = state.next_id;
    state.next_id = id + 1;
    let display_number: u32 = state.next_display_number;
    state.next_display_number = display_number + 1;
    let mut synth = template.to_synth(id);
    synth.display_number = display_number;
    state.synths.insert(id, synth.clone());
    Ok(synth)
}

/// Applies the display order given by the frontend (the ids of the synth
/// cards, top to bottom) and renumbers the ids 1..N accordingly. Called
/// after every change in the stack's composition or order.
pub fn set_synth_order(order: &Vec<u32>, state: &mut SynthState) -> (result: Result<(), AppError>)
    requires
        old(state).synths@.len() < u32::MAX,
    ensures
        if lists_every_synth(order@, old(state).synths@) {
            &&& result is Ok
            &&& final(state).synths@ == renumbered(order@, old(state).synths@)
            &&& final(state).next_id == order@.len() + 1
        } else {
            &&& result == Err::<(), AppError>(AppError::SynthOrderMismatch)
            &&& final(state).synths@ == old(state).synths@
            &&& final(state).next_id == old(state).next_id
        },
        final(state).next_display_number == old(state).next_display_number,
        old(state).well_formed() ==> final(state).well_formed(),
{
    let result = renumber_synths(&mut state.synths, &mut state.next_id, order);
    proof {
        if lists_every_synth(order@, old(state).synths@) && old(state).well_formed() {
            assert forall|id: u32| #[trigger] state.synths@.contains_key(id) implies {
                &&& state.synths@[id].id == id
                &&& id < state.next_id
                &&& state.synths@[id].display_number < state.next_display_number
            } by {
                assert(order@.to_set().contains(order@[id - 1]));
            }
        }
    }
    result
}

/// Sets the MIDI output port a synthesizer sends its notes to. Any sounding
/// note is turned off on the old port first, to avoid a stuck note on the
/// device it is connected to.
pub fn set_synth_midi_port(id: u32, port: usize, state: &mut SynthState) -> (result: Result<
    Vec<NoteMessage>,
    AppError,
>)
    ensures
        edits_and_sends(
            *old(state),
            *final(state),
            id,
            result,
            |synth: Synth|
                if synth.midi_port == port {
                    synth
                } else {
                    Synth { midi_port: port, ..playback::silenced(synth) }
                },
            |synth: Synth|
                if synth.midi_port == port {
                    Seq::empty()
                } else {
                    playback::releases(synth)
                },
        ),
        old(state).well_formed() ==> final(state).well_formed(),
{
    match take(state, id) {
        Some(mut synth) => {
            let mut messages: Vec<NoteMessage> = Vec::new();
            if synth.midi_port != port {
                messages = release(&mut synth);
                synth.midi_port = port;
            }
            put(state, id, synth, Ghost(old(state).synths@));
            Ok(messages)
        },
        None => Err(synth_not_found(id)),
    }
}

/// Switches the mode of a synth. All currently sounding notes are turned off
/// first, to avoid stuck notes when toggling.
pub fn set_synth_mode(id: u32, mode: SynthMode, state: &mut SynthState) -> (result: Result<
    Vec<NoteMessage>,
    AppError,
>)
    ensures
        edits_and_sends(
            *old(state),
            *final(state),
            id,
            result,
            |synth: Synth|
                if synth.mode == mode {
                    synth
                } else {
                    Synth { mode, ..playback::silenced(synth) }
                },
            |synth: Synth|
                if synth.mode == mode {
                    Seq::empty()
                } else {
                    playback::releases(synth)
                },
        ),
        old(state).well_formed() ==> final(state).well_formed(),
{
    match take(state, id) {
        Some(mut synth) => {
            let mut messages: Vec<NoteMessage> = Vec::new();
            if synth.mode != mode {
                messages = release(&mut synth);
                synth.mode = mode;
            }
            put(state, id, synth, Ghost(old(state).synths@));
            Ok(messages)
        },
        None => Err(synth_not_found(id)),
    }
}

/// Toggles the note articulation: sustained (each note holds its full
/// length, the Note Off arriving with the next note) or pizzicato (the Note
/// Off is sent right after the Note On, the instrument's natural decay
/// shaping the tail). Disabling the sustain immediately releases any
/// currently sounding note, so a note already holding under the previous
/// setting doesn't keep ringing until the next step.
pub fn set_synth_note_sustain(id: u32, sustain: bool, state: &mut SynthState) -> (result: Result<
    Vec<NoteMessage>,
    AppError,
>)
    ensures
        edits_and_sends(
            *old(state),
            *final(state),
            id,
            result,
            |synth: Synth|
                if synth.note_sustain && !sustain {
                    Synth { note_sustain: sustain, ..playback::silenced(synth) }
                } else {
                    Synth { note_sustain: sustain, ..synth }
                },
            |synth: Synth|
                if synth.note_sustain && !sustain {
                    playback::releases(synth)
                } else {
                    Seq::empty()
                },
        ),
        old(state).well_formed() ==> final(state).well_formed(),
{
    match take(state, id) {
        Some(mut synth) => {
            let mut messages: Vec<NoteMessage> = Vec::new();
            if synth.note_sustain && !sustain {
                messages = release(&mut synth);
            }
            synth.note_sustain = sustain;
            put(state, id, synth, Ghost(old(state).synths@));
            Ok(messages)
        },
        None => Err(synth_not_found(id)),
    }
}

/// Three switches, one of them set.
pub open spec fn switched(switches: [bool; 3], index: int, on: bool) -> [bool; 3] {
    [
        if index == 0 {
            on
        } else {
            switches@[0]
        },
        if index == 1 {
            on
        } else {
            switches@[1]
        },
        if index == 2 {
            on
        } else {
            switches@[2]
        },
    ]
}

/// Three voices, one of them silenced.
pub open spec fn voice_silenced(voices: [ChannelVoice; 3], index: int) -> [ChannelVoice; 3] {
    [
        if index == 0 {
            playback::quiet(voices@[0])
        } else {
            voices@[0]
        },
        if index == 1 {
            playback::quiet(voices@[1])
        } else {
            voices@[1]
        },
        if index == 2 {
            playback::quiet(voices@[2])
        } else {
            voices@[2]
        },
    ]
}

fn switch_channel(synth: &mut Synth, index: usize, on: bool)
    requires
        index < 3,
    ensures
        *final(synth) == (Synth {
            channel_enabled: switched(old(synth).channel_enabled, index as int, on),
            ..*old(synth)
        }),
{
    let first: bool = if index == 0 {
        on
    } else {
        synth.channel_enabled[0]
    };
    let second: bool = if index == 1 {
        on
    } else {
        synth.channel_enabled[1]
    };
    let third: bool = if index == 2 {
        on
    } else {
        synth.channel_enabled[2]
    };
    synth.channel_enabled = [first, second, third];
}

fn silence_voice(synth: &mut Synth, index: usize)
    requires
        index < 3,
    ensures
        *final(synth) == (Synth {
            poly_voices: voice_silenced(old(synth).poly_voices, index as int),
            ..*old(synth)
        }),
{
    let mut first: ChannelVoice = synth.poly_voices[0];
    let mut second: ChannelVoice = synth.poly_voices[1];
    let mut third: ChannelVoice = synth.poly_voices[2];
    if index == 0 {
        first.note_is_on = false;
    } else if index == 1 {
        second.note_is_on = false;
    } else {
        third.note_is_on = false;
    }
    synth.poly_voices = [first, second, third];
}

/// Enables or disables a color channel. A disabled channel whose voice is
/// still sounding is turned off immediately.
pub fn set_synth_channel_enabled(
    id: u32,
    channel_index: usize,
    enabled: bool,
    state: &mut SynthState,
) -> (result: Result<Vec<NoteMessage>, AppError>)
    ensures
        if channel_index > 2 {
            &&& result == Err::<Vec<NoteMessage>, AppError>(AppError::InvalidChannelIndex)
            &&& same_registry(*old(state), *final(state))
        } else {
            edits_and_sends(
                *old(state),
                *final(state),
                id,
                result,
                |synth: Synth|
                    Synth {
                        channel_enabled: switched(
                            synth.channel_enabled,
                            channel_index as int,
                            enabled,
                        ),
                        poly_voices: if !enabled
                            && synth.poly_voices@[channel_index as int].note_is_on {
                            voice_silenced(synth.poly_voices, channel_index as int)
                        } else {
                            synth.poly_voices
                        },
                        ..synth
                    },
                |synth: Synth|
                    playback::release(
                        synth.midi_port,
                        synth.channel,
                        synth.poly_voices@[channel_index as int].note,
                        !enabled && synth.poly_voices@[channel_index as int].note_is_on,
                    ),
            )
        },
        old(state).well_formed() ==> final(state).well_formed(),
{
    if channel_index > 2 {
        return Err(AppError::InvalidChannelIndex);
    }
    match take(state, id) {
        Some(mut synth) => {
            let mut messages: Vec<NoteMessage> = Vec::new();
            switch_channel(&mut synth, channel_index, enabled);
            let voice: ChannelVoice = synth.poly_voices[channel_index];
            if !enabled && voice.note_is_on {
                messages.push(
                    NoteMessage::Off {
                        port: synth.midi_port,
                        channel: synth.channel,
                        note: voice.note,
                    },
                );
                silence_voice(&mut synth, channel_index);
            }
            put(state, id, synth, Ghost(old(state).synths@));
            Ok(messages)
        },
        None => Err(synth_not_found(id)),
    }
}

/// Sets a custom display name for a synthesizer. An empty (or
/// whitespace-only) name clears it, falling back to the default name.
pub fn set_synth_name(id: u32, name: &str, state: &mut SynthState) -> (result: Result<
    (),
    AppError,
>)
    ensures
        edits(
            *old(state),
            *final(state),
            id,
            result,
            |synth: Synth| Synth { name: final(state).synths@[id].name, ..synth },
        ),
        result is Ok ==> match final(state).synths@[id].name {
            Some(kept) => kept@ == text::trimmed(name@) && kept@.len() > 0,
            None => text::trimmed(name@).len() == 0,
        },
        old(state).well_formed() ==> final(state).well_formed(),
{
    match take(state, id) {
        Some(mut synth) => {
            let kept: &str = text::trim(name);
            synth.name = if kept.is_empty() {
                None
            } else {
                Some(kept.to_owned())
            };
            put(state, id, synth, Ghost(old(state).synths@));
            Ok(())
        },
        None => Err(synth_not_found(id)),
    }
}

/// Where the playhead goes when the zones or the sorting of a synth change:
/// it stays on its pixel of the image; without an image it goes to the
/// beginning.
pub open spec fn kept_cursor(
    synth: Synth,
    image: Option<DynamicImage>,
    zones: Seq<PixelZone>,
    sorted: bool,
) -> nat {
    match image {
        Some(image) => sequence::moved_cursor(
            synth.cursor,
            playback::reading(synth, image),
            sequence::pixel_sequence(
                zones,
                raster::image_size(image).0 as usize,
                raster::image_size(image).1 as usize,
                synth.reading_direction,
                sorted,
            ),
        ),
        None => 0,
    }
}

fn keep_cursor(
    synth: &Synth,
    image: &Option<DynamicImage>,
    zones: &Vec<PixelZone>,
    sorted: bool,
) -> (cursor: usize)
    ensures
        cursor == kept_cursor(*synth, *image, zones@, sorted),
{
    match image {
        Some(image) => {
            let (width, height) = raster::image_dimensions(image);
            remapped_cursor(
                synth,
                &synth.zones,
                zones,
                synth.sorted_reading,
                sorted,
                synth.reading_direction,
                synth.reading_direction,
                width as usize,
                height as usize,
            )
        },
        None => 0,
    }
}

/// Sets the zones of a synth. The playhead stays on the same pixel of the
/// image across zone edits (instead of restarting at the beginning): the
/// flat sequence index has no meaning in the new sequence, but the pixel it
/// points to usually still exists. When it cannot be found (zones emptied,
/// grid reshaped), the reading restarts at 0.
pub fn set_synth_zones(
    id: u32,
    zones: Vec<PixelZone>,
    state: &mut SynthState,
    image: &Option<DynamicImage>,
) -> (result: Result<(), AppError>)
    ensures
        edits(
            *old(state),
            *final(state),
            id,
            result,
            |synth: Synth|
                Synth {
                    zones,
                    cursor: kept_cursor(synth, *image, zones@, synth.sorted_reading) as usize,
                    end_pending: false,
                    ..synth
                },
        ),
        old(state).well_formed() ==> final(state).well_formed(),
{
    match take(state, id) {
        Some(mut synth) => {
            synth.cursor = keep_cursor(&synth, image, &zones, synth.sorted_reading);
            synth.zones = zones;
            // A stale end_pending from the old sequence would stop a playing
            // synth on its next tick
            synth.end_pending = false;
            put(state, id, synth, Ghost(old(state).synths@));
            Ok(())
        },
        None => Err(synth_not_found(id)),
    }
}

/// Toggles the sorted reading of the pixel sequence: when enabled, the
/// selected pixels are ordered by their absolute position in the image (in
/// the reading direction) instead of being read zone by zone. The playhead
/// stays on the pixel it is playing.
pub fn set_synth_sorted_reading(
    id: u32,
    enabled: bool,
    state: &mut SynthState,
    image: &Option<DynamicImage>,
) -> (result: Result<(), AppError>)
    ensures
        edits(
            *old(state),
            *final(state),
            id,
            result,
            |synth: Synth|
                Synth {
                    sorted_reading: enabled,
                    cursor: kept_cursor(synth, *image, synth.zones@, enabled) as usize,
                    end_pending: false,
                    ..synth
                },
        ),
        old(state).well_formed() ==> final(state).well_formed(),
{
    match take(state, id) {
        Some(mut synth) => {
            synth.cursor = keep_cursor(&synth, image, &synth.zones, enabled);
            synth.sorted_reading = enabled;
            synth.end_pending = false;
            put(state, id, synth, Ghost(old(state).synths@));
            Ok(())
        },
        None => Err(synth_not_found(id)),
    }
}

/// Loop and back-and-forth are mutually exclusive: switching either keeps
/// them so, and switching one on switches the other off.
pub proof fn loop_and_back_and_forth_exclude_each_other(synth: Synth, on: bool)
    ensures
        !(synth.loop_enabled && synth.back_and_forth) ==> !(looped(synth, on).loop_enabled
            && looped(synth, on).back_and_forth),
        !(synth.loop_enabled && synth.back_and_forth) ==> !(bounced(synth, on).loop_enabled
            && bounced(synth, on).back_and_forth),
        on ==> looped(synth, on).loop_enabled && !looped(synth, on).back_and_forth,
        on ==> bounced(synth, on).back_and_forth && !bounced(synth, on).loop_enabled,
{
}

/// Renumbering moves the synths along with their whole state: the synth at
/// each position of the order has that position, counted from one, as its id,
/// and is otherwise the same. In particular it keeps its display number.
pub proof fn renumbering_only_changes_ids(order: Seq<u32>, synths: Map<u32, Synth>, place: int)
    requires
        lists_every_synth(order, synths),
        order.len() < u32::MAX,
        0 <= place < order.len(),
    ensures
        renumbered(order, synths).contains_key((place + 1) as u32),
        renumbered(order, synths)[(place + 1) as u32] == (Synth {
            id: (place + 1) as u32,
            ..synths[order[place]]
        }),
        renumbered(order, synths)[(place + 1) as u32].display_number
            == synths[order[place]].display_number,
{
}

/// Renumbering drops no synth, and makes none up: the ids are 1 to the number
/// of synths, and every synth has one of them.
pub proof fn renumbering_keeps_every_synth(order: Seq<u32>, synths: Map<u32, Synth>)
    requires
        lists_every_synth(order, synths),
        order.len() < u32::MAX,
    ensures
        forall|id: u32| #[trigger]
            renumbered(order, synths).contains_key(id) <==> 1 <= id <= order.len(),
        forall|id: u32| #[trigger]
            synths.contains_key(id) ==> exists|place: int|
                0 <= place < order.len() && #[trigger] order[place] == id,
{
    assert forall|id: u32| #[trigger] synths.contains_key(id) implies exists|place: int|
        0 <= place < order.len() && #[trigger] order[place] == id by {
        assert(order.to_set().contains(id));
    }
}

/// Renumbering a stack that is already in order is a no-op.
pub proof fn renumbering_in_order_changes_nothing(order: Seq<u32>, synths: Map<u32, Synth>)
    requires
        lists_every_synth(order, synths),
        order.len() < u32::MAX,
        forall|place: int| 0 <= place < order.len() ==> #[trigger] order[place] == place + 1,
        forall|id: u32| #[trigger] synths.contains_key(id) ==> synths[id].id == id,
    ensures
        renumbered(order, synths) == synths,
{
    renumbering_keeps_every_synth(order, synths);
    assert forall|id: u32| #[trigger]
        renumbered(order, synths).contains_key(id) <==> synths.contains_key(id) by {
        if 1 <= id <= order.len() {
            assert(order.to_set().contains(order[id - 1]));
        }
    }
    assert forall|id: u32| #[trigger] renumbered(order, synths).contains_key(id) implies renumbered(
        order,
        synths,
    )[id] == synths[id] by {
        assert(order[id - 1] == id);
    }
    assert(renumbered(order, synths) =~= synths);
}

/// The number of a new synth is its own: no other synth has its id or its
/// display number.
pub proof fn new_numbers_are_unused(state: SynthState, id: u32)
    requires
        state.well_formed(),
        state.synths@.contains_key(id),
    ensures
        id != state.next_id,
        state.synths@[id].display_number != state.next_display_number,
{
}

} // verus!
