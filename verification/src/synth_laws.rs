//! What holds of every command on the synthesizers.

use image::DynamicImage;
use vstd::prelude::*;

use crate::config::{self, SynthTemplate};
use crate::error::AppError;
use crate::number_laws;
use crate::pitch::{self, RangeBounds};
use crate::pitch_laws;
use crate::playback::{self, NoteMessage, PixelTone, Playhead};
use crate::playback_laws;
use crate::raster;
use crate::rhythm;
use crate::rhythm_laws;
use crate::sequence;
use crate::sequence_laws;
use crate::state::{ChannelVoice, PixelZone, Synth, SynthState};
use crate::synth;
use crate::velocity;

verus! {

/// A command on one synth changes that synth alone and none of the numbers;
/// on an id that is not there it is refused, and changes nothing.
pub proof fn commands_touch_one_synth(
    before: SynthState,
    after: SynthState,
    id: u32,
    result: Result<(), AppError>,
    edit: spec_fn(Synth) -> Synth,
    other: u32,
)
    requires
        synth::edits(before, after, id, result, edit),
    ensures
        result is Ok <==> before.synths@.contains_key(id),
        result is Err ==> result == Err::<(), AppError>(AppError::SynthNotFound { id }),
        before.synths@.contains_key(id) ==> after.synths@[id] == edit(before.synths@[id]),
        after.synths@.contains_key(other) <==> before.synths@.contains_key(other),
        other != id && before.synths@.contains_key(other) ==> after.synths@[other]
            == before.synths@[other],
        after.next_id == before.next_id,
        after.next_display_number == before.next_display_number,
{
}

/// The same of a command that sends note messages: what is sent is told of
/// the synth as it was.
pub proof fn sending_commands_touch_one_synth(
    before: SynthState,
    after: SynthState,
    id: u32,
    result: Result<Vec<NoteMessage>, AppError>,
    edit: spec_fn(Synth) -> Synth,
    sent: spec_fn(Synth) -> Seq<NoteMessage>,
    other: u32,
)
    requires
        synth::edits_and_sends(before, after, id, result, edit, sent),
    ensures
        result is Ok <==> before.synths@.contains_key(id),
        result is Err ==> result == Err::<Vec<NoteMessage>, AppError>(
            AppError::SynthNotFound { id },
        ),
        result matches Ok(messages) ==> messages@ == sent(before.synths@[id]) && after.synths@[id]
            == edit(before.synths@[id]),
        after.synths@.contains_key(other) <==> before.synths@.contains_key(other),
        other != id && before.synths@.contains_key(other) ==> after.synths@[other]
            == before.synths@[other],
        after.next_id == before.next_id,
        after.next_display_number == before.next_display_number,
{
}

/// The smaller of two numbers is one of them, and not above either.
pub proof fn least_is_the_smaller(a: int, b: int)
    ensures
        synth::least(a, b) <= a,
        synth::least(a, b) <= b,
        synth::least(a, b) == a || synth::least(a, b) == b,
{
}

/// A usable ceiling of a velocity range is kept; one below the floor is taken
/// as the floor, one that would silence every note as one, and one above 127
/// as 127.
pub proof fn velocity_ceilings_are_usable(velocity_min: u8, velocity_max: u8)
    ensures
        ({
            let floor = if velocity_min > 126 {
                126int
            } else {
                velocity_min as int
            };
            let ceiling = synth::velocity_ceiling(velocity_min, velocity_max);
            &&& 1 <= ceiling <= 127
            &&& floor <= ceiling
            &&& floor <= velocity_max <= 127 && velocity_max >= 1 ==> ceiling == velocity_max
            &&& velocity_max < floor ==> ceiling == floor
            &&& velocity_max > 127 ==> ceiling == 127
            &&& velocity_max == 0 && floor == 0 ==> ceiling == 1
        }),
{
}

/// Switching the loop or the back-and-forth playback on switches the other
/// off, and a synth at its end goes on; switching either off leaves the other
/// alone. Nothing else changes.
pub proof fn playback_modes_switch_alone(synth: Synth)
    ensures
        synth::looped(synth, true) == (Synth {
            loop_enabled: true,
            back_and_forth: false,
            end_pending: false,
            ..synth
        }),
        synth::looped(synth, false) == (Synth { loop_enabled: false, ..synth }),
        synth::bounced(synth, true) == (Synth {
            back_and_forth: true,
            loop_enabled: false,
            end_pending: false,
            ..synth
        }),
        synth::bounced(synth, false) == (Synth { back_and_forth: false, ..synth }),
{
}

/// Stopping a synth silences it where it stands: the playhead and the settings
/// stay. The kill switch also cancels the releases that are still pending.
pub proof fn stopping_silences_in_place(synth: Synth, note: u8, voice: int)
    requires
        0 <= voice < 3,
    ensures
        ({
            let after = synth::stopped(synth);
            &&& after == (Synth {
                playing: false,
                end_pending: false,
                tempo_accumulator: after.tempo_accumulator,
                note_is_on: false,
                poly_voices: after.poly_voices,
                ..synth
            })
            &&& after.tempo_accumulator.bits == 0
            &&& after.poly_voices@[voice] == (ChannelVoice {
                note: synth.poly_voices@[voice].note,
                note_is_on: false,
            })
            &&& playback_laws::sounds(after, note) == 0
            &&& synth::panicked(synth) == (Synth {
                note_generation: synth::panicked(synth).note_generation,
                ..after
            })
            &&& synth::panicked(synth).note_generation == (synth.note_generation + 1)
                % 0x1_0000_0000
        }),
{
}

/// Silencing a synth turns off its notes and changes nothing else.
pub proof fn silencing_keeps_the_notes(synth: Synth, voice: int)
    requires
        0 <= voice < 3,
    ensures
        ({
            let after = playback::silenced(synth);
            &&& after == (Synth { note_is_on: false, poly_voices: after.poly_voices, ..synth })
            &&& after.poly_voices@[voice] == (ChannelVoice {
                note: synth.poly_voices@[voice].note,
                note_is_on: false,
            })
        }),
{
}

/// Switching one of three channels, or silencing one of three voices, leaves
/// the other two alone.
pub proof fn channels_switch_one_by_one(
    switches: [bool; 3],
    voices: [ChannelVoice; 3],
    index: int,
    on: bool,
    other: int,
)
    requires
        0 <= index < 3,
        0 <= other < 3,
    ensures
        synth::switched(switches, index, on)@[other] == (if other == index {
            on
        } else {
            switches@[other]
        }),
        synth::voice_silenced(voices, index)@[other] == (if other == index {
            ChannelVoice { note: voices@[other].note, note_is_on: false }
        } else {
            voices@[other]
        }),
{
}

/// Releasing several synths turns off what each of them sounds: one more
/// synth adds the Note Offs of its own notes at the end.
pub proof fn every_listed_synth_is_released(
    synths: Map<u32, Synth>,
    ids: Seq<u32>,
    id: u32,
    note: u8,
)
    ensures
        synth::all_releases(synths, Seq::empty()).len() == 0,
        synth::all_releases(synths, ids.push(id)) == synth::all_releases(synths, ids)
            + playback::releases(synths[id]),
        playback_laws::net(synth::all_releases(synths, ids.push(id)), note) == playback_laws::net(
            synth::all_releases(synths, ids),
            note,
        ) - playback_laws::sounds(synths[id], note),
{
    assert(ids.push(id).drop_last() =~= ids);
    playback_laws::releases_match_what_sounds(synths[id], note);
    playback_laws::lemma_net_concat(
        synth::all_releases(synths, ids),
        playback::releases(synths[id]),
        note,
    );
}

/// An edit of the zones or of the sorting leaves the playhead on its pixel, as
/// long as that is still selected; otherwise, and without an image, it goes to
/// the beginning.
pub proof fn edits_leave_the_playhead_on_its_pixel(
    synth: Synth,
    image: DynamicImage,
    zones: Seq<PixelZone>,
    sorted: bool,
)
    requires
        raster::image_size(image).0 * raster::image_size(image).1 <= usize::MAX,
    ensures
        ({
            let old = playback::reading(synth, image);
            let new = sequence::pixel_sequence(
                zones,
                raster::image_size(image).0 as usize,
                raster::image_size(image).1 as usize,
                synth.reading_direction,
                sorted,
            );
            let cursor = synth::kept_cursor(synth, Some(image), zones, sorted) as int;
            let pixel = old[synth.cursor as int % old.len() as int];
            let width = raster::image_size(image).0 as int;
            if old.len() > 0 && sequence::selected(
                zones,
                pixel as int % width,
                pixel as int / width,
            ) {
                cursor < new.len() && new[cursor] == pixel
            } else {
                cursor == 0
            }
        }),
        synth::kept_cursor(synth, None, zones, sorted) == 0,
{
    let width = raster::image_size(image).0 as usize;
    let height = raster::image_size(image).1 as usize;
    let old = playback::reading(synth, image);
    let new = sequence::pixel_sequence(zones, width, height, synth.reading_direction, sorted);
    sequence_laws::sequence_holds_the_selected_pixels(
        zones,
        width,
        height,
        synth.reading_direction,
        sorted,
    );
    sequence_laws::sequence_holds_the_selected_pixels(
        synth.zones@,
        width,
        height,
        synth.reading_direction,
        synth.sorted_reading,
    );
    sequence_laws::cursor_goes_to_the_first_such_pixel(synth.cursor, old, new);
    if old.len() > 0 {
        let pixel = old[synth.cursor as int % old.len() as int];
        assert(old.contains(pixel));
        assert(new.contains(pixel) <==> sequence::selected(
            zones,
            pixel as int % width as int,
            pixel as int / width as int,
        ));
    }
}

/// The default ranges adjoin: from the lowest key of a piano to the highest,
/// each begins where the one before ends, at a C.
pub proof fn default_ranges_cover_the_keyboard()
    ensures
        ({
            let bounds = config::default_bounds()@;
            &&& bounds[0].0 == 21
            &&& bounds[2].1 == 21 + 87
            &&& bounds[1].0 == bounds[0].1 + 1
            &&& bounds[2].0 == bounds[1].1 + 1
            &&& bounds[1].0 % 12 == 0 && bounds[2].0 % 12 == 0
            &&& bounds[2].0 - bounds[1].0 == 24 && bounds[1].0 == 48
        }),
{
}

/// A template has each setting of the synth that it describes under the same
/// name.
pub proof fn templates_keep_the_names_of_settings(template: SynthTemplate, synth: Synth)
    ensures
        template.describes(synth) <==> {
            &&& template.note_lengths@ == synth.note_lengths@
            &&& template == (SynthTemplate {
                tempo_ratio: synth.tempo_ratio,
                channel: synth.channel,
                midi_port: synth.midi_port,
                mode: synth.mode,
                loop_enabled: synth.loop_enabled,
                back_and_forth: synth.back_and_forth,
                reading_direction: synth.reading_direction,
                sorted_reading: synth.sorted_reading,
                brightness_min: synth.brightness_min,
                brightness_max: synth.brightness_max,
                velocity_min: synth.velocity_min,
                velocity_max: synth.velocity_max,
                velocity_relative: synth.velocity_relative,
                volume: synth.volume,
                hue_shift: synth.hue_shift,
                channel_enabled: synth.channel_enabled,
                note_lengths: template.note_lengths,
                note_length_reversed: synth.note_length_reversed,
                note_sustain: synth.note_sustain,
                mono_note_range: synth.mono_note_range,
                voice_note_ranges: synth.voice_note_ranges,
                scale: synth.scale,
                scale_root: synth.scale_root,
            })
        },
{
}

/// A copy of a synth is the synth: the same settings, zones and state.
pub proof fn copies_are_the_synth(copy: Synth, synth: Synth)
    requires
        copy.same_as(synth),
    ensures
        copy.zones@ == synth.zones@,
        copy.mute_zones@ == synth.mute_zones@,
        copy.note_lengths@ == synth.note_lengths@,
        copy == (Synth {
            name: copy.name,
            zones: copy.zones,
            mute_zones: copy.mute_zones,
            note_lengths: copy.note_lengths,
            ..synth
        }),
        match (copy.name, synth.name) {
            (Some(a), Some(b)) => a@ == b@,
            (None, None) => true,
            _ => false,
        },
{
}

/// A new synth is paused at the beginning of its sequence, going forward, and
/// silent.
pub proof fn new_synths_are_paused_and_silent(synth: Synth, id: u32, note: u8)
    requires
        config::fresh_playback(synth, id),
    ensures
        synth.id == id,
        !synth.playing,
        synth.cursor == 0,
        synth.play_forward,
        !synth.end_pending,
        synth.tempo_accumulator.bits == 0,
        playback_laws::sounds(synth, note) == 0,
        synth.note_generation == 0,
{
}

/// An order of the synths has the id of each of them at one place, and no
/// other id.
pub proof fn orders_list_each_synth_once(order: Seq<u32>, synths: Map<u32, Synth>, id: u32)
    requires
        synth::lists_every_synth(order, synths),
    ensures
        synths.contains_key(id) <==> exists|i: int| 0 <= i < order.len() && #[trigger] order[i] == id,
        forall|i: int, j: int|
            0 <= i < j < order.len() ==> #[trigger] order[i] != #[trigger] order[j],
        order.len() == synths.dom().len(),
{
    order.unique_seq_to_set();
    if synths.contains_key(id) {
        assert(order.to_set().contains(id));
    }
    if exists|i: int| 0 <= i < order.len() && #[trigger] order[i] == id {
        let i = choose|i: int| 0 <= i < order.len() && #[trigger] order[i] == id;
        assert(order.to_set().contains(order[i]));
    }
}

/// The pixel under the playhead is the one of its sequence at the cursor,
/// counted around, in its column and row of the image, and has its color.
pub proof fn playhead_is_on_the_pixel_of_the_cursor(
    head: Playhead,
    synth: Synth,
    image: DynamicImage,
)
    requires
        playback::is_playhead(Some(head), synth, image),
        raster::image_size(image).0 > 0,
    ensures
        ({
            let sequence = playback::reading(synth, image);
            &&& sequence.len() == head.length
            &&& head.pos < head.length
            &&& head.pos == synth.cursor as int % sequence.len() as int
            &&& head.pixel == sequence[head.pos as int]
            &&& head.pixel == head.y * raster::image_size(image).0 + head.x
            &&& head.x < raster::image_size(image).0
            &&& (head.r, head.g, head.b, head.a) == raster::image_pixels(image)[head.pixel as int]
            &&& !synth.end_pending || synth.loop_enabled
        }),
{
    let width = raster::image_size(image).0 as int;
    vstd::arithmetic::div_mod::lemma_fundamental_div_mod(head.pixel as int, width);
    vstd::arithmetic::div_mod::lemma_mod_bound(head.pixel as int, width);
    assert(width * (head.pixel as int / width) == head.y * width) by (nonlinear_arith)
        requires
            head.y == head.pixel as int / width,
    ;
}

/// A synth made without a template plays what it is given as it is: no pixel
/// rests but those silenced by hand, every MIDI note can be played on every
/// voice, every velocity is kept, and a pixel lasts for one beat at the
/// metronome's own tempo, whatever its brightness. It loops, without bouncing
/// or sustaining.
pub proof fn default_settings_change_nothing(
    template: SynthTemplate,
    synth: Synth,
    head: Playhead,
    tone: PixelTone,
    bounds: RangeBounds,
    place: int,
    voice: int,
    level: u8,
)
    requires
        config::is_default_template(template),
        template.describes(synth),
        tone.brightness_level <= 127,
        0 <= place <= 127,
        0 <= voice < 3,
    ensures
        playback::rests(synth, head, tone) <==> sequence::selected(
            synth.mute_zones@,
            head.x as int,
            head.y as int,
        ),
        synth.channel_enabled@[voice],
        pitch::effective_note(
            place,
            synth.scale,
            synth.scale_root,
            bounds,
            synth.mono_note_range,
        ) == place,
        pitch::effective_note(
            place,
            synth.scale,
            synth.scale_root,
            bounds,
            synth.voice_note_ranges@[voice],
        ) == place,
        place >= 1 ==> velocity::bounded(place, synth.velocity_min, synth.velocity_max) == place,
        rhythm_laws::duration(
            rhythm::picked_length(synth.note_lengths@, synth.note_length_reversed, level),
        ) == vstd::arithmetic::power2::pow2(1074),
        number_laws::steps(synth.tempo_ratio) == vstd::arithmetic::power2::pow2(1074),
        synth.loop_enabled,
        !synth.back_and_forth,
        !synth.note_sustain,
        synth.hue_shift == 0,
        synth.velocity_relative,
        synth.volume == 100,
        synth.mode is Monophonic,
        synth.reading_direction is LeftToRight,
        !synth.sorted_reading,
        synth.channel == 0 && synth.midi_port == 0,
{
    pitch_laws::unfiltered_places_are_the_midi_notes(
        place,
        synth.scale_root,
        bounds,
        synth.mono_note_range,
    );
    assert(template.voice_note_ranges@[voice]@ == seq![false, false, false]);
    pitch_laws::unfiltered_places_are_the_midi_notes(
        place,
        synth.scale_root,
        bounds,
        synth.voice_note_ranges@[voice],
    );
    number_laws::one_and_zero_are_what_they_say();
    let order = rhythm::length_order(synth.note_length_reversed);
    rhythm::lemma_length_order_is_total(synth.note_length_reversed);
    synth.note_lengths@.lemma_sort_by_ensures(order);
    let sorted = synth.note_lengths@.sort_by(order);
    synth.note_lengths@.to_multiset_ensures();
    sorted.to_multiset_ensures();
    let place = rhythm::band(level, 1);
    assert(place == 0);
    assert(sorted.len() == 1);
    assert(sorted.contains(sorted[0]));
    assert(synth.note_lengths@.contains(sorted[0]));
    assert(sorted[0] is Quarter);
    assert(rhythm::picked_length(synth.note_lengths@, synth.note_length_reversed, level)
        == sorted[0]);
}

} // verus!
