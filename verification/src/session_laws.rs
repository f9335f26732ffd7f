//! What holds of every session file.

use image::DynamicImage;
use vstd::prelude::*;

use crate::image_processing::{self, ImageState};
use crate::midi::{KnownProgram, MidiState};
use crate::raster;
use crate::session::{
    self, LoadedSession, Restoration, SessionFile, SessionImageSettings, SessionSynth, SessionUi,
    SynthUiEntry,
};
use crate::state::{ProgramState, Synth, SynthState};
use crate::synth;

verus! {

/// The synths of a session are those of the color list that exist, in its
/// order: what more colors add comes after all the others, and a color whose
/// synth does not exist adds nothing.
pub proof fn synths_are_saved_in_display_order(
    colors: Seq<SynthUiEntry>,
    entry: SynthUiEntry,
    synths: Map<u32, Synth>,
)
    ensures
        session::known_entries(Seq::empty(), synths).len() == 0,
        session::known_entries(colors.push(entry), synths) == (if synths.contains_key(entry.id) {
            session::known_entries(colors, synths).push(entry)
        } else {
            session::known_entries(colors, synths)
        }),
{
    assert(colors.push(entry).drop_last() =~= colors);
}

/// The sound of a channel is that of the last synth in the file that asks for
/// one there; where none does, there is none.
pub proof fn last_sound_in_the_file_wins(
    entries: Seq<SessionSynth>,
    synths: Map<u32, Synth>,
    port: usize,
    channel: u8,
    place: int,
)
    requires
        -1 <= place < entries.len(),
        forall|k: int|
            place < k < entries.len() ==> !session::asks_for(
                #[trigger] entries[k],
                synths,
                port,
                channel,
            ),
        place >= 0 ==> session::asks_for(entries[place], synths, port, channel),
    ensures
        session::sound_for(entries, synths, port, channel) == (if place >= 0 {
            entries[place].program
        } else {
            None
        }),
    decreases entries.len(),
{
    if entries.len() > 0 && place < entries.len() - 1 {
        let rest = entries.drop_last();
        assert(!session::asks_for(entries[entries.len() - 1], synths, port, channel));
        assert forall|k: int| place < k < rest.len() implies !session::asks_for(
            #[trigger] rest[k],
            synths,
            port,
            channel,
        ) by {
            assert(rest[k] == entries[k]);
        }
        last_sound_in_the_file_wins(rest, synths, port, channel, place);
    }
}

/// A saved synth asks for the sound that was saved with it, if one was, on the
/// port and channel that the restored synth sends to.
pub proof fn sounds_are_asked_for_where_the_synth_plays(
    entry: SessionSynth,
    synths: Map<u32, Synth>,
    port: usize,
    channel: u8,
)
    requires
        synths.contains_key(entry.id),
    ensures
        session::asks_for(entry, synths, port, channel) <==> {
            &&& entry.program is Some
            &&& synths[entry.id].midi_port == port
            &&& synths[entry.id].channel == channel
        },
{
}

/// A list of sounds to send has one for each channel that is asked for, and
/// for no other.
pub proof fn one_sound_is_sent_per_channel(
    list: Seq<KnownProgram>,
    entries: Seq<SessionSynth>,
    synths: Map<u32, Synth>,
    i: int,
    j: int,
)
    requires
        session::lists_the_sounds(list, entries, synths),
        0 <= i < list.len(),
        0 <= j < list.len(),
        list[i].port == list[j].port,
        list[i].channel == list[j].channel,
    ensures
        i == j,
        session::sound_for(entries, synths, list[i].port, list[i].channel) == Some(
            list[i].program,
        ),
{
    if i < j {
        assert(list[i].port != list[j].port || list[i].channel != list[j].channel);
    } else if j < i {
        assert(list[j].port != list[i].port || list[j].channel != list[i].channel);
    }
}

/// The highest id and the highest display number of a file are not exceeded
/// by any of its synths, and are those of some of them.
pub proof fn highest_numbers_are_reached(entries: Seq<SessionSynth>)
    ensures
        forall|i: int|
            0 <= i < entries.len() ==> (#[trigger] entries[i]).id <= session::highest_id(entries)
                && session::shown_number(entries[i]) <= session::highest_number(entries),
        entries.len() == 0 ==> session::highest_id(entries) == 0 && session::highest_number(
            entries,
        ) == 0,
        entries.len() > 0 ==> exists|i: int|
            0 <= i < entries.len() && (#[trigger] entries[i]).id == session::highest_id(entries),
        entries.len() > 0 ==> exists|i: int|
            0 <= i < entries.len() && session::shown_number(#[trigger] entries[i])
                == session::highest_number(entries),
    decreases entries.len(),
{
    if entries.len() > 0 {
        let rest = entries.drop_last();
        let last = entries.len() - 1;
        highest_numbers_are_reached(rest);
        assert forall|i: int| 0 <= i < entries.len() implies (#[trigger] entries[i]).id
            <= session::highest_id(entries) && session::shown_number(entries[i])
            <= session::highest_number(entries) by {
            if i < last {
                assert(rest[i] == entries[i]);
            }
        }
        if entries[last].id < session::highest_id(entries) {
            let i = choose|i: int|
                0 <= i < rest.len() && (#[trigger] rest[i]).id == session::highest_id(rest);
            assert(entries[i].id == session::highest_id(entries));
        } else {
            assert(entries[last].id == session::highest_id(entries));
        }
        if session::shown_number(entries[last]) < session::highest_number(entries) {
            let i = choose|i: int|
                0 <= i < rest.len() && session::shown_number(#[trigger] rest[i])
                    == session::highest_number(rest);
            assert(session::shown_number(entries[i]) == session::highest_number(entries));
        } else {
            assert(session::shown_number(entries[last]) == session::highest_number(entries));
        }
    }
}

/// A saved synth shows its saved display number; one saved without shows its
/// id.
pub proof fn saved_numbers_are_shown(entry: SessionSynth)
    ensures
        entry.display_number matches Some(number) ==> session::shown_number(entry) == number,
        entry.display_number is None ==> session::shown_number(entry) == entry.id,
{
}

/// Of several entries with an id the last one counts.
pub proof fn last_entry_of_an_id_counts(entries: Seq<SessionSynth>, id: u32, place: int)
    requires
        -1 <= place < entries.len(),
        forall|k: int| place < k < entries.len() ==> (#[trigger] entries[k]).id != id,
        place >= 0 ==> entries[place].id == id,
    ensures
        session::last_entry(entries, id) == place,
    decreases entries.len(),
{
    if entries.len() > 0 && place < entries.len() - 1 {
        let rest = entries.drop_last();
        assert(entries[entries.len() - 1].id != id);
        assert forall|k: int| place < k < rest.len() implies (#[trigger] rest[k]).id != id by {
            assert(rest[k] == entries[k]);
        }
        last_entry_of_an_id_counts(rest, id, place);
    }
}

/// Each image setting of a session is the one of the same name in the
/// interface.
pub proof fn image_settings_keep_their_names(settings: SessionImageSettings, ui: SessionUi)
    requires
        session::are_settings_of(settings, ui),
    ensures
        settings == (SessionImageSettings {
            grid_slider: ui.grid_slider,
            contrast: ui.contrast,
            brightness: ui.brightness,
            vibrance: ui.vibrance,
            posterize_levels: ui.posterize_levels,
            texture: ui.texture,
            clarity: ui.clarity,
            simplify: ui.simplify,
            auto_levels: ui.auto_levels,
            mirror_zones_mode: ui.mirror_zones_mode,
        }),
{
}

/// The sound saved with a synth is the one known of its channel, provided that
/// its program is known: a bank alone is no sound.
pub proof fn known_programs_are_saved(
    synth: Synth,
    midi: MidiState,
    sound: ProgramState,
)
    ensures
        session::saved_sound(synth, midi) == Some(sound) <==> sound.program is Some
            && midi.program(synth.midi_port, synth.channel) == Some(sound),
        session::saved_sound(synth, midi) is None <==> !(midi.program(
            synth.midi_port,
            synth.channel,
        ) matches Some(known) && known.program is Some),
{
}

/// What is saved of a synth stands under the name it has in the synth, and
/// what is restored of it comes back from there.
pub proof fn saved_synths_keep_their_names(
    saved: SessionSynth,
    entry: SynthUiEntry,
    synth: Synth,
    midi: MidiState,
    restored: Synth,
)
    requires
        session::is_saved(saved, entry, synth, midi),
        session::is_restored(restored, saved),
    ensures
        saved.id == entry.id,
        saved.color@ == entry.color@,
        saved.display_number == Some(synth.display_number),
        saved.zones@ == synth.zones@,
        saved.mute_zones@ == synth.mute_zones@,
        saved.settings.describes(synth),
        restored.zones@ == saved.zones@,
        restored.mute_zones@ == saved.mute_zones@,
        saved.settings.describes(restored),
        restored.id == saved.id,
        !restored.playing,
        restored.cursor == 0,
        !restored.note_is_on,
        match (saved.name, synth.name) {
            (Some(a), Some(b)) => a@ == b@,
            (None, None) => true,
            _ => false,
        },
{
}

/// A loaded session tells what the file says, and the size of its image.
pub proof fn loaded_sessions_tell_what_is_in_the_file(
    loaded: LoadedSession,
    file: SessionFile,
    image: DynamicImage,
)
    requires
        session::is_loaded(loaded, file, image),
    ensures
        loaded.version == file.version,
        loaded.bpm == file.bpm,
        loaded.image_settings == file.image_settings,
        loaded.synths == file.synths,
        loaded.orig_width == raster::image_size(image).0,
        loaded.orig_height == raster::image_size(image).1,
        image_processing::png_text(image) == Some(loaded.image_base64@),
{
}

/// A reinstalled session has the image of the file as its original and as what
/// is played, and its numbers go on past the highest in the file.
pub proof fn reinstalled_sessions_replace_the_state(
    restoration: Restoration,
    file: SessionFile,
    image: DynamicImage,
    images: ImageState,
    synths_before: SynthState,
    synths_after: SynthState,
    midi_before: MidiState,
    midi_after: MidiState,
)
    requires
        session::is_reinstalled(
            restoration,
            file,
            image,
            images,
            synths_before,
            synths_after,
            midi_before,
            midi_after,
        ),
    ensures
        images.original == Some(image),
        images.processed == Some(image),
        synths_after.well_formed(),
        synths_after.next_id == session::highest_id(file.synths@) + 1,
        synths_after.next_display_number == session::highest_number(file.synths@) + 1,
        session::are_restored(synths_after.synths@, file.synths@),
        exists|ids: Seq<u32>|
            #![trigger synth::all_releases(synths_before.synths@, ids)]
            ids.no_duplicates() && ids.to_set() == synths_before.synths@.dom()
                && restoration.messages@ == synth::all_releases(synths_before.synths@, ids),
{
}

/// The zones are shown of all synths, of the active ones, or of none: there is
/// no other display mode.
pub proof fn there_are_three_display_modes(mode: Seq<char>)
    ensures
        session::is_mirror_mode(mode) <==> mode == "all"@ || mode == "active"@ || mode == "none"@,
{
}

} // verus!
