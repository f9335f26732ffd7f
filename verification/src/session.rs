//! Work sessions: what is saved of the state, and how it is restored.

use image::DynamicImage;
use vstd::prelude::*;

use crate::config::{self, SynthTemplate};
use crate::error::AppError;
use crate::image_processing::{self, encode_to_base64_png, ImageState};
use crate::midi::{self, KnownProgram, MidiState};
use crate::number::Single;
use crate::playback::{push_releases, NoteMessage};
use crate::raster;
use crate::state::{
    copy_text, copy_zones, same_text, PixelZone, ProgramState, Synth, SynthState,
};
use crate::synth;

verus! {

broadcast use vstd::std_specs::hash::group_hash_axioms;

/// The display color of a synth.
pub struct SynthUiEntry {
    pub id: u32,
    pub color: String,
}

/// Frontend-owned state passed on save: metronome tempo, image processing
/// sliders, and the synths' display colors (in list order).
pub struct SessionUi {
    pub bpm: u32,
    pub grid_slider: u32,
    pub contrast: Single,
    pub brightness: i32,
    pub vibrance: Single,
    pub posterize_levels: Option<u8>,
    pub texture: Single,
    pub clarity: Single,
    pub simplify: Single,
    pub auto_levels: bool,
    /// Zone display mode of the projection mirror.
    pub mirror_zones_mode: String,
    pub synth_colors: Vec<SynthUiEntry>,
}

/// Image processing settings, saved as raw slider values so the restore is
/// exact (the column count itself is derived from the original image).
pub struct SessionImageSettings {
    pub grid_slider: u32,
    pub contrast: Single,
    pub brightness: i32,
    pub vibrance: Single,
    pub posterize_levels: Option<u8>,
    pub texture: Single,
    pub clarity: Single,
    pub simplify: Single,
    pub auto_levels: bool,
    /// Zone display mode of the projection mirror.
    pub mirror_zones_mode: String,
}

/// A synthesizer as stored in a session file: its identity, display color,
/// pixel zones (empty = nothing selected), settings, and the channel's
/// program at save time so loading the session can reconfigure the
/// instruments to the same sounds.
pub struct SessionSynth {
    pub id: u32,
    /// Stable display number of the default title. Absent in sessions saved
    /// before its introduction: the id is used as a fallback on load.
    pub display_number: Option<u32>,
    pub name: Option<String>,
    pub color: String,
    pub zones: Vec<PixelZone>,
    /// Manually silenced pixels (rests) among the selected zones.
    pub mute_zones: Vec<PixelZone>,
    pub program: Option<ProgramState>,
    pub settings: SynthTemplate,
}

/// The image of a session.
pub struct SessionImage {
    /// base64 PNG of the original image.
    pub data: String,
}

/// A self-contained work session: the original image (base64 PNG) plus
/// everything needed to restore the exact same state. `version` allows
/// future formats to stay backward-compatible.
pub struct SessionFile {
    pub version: u32,
    pub bpm: u32,
    pub image: SessionImage,
    pub image_settings: SessionImageSettings,
    pub synths: Vec<SessionSynth>,
}

/// What the frontend is given to rebuild its UI.
pub struct LoadedSession {
    pub version: u32,
    pub bpm: u32,
    pub image_base64: String,
    pub orig_width: u32,
    pub orig_height: u32,
    pub image_settings: SessionImageSettings,
    pub synths: Vec<SessionSynth>,
}

/// Zone display mode of the projection mirror when the session (or the
/// frontend state) predates the three-mode toggle: zones hidden.
pub fn default_mirror_zones_mode() -> (mode: String)
    ensures
        mode@ == "none"@,
{
    "none".to_owned()
}

/// True of the zone display modes: "all" (every synth's zones), "active" (only
/// the synths whose eye button is on in the main window) and "none".
pub open spec fn is_mirror_mode(mode: Seq<char>) -> bool {
    mode == "all"@ || mode == "active"@ || mode == "none"@
}

/// Reads a zone display mode; an unknown one is refused.
pub fn mirror_zones_mode(value: &str) -> (mode: Option<String>)
    ensures
        match mode {
            Some(mode) => mode@ == value@ && is_mirror_mode(value@),
            None => !is_mirror_mode(value@),
        },
{
    let mode: String = value.to_owned();
    if mode == "all".to_owned() || mode == "active".to_owned() || mode == "none".to_owned() {
        Some(mode)
    } else {
        None
    }
}

/// Reads the zone display mode of a session saved with the older two-state
/// toggle: shown zones are all of them.
pub fn legacy_mirror_zones_mode(shown: bool) -> (mode: String)
    ensures
        mode@ == (if shown {
            "all"@
        } else {
            "none"@
        }),
{
    if shown {
        "all".to_owned()
    } else {
        "none".to_owned()
    }
}

/// The entries of a color list whose synths exist, in their order.
pub open spec fn known_entries(colors: Seq<SynthUiEntry>, synths: Map<u32, Synth>) -> Seq<
    SynthUiEntry,
>
    decreases colors.len(),
{
    if colors.len() == 0 {
        Seq::empty()
    } else {
        let before = known_entries(colors.drop_last(), synths);
        if synths.contains_key(colors.last().id) {
            before.push(colors.last())
        } else {
            before
        }
    }
}

/// The sound that is saved with a synth: a snapshot of its channel, if a
/// program is known there.
pub open spec fn saved_sound(synth: Synth, midi: MidiState) -> Option<ProgramState> {
    match midi.program(synth.midi_port, synth.channel) {
        Some(sound) => if sound.program is Some {
            Some(sound)
        } else {
            None
        },
        None => None,
    }
}

/// True of what is saved of a synth.
pub open spec fn is_saved(
    saved: SessionSynth,
    entry: SynthUiEntry,
    synth: Synth,
    midi: MidiState,
) -> bool {
    &&& saved.id == entry.id
    &&& saved.display_number == Some(synth.display_number)
    &&& same_text(saved.name, synth.name)
    &&& saved.color@ == entry.color@
    &&& saved.zones@ == synth.zones@
    &&& saved.mute_zones@ == synth.mute_zones@
    &&& saved.program == saved_sound(synth, midi)
    &&& saved.settings.describes(synth)
}

fn save_synth(entry: &SynthUiEntry, synth: &Synth, midi: &MidiState) -> (saved: SessionSynth)
    ensures
        is_saved(saved, *entry, *synth, *midi),
{
    let program: Option<ProgramState> = match midi.known_program(synth.midi_port, synth.channel) {
        Some(sound) => if sound.is_known() {
            Some(sound)
        } else {
            None
        },
        None => None,
    };
    SessionSynth {
        id: entry.id,
        display_number: Some(synth.display_number),
        name: copy_text(&synth.name),
        color: entry.color.clone(),
        zones: copy_zones(&synth.zones),
        mute_zones: copy_zones(&synth.mute_zones),
        program,
        settings: SynthTemplate::from_synth(synth),
    }
}

/// Saves the synths in display order, as given by the frontend's color list.
pub fn save_synths(colors: &Vec<SynthUiEntry>, state: &SynthState, midi: &MidiState) -> (saved: Vec<
    SessionSynth,
>)
    ensures
        saved@.len() == known_entries(colors@, state.synths@).len(),
        forall|i: int|
            0 <= i < saved@.len() ==> is_saved(
                #[trigger] saved@[i],
                known_entries(colors@, state.synths@)[i],
                state.synths@[known_entries(colors@, state.synths@)[i].id],
                *midi,
            ),
{
    let mut saved: Vec<SessionSynth> = Vec::new();
    let mut i: usize = 0;
    while i < colors.len()
        invariant
            i <= colors.len(),
            saved@.len() == known_entries(colors@.take(i as int), state.synths@).len(),
            forall|k: int|
                0 <= k < saved@.len() ==> is_saved(
                    #[trigger] saved@[k],
                    known_entries(colors@.take(i as int), state.synths@)[k],
                    state.synths@[known_entries(colors@.take(i as int), state.synths@)[k].id],
                    *midi,
                ),
        decreases colors.len() - i,
    {
        assert(colors@.take(i + 1).drop_last() =~= colors@.take(i as int));
        if let Some(synth) = state.synths.get(&colors[i].id) {
            saved.push(save_synth(&colors[i], synth, midi));
        }
        i = i + 1;
    }
    assert(colors@.take(i as int) =~= colors@);
    saved
}

/// True of the image settings of a session.
pub open spec fn are_settings_of(settings: SessionImageSettings, ui: SessionUi) -> bool {
    &&& settings.grid_slider == ui.grid_slider
    &&& settings.contrast == ui.contrast
    &&& settings.brightness == ui.brightness
    &&& settings.vibrance == ui.vibrance
    &&& settings.posterize_levels == ui.posterize_levels
    &&& settings.texture == ui.texture
    &&& settings.clarity == ui.clarity
    &&& settings.simplify == ui.simplify
    &&& settings.auto_levels == ui.auto_levels
    &&& settings.mirror_zones_mode == ui.mirror_zones_mode
}

/// The version of the session format.
pub const SESSION_VERSION: u32 = 2;

/// True of the file that a session is collected into.
pub open spec fn is_session(
    file: Result<SessionFile, AppError>,
    ui: SessionUi,
    images: ImageState,
    state: SynthState,
    midi: MidiState,
) -> bool {
    match (images.original, file) {
        (None, Err(AppError::NoImageLoaded)) => true,
        (Some(image), Err(AppError::PngEncodingError { .. })) => image_processing::png_text(
            image,
        ) is None,
        (Some(image), Ok(file)) => {
            let known = known_entries(ui.synth_colors@, state.synths@);
            &&& file.version == SESSION_VERSION
            &&& file.bpm == ui.bpm
            &&& image_processing::png_text(image) == Some(file.image.data@)
            &&& image_processing::carries(file.image.data@, image)
            &&& are_settings_of(file.image_settings, ui)
            &&& file.synths@.len() == known.len()
            &&& forall|i: int|
                0 <= i < known.len() ==> is_saved(
                    #[trigger] file.synths@[i],
                    known[i],
                    state.synths@[known[i].id],
                    midi,
                )
        },
        _ => false,
    }
}

/// True when the stored original, if any, has a buffer that can be encoded.
pub open spec fn can_be_saved(images: ImageState) -> bool {
    images.original matches Some(image) ==> raster::exact_buffer(image)
}

/// Collects the current work session: the original image (the processed grid
/// is re-derived from it), the settings, and every synth of the color list.
pub fn save_session(ui: SessionUi, images: &ImageState, state: &SynthState, midi: &MidiState) -> (file:
    Result<SessionFile, AppError>)
    requires
        can_be_saved(*images),
    ensures
        is_session(file, ui, *images, *state, *midi),
{
    let data: String = match &images.original {
        Some(image) => match encode_to_base64_png(image) {
            Ok(text) => text,
            Err(error) => return Err(error),
        },
        None => return Err(AppError::NoImageLoaded),
    };
    let synths = save_synths(&ui.synth_colors, state, midi);
    Ok(
        SessionFile {
            version: SESSION_VERSION,
            bpm: ui.bpm,
            image: SessionImage { data },
            image_settings: SessionImageSettings {
                grid_slider: ui.grid_slider,
                contrast: ui.contrast,
                brightness: ui.brightness,
                vibrance: ui.vibrance,
                posterize_levels: ui.posterize_levels,
                texture: ui.texture,
                clarity: ui.clarity,
                simplify: ui.simplify,
                auto_levels: ui.auto_levels,
                mirror_zones_mode: ui.mirror_zones_mode,
            },
            synths,
        },
    )
}

/// Collects the session as `save_session` does; `None` when the buffer of the
/// original is longer than its pixels.
pub fn try_save_session(
    ui: SessionUi,
    images: &ImageState,
    state: &SynthState,
    midi: &MidiState,
) -> (file: Option<Result<SessionFile, AppError>>)
    ensures
        match file {
            Some(file) => can_be_saved(*images) && is_session(file, ui, *images, *state, *midi),
            None => !can_be_saved(*images),
        },
{
    if let Some(image) = &images.original {
        if !raster::has_exact_buffer(image) {
            return None;
        }
    }
    Some(save_session(ui, images, state, midi))
}

/// The display number of a saved synth. Sessions predating the display
/// number fall back to the saved id, itself stable across the session's
/// lifetime.
pub open spec fn shown_number(entry: SessionSynth) -> u32 {
    match entry.display_number {
        Some(number) => number,
        None => entry.id,
    }
}

/// True of the synth made of a saved one: its identity, zones and settings
/// are those that were saved. Playback state (playhead position, sounding
/// notes) is not restored: everything restarts from the beginning.
pub open spec fn is_restored(synth: Synth, entry: SessionSynth) -> bool {
    &&& entry.settings.describes(synth)
    &&& same_text(synth.name, entry.name)
    &&& synth.zones@ == entry.zones@
    &&& synth.mute_zones@ == entry.mute_zones@
    &&& synth.display_number == shown_number(entry)
    &&& config::fresh_playback(synth, entry.id)
}

fn restore_synth(entry: &SessionSynth) -> (synth: Synth)
    ensures
        is_restored(synth, *entry),
{
    let mut synth = entry.settings.to_synth(entry.id);
    synth.name = copy_text(&entry.name);
    synth.zones = copy_zones(&entry.zones);
    synth.mute_zones = copy_zones(&entry.mute_zones);
    synth.display_number = match entry.display_number {
        Some(number) => number,
        None => entry.id,
    };
    synth
}

/// The last of the entries with an id; -1 where there is none.
pub open spec fn last_entry(entries: Seq<SessionSynth>, id: u32) -> int
    decreases entries.len(),
{
    if entries.len() == 0 {
        -1
    } else if entries.last().id == id {
        entries.len() - 1
    } else {
        last_entry(entries.drop_last(), id)
    }
}

/// The highest id of the entries; 0 where there is none.
pub open spec fn highest_id(entries: Seq<SessionSynth>) -> u32
    decreases entries.len(),
{
    if entries.len() == 0 {
        0
    } else if entries.last().id > highest_id(entries.drop_last()) {
        entries.last().id
    } else {
        highest_id(entries.drop_last())
    }
}

/// The highest display number of the entries; 0 where there is none.
pub open spec fn highest_number(entries: Seq<SessionSynth>) -> u32
    decreases entries.len(),
{
    if entries.len() == 0 {
        0
    } else if shown_number(entries.last()) > highest_number(entries.drop_last()) {
        shown_number(entries.last())
    } else {
        highest_number(entries.drop_last())
    }
}

/// True of the synths restored from a list of saved ones: each id has the
/// synth of its last entry.
pub open spec fn are_restored(synths: Map<u32, Synth>, entries: Seq<SessionSynth>) -> bool {
    forall|id: u32|
        #![trigger synths.contains_key(id)]
        #![trigger last_entry(entries, id)]
        {
            &&& synths.contains_key(id) <==> last_entry(entries, id) >= 0
            &&& synths.contains_key(id) ==> is_restored(
                synths[id],
                entries[last_entry(entries, id)],
            )
        }
}

proof fn lemma_last_entry(entries: Seq<SessionSynth>, id: u32)
    ensures
        -1 <= last_entry(entries, id) < entries.len(),
        last_entry(entries, id) >= 0 ==> entries[last_entry(entries, id)].id == id && id
            <= highest_id(entries) && shown_number(entries[last_entry(entries, id)])
            <= highest_number(entries),
    decreases entries.len(),
{
    if entries.len() > 0 {
        lemma_last_entry(entries.drop_last(), id);
    }
}

/// Turns off any sounding note of the listed synths.
fn release_in_order(state: &SynthState, ids: &Vec<u32>) -> (messages: Vec<NoteMessage>)
    requires
        forall|i: int| 0 <= i < ids@.len() ==> state.synths@.contains_key(#[trigger] ids@[i]),
    ensures
        messages@ == synth::all_releases(state.synths@, ids@),
{
    let mut messages: Vec<NoteMessage> = Vec::new();
    let mut i: usize = 0;
    while i < ids.len()
        invariant
            i <= ids.len(),
            forall|k: int| 0 <= k < ids@.len() ==> state.synths@.contains_key(#[trigger] ids@[k]),
            messages@ == synth::all_releases(state.synths@, ids@.take(i as int)),
        decreases ids.len() - i,
    {
        assert(ids@.take(i + 1).drop_last() =~= ids@.take(i as int));
        assert(state.synths@.contains_key(ids@[i as int]));
        if let Some(synth) = state.synths.get(&ids[i]) {
            push_releases(synth, &mut messages);
        }
        i = i + 1;
    }
    assert(ids@.take(i as int) =~= ids@);
    messages
}

/// Puts the saved synths in the place of the current ones, whose sounding
/// notes are turned off first. The counters continue past the highest
/// restored numbers, so a newly created synth never collides with an existing
/// one.
pub fn restore_synths(entries: &Vec<SessionSynth>, state: &mut SynthState) -> (messages: Vec<
    NoteMessage,
>)
    requires
        highest_id(entries@) < u32::MAX,
        highest_number(entries@) < u32::MAX,
    ensures
        exists|ids: Seq<u32>|
            #![trigger synth::all_releases(old(state).synths@, ids)]
            synth::lists_every_synth(ids, old(state).synths@) && messages@ == synth::all_releases(
                old(state).synths@,
                ids,
            ),
        are_restored(final(state).synths@, entries@),
        final(state).next_id == highest_id(entries@) + 1,
        final(state).next_display_number == highest_number(entries@) + 1,
        final(state).well_formed(),
{
    let ids = synth::synth_ids(&state.synths);
    proof {
        assert forall|i: int| 0 <= i < ids@.len() implies state.synths@.contains_key(
            #[trigger] ids@[i],
        ) by {
            assert(ids@.to_set().contains(ids@[i]));
        }
    }
    let messages = release_in_order(state, &ids);
    assert(synth::lists_every_synth(ids@, old(state).synths@));
    state.synths.clear();
    let mut max_id: u32 = 0;
    let mut max_number: u32 = 0;
    let mut i: usize = 0;
    while i < entries.len()
        invariant
            i <= entries.len(),
            are_restored(state.synths@, entries@.take(i as int)),
            max_id == highest_id(entries@.take(i as int)),
            max_number == highest_number(entries@.take(i as int)),
        decreases entries.len() - i,
    {
        let ghost before = state.synths@;
        let synth = restore_synth(&entries[i]);
        let id: u32 = entries[i].id;
        if id > max_id {
            max_id = id;
        }
        if synth.display_number > max_number {
            max_number = synth.display_number;
        }
        state.synths.insert(id, synth);
        proof {
            let earlier = entries@.take(i as int);
            let now = entries@.take(i + 1);
            assert(now.drop_last() =~= earlier);
            assert forall|other: u32|
                #![trigger state.synths@.contains_key(other)]
                #![trigger last_entry(now, other)]
                {
                    &&& state.synths@.contains_key(other) <==> last_entry(now, other) >= 0
                    &&& state.synths@.contains_key(other) ==> is_restored(
                        state.synths@[other],
                        now[last_entry(now, other)],
                    )
                } by {
                lemma_last_entry(earlier, other);
                assert(before.contains_key(other) <==> last_entry(earlier, other) >= 0);
                if other != id && last_entry(earlier, other) >= 0 {
                    assert(now[last_entry(earlier, other)] == earlier[last_entry(earlier, other)]);
                }
            }
        }
        i = i + 1;
    }
    assert(entries@.take(i as int) =~= entries@);
    state.next_id = max_id + 1;
    state.next_display_number = max_number + 1;
    proof {
        assert forall|id: u32| #[trigger] state.synths@.contains_key(id) implies {
            &&& state.synths@[id].id == id
            &&& id < state.next_id
            &&& state.synths@[id].display_number < state.next_display_number
        } by {
            lemma_last_entry(entries@, id);
        }
    }
    messages
}

/// True when a saved synth asks for a sound on a channel: one was saved with
/// it, and the restored synth is routed there.
pub open spec fn asks_for(
    entry: SessionSynth,
    synths: Map<u32, Synth>,
    port: usize,
    channel: u8,
) -> bool {
    &&& entry.program is Some
    &&& synths.contains_key(entry.id)
    &&& synths[entry.id].midi_port == port
    &&& synths[entry.id].channel == channel
}

/// The sound that the saved synths ask for on a channel: when several synths
/// share it with conflicting programs, the last one in file order wins.
pub open spec fn sound_for(
    entries: Seq<SessionSynth>,
    synths: Map<u32, Synth>,
    port: usize,
    channel: u8,
) -> Option<ProgramState>
    decreases entries.len(),
{
    if entries.len() == 0 {
        None
    } else if asks_for(entries.last(), synths, port, channel) {
        entries.last().program
    } else {
        sound_for(entries.drop_last(), synths, port, channel)
    }
}

/// True of a list that holds the sound of each channel that is asked for
/// exactly once.
pub open spec fn lists_the_sounds(
    list: Seq<KnownProgram>,
    entries: Seq<SessionSynth>,
    synths: Map<u32, Synth>,
) -> bool {
    &&& forall|i: int|
        0 <= i < list.len() ==> sound_for(
            entries,
            synths,
            (#[trigger] list[i]).port,
            list[i].channel,
        ) == Some(list[i].program)
    &&& forall|port: usize, channel: u8| #[trigger]
        sound_for(entries, synths, port, channel) is Some ==> exists|i: int|
            0 <= i < list.len() && (#[trigger] list[i]).port == port && list[i].channel == channel
    &&& forall|i: int, j: int|
        0 <= i < j < list.len() ==> (#[trigger] list[i]).port != (#[trigger] list[j]).port
            || list[i].channel != list[j].channel
}

/// Files a sound in a list, in the place of an earlier one for the channel.
fn file_sound(list: &mut Vec<KnownProgram>, sound: KnownProgram) -> (place: usize)
    requires
        forall|i: int, j: int|
            0 <= i < j < old(list)@.len() ==> (#[trigger] old(list)@[i]).port != (
            #[trigger] old(list)@[j]).port || old(list)@[i].channel != old(list)@[j].channel,
    ensures
        place <= old(list)@.len(),
        final(list)@ == (if place < old(list)@.len() {
            old(list)@.update(place as int, sound)
        } else {
            old(list)@.push(sound)
        }),
        forall|i: int|
            0 <= i < old(list)@.len() ==> (i == place <==> (#[trigger] old(list)@[i]).port
                == sound.port && old(list)@[i].channel == sound.channel),
{
    let mut i: usize = 0;
    while i < list.len()
        invariant
            i <= list.len(),
            list@ == old(list)@,
            forall|a: int, b: int|
                0 <= a < b < list@.len() ==> (#[trigger] list@[a]).port != (
                #[trigger] list@[b]).port || list@[a].channel != list@[b].channel,
            forall|k: int|
                0 <= k < i ==> (#[trigger] list@[k]).port != sound.port || list@[k].channel
                    != sound.channel,
        decreases list.len() - i,
    {
        if list[i].port == sound.port && list[i].channel == sound.channel {
            list.set(i, sound);
            return i;
        }
        i = i + 1;
    }
    list.push(sound);
    i
}

/// Lists the programs to send once the synths are restored: each saved
/// program once per (port, channel).
pub fn programs_to_send(entries: &Vec<SessionSynth>, state: &SynthState) -> (list: Vec<
    KnownProgram,
>)
    ensures
        lists_the_sounds(list@, entries@, state.synths@),
{
    let mut list: Vec<KnownProgram> = Vec::new();
    let ghost synths = state.synths@;
    let mut i: usize = 0;
    while i < entries.len()
        invariant
            i <= entries.len(),
            synths == state.synths@,
            lists_the_sounds(list@, entries@.take(i as int), synths),
        decreases entries.len() - i,
    {
        let ghost before = list@;
        let ghost earlier = entries@.take(i as int);
        let ghost now = entries@.take(i + 1);
        assert(now.drop_last() =~= earlier);
        let asked: Option<KnownProgram> = match entries[i].program {
            Some(program) => match state.synths.get(&entries[i].id) {
                Some(synth) => Some(
                    KnownProgram { port: synth.midi_port, channel: synth.channel, program },
                ),
                None => None,
            },
            None => None,
        };
        if let Some(sound) = asked {
            let place = file_sound(&mut list, sound);
            proof {
                lemma_sound_filed(before, list@, sound, place as int, earlier, now, synths);
            }
        } else {
            assert forall|port: usize, channel: u8| #[trigger]
                sound_for(now, synths, port, channel) == sound_for(
                    earlier,
                    synths,
                    port,
                    channel,
                ) by {}
        }
        i = i + 1;
    }
    assert(entries@.take(i as int) =~= entries@);
    list
}

proof fn lemma_sound_filed(
    before: Seq<KnownProgram>,
    after: Seq<KnownProgram>,
    sound: KnownProgram,
    place: int,
    earlier: Seq<SessionSynth>,
    now: Seq<SessionSynth>,
    synths: Map<u32, Synth>,
)
    requires
        lists_the_sounds(before, earlier, synths),
        now.len() > 0,
        now.drop_last() == earlier,
        asks_for(now.last(), synths, sound.port, sound.channel),
        now.last().program == Some(sound.program),
        0 <= place <= before.len(),
        after == (if place < before.len() {
            before.update(place, sound)
        } else {
            before.push(sound)
        }),
        forall|i: int|
            0 <= i < before.len() ==> (i == place <==> (#[trigger] before[i]).port == sound.port
                && before[i].channel == sound.channel),
    ensures
        lists_the_sounds(after, now, synths),
{
    assert forall|port: usize, channel: u8| #[trigger]
        sound_for(now, synths, port, channel) is Some implies exists|i: int|
        0 <= i < after.len() && (#[trigger] after[i]).port == port && after[i].channel
            == channel by {
        if port == sound.port && channel == sound.channel {
            assert(after[place].port == port);
        } else {
            assert(sound_for(earlier, synths, port, channel) is Some);
            let i = choose|i: int|
                0 <= i < before.len() && (#[trigger] before[i]).port == port && before[i].channel
                    == channel;
            assert(after[i] == before[i]);
        }
    }
    assert forall|i: int| 0 <= i < after.len() implies sound_for(
        now,
        synths,
        (#[trigger] after[i]).port,
        after[i].channel,
    ) == Some(after[i].program) by {
        if i != place {
            assert(after[i] == before[i]);
        }
    }
    assert forall|i: int, j: int| 0 <= i < j < after.len() implies (#[trigger] after[i]).port != (
    #[trigger] after[j]).port || after[i].channel != after[j].channel by {
        if i != place {
            assert(after[i] == before[i]);
        }
        if j != place {
            assert(after[j] == before[j]);
        }
    }
}

/// A program selection for an output port.
pub struct Selection {
    pub port: usize,
    pub messages: Vec<Vec<u8>>,
}

/// Reconfigures the instruments: sends each listed program once. Banks travel
/// with the program in one explicit send: the instrument is reconfigured even
/// if it transmits nothing.
pub fn send_programs(list: &Vec<KnownProgram>, midi: &mut MidiState) -> (sent: Vec<Selection>)
    requires
        old(midi).well_formed(),
        forall|i: int, j: int|
            0 <= i < j < list@.len() ==> (#[trigger] list@[i]).port != (#[trigger] list@[j]).port
                || list@[i].channel != list@[j].channel,
    ensures
        final(midi).well_formed(),
        sent@.len() == list@.len(),
        forall|i: int|
            0 <= i < list@.len() ==> (#[trigger] sent@[i]).port == list@[i].port && midi::contents(
                sent@[i].messages@,
            ) == midi::selection_bytes(list@[i].channel, list@[i].program),
        forall|i: int|
            0 <= i < list@.len() ==> final(midi).program(
                (#[trigger] list@[i]).port,
                list@[i].channel,
            ) == Some(list@[i].program),
        forall|port: usize, channel: u8|
            (forall|i: int|
                0 <= i < list@.len() ==> (#[trigger] list@[i]).port != port || list@[i].channel
                    != channel) ==> #[trigger] final(midi).program(port, channel) == old(
                midi,
            ).program(port, channel),
{
    let mut sent: Vec<Selection> = Vec::new();
    let mut i: usize = 0;
    while i < list.len()
        invariant
            i <= list.len(),
            midi.well_formed(),
            forall|a: int, b: int|
                0 <= a < b < list@.len() ==> (#[trigger] list@[a]).port != (
                #[trigger] list@[b]).port || list@[a].channel != list@[b].channel,
            sent@.len() == i,
            forall|k: int|
                0 <= k < i ==> (#[trigger] sent@[k]).port == list@[k].port && midi::contents(
                    sent@[k].messages@,
                ) == midi::selection_bytes(list@[k].channel, list@[k].program),
            forall|k: int|
                0 <= k < i ==> midi.program((#[trigger] list@[k]).port, list@[k].channel) == Some(
                    list@[k].program,
                ),
            forall|port: usize, channel: u8|
                (forall|k: int|
                    0 <= k < i ==> (#[trigger] list@[k]).port != port || list@[k].channel
                        != channel) ==> #[trigger] midi.program(port, channel) == old(midi).program(
                    port,
                    channel,
                ),
        decreases list.len() - i,
    {
        let sound: KnownProgram = list[i];
        let ghost before = *midi;
        let (messages, _) = midi.send_program_change(
            sound.port,
            sound.channel,
            sound.program.program,
            sound.program.bank_msb,
            sound.program.bank_lsb,
        );
        sent.push(Selection { port: sound.port, messages });
        proof {
            assert forall|port: usize, channel: u8|
                (forall|k: int|
                    0 <= k < i + 1 ==> (#[trigger] list@[k]).port != port || list@[k].channel
                        != channel) implies #[trigger] midi.program(port, channel) == old(
                midi,
            ).program(port, channel) by {
                assert(list@[i as int].port != port || list@[i as int].channel != channel);
                assert(before.program(port, channel) == old(midi).program(port, channel));
            }
        }
        i = i + 1;
    }
    sent
}

/// Everything that loading a session brings: what the frontend rebuilds its
/// UI from, the Note Offs of the synths that are gone, and the program
/// selections of the restored ones.
pub struct Restoration {
    pub session: LoadedSession,
    pub messages: Vec<NoteMessage>,
    pub selections: Vec<Selection>,
}

/// True of what the frontend is told of a loaded session.
pub open spec fn is_loaded(session: LoadedSession, file: SessionFile, image: DynamicImage) -> bool {
    &&& session.version == file.version
    &&& session.bpm == file.bpm
    &&& image_processing::png_text(image) == Some(session.image_base64@)
    &&& image_processing::carries(session.image_base64@, image)
    &&& (session.orig_width, session.orig_height) == raster::image_size(image)
    &&& session.image_settings == file.image_settings
    &&& session.synths == file.synths
}

/// True when the sounds that the saved synths ask for have been sent: one
/// selection per channel, and each is known from now on; the other channels
/// are as before.
pub open spec fn sounds_sent(
    selections: Seq<Selection>,
    entries: Seq<SessionSynth>,
    synths: Map<u32, Synth>,
    before: MidiState,
    after: MidiState,
) -> bool {
    &&& exists|list: Seq<KnownProgram>| #[trigger]
        lists_the_sounds(list, entries, synths) && selections.len() == list.len() && forall|i: int|
            0 <= i < list.len() ==> (#[trigger] selections[i]).port == list[i].port
                && midi::contents(selections[i].messages@) == midi::selection_bytes(
                list[i].channel,
                list[i].program,
            )
    &&& forall|port: usize, channel: u8| #[trigger]
        after.program(port, channel) == (match sound_for(entries, synths, port, channel) {
            Some(sound) => Some(sound),
            None => before.program(port, channel),
        })
}

/// True when the whole state of a session has been reinstalled.
pub open spec fn is_reinstalled(
    restoration: Restoration,
    file: SessionFile,
    image: DynamicImage,
    images: ImageState,
    synths_before: SynthState,
    synths_after: SynthState,
    midi_before: MidiState,
    midi_after: MidiState,
) -> bool {
    &&& is_loaded(restoration.session, file, image)
    &&& images.original == Some(image)
    &&& images.processed == Some(image)
    &&& raster::exact_buffer(image)
    &&& exists|ids: Seq<u32>|
        #![trigger synth::all_releases(synths_before.synths@, ids)]
        synth::lists_every_synth(ids, synths_before.synths@) && restoration.messages@
            == synth::all_releases(synths_before.synths@, ids)
    &&& are_restored(synths_after.synths@, file.synths@)
    &&& synths_after.next_id == highest_id(file.synths@) + 1
    &&& synths_after.next_display_number == highest_number(file.synths@) + 1
    &&& synths_after.well_formed()
    &&& sounds_sent(
        restoration.selections@,
        file.synths@,
        synths_after.synths@,
        midi_before,
        midi_after,
    )
}

/// Reinstalls the whole state of a session, its image already decoded, into
/// the backend: image first, then the synths, then the instruments.
pub fn install_session(
    file: SessionFile,
    image: DynamicImage,
    images: &mut ImageState,
    state: &mut SynthState,
    midi: &mut MidiState,
) -> (result: Result<Restoration, AppError>)
    requires
        highest_id(file.synths@) < u32::MAX,
        highest_number(file.synths@) < u32::MAX,
        old(midi).well_formed(),
        raster::exact_buffer(image),
    ensures
        final(midi).well_formed(),
        match result {
            Ok(restoration) => is_reinstalled(
                restoration,
                file,
                image,
                *final(images),
                *old(state),
                *final(state),
                *old(midi),
                *final(midi),
            ),
            Err(AppError::PngEncodingError { .. }) => {
                &&& image_processing::png_text(image) is None
                &&& *final(images) == *old(images)
                &&& *final(state) == *old(state)
                &&& *final(midi) == *old(midi)
            },
            Err(_) => false,
        },
{
    let (orig_width, orig_height) = raster::image_dimensions(&image);
    let image_base64: String = match encode_to_base64_png(&image) {
        Ok(text) => text,
        Err(error) => return Err(error),
    };
    images.original = Some(raster::copy_image(&image));
    images.processed = Some(image);
    let messages = restore_synths(&file.synths, state);
    let list = programs_to_send(&file.synths, state);
    let selections = send_programs(&list, midi);
    proof {
        let entries = file.synths@;
        let synths = state.synths@;
        assert(lists_the_sounds(list@, entries, synths));
        assert forall|port: usize, channel: u8| #[trigger]
            midi.program(port, channel) == (match sound_for(entries, synths, port, channel) {
                Some(sound) => Some(sound),
                None => old(midi).program(port, channel),
            }) by {
            if sound_for(entries, synths, port, channel) is Some {
                let i = choose|i: int|
                    0 <= i < list@.len() && (#[trigger] list@[i]).port == port && list@[i].channel
                        == channel;
                assert(midi.program(list@[i].port, list@[i].channel) == Some(list@[i].program));
            } else {
                assert forall|i: int| 0 <= i < list@.len() implies (#[trigger] list@[i]).port != port
                    || list@[i].channel != channel by {}
            }
        }
    }
    let session = LoadedSession {
        version: file.version,
        bpm: file.bpm,
        image_base64,
        orig_width,
        orig_height,
        image_settings: file.image_settings,
        synths: file.synths,
    };
    Ok(Restoration { session, messages, selections })
}

/// True of the images that the text of a session's image decodes to.
pub open spec fn holds_image(data: Seq<char>, image: DynamicImage) -> bool {
    &&& raster::base64_bytes(data) matches Some(bytes)
    &&& !raster::refuses(bytes)
    &&& raster::decodes_to(bytes, image)
}

/// True when the text of a session's image is not base64, or not that of an
/// image file, or may decode to an image that could not be encoded again: one
/// whose buffer is longer than its pixels.
pub open spec fn no_image_in(data: Seq<char>) -> bool {
    match raster::base64_bytes(data) {
        None => true,
        Some(bytes) => raster::refuses(bytes) || exists|image: DynamicImage| #[trigger]
            raster::decodes_to(bytes, image) && !raster::exact_buffer(image),
    }
}

/// Decodes the original image of a session; a message where that fails.
fn decode_image(data: &str) -> (decoded: Result<DynamicImage, String>)
    ensures
        match decoded {
            Ok(image) => holds_image(data@, image),
            Err(_) => match raster::base64_bytes(data@) {
                None => true,
                Some(bytes) => raster::refuses(bytes),
            },
        },
{
    match raster::decode_base64(data) {
        Ok(bytes) => match raster::load_from_memory(bytes.as_slice()) {
            Ok(image) => Ok(image),
            Err(error) => Err(raster::image_error_text(&error)),
        },
        Err(error) => Err(raster::decode_error_text(&error)),
    }
}

/// Reinstalls the whole state of a session into the backend as
/// `install_session` does, once its image has been decoded or has failed to.
/// An image whose buffer is longer than its pixels could not be encoded
/// again, and counts as broken.
pub fn install_decoded(
    file: SessionFile,
    decoded: Result<DynamicImage, String>,
    images: &mut ImageState,
    state: &mut SynthState,
    midi: &mut MidiState,
) -> (result: Result<Restoration, AppError>)
    requires
        highest_id(file.synths@) < u32::MAX,
        highest_number(file.synths@) < u32::MAX,
        old(midi).well_formed(),
    ensures
        final(midi).well_formed(),
        result is Err ==> *final(images) == *old(images) && *final(state) == *old(state)
            && *final(midi) == *old(midi),
        match decoded {
            Err(details) => result == Err::<Restoration, _>(
                AppError::SessionParseError { details },
            ),
            Ok(image) => if raster::exact_buffer(image) {
                match result {
                    Ok(restoration) => is_reinstalled(
                        restoration,
                        file,
                        image,
                        *final(images),
                        *old(state),
                        *final(state),
                        *old(midi),
                        *final(midi),
                    ),
                    Err(AppError::PngEncodingError { .. }) => image_processing::png_text(
                        image,
                    ) is None,
                    Err(_) => false,
                }
            } else {
                result matches Err(AppError::SessionParseError { details }) && details@
                    == "image buffer too long"@
            },
        },
{
    match decoded {
        Ok(image) => if raster::has_exact_buffer(&image) {
            install_session(file, image, images, state, midi)
        } else {
            Err(AppError::SessionParseError { details: "image buffer too long".to_owned() })
        },
        Err(details) => Err(AppError::SessionParseError { details }),
    }
}

/// True of what loading a parsed session file returns, and of what it leaves
/// behind: all of the session, or the state as it was.
pub open spec fn is_opened(
    result: Result<Restoration, AppError>,
    file: SessionFile,
    images_before: ImageState,
    images_after: ImageState,
    synths_before: SynthState,
    synths_after: SynthState,
    midi_before: MidiState,
    midi_after: MidiState,
) -> bool {
    &&& result is Err ==> images_after == images_before && synths_after == synths_before
        && midi_after == midi_before
    &&& match result {
        Ok(restoration) => exists|image: DynamicImage| #[trigger]
            is_reinstalled(
                restoration,
                file,
                image,
                images_after,
                synths_before,
                synths_after,
                midi_before,
                midi_after,
            ) && holds_image(file.image.data@, image),
        Err(AppError::SessionParseError { .. }) => no_image_in(file.image.data@),
        Err(AppError::PngEncodingError { .. }) => exists|image: DynamicImage| #[trigger]
            holds_image(file.image.data@, image) && image_processing::png_text(image) is None,
        Err(_) => false,
    }
}

/// Reinstalls the whole state (image, synths) of a parsed session file into
/// the backend. Returns the session's content for the frontend to rebuild its
/// UI. A session whose image does not decode is refused, and nothing changes.
pub fn load_session(
    file: SessionFile,
    images: &mut ImageState,
    state: &mut SynthState,
    midi: &mut MidiState,
) -> (result: Result<Restoration, AppError>)
    requires
        highest_id(file.synths@) < u32::MAX,
        highest_number(file.synths@) < u32::MAX,
        old(midi).well_formed(),
    ensures
        final(midi).well_formed(),
        is_opened(
            result,
            file,
            *old(images),
            *final(images),
            *old(state),
            *final(state),
            *old(midi),
            *final(midi),
        ),
{
    let decoded = decode_image(file.image.data.as_str());
    install_decoded(file, decoded, images, state, midi)
}

/// Tells the highest id and the highest display number of the saved synths,
/// past which the counters of a restored session continue.
pub fn highest_numbers(entries: &Vec<SessionSynth>) -> (highest: (u32, u32))
    ensures
        highest == (highest_id(entries@), highest_number(entries@)),
{
    let mut max_id: u32 = 0;
    let mut max_number: u32 = 0;
    let mut i: usize = 0;
    while i < entries.len()
        invariant
            i <= entries.len(),
            max_id == highest_id(entries@.take(i as int)),
            max_number == highest_number(entries@.take(i as int)),
        decreases entries.len() - i,
    {
        assert(entries@.take(i + 1).drop_last() =~= entries@.take(i as int));
        let number: u32 = match entries[i].display_number {
            Some(number) => number,
            None => entries[i].id,
        };
        if entries[i].id > max_id {
            max_id = entries[i].id;
        }
        if number > max_number {
            max_number = number;
        }
        i = i + 1;
    }
    assert(entries@.take(i as int) =~= entries@);
    (max_id, max_number)
}

/// True of two synths that are set up alike: the same display number, name,
/// zones and silences, and the same settings.
pub open spec fn same_setup(a: Synth, b: Synth) -> bool {
    &&& a.display_number == b.display_number
    &&& same_text(a.name, b.name)
    &&& a.zones@ == b.zones@
    &&& a.mute_zones@ == b.mute_zones@
    &&& forall|template: SynthTemplate| #[trigger] template.describes(a) <==> template.describes(b)
}

/// A synth survives the way through a session file: what is restored has its
/// id, its display number, its name, its zones and silences, and its settings.
pub proof fn session_restores_the_synth(
    synth: Synth,
    entry: SynthUiEntry,
    midi: MidiState,
    saved: SessionSynth,
    restored: Synth,
)
    requires
        entry.id == synth.id,
        is_saved(saved, entry, synth, midi),
        is_restored(restored, saved),
    ensures
        restored.id == synth.id,
        same_setup(restored, synth),
{
}

/// The image survives the way through a session file: what the saved text
/// decodes to has the size of the original, and shows its pixels.
pub proof fn session_restores_the_image(
    original: DynamicImage,
    saved: SessionFile,
    restored: DynamicImage,
)
    requires
        image_processing::carries(saved.image.data@, original),
        raster::base64_bytes(saved.image.data@) matches Some(bytes) && raster::decodes_to(
            bytes,
            restored,
        ),
    ensures
        raster::same_picture(restored, original),
{
}

/// Ids and display numbers handed out after a session has been restored are
/// new: none of the restored synths has them.
pub proof fn restored_numbers_are_not_reused(
    entries: Seq<SessionSynth>,
    synths: Map<u32, Synth>,
    id: u32,
)
    requires
        are_restored(synths, entries),
        synths.contains_key(id),
    ensures
        id < highest_id(entries) + 1,
        synths[id].display_number < highest_number(entries) + 1,
{
    lemma_last_entry(entries, id);
}

proof fn lemma_known_entries(colors: Seq<SynthUiEntry>, synths: Map<u32, Synth>)
    ensures
        forall|i: int|
            0 <= i < known_entries(colors, synths).len() ==> synths.contains_key(
                (#[trigger] known_entries(colors, synths)[i]).id,
            ),
        forall|i: int|
            0 <= i < colors.len() && synths.contains_key((#[trigger] colors[i]).id) ==> exists|
                k: int,
            |
                0 <= k < known_entries(colors, synths).len() && (#[trigger] known_entries(
                    colors,
                    synths,
                )[k]) == colors[i],
    decreases colors.len(),
{
    if colors.len() > 0 {
        let shorter = colors.drop_last();
        let before = known_entries(shorter, synths);
        let all = known_entries(colors, synths);
        lemma_known_entries(shorter, synths);
        assert forall|i: int|
            0 <= i < colors.len() && synths.contains_key((#[trigger] colors[i]).id) implies exists|
            k: int,
        |
            0 <= k < all.len() && (#[trigger] all[k]) == colors[i] by {
            if i < shorter.len() {
                assert(shorter[i] == colors[i]);
                let k = choose|k: int| 0 <= k < before.len() && (#[trigger] before[k]) == shorter[i];
                assert(all[k] == colors[i]);
            } else {
                assert(all[all.len() - 1] == colors[i]);
            }
        }
        assert forall|i: int| 0 <= i < all.len() implies synths.contains_key(
            (#[trigger] all[i]).id,
        ) by {
            if i < before.len() {
                assert(all[i] == before[i]);
            }
        }
    }
}

proof fn lemma_listed_entry(entries: Seq<SessionSynth>, place: int)
    requires
        0 <= place < entries.len(),
    ensures
        last_entry(entries, entries[place].id) >= 0,
    decreases entries.len(),
{
    if place < entries.len() - 1 {
        assert(entries.drop_last()[place] == entries[place]);
        lemma_listed_entry(entries.drop_last(), place);
    }
}

/// True when a color list names every synth.
pub open spec fn names_every_synth(
    colors: Seq<SynthUiEntry>,
    synths: Map<u32, Synth>,
) -> bool {
    forall|id: u32| #[trigger]
        synths.contains_key(id) ==> exists|i: int|
            0 <= i < colors.len() && (#[trigger] colors[i]).id == id
}

/// All the synthesizers are recreated exactly as they were left: what is
/// restored from the saved list, when the display list names every synth, are
/// the same ids, each with its display number, its name, its zones and
/// silences, and its settings.
pub proof fn session_restores_every_synth(
    colors: Seq<SynthUiEntry>,
    synths: Map<u32, Synth>,
    midi: MidiState,
    saved: Seq<SessionSynth>,
    restored: Map<u32, Synth>,
    id: u32,
)
    requires
        names_every_synth(colors, synths),
        saved.len() == known_entries(colors, synths).len(),
        forall|i: int|
            0 <= i < saved.len() ==> is_saved(
                #[trigger] saved[i],
                known_entries(colors, synths)[i],
                synths[known_entries(colors, synths)[i].id],
                midi,
            ),
        are_restored(restored, saved),
    ensures
        restored.contains_key(id) <==> synths.contains_key(id),
        restored.contains_key(id) ==> same_setup(restored[id], synths[id]),
{
    let known = known_entries(colors, synths);
    lemma_known_entries(colors, synths);
    lemma_last_entry(saved, id);
    let last = last_entry(saved, id);
    if synths.contains_key(id) {
        let i = choose|i: int| 0 <= i < colors.len() && (#[trigger] colors[i]).id == id;
        let k = choose|k: int| 0 <= k < known.len() && (#[trigger] known[k]) == colors[i];
        assert(saved[k].id == id);
        lemma_listed_entry(saved, k);
    }
    assert(restored.contains_key(id) <==> last >= 0);
    if last >= 0 {
        assert(is_saved(saved[last], known[last], synths[known[last].id], midi));
        assert(synths.contains_key(known[last].id));
    }
}

/// Every entry that asks for a sound on a channel asks for the one that was
/// known there when the synths were saved.
proof fn lemma_asked_sound(
    colors: Seq<SynthUiEntry>,
    synths: Map<u32, Synth>,
    midi: MidiState,
    saved: Seq<SessionSynth>,
    restored: Map<u32, Synth>,
    place: int,
    port: usize,
    channel: u8,
)
    requires
        saved.len() == known_entries(colors, synths).len(),
        forall|i: int|
            0 <= i < saved.len() ==> is_saved(
                #[trigger] saved[i],
                known_entries(colors, synths)[i],
                synths[known_entries(colors, synths)[i].id],
                midi,
            ),
        are_restored(restored, saved),
        0 <= place < saved.len(),
    ensures
        restored.contains_key(saved[place].id),
        restored[saved[place].id].midi_port == synths[saved[place].id].midi_port,
        restored[saved[place].id].channel == synths[saved[place].id].channel,
        saved[place].program == saved_sound(synths[saved[place].id], midi),
        asks_for(saved[place], restored, port, channel) ==> saved[place].program == midi.program(
            port,
            channel,
        ),
{
    let id = saved[place].id;
    lemma_listed_entry(saved, place);
    lemma_last_entry(saved, id);
    let last = last_entry(saved, id);
    assert(restored.contains_key(id));
    assert(is_saved(
        saved[last],
        known_entries(colors, synths)[last],
        synths[known_entries(colors, synths)[last].id],
        midi,
    ));
}

proof fn lemma_agreed_sound(
    entries: Seq<SessionSynth>,
    synths: Map<u32, Synth>,
    place: int,
    port: usize,
    channel: u8,
    sound: ProgramState,
)
    requires
        0 <= place < entries.len(),
        asks_for(entries[place], synths, port, channel),
        forall|i: int|
            0 <= i < entries.len() && asks_for(#[trigger] entries[i], synths, port, channel)
                ==> entries[i].program == Some(sound),
    ensures
        sound_for(entries, synths, port, channel) == Some(sound),
    decreases entries.len(),
{
    let shorter = entries.drop_last();
    if !asks_for(entries.last(), synths, port, channel) {
        assert forall|i: int|
            0 <= i < shorter.len() && asks_for(
                #[trigger] shorter[i],
                synths,
                port,
                channel,
            ) implies shorter[i].program == Some(sound) by {
            assert(shorter[i] == entries[i]);
        }
        assert(shorter[place] == entries[place]);
        lemma_agreed_sound(shorter, synths, place, port, channel, sound);
    }
}

/// The instruments are reconfigured to the same sounds: a program known on
/// the channel of a saved synth is known there again once the session has
/// been loaded.
pub proof fn session_restores_the_sounds(
    colors: Seq<SynthUiEntry>,
    synths: Map<u32, Synth>,
    midi: MidiState,
    saved: Seq<SessionSynth>,
    restored: Map<u32, Synth>,
    selections: Seq<Selection>,
    midi_before: MidiState,
    midi_after: MidiState,
    id: u32,
)
    requires
        synths.contains_key(id),
        exists|i: int| 0 <= i < colors.len() && (#[trigger] colors[i]).id == id,
        saved.len() == known_entries(colors, synths).len(),
        forall|i: int|
            0 <= i < saved.len() ==> is_saved(
                #[trigger] saved[i],
                known_entries(colors, synths)[i],
                synths[known_entries(colors, synths)[i].id],
                midi,
            ),
        are_restored(restored, saved),
        sounds_sent(selections, saved, restored, midi_before, midi_after),
    ensures
        saved_sound(synths[id], midi) is Some ==> midi_after.program(
            synths[id].midi_port,
            synths[id].channel,
        ) == saved_sound(synths[id], midi),
{
    let (port, channel) = (synths[id].midi_port, synths[id].channel);
    let known = known_entries(colors, synths);
    lemma_known_entries(colors, synths);
    let i = choose|i: int| 0 <= i < colors.len() && (#[trigger] colors[i]).id == id;
    let place = choose|k: int| 0 <= k < known.len() && (#[trigger] known[k]) == colors[i];
    assert(saved[place].id == id);
    if let Some(sound) = saved_sound(synths[id], midi) {
        assert forall|k: int|
            0 <= k < saved.len() && asks_for(
                #[trigger] saved[k],
                restored,
                port,
                channel,
            ) implies saved[k].program == Some(sound) by {
            lemma_asked_sound(colors, synths, midi, saved, restored, k, port, channel);
        }
        lemma_asked_sound(colors, synths, midi, saved, restored, place, port, channel);
        lemma_agreed_sound(saved, restored, place, port, channel, sound);
        assert(midi_after.program(port, channel) == Some(sound));
    }
}

proof fn lemma_highest(entries: Seq<SessionSynth>, id_bound: u32, number_bound: u32)
    requires
        id_bound > 0,
        number_bound > 0,
        forall|i: int|
            0 <= i < entries.len() ==> (#[trigger] entries[i]).id < id_bound && shown_number(
                entries[i],
            ) < number_bound,
    ensures
        highest_id(entries) < id_bound,
        highest_number(entries) < number_bound,
    decreases entries.len(),
{
    if entries.len() > 0 {
        let shorter = entries.drop_last();
        assert forall|i: int| 0 <= i < shorter.len() implies (#[trigger] shorter[i]).id < id_bound
            && shown_number(shorter[i]) < number_bound by {
            assert(shorter[i] == entries[i]);
        }
        lemma_highest(shorter, id_bound, number_bound);
    }
}

/// The numbers in a session that was saved leave room for the counters of a
/// restored one, so that it can always be handed to the loading functions.
pub proof fn saved_session_leaves_room(
    ui: SessionUi,
    images: ImageState,
    state: SynthState,
    midi: MidiState,
    file: SessionFile,
)
    requires
        state.well_formed(),
        is_session(Ok(file), ui, images, state, midi),
    ensures
        highest_id(file.synths@) < u32::MAX,
        highest_number(file.synths@) < u32::MAX,
{
    let known = known_entries(ui.synth_colors@, state.synths@);
    lemma_known_entries(ui.synth_colors@, state.synths@);
    assert forall|i: int| 0 <= i < file.synths@.len() implies (#[trigger] file.synths@[i]).id
        < u32::MAX && shown_number(file.synths@[i]) < u32::MAX by {
        assert(state.synths@.contains_key(known[i].id));
    }
    lemma_highest(file.synths@, u32::MAX, u32::MAX);
}

/// True when a synth is there after loading if it was there when saving, set
/// up as it was left and with the sound that was known on its channel.
pub open spec fn came_back(
    id: u32,
    saved: SynthState,
    midi_saved: MidiState,
    loaded: SynthState,
    midi_loaded: MidiState,
) -> bool {
    &&& loaded.synths@.contains_key(id) <==> saved.synths@.contains_key(id)
    &&& saved.synths@.contains_key(id) ==> {
        let synth = saved.synths@[id];
        let sound = saved_sound(synth, midi_saved);
        &&& same_setup(loaded.synths@[id], synth)
        &&& sound is Some ==> midi_loaded.program(synth.midi_port, synth.channel) == sound
    }
}

/// A session that was saved is loaded again, whatever the state it is loaded
/// into: it is not refused, its settings come back, its image shows the
/// pixels of the original, and every synth, when the display list names them
/// all, is set up as it was left and has its sound. The buffer of the
/// original must not be longer than what a file is decoded into.
pub proof fn saved_session_loads(
    ui: SessionUi,
    images: ImageState,
    state: SynthState,
    midi: MidiState,
    file: SessionFile,
    result: Result<Restoration, AppError>,
    images_before: ImageState,
    images_after: ImageState,
    synths_before: SynthState,
    synths_after: SynthState,
    midi_before: MidiState,
    midi_after: MidiState,
)
    requires
        images.original matches Some(original) && raster::buffer_length(original)
            <= raster::LONGEST_DECODED_BUFFER,
        is_session(Ok(file), ui, images, state, midi),
        is_opened(
            result,
            file,
            images_before,
            images_after,
            synths_before,
            synths_after,
            midi_before,
            midi_after,
        ),
    ensures
        result matches Ok(restoration) && restoration.session.bpm == ui.bpm && are_settings_of(
            restoration.session.image_settings,
            ui,
        ) && restoration.session.image_base64@ == file.image.data@,
        images_after.original matches Some(restored) && raster::same_picture(
            restored,
            images.original->0,
        ),
        images_after.processed == images_after.original,
        names_every_synth(ui.synth_colors@, state.synths@) ==> forall|id: u32|
            #![trigger synths_after.synths@.contains_key(id)]
            #![trigger state.synths@.contains_key(id)]
            came_back(id, state, midi, synths_after, midi_after),
{
    assert(result is Ok);
    let restoration = result->Ok_0;
    if names_every_synth(ui.synth_colors@, state.synths@) {
        assert forall|id: u32|
            #![trigger synths_after.synths@.contains_key(id)]
            #![trigger state.synths@.contains_key(id)]
            came_back(id, state, midi, synths_after, midi_after) by {
            session_restores_every_synth(
                ui.synth_colors@,
                state.synths@,
                midi,
                file.synths@,
                synths_after.synths@,
                id,
            );
            if state.synths@.contains_key(id) {
                session_restores_the_sounds(
                    ui.synth_colors@,
                    state.synths@,
                    midi,
                    file.synths@,
                    synths_after.synths@,
                    restoration.selections@,
                    midi_before,
                    midi_after,
                    id,
                );
            }
        }
    }
}

} // verus!
