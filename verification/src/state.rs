//! The state of the synthesizers and the vocabulary of their settings.

use std::collections::HashMap;

use vstd::prelude::*;

use crate::number::{Double, ONE_BITS, ZERO_BITS};

verus! {

/// A rectangle of grid cells: columns `x..x + w`, rows `y..y + h`.
#[derive(Clone, Copy, Debug, PartialEq, Eq, Structural)]
pub struct PixelZone {
    pub x: u32,
    pub y: u32,
    pub w: u32,
    pub h: u32,
}

/// Direction in which the playhead travels over the pixel sequence. The
/// sequence is built accordingly: line by line for the horizontal
/// directions, column by column for the vertical ones, and a spiral
/// (clockwise or counterclockwise, from the zone's top-left corner toward
/// its center) for the two spiral directions.
#[derive(Clone, Copy, Debug, PartialEq, Eq, Structural)]
pub enum ReadingDirection {
    LeftToRight,
    RightToLeft,
    TopToBottom,
    BottomToTop,
    Spiral,
    SpiralReverse,
}

/// Mode used to translate pixels into notes.
#[derive(Clone, Copy, Debug, PartialEq, Eq, Structural)]
pub enum SynthMode {
    Monophonic,
    Polyphonic,
}

/// Musical note length a pixel can be played as, in the synth's own beats:
/// Whole = 4 beats, Half = 2, Quarter = 1, Eighth = 0.5, Sixteenth = 0.25.
#[derive(Clone, Copy, Debug, PartialEq, Eq, Structural)]
pub enum NoteLength {
    Whole,
    Half,
    Quarter,
    Eighth,
    Sixteenth,
}

/// Musical scale the derived notes are quantized to: each raw note is
/// snapped to the nearest degree of the scale that stays within the enabled
/// note ranges. Chromatic (the default) means no quantization at all —
/// every semitone is allowed.
#[derive(Clone, Copy, Debug, PartialEq, Eq, Structural)]
pub enum Scale {
    Chromatic,
    Major,
    NaturalMinor,
    HarmonicMinor,
    MelodicMinor,
    MajorPentatonic,
    MinorPentatonic,
    Blues,
    Dorian,
    Phrygian,
    Lydian,
    Mixolydian,
    Locrian,
    WholeTone,
}

impl Default for Scale {
    fn default() -> (scale: Self)
        ensures
            scale == Scale::Chromatic,
    {
        Scale::Chromatic
    }
}

/// Sound currently selected on a MIDI channel, as heard on the MIDI input
/// or sent by the app itself. Banks are optional: we only know them when a
/// Bank Select has actually been received (a device's power-on bank can't
/// be queried over MIDI).
#[derive(Clone, Copy, Debug, PartialEq, Eq, Structural)]
pub struct ProgramState {
    pub bank_msb: Option<u8>,
    pub bank_lsb: Option<u8>,
    pub program: Option<u8>,
}

impl Default for ProgramState {
    fn default() -> (state: Self)
        ensures
            state == (ProgramState { bank_msb: None, bank_lsb: None, program: None }),
    {
        ProgramState { bank_msb: None, bank_lsb: None, program: None }
    }
}

impl ProgramState {
    /// True once a Program Change has been learned or sent (banks alone
    /// don't identify a sound).
    pub fn is_known(&self) -> (known: bool)
        ensures
            known == self.program is Some,
    {
        self.program.is_some()
    }
}

/// State of an individual voice in polyphonic mode (one per R/G/B channel).
#[derive(Clone, Copy, Debug, PartialEq, Eq, Structural)]
pub struct ChannelVoice {
    pub note: u8,
    pub note_is_on: bool,
}

impl ChannelVoice {
    pub fn new() -> (voice: Self)
        ensures
            voice == (ChannelVoice { note: 0, note_is_on: false }),
    {
        ChannelVoice { note: 0, note_is_on: false }
    }
}

/// State of an individual synthesizer.
pub struct Synth {
    pub id: u32,
    /// Number shown in the default title ("Synth #n"). Attributed once at
    /// creation from a dedicated counter, never changed nor reused: unlike
    /// the id (renumbered with the stack's display order), it is stable for
    /// the synth's whole lifetime, so the user never sees a synth's default
    /// name change under a reorder or a removal.
    pub display_number: u32,
    /// Custom display name; None = default "Synth #n".
    pub name: Option<String>,
    pub playing: bool,
    /// Index into the zone pixel sequence (0..sequence length).
    pub cursor: usize,
    /// Current MIDI note.
    pub note: u8,
    /// MIDI channel 0-15.
    pub channel: u8,
    /// MIDI output port index.
    pub midi_port: usize,
    /// Zones to play (empty = nothing selected).
    pub zones: Vec<PixelZone>,
    /// Manually silenced pixels (rests): the playhead still travels over
    /// them but no note is sounded (empty = none).
    pub mute_zones: Vec<PixelZone>,
    /// Loop playback or stop at end of range.
    pub loop_enabled: bool,
    /// Bounce back and forth between the sequence bounds (mutually
    /// exclusive with the loop).
    pub back_and_forth: bool,
    /// Order in which the sequence is built.
    pub reading_direction: ReadingDirection,
    /// Read the pixels by their absolute position in the image instead of
    /// zone by zone.
    pub sorted_reading: bool,
    /// Current travel direction through the sequence (flipped by the
    /// back-and-forth mode).
    pub play_forward: bool,
    /// End of a non-looping sequence reached: stop on the next tick (gives
    /// the final note a full step duration).
    pub end_pending: bool,
    /// Playback speed relative to the metronome (1.0 = metronome tempo).
    pub tempo_ratio: Double,
    /// Fractional-tick accumulator: a synth with tempo < 1.0 only advances
    /// once enough metronome ticks have accumulated.
    pub tempo_accumulator: Double,
    /// Minimum brightness threshold (0–127).
    pub brightness_min: u8,
    /// Maximum brightness threshold (0–127).
    pub brightness_max: u8,
    /// False if the current pixel is out of range (muted).
    pub active_note: bool,
    /// True if a MIDI note is currently sounding (sustain).
    pub note_is_on: bool,
    /// Current MIDI velocity, derived from the pixel's saturation (1–127).
    pub velocity: u8,
    /// Floor of the velocity range (0–126).
    pub velocity_min: u8,
    /// Ceiling of the velocity range (1–127).
    pub velocity_max: u8,
    /// True: saturation rescaled onto [min, max]; false: native 1–127
    /// mapping, clamped to [min, max].
    pub velocity_relative: bool,
    /// Channel volume in percent (0–100), sent as MIDI CC 7.
    pub volume: u8,
    pub mode: SynthMode,
    /// Hue shift in degrees (0–360), monophonic mode.
    pub hue_shift: u16,
    /// R, G, B enabled/disabled, polyphonic mode.
    pub channel_enabled: [bool; 3],
    /// Independent MIDI state per R, G, B channel.
    pub poly_voices: [ChannelVoice; 3],
    /// Enabled note lengths; empty = all quarter notes.
    pub note_lengths: Vec<NoteLength>,
    /// Flip the brightness-to-length mapping direction.
    pub note_length_reversed: bool,
    /// True: notes hold their full length; false: pizzicato — the Note Off
    /// is sent right after the Note On.
    pub note_sustain: bool,
    /// Bumped on each note articulation, so stale delayed Note Offs can
    /// cancel themselves.
    pub note_generation: u32,
    /// Bass, medium, treble enabled for the monophonic note (all off = full
    /// 0–127).
    pub mono_note_range: [bool; 3],
    /// Same, per R/G/B voice, polyphonic mode.
    pub voice_note_ranges: [[bool; 3]; 3],
    /// Scale the derived notes are snapped to (Chromatic = none).
    pub scale: Scale,
    /// Scale tonic as a pitch class 0–11 (0 = C).
    pub scale_root: u8,
}

impl Synth {
    pub fn new(id: u32) -> (synth: Self)
        ensures
            synth.id == id,
            // Fallback: callers that build a synth without an explicit
            // number (template, session restore) set it right after
            synth.display_number == id,
            synth.name is None,
            !synth.playing,
            synth.cursor == 0,
            synth.note == 69,
            synth.channel == 0,
            synth.midi_port == 0,
            synth.zones@.len() == 0,
            synth.mute_zones@.len() == 0,
            synth.loop_enabled,
            !synth.back_and_forth,
            synth.reading_direction is LeftToRight,
            !synth.sorted_reading,
            synth.play_forward,
            !synth.end_pending,
            synth.tempo_ratio.bits == ONE_BITS,
            synth.tempo_accumulator.bits == ZERO_BITS,
            synth.brightness_min == 0,
            synth.brightness_max == 127,
            synth.active_note,
            !synth.note_is_on,
            synth.velocity == 100,
            synth.velocity_min == 0,
            synth.velocity_max == 127,
            synth.velocity_relative,
            synth.volume == 100,
            synth.mode is Monophonic,
            synth.hue_shift == 0,
            synth.channel_enabled@ == seq![true, true, true],
            synth.poly_voices@ == Seq::new(3, |i: int| ChannelVoice { note: 0, note_is_on: false }),
            synth.note_lengths@ == seq![NoteLength::Quarter],
            !synth.note_length_reversed,
            !synth.note_sustain,
            synth.note_generation == 0,
            synth.mono_note_range@ == seq![false, false, false],
            forall|i: int|
                0 <= i < 3 ==> (#[trigger] synth.voice_note_ranges@[i])@ == seq![
                    false,
                    false,
                    false,
                ],
            synth.scale is Chromatic,
            synth.scale_root == 0,
    {
        let mut note_lengths: Vec<NoteLength> = Vec::new();
        note_lengths.push(NoteLength::Quarter);
        Synth {
            id,
            display_number: id,
            name: None,
            playing: false,
            cursor: 0,
            note: 69,  // A4
            channel: 0,
            midi_port: 0,
            zones: Vec::new(),
            mute_zones: Vec::new(),
            loop_enabled: true,
            back_and_forth: false,
            reading_direction: ReadingDirection::LeftToRight,
            sorted_reading: false,
            play_forward: true,
            end_pending: false,
            tempo_ratio: Double { bits: ONE_BITS },
            tempo_accumulator: Double { bits: ZERO_BITS },
            brightness_min: 0,
            brightness_max: 127,
            active_note: true,
            note_is_on: false,
            velocity: 100,
            velocity_min: 0,
            velocity_max: 127,
            velocity_relative: true,
            volume: 100,
            mode: SynthMode::Monophonic,
            hue_shift: 0,
            channel_enabled: [true, true, true],
            poly_voices: [ChannelVoice::new(), ChannelVoice::new(), ChannelVoice::new()],
            note_lengths,
            note_length_reversed: false,
            note_sustain: false,
            note_generation: 0,
            mono_note_range: [false, false, false],
            voice_note_ranges: [
                [false, false, false],
                [false, false, false],
                [false, false, false],
            ],
            scale: Scale::Chromatic,
            scale_root: 0,
        }
    }

    /// True when the two synths hold the same values throughout.
    pub open spec fn same_as(self, other: Synth) -> bool {
        &&& self == (Synth {
            name: self.name,
            zones: self.zones,
            mute_zones: self.mute_zones,
            note_lengths: self.note_lengths,
            ..other
        })
        &&& same_text(self.name, other.name)
        &&& self.zones@ == other.zones@
        &&& self.mute_zones@ == other.mute_zones@
        &&& self.note_lengths@ == other.note_lengths@
    }
}

/// True when two optional texts are both absent, or hold the same characters.
pub open spec fn same_text(a: Option<String>, b: Option<String>) -> bool {
    match (a, b) {
        (Some(a), Some(b)) => a@ == b@,
        (None, None) => true,
        _ => false,
    }
}

/// A copy of an optional text.
pub fn copy_text(text: &Option<String>) -> (copy: Option<String>)
    ensures
        copy == *text,
{
    match text {
        Some(text) => Some(text.clone()),
        None => None,
    }
}

/// A copy of a list of zones.
pub fn copy_zones(zones: &Vec<PixelZone>) -> (copy: Vec<PixelZone>)
    ensures
        copy@ == zones@,
{
    let copy = zones.clone();
    assert(copy@ =~= zones@);
    copy
}

/// A copy of a list of note lengths.
pub fn copy_lengths(lengths: &Vec<NoteLength>) -> (copy: Vec<NoteLength>)
    ensures
        copy@ == lengths@,
{
    let copy = lengths.clone();
    assert(copy@ =~= lengths@);
    copy
}

impl Clone for Synth {
    fn clone(&self) -> (copy: Self)
        ensures
            copy.same_as(*self),
    {
        Synth {
            id: self.id,
            display_number: self.display_number,
            name: copy_text(&self.name),
            playing: self.playing,
            cursor: self.cursor,
            note: self.note,
            channel: self.channel,
            midi_port: self.midi_port,
            zones: copy_zones(&self.zones),
            mute_zones: copy_zones(&self.mute_zones),
            loop_enabled: self.loop_enabled,
            back_and_forth: self.back_and_forth,
            reading_direction: self.reading_direction,
            sorted_reading: self.sorted_reading,
            play_forward: self.play_forward,
            end_pending: self.end_pending,
            tempo_ratio: self.tempo_ratio,
            tempo_accumulator: self.tempo_accumulator,
            brightness_min: self.brightness_min,
            brightness_max: self.brightness_max,
            active_note: self.active_note,
            note_is_on: self.note_is_on,
            velocity: self.velocity,
            velocity_min: self.velocity_min,
            velocity_max: self.velocity_max,
            velocity_relative: self.velocity_relative,
            volume: self.volume,
            mode: self.mode,
            hue_shift: self.hue_shift,
            channel_enabled: self.channel_enabled,
            poly_voices: self.poly_voices,
            note_lengths: copy_lengths(&self.note_lengths),
            note_length_reversed: self.note_length_reversed,
            note_sustain: self.note_sustain,
            note_generation: self.note_generation,
            mono_note_range: self.mono_note_range,
            voice_note_ranges: self.voice_note_ranges,
            scale: self.scale,
            scale_root: self.scale_root,
        }
    }
}

/// Registry of all synthesizers created by the user.
pub struct SynthState {
    pub synths: HashMap<u32, Synth>,
    pub next_id: u32,
    /// Source of the display numbers (see `Synth::display_number`):
    /// monotonic, never decremented — a removed synth's number is
    /// permanently retired, so names never shift or get reused.
    pub next_display_number: u32,
}

impl SynthState {
    /// Every synth is filed under its own id; the counters are ahead of all
    /// the ids and display numbers in use.
    pub open spec fn well_formed(self) -> bool {
        forall|id: u32| #[trigger]
            self.synths@.contains_key(id) ==> {
                &&& self.synths@[id].id == id
                &&& id < self.next_id
                &&& self.synths@[id].display_number < self.next_display_number
            }
    }
}

impl Default for SynthState {
    fn default() -> (state: Self)
        ensures
            state.synths@ == Map::<u32, Synth>::empty(),
            state.next_id == 1,
            state.next_display_number == 1,
            state.well_formed(),
    {
        SynthState { synths: HashMap::new(), next_id: 1, next_display_number: 1 }
    }
}

} // verus!
