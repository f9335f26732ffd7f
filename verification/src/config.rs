//! The global configuration and the template of new synthesizers.

use vstd::prelude::*;

use crate::clock::{self, ClockMode, MetronomeState};
use crate::number::{Double, ONE_BITS, ZERO_BITS};
use crate::pitch::RangeBounds;
use crate::state::{
    copy_lengths, copy_text, ChannelVoice, NoteLength, ReadingDirection, Scale, Synth, SynthMode,
};

verus! {

/// The settings of a synthesizer, apart from its identity, its zones and its
/// playback state: what a new synth starts from, and what a session keeps of
/// each synth.
pub struct SynthTemplate {
    pub tempo_ratio: Double,
    pub channel: u8,
    pub midi_port: usize,
    pub mode: SynthMode,
    pub loop_enabled: bool,
    pub back_and_forth: bool,
    pub reading_direction: ReadingDirection,
    pub sorted_reading: bool,
    pub brightness_min: u8,
    pub brightness_max: u8,
    pub velocity_min: u8,
    pub velocity_max: u8,
    pub velocity_relative: bool,
    pub volume: u8,
    pub hue_shift: u16,
    pub channel_enabled: [bool; 3],
    pub note_lengths: Vec<NoteLength>,
    pub note_length_reversed: bool,
    pub note_sustain: bool,
    pub mono_note_range: [bool; 3],
    pub voice_note_ranges: [[bool; 3]; 3],
    pub scale: Scale,
    pub scale_root: u8,
}

impl SynthTemplate {
    /// True when the template holds the settings of a synth.
    pub open spec fn describes(self, synth: Synth) -> bool {
        &&& self.tempo_ratio == synth.tempo_ratio
        &&& self.channel == synth.channel
        &&& self.midi_port == synth.midi_port
        &&& self.mode == synth.mode
        &&& self.loop_enabled == synth.loop_enabled
        &&& self.back_and_forth == synth.back_and_forth
        &&& self.reading_direction == synth.reading_direction
        &&& self.sorted_reading == synth.sorted_reading
        &&& self.brightness_min == synth.brightness_min
        &&& self.brightness_max == synth.brightness_max
        &&& self.velocity_min == synth.velocity_min
        &&& self.velocity_max == synth.velocity_max
        &&& self.velocity_relative == synth.velocity_relative
        &&& self.volume == synth.volume
        &&& self.hue_shift == synth.hue_shift
        &&& self.channel_enabled == synth.channel_enabled
        &&& self.note_length_reversed == synth.note_length_reversed
        &&& self.note_sustain == synth.note_sustain
        &&& self.mono_note_range == synth.mono_note_range
        &&& self.voice_note_ranges == synth.voice_note_ranges
        &&& self.scale == synth.scale
        &&& self.scale_root == synth.scale_root
        &&& self.note_lengths@ == synth.note_lengths@
    }

    /// True when two templates hold the same settings.
    pub open spec fn same_as(self, other: SynthTemplate) -> bool {
        self == (SynthTemplate { note_lengths: self.note_lengths, ..other })
            && self.note_lengths@ == other.note_lengths@
    }

    /// The settings of a synth.
    pub fn from_synth(synth: &Synth) -> (template: Self)
        ensures
            template.describes(*synth),
    {
        SynthTemplate {
            tempo_ratio: synth.tempo_ratio,
            channel: synth.channel,
            midi_port: synth.midi_port,
            mode: synth.mode,
            loop_enabled: synth.loop_enabled,
            back_and_forth: synth.back_and_forth,
            reading_direction: synth.reading_direction,
            sorted_reading: synth.sorted_reading,
            brightness_min: synth.brightness_min,
            brightness_max: synth.brightness_max,
            velocity_min: synth.velocity_min,
            velocity_max: synth.velocity_max,
            velocity_relative: synth.velocity_relative,
            volume: synth.volume,
            hue_shift: synth.hue_shift,
            channel_enabled: synth.channel_enabled,
            note_lengths: copy_lengths(&synth.note_lengths),
            note_length_reversed: synth.note_length_reversed,
            note_sustain: synth.note_sustain,
            mono_note_range: synth.mono_note_range,
            voice_note_ranges: synth.voice_note_ranges,
            scale: synth.scale,
            scale_root: synth.scale_root,
        }
    }

    /// A synth with these settings: paused at the beginning, without zones
    /// and without a name.
    pub fn to_synth(&self, id: u32) -> (synth: Synth)
        ensures
            self.describes(synth),
            fresh(synth, id),
    {
        let mut synth = Synth::new(id);
        synth.tempo_ratio = self.tempo_ratio;
        synth.channel = self.channel;
        synth.midi_port = self.midi_port;
        synth.mode = self.mode;
        synth.loop_enabled = self.loop_enabled;
        synth.back_and_forth = self.back_and_forth;
        synth.reading_direction = self.reading_direction;
        synth.sorted_reading = self.sorted_reading;
        synth.brightness_min = self.brightness_min;
        synth.brightness_max = self.brightness_max;
        synth.velocity_min = self.velocity_min;
        synth.velocity_max = self.velocity_max;
        synth.velocity_relative = self.velocity_relative;
        synth.volume = self.volume;
        synth.hue_shift = self.hue_shift;
        synth.channel_enabled = self.channel_enabled;
        synth.note_lengths = copy_lengths(&self.note_lengths);
        synth.note_length_reversed = self.note_length_reversed;
        synth.note_sustain = self.note_sustain;
        synth.mono_note_range = self.mono_note_range;
        synth.voice_note_ranges = self.voice_note_ranges;
        synth.scale = self.scale;
        synth.scale_root = self.scale_root;
        synth
    }
}

/// True of the playback state of a synth that has just been made under an id:
/// paused at the beginning, and silent.
pub open spec fn fresh_playback(synth: Synth, id: u32) -> bool {
    &&& synth.id == id
    &&& !synth.playing
    &&& synth.cursor == 0
    &&& synth.note == 69
    &&& synth.play_forward
    &&& !synth.end_pending
    &&& synth.tempo_accumulator.bits == ZERO_BITS
    &&& synth.active_note
    &&& !synth.note_is_on
    &&& synth.velocity == 100
    &&& synth.poly_voices@ == Seq::new(3, |i: int| ChannelVoice { note: 0, note_is_on: false })
    &&& synth.note_generation == 0
}

/// True of a synth that has just been made: without zones and without a name
/// of its own.
pub open spec fn fresh(synth: Synth, id: u32) -> bool {
    &&& fresh_playback(synth, id)
    &&& synth.display_number == id
    &&& synth.name is None
    &&& synth.zones@.len() == 0
    &&& synth.mute_zones@.len() == 0
}

/// True of the settings of a synth made without a template.
pub open spec fn is_default_template(template: SynthTemplate) -> bool {
    &&& template.tempo_ratio.bits == ONE_BITS
    &&& template.channel == 0
    &&& template.midi_port == 0
    &&& template.mode is Monophonic
    &&& template.loop_enabled
    &&& !template.back_and_forth
    &&& template.reading_direction is LeftToRight
    &&& !template.sorted_reading
    &&& template.brightness_min == 0
    &&& template.brightness_max == 127
    &&& template.velocity_min == 0
    &&& template.velocity_max == 127
    &&& template.velocity_relative
    &&& template.volume == 100
    &&& template.hue_shift == 0
    &&& template.channel_enabled@ == seq![true, true, true]
    &&& template.note_lengths@ == seq![NoteLength::Quarter]
    &&& !template.note_length_reversed
    &&& !template.note_sustain
    &&& template.mono_note_range@ == seq![false, false, false]
    &&& forall|i: int|
        0 <= i < 3 ==> (#[trigger] template.voice_note_ranges@[i])@ == seq![false, false, false]
    &&& template.scale is Chromatic
    &&& template.scale_root == 0
}

impl Default for SynthTemplate {
    fn default() -> (template: Self)
        ensures
            is_default_template(template),
    {
        let synth = Synth::new(0);
        SynthTemplate::from_synth(&synth)
    }
}

impl Clone for SynthTemplate {
    fn clone(&self) -> (copy: Self)
        ensures
            copy.same_as(*self),
    {
        SynthTemplate {
            tempo_ratio: self.tempo_ratio,
            channel: self.channel,
            midi_port: self.midi_port,
            mode: self.mode,
            loop_enabled: self.loop_enabled,
            back_and_forth: self.back_and_forth,
            reading_direction: self.reading_direction,
            sorted_reading: self.sorted_reading,
            brightness_min: self.brightness_min,
            brightness_max: self.brightness_max,
            velocity_min: self.velocity_min,
            velocity_max: self.velocity_max,
            velocity_relative: self.velocity_relative,
            volume: self.volume,
            hue_shift: self.hue_shift,
            channel_enabled: self.channel_enabled,
            note_lengths: copy_lengths(&self.note_lengths),
            note_length_reversed: self.note_length_reversed,
            note_sustain: self.note_sustain,
            mono_note_range: self.mono_note_range,
            voice_note_ranges: self.voice_note_ranges,
            scale: self.scale,
            scale_root: self.scale_root,
        }
    }
}

/// A synth's full parameter set survives the way through a template: what is
/// made of the template of a synth has the settings of that synth.
pub proof fn settings_survive_the_template(
    synth: Synth,
    template: SynthTemplate,
    kept: SynthTemplate,
    restored: Synth,
)
    requires
        template.describes(synth),
        kept.same_as(template),
        kept.describes(restored),
    ensures
        restored.note_lengths@ == synth.note_lengths@,
        restored == (Synth {
            id: restored.id,
            display_number: restored.display_number,
            name: restored.name,
            playing: restored.playing,
            cursor: restored.cursor,
            note: restored.note,
            zones: restored.zones,
            mute_zones: restored.mute_zones,
            play_forward: restored.play_forward,
            end_pending: restored.end_pending,
            tempo_accumulator: restored.tempo_accumulator,
            active_note: restored.active_note,
            note_is_on: restored.note_is_on,
            velocity: restored.velocity,
            poly_voices: restored.poly_voices,
            note_lengths: restored.note_lengths,
            note_generation: restored.note_generation,
            ..synth
        }),
{
}

/// The bass, medium and treble ranges, unless configured otherwise.
pub open spec fn default_bounds() -> RangeBounds {
    [(21, 47), (48, 71), (72, 108)]
}

/// The app-wide options.
pub struct AppConfig {
    /// Longest side allowed for imported images; larger originals are
    /// downscaled on import (0 = unlimited).
    pub max_image_size: u32,
    /// Metronome tempo used at startup.
    pub default_bpm: u32,
    /// The metronome's clock source.
    pub clock_mode: ClockMode,
    /// Input port name the clock sync follows in `Input` mode.
    pub clock_source: Option<String>,
    /// Template applied to every newly created synthesizer.
    pub default_synth: SynthTemplate,
    /// The (low, high) bounds of the bass, medium and treble note ranges.
    pub note_range_bounds: RangeBounds,
}

impl Default for AppConfig {
    fn default() -> (config: Self)
        ensures
            config.max_image_size == 0,
            config.default_bpm == 120,
            config.clock_mode is Auto,
            config.clock_source is None,
            is_default_template(config.default_synth),
            config.note_range_bounds == default_bounds(),
    {
        AppConfig {
            max_image_size: 0,
            default_bpm: 120,
            clock_mode: ClockMode::Auto,
            clock_source: None,
            default_synth: SynthTemplate::default(),
            note_range_bounds: [(21, 47), (48, 71), (72, 108)],
        }
    }
}

/// Sets the metronome's clock mode (and its input source in `Input` mode):
/// applies it live, and keeps it in the configuration so it is restored on
/// the next launch. `Input` without a source falls back to `Auto`.
pub fn set_clock_mode(
    metronome: &mut MetronomeState,
    config: &mut AppConfig,
    mode: ClockMode,
    source: Option<String>,
)
    ensures
        ({
            let (mode, source) = clock::sanitized(mode, clock::text_view(source));
            &&& final(metronome).mode_view() == mode
            &&& final(metronome).source_view() == source
            &&& *final(metronome) == (MetronomeState {
                mode: final(metronome).mode,
                source: final(metronome).source,
                ..*old(metronome)
            })
            &&& final(config).clock_mode == mode
            &&& clock::text_view(final(config).clock_source) == source
            &&& *final(config) == (AppConfig {
                clock_mode: mode,
                clock_source: final(config).clock_source,
                ..*old(config)
            })
        }),
{
    let (mode, source) = clock::sanitize_clock_mode(mode, source);
    metronome.apply_clock_mode(mode, copy_text(&source));
    config.clock_mode = mode;
    config.clock_source = source;
}

} // verus!
