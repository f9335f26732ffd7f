//! One step of a synthesizer: the pixel under the playhead becomes notes,
//! and the playhead moves on.

use image::DynamicImage;
use vstd::prelude::*;

use crate::number::{Double, ZERO_BITS};
use crate::pitch::{self, RangeBounds};
use crate::raster;
use crate::rhythm;
use crate::sequence::{self, build_pixel_sequence, pixel_in_zones};
use crate::sequence_laws;
use crate::state::{ChannelVoice, NoteLength, Synth, SynthMode};

verus! {

/// A note message for a MIDI output port.
#[derive(Clone, Copy, Debug, PartialEq, Eq, Structural)]
pub enum NoteMessage {
    On { port: usize, channel: u8, note: u8, velocity: u8 },
    Off { port: usize, channel: u8, note: u8 },
}

/// The voice once it is silent.
pub open spec fn quiet(voice: ChannelVoice) -> ChannelVoice {
    ChannelVoice { note: voice.note, note_is_on: false }
}

/// The synth once none of its notes sounds.
pub open spec fn silenced(synth: Synth) -> Synth {
    Synth {
        note_is_on: false,
        poly_voices: [
            quiet(synth.poly_voices@[0]),
            quiet(synth.poly_voices@[1]),
            quiet(synth.poly_voices@[2]),
        ],
        ..synth
    }
}

/// The Note Off of a note, if it sounds.
pub open spec fn release(port: usize, channel: u8, note: u8, note_is_on: bool) -> Seq<NoteMessage> {
    if note_is_on {
        seq![NoteMessage::Off { port, channel, note }]
    } else {
        Seq::empty()
    }
}

/// The Note Offs of everything a synth sounds: its single note, then its
/// voices.
pub open spec fn releases(synth: Synth) -> Seq<NoteMessage> {
    release(synth.midi_port, synth.channel, synth.note, synth.note_is_on) + release(
        synth.midi_port,
        synth.channel,
        synth.poly_voices@[0].note,
        synth.poly_voices@[0].note_is_on,
    ) + release(
        synth.midi_port,
        synth.channel,
        synth.poly_voices@[1].note,
        synth.poly_voices@[1].note_is_on,
    ) + release(
        synth.midi_port,
        synth.channel,
        synth.poly_voices@[2].note,
        synth.poly_voices@[2].note_is_on,
    )
}

/// Releases one note, if it sounds.
fn release_note(
    messages: &mut Vec<NoteMessage>,
    port: usize,
    channel: u8,
    note: u8,
    note_is_on: bool,
)
    ensures
        final(messages)@ == old(messages)@ + release(port, channel, note, note_is_on),
{
    if note_is_on {
        messages.push(NoteMessage::Off { port, channel, note });
    }
    assert(messages@ =~= old(messages)@ + release(port, channel, note, note_is_on));
}

/// Adds the Note Offs of everything a synth sounds.
pub fn push_releases(synth: &Synth, messages: &mut Vec<NoteMessage>)
    ensures
        final(messages)@ == old(messages)@ + releases(*synth),
{
    let port: usize = synth.midi_port;
    let channel: u8 = synth.channel;
    let first: ChannelVoice = synth.poly_voices[0];
    let second: ChannelVoice = synth.poly_voices[1];
    let third: ChannelVoice = synth.poly_voices[2];
    release_note(messages, port, channel, synth.note, synth.note_is_on);
    release_note(messages, port, channel, first.note, first.note_is_on);
    release_note(messages, port, channel, second.note, second.note_is_on);
    release_note(messages, port, channel, third.note, third.note_is_on);
    proof {
        let mono = release(port, channel, synth.note, synth.note_is_on);
        let a = release(port, channel, first.note, first.note_is_on);
        let b = release(port, channel, second.note, second.note_is_on);
        let c = release(port, channel, third.note, third.note_is_on);
        lemma_regroup(old(messages)@, mono, a, b);
        lemma_regroup(old(messages)@, mono + a + b, c, Seq::empty());
    }
}

/// Releases every note a synth sounds, so that none stays stuck.
pub fn release_all(synth: &mut Synth, messages: &mut Vec<NoteMessage>)
    ensures
        *final(synth) == silenced(*old(synth)),
        final(messages)@ == old(messages)@ + releases(*old(synth)),
{
    push_releases(synth, messages);
    silence(synth);
}

proof fn lemma_regroup(
    all: Seq<NoteMessage>,
    first: Seq<NoteMessage>,
    second: Seq<NoteMessage>,
    third: Seq<NoteMessage>,
)
    ensures
        all + first + second + third == all + (first + second + third),
{
    assert(all + first + second + third =~= all + (first + second + third));
}

/// Marks every note of a synth as silent.
fn silence(synth: &mut Synth)
    ensures
        *final(synth) == silenced(*old(synth)),
{
    let first: u8 = synth.poly_voices[0].note;
    let second: u8 = synth.poly_voices[1].note;
    let third: u8 = synth.poly_voices[2].note;
    synth.note_is_on = false;
    synth.poly_voices =
    [
        ChannelVoice { note: first, note_is_on: false },
        ChannelVoice { note: second, note_is_on: false },
        ChannelVoice { note: third, note_is_on: false },
    ];
}

/// True when a note is struck: it is to sound, and either does not yet or
/// has to be articulated anew.
pub open spec fn struck(
    was: ChannelVoice,
    note: u8,
    audible: bool,
    retrigger: bool,
) -> bool {
    audible && (!was.note_is_on || note != was.note || retrigger)
}

/// The messages that lead from one note to the next. MIDI is only
/// (re)triggered if the note actually changes or if its audible status
/// changes; otherwise the current note keeps sounding (legato).
pub open spec fn articulation(
    port: usize,
    channel: u8,
    was: ChannelVoice,
    note: u8,
    velocity: u8,
    audible: bool,
    retrigger: bool,
) -> Seq<NoteMessage> {
    (if was.note_is_on && (note != was.note || retrigger || !audible) {
        seq![NoteMessage::Off { port, channel, note: was.note }]
    } else {
        Seq::empty()
    }) + (if struck(was, note, audible, retrigger) {
        seq![NoteMessage::On { port, channel, note, velocity }]
    } else {
        Seq::empty()
    })
}

/// Leads one voice from its note to the next, and tells whether the note was
/// struck.
fn articulate(
    messages: &mut Vec<NoteMessage>,
    port: usize,
    channel: u8,
    was: ChannelVoice,
    note: u8,
    velocity: u8,
    audible: bool,
    retrigger: bool,
) -> (on: bool)
    ensures
        on == struck(was, note, audible, retrigger),
        final(messages)@ == old(messages)@ + articulation(
            port,
            channel,
            was,
            note,
            velocity,
            audible,
            retrigger,
        ),
{
    let note_changed: bool = note != was.note || retrigger;
    let needs_off: bool = was.note_is_on && (note_changed || !audible);
    let needs_on: bool = audible && (!was.note_is_on || note_changed);
    if needs_off {
        messages.push(NoteMessage::Off { port, channel, note: was.note });
    }
    if needs_on {
        messages.push(NoteMessage::On { port, channel, note, velocity });
    }
    assert(messages@ =~= old(messages)@ + articulation(
        port,
        channel,
        was,
        note,
        velocity,
        audible,
        retrigger,
    ));
    needs_on
}

/// What the colors of a pixel come to, before any filter of the synth: the
/// perceived brightness and the saturation as MIDI values, and the place of
/// the hue on the full MIDI range and on the enabled note ranges.
#[derive(Clone, Copy, Debug, PartialEq, Eq, Structural)]
pub struct PixelTone {
    pub brightness_level: u8,
    pub velocity: u8,
    pub raw_note: u8,
    pub position: i16,
}

/// What a pixel was turned into, in monophonic mode.
#[derive(Clone, Copy, Debug, PartialEq, Eq, Structural)]
pub struct MonoReport {
    pub note: u8,
    pub raw_note: u8,
    pub muted: bool,
}

/// What one color channel was turned into, in polyphonic mode.
#[derive(Clone, Copy, Debug, PartialEq, Eq, Structural)]
pub struct VoiceReport {
    pub enabled: bool,
    pub note: u8,
    pub raw_note: u8,
    pub muted: bool,
}

/// What a pixel was turned into, in polyphonic mode.
#[derive(Clone, Copy, Debug, PartialEq, Eq, Structural)]
pub struct PolyReport {
    pub red: VoiceReport,
    pub green: VoiceReport,
    pub blue: VoiceReport,
    pub muted: bool,
}

/// True when a pixel is within the brightness window of the synth and not
/// silenced by hand.
pub open spec fn audible(synth: Synth, brightness_level: u8, manual_mute: bool) -> bool {
    !manual_mute && synth.brightness_min <= brightness_level <= synth.brightness_max
}

/// The note generation after `struck` articulations; it starts over past the
/// last one.
pub open spec fn generation_after(generation: u32, struck: int) -> u32 {
    if generation + struck <= u32::MAX {
        (generation + struck) as u32
    } else {
        (generation + struck - 0x1_0000_0000) as u32
    }
}

/// The single note of a synth, as a voice.
pub open spec fn mono_voice(synth: Synth) -> ChannelVoice {
    ChannelVoice { note: synth.note, note_is_on: synth.note_is_on }
}

/// The note that a place on the playable range comes to in monophonic mode.
pub open spec fn mono_note(synth: Synth, position: int, bounds: RangeBounds) -> u8 {
    pitch::effective_note(
        position,
        synth.scale,
        synth.scale_root,
        bounds,
        synth.mono_note_range,
    )
}

/// A synth once a pixel has been processed in monophonic mode.
pub open spec fn monophonic_after(
    synth: Synth,
    position: int,
    bounds: RangeBounds,
    sounds: bool,
    retrigger: bool,
) -> Synth {
    let note = mono_note(synth, position, bounds);
    let hits: int = if struck(mono_voice(synth), note, sounds, retrigger) {
        1
    } else {
        0
    };
    Synth {
        note,
        active_note: sounds,
        note_is_on: sounds,
        note_generation: generation_after(synth.note_generation, hits),
        ..synth
    }
}

/// The messages of the single note.
pub open spec fn mono_messages(
    synth: Synth,
    position: int,
    bounds: RangeBounds,
    velocity: u8,
    sounds: bool,
    retrigger: bool,
) -> Seq<NoteMessage> {
    articulation(
        synth.midi_port,
        synth.channel,
        mono_voice(synth),
        mono_note(synth, position, bounds),
        velocity,
        sounds,
        retrigger,
    )
}

/// Files the single note, struck `hits` times.
fn set_note(synth: &mut Synth, note: u8, sounds: bool, hits: u32)
    ensures
        *final(synth) == (Synth {
            note,
            active_note: sounds,
            note_is_on: sounds,
            note_generation: generation_after(old(synth).note_generation, hits as int),
            ..*old(synth)
        }),
{
    synth.note = note;
    synth.active_note = sounds;
    synth.note_is_on = sounds;
    synth.note_generation = synth.note_generation.wrapping_add(hits);
}

/// Processes a pixel in monophonic mode: the hue determines a single note.
/// `retrigger` forces a note re-articulation on every pixel (used when note
/// lengths are enabled, where each pixel is a distinct note of a fixed
/// duration, disabling the legato sustain). `manual_mute` silences the pixel
/// by hand (rest): no note is sounded, exactly like a pixel outside the
/// brightness window.
pub fn process_monophonic(
    synth: &mut Synth,
    messages: &mut Vec<NoteMessage>,
    bounds: &RangeBounds,
    tone: PixelTone,
    retrigger: bool,
    manual_mute: bool,
) -> (report: MonoReport)
    ensures
        ({
            let sounds = audible(*old(synth), tone.brightness_level, manual_mute);
            &&& *final(synth) == monophonic_after(
                *old(synth),
                tone.position as int,
                *bounds,
                sounds,
                retrigger,
            )
            &&& final(messages)@ == old(messages)@ + mono_messages(
                *old(synth),
                tone.position as int,
                *bounds,
                tone.velocity,
                sounds,
                retrigger,
            )
            &&& report == (MonoReport {
                note: mono_note(*old(synth), tone.position as int, *bounds),
                raw_note: tone.raw_note,
                muted: !sounds,
            })
        }),
{
    let note: u8 = pitch::effective_note_for(synth, tone.position, bounds, &synth.mono_note_range);
    let in_range: bool = !manual_mute && tone.brightness_level >= synth.brightness_min
        && tone.brightness_level <= synth.brightness_max;
    let was = ChannelVoice { note: synth.note, note_is_on: synth.note_is_on };
    let on: bool = articulate(
        messages,
        synth.midi_port,
        synth.channel,
        was,
        note,
        tone.velocity,
        in_range,
        retrigger,
    );
    set_note(
        synth,
        note,
        in_range,
        if on {
            1
        } else {
            0
        },
    );
    MonoReport { note, raw_note: tone.raw_note, muted: !in_range }
}

/// The note that a color channel value comes to in polyphonic mode.
pub open spec fn voice_note(synth: Synth, voice: int, value: u8, bounds: RangeBounds) -> u8 {
    let toggles = synth.voice_note_ranges@[voice];
    let total = pitch::total_notes(pitch::playable_ranges(bounds, toggles));
    pitch::effective_note(
        pitch::channel_place(value, total),
        synth.scale,
        synth.scale_root,
        bounds,
        toggles,
    )
}

/// True when a voice strikes its note.
pub open spec fn voice_struck(
    synth: Synth,
    voice: int,
    value: u8,
    bounds: RangeBounds,
    sounds: bool,
    retrigger: bool,
) -> bool {
    struck(
        synth.poly_voices@[voice],
        voice_note(synth, voice, value, bounds),
        synth.channel_enabled@[voice] && sounds,
        retrigger,
    )
}

/// The messages of one voice.
pub open spec fn voice_messages(
    synth: Synth,
    voice: int,
    value: u8,
    bounds: RangeBounds,
    velocity: u8,
    sounds: bool,
    retrigger: bool,
) -> Seq<NoteMessage> {
    articulation(
        synth.midi_port,
        synth.channel,
        synth.poly_voices@[voice],
        voice_note(synth, voice, value, bounds),
        velocity,
        synth.channel_enabled@[voice] && sounds,
        retrigger,
    )
}

/// A voice once its pixel has been processed.
pub open spec fn voice_after(
    synth: Synth,
    voice: int,
    value: u8,
    bounds: RangeBounds,
    sounds: bool,
) -> ChannelVoice {
    ChannelVoice {
        note: voice_note(synth, voice, value, bounds),
        note_is_on: synth.channel_enabled@[voice] && sounds,
    }
}

/// True of the MIDI note nearest to a color channel value.
pub open spec fn is_raw_note(note: u8, value: u8) -> bool {
    note <= 127 && -255 < 2 * (note * 255 - value * 127) < 255
}

/// True of the report on one voice.
pub open spec fn is_voice_report(
    report: VoiceReport,
    synth: Synth,
    voice: int,
    value: u8,
    bounds: RangeBounds,
    sounds: bool,
) -> bool {
    &&& report.enabled == synth.channel_enabled@[voice]
    &&& report.note == voice_note(synth, voice, value, bounds)
    &&& is_raw_note(report.raw_note, value)
    &&& report.muted == !(synth.channel_enabled@[voice] && sounds)
}

fn process_voice(
    synth: &Synth,
    messages: &mut Vec<NoteMessage>,
    bounds: &RangeBounds,
    voice: usize,
    value: u8,
    velocity: u8,
    sounds: bool,
    retrigger: bool,
) -> (processed: (ChannelVoice, VoiceReport, bool))
    requires
        voice < 3,
    ensures
        processed.0 == voice_after(*synth, voice as int, value, *bounds, sounds),
        is_voice_report(processed.1, *synth, voice as int, value, *bounds, sounds),
        processed.2 == voice_struck(*synth, voice as int, value, *bounds, sounds, retrigger),
        final(messages)@ == old(messages)@ + voice_messages(
            *synth,
            voice as int,
            value,
            *bounds,
            velocity,
            sounds,
            retrigger,
        ),
{
    let enabled: bool = synth.channel_enabled[voice];
    let toggles: [bool; 3] = synth.voice_note_ranges[voice];
    let raw_note: u8 = pitch::channel_to_midi_note(value);
    let position: i16 = pitch::channel_position(value, pitch::playable_total(bounds, &toggles));
    let note: u8 = pitch::effective_note_for(synth, position, bounds, &toggles);
    let in_range: bool = enabled && sounds;
    let on: bool = articulate(
        messages,
        synth.midi_port,
        synth.channel,
        synth.poly_voices[voice],
        note,
        velocity,
        in_range,
        retrigger,
    );
    (
        ChannelVoice { note, note_is_on: in_range },
        VoiceReport { enabled, note, raw_note, muted: !in_range },
        on,
    )
}

/// The number of voices that strike their notes.
pub open spec fn voices_struck(
    synth: Synth,
    color: (u8, u8, u8),
    bounds: RangeBounds,
    sounds: bool,
    retrigger: bool,
) -> int {
    (if voice_struck(synth, 0, color.0, bounds, sounds, retrigger) {
        1int
    } else {
        0
    }) + (if voice_struck(synth, 1, color.1, bounds, sounds, retrigger) {
        1int
    } else {
        0
    }) + (if voice_struck(synth, 2, color.2, bounds, sounds, retrigger) {
        1int
    } else {
        0
    })
}

/// A synth once a pixel has been processed in polyphonic mode.
pub open spec fn polyphonic_after(
    synth: Synth,
    color: (u8, u8, u8),
    bounds: RangeBounds,
    sounds: bool,
    retrigger: bool,
) -> Synth {
    Synth {
        poly_voices: [
            voice_after(synth, 0, color.0, bounds, sounds),
            voice_after(synth, 1, color.1, bounds, sounds),
            voice_after(synth, 2, color.2, bounds, sounds),
        ],
        active_note: sounds && (synth.channel_enabled@[0] || synth.channel_enabled@[1]
            || synth.channel_enabled@[2]),
        note_generation: generation_after(
            synth.note_generation,
            voices_struck(synth, color, bounds, sounds, retrigger),
        ),
        ..synth
    }
}

/// The messages of a chord: those of the red voice, then the green, then the
/// blue.
pub open spec fn chord_messages(
    synth: Synth,
    color: (u8, u8, u8),
    bounds: RangeBounds,
    velocity: u8,
    sounds: bool,
    retrigger: bool,
) -> Seq<NoteMessage> {
    voice_messages(synth, 0, color.0, bounds, velocity, sounds, retrigger) + voice_messages(
        synth,
        1,
        color.1,
        bounds,
        velocity,
        sounds,
        retrigger,
    ) + voice_messages(synth, 2, color.2, bounds, velocity, sounds, retrigger)
}

/// True of the report on a chord.
pub open spec fn is_poly_report(
    report: PolyReport,
    synth: Synth,
    color: (u8, u8, u8),
    bounds: RangeBounds,
    sounds: bool,
) -> bool {
    &&& is_voice_report(report.red, synth, 0, color.0, bounds, sounds)
    &&& is_voice_report(report.green, synth, 1, color.1, bounds, sounds)
    &&& is_voice_report(report.blue, synth, 2, color.2, bounds, sounds)
    &&& report.muted == !sounds
}

/// Leads the three voices from their notes to the next ones.
fn process_chord(
    synth: &Synth,
    messages: &mut Vec<NoteMessage>,
    bounds: &RangeBounds,
    color: (u8, u8, u8),
    velocity: u8,
    sounds: bool,
    retrigger: bool,
) -> (chord: (ChannelVoice, ChannelVoice, ChannelVoice, PolyReport, u32))
    ensures
        chord.0 == voice_after(*synth, 0, color.0, *bounds, sounds),
        chord.1 == voice_after(*synth, 1, color.1, *bounds, sounds),
        chord.2 == voice_after(*synth, 2, color.2, *bounds, sounds),
        is_poly_report(chord.3, *synth, color, *bounds, sounds),
        chord.4 == voices_struck(*synth, color, *bounds, sounds, retrigger),
        final(messages)@ == old(messages)@ + chord_messages(
            *synth,
            color,
            *bounds,
            velocity,
            sounds,
            retrigger,
        ),
{
    let (red_voice, red, red_on) = process_voice(
        synth,
        messages,
        bounds,
        0,
        color.0,
        velocity,
        sounds,
        retrigger,
    );
    let (green_voice, green, green_on) = process_voice(
        synth,
        messages,
        bounds,
        1,
        color.1,
        velocity,
        sounds,
        retrigger,
    );
    let (blue_voice, blue, blue_on) = process_voice(
        synth,
        messages,
        bounds,
        2,
        color.2,
        velocity,
        sounds,
        retrigger,
    );
    let mut hits: u32 = 0;
    if red_on {
        hits = hits + 1;
    }
    if green_on {
        hits = hits + 1;
    }
    if blue_on {
        hits = hits + 1;
    }
    proof {
        lemma_regroup(
            old(messages)@,
            voice_messages(*synth, 0, color.0, *bounds, velocity, sounds, retrigger),
            voice_messages(*synth, 1, color.1, *bounds, velocity, sounds, retrigger),
            voice_messages(*synth, 2, color.2, *bounds, velocity, sounds, retrigger),
        );
    }
    (red_voice, green_voice, blue_voice, PolyReport { red, green, blue, muted: !sounds }, hits)
}

/// Files the three voices, struck `hits` times in all.
fn set_voices(
    synth: &mut Synth,
    red: ChannelVoice,
    green: ChannelVoice,
    blue: ChannelVoice,
    hits: u32,
)
    ensures
        *final(synth) == (Synth {
            poly_voices: [red, green, blue],
            active_note: red.note_is_on || green.note_is_on || blue.note_is_on,
            note_generation: generation_after(old(synth).note_generation, hits as int),
            ..*old(synth)
        }),
{
    synth.poly_voices = [red, green, blue];
    // useful for the highlight: at least one voice is sounding
    synth.active_note = red.note_is_on || green.note_is_on || blue.note_is_on;
    synth.note_generation = synth.note_generation.wrapping_add(hits);
}

/// Processes a pixel in polyphonic mode: each enabled R/G/B channel
/// generates its own independent note, forming a chord of 1 to 3 notes.
/// `retrigger` forces a re-articulation of every enabled voice on each pixel
/// (used when note lengths are enabled, see `process_monophonic`).
/// `manual_mute` silences the pixel by hand (rest): no voice is sounded,
/// exactly like a pixel outside the brightness window.
pub fn process_polyphonic(
    synth: &mut Synth,
    messages: &mut Vec<NoteMessage>,
    bounds: &RangeBounds,
    color: (u8, u8, u8),
    brightness_level: u8,
    velocity: u8,
    retrigger: bool,
    manual_mute: bool,
) -> (report: PolyReport)
    ensures
        ({
            let sounds = audible(*old(synth), brightness_level, manual_mute);
            &&& *final(synth) == polyphonic_after(*old(synth), color, *bounds, sounds, retrigger)
            &&& final(messages)@ == old(messages)@ + chord_messages(
                *old(synth),
                color,
                *bounds,
                velocity,
                sounds,
                retrigger,
            )
            &&& is_poly_report(report, *old(synth), color, *bounds, sounds)
        }),
{
    let sounds: bool = !manual_mute && brightness_level >= synth.brightness_min && brightness_level
        <= synth.brightness_max;
    let (red, green, blue, report, hits) = process_chord(
        synth,
        messages,
        bounds,
        color,
        velocity,
        sounds,
        retrigger,
    );
    set_voices(synth, red, green, blue, hits);
    report
}

/// The pixels a synth reads in an image, in their order.
pub open spec fn reading(synth: Synth, image: DynamicImage) -> Seq<usize> {
    sequence::pixel_sequence(
        synth.zones@,
        raster::image_size(image).0 as usize,
        raster::image_size(image).1 as usize,
        synth.reading_direction,
        synth.sorted_reading,
    )
}

/// The pixel under the playhead: its place in a sequence of `length` pixels,
/// its index in the image, its cell and its color.
#[derive(Clone, Copy, Debug, PartialEq, Eq, Structural)]
pub struct Playhead {
    pub pos: usize,
    pub length: usize,
    pub pixel: usize,
    pub x: u32,
    pub y: u32,
    pub r: u8,
    pub g: u8,
    pub b: u8,
    pub a: u8,
}

impl Playhead {
    /// The place is one of the sequence.
    pub open spec fn well_formed(self) -> bool {
        self.pos < self.length
    }
}

/// True of the pixel at the synth's current playhead position. There is none
/// when nothing is selected inside the image, nor once the end of a
/// non-looping sequence has been reached.
pub open spec fn is_playhead(head: Option<Playhead>, synth: Synth, image: DynamicImage) -> bool {
    let sequence = reading(synth, image);
    let width = raster::image_size(image).0 as int;
    match head {
        None => sequence.len() == 0 || (synth.end_pending && !synth.loop_enabled),
        Some(head) => {
            &&& sequence.len() > 0 && (synth.end_pending ==> synth.loop_enabled)
            &&& head.well_formed()
            &&& head.length == sequence.len()
            &&& head.pos == synth.cursor as int % sequence.len() as int
            &&& head.pixel == sequence[head.pos as int]
            &&& head.x == head.pixel as int % width
            &&& head.y == head.pixel as int / width
            &&& (head.r, head.g, head.b, head.a) == raster::pixel_spec(
                image,
                head.x as int,
                head.y as int,
            )
        },
    }
}

/// Finds the pixel at the synth's current playhead position. There is none
/// when nothing is selected inside the image, nor once the end of a
/// non-looping sequence has been reached: its last pixel was played on the
/// previous step, and its note has now rung for a full step period.
pub fn playhead(synth: &Synth, image: &DynamicImage) -> (head: Option<Playhead>)
    ensures
        is_playhead(head, *synth, *image),
{
    let (columns, rows) = raster::image_dimensions(image);
    let width: usize = columns as usize;
    let height: usize = rows as usize;
    let sequence = build_pixel_sequence(
        &synth.zones,
        width,
        height,
        synth.reading_direction,
        synth.sorted_reading,
    );
    let length: usize = sequence.len();
    if length == 0 || (synth.end_pending && !synth.loop_enabled) {
        return None;
    }
    let pos: usize = synth.cursor % length;
    let pixel: usize = sequence[pos];
    proof {
        sequence_laws::sequence_holds_the_selected_pixels(
            synth.zones@,
            width,
            height,
            synth.reading_direction,
            synth.sorted_reading,
        );
        assert(sequence@.contains(pixel));
        lemma_cell_inside(pixel as int, width as int, height as int);
    }
    let x: u32 = (pixel % width) as u32;
    let y: u32 = (pixel / width) as u32;
    let (r, g, b, a) = raster::pixel_at(image, x, y);
    Some(Playhead { pos, length, pixel, x, y, r, g, b, a })
}

/// A pixel of an image lies in one of its columns and rows.
proof fn lemma_cell_inside(pixel: int, width: int, height: int)
    requires
        0 <= width,
        0 <= pixel < width * height,
    ensures
        width > 0,
        0 <= pixel % width < width,
        0 <= pixel / width < height,
{
    assert(width > 0) by (nonlinear_arith)
        requires
            0 <= width,
            0 < width * height,
    ;
    vstd::arithmetic::div_mod::lemma_fundamental_div_mod(pixel, width);
    vstd::arithmetic::div_mod::lemma_mod_bound(pixel, width);
    assert(0 <= pixel / width < height) by (nonlinear_arith)
        requires
            width > 0,
            0 <= pixel < width * height,
            pixel == width * (pixel / width) + pixel % width,
            0 <= pixel % width < width,
    ;
}

/// Where the playhead goes after a pixel.
#[derive(Clone, Copy, Debug, PartialEq, Eq, Structural)]
pub struct Travel {
    pub cursor: usize,
    pub forward: bool,
    pub end_pending: bool,
}

/// The playhead follows its travel direction. At the bounds of the sequence
/// a loop wraps around, back-and-forth reverses the direction, and a
/// one-shot sequence raises `end_pending`, so that the next step stops the
/// synth after the final note has rung for a full step.
pub open spec fn travelled(
    pos: usize,
    length: usize,
    forward: bool,
    loop_enabled: bool,
    back_and_forth: bool,
) -> Travel {
    let at_end = forward && pos + 1 >= length;
    let at_start = !forward && pos == 0;
    if !at_end && !at_start {
        Travel {
            cursor: if forward {
                (pos + 1) as usize
            } else {
                (pos - 1) as usize
            },
            forward,
            end_pending: false,
        }
    } else if loop_enabled {
        Travel {
            cursor: if at_end {
                0
            } else {
                (length - 1) as usize
            },
            forward,
            end_pending: false,
        }
    } else if back_and_forth {
        Travel {
            cursor: if length <= 1 {
                pos
            } else if at_end {
                (pos - 1) as usize
            } else {
                (pos + 1) as usize
            },
            forward: !forward,
            end_pending: false,
        }
    } else {
        Travel { cursor: pos, forward, end_pending: true }
    }
}

/// Advances the playhead for the next step.
fn travel(pos: usize, length: usize, forward: bool, loop_enabled: bool, back_and_forth: bool) -> (next:
    Travel)
    requires
        pos < length,
    ensures
        next == travelled(pos, length, forward, loop_enabled, back_and_forth),
{
    let at_end: bool = forward && pos + 1 >= length;
    let at_start: bool = !forward && pos == 0;
    let mut onward: bool = forward;
    let cursor: usize = if at_end || at_start {
        if loop_enabled {
            if at_end {
                0
            } else {
                length - 1
            }
        } else if back_and_forth {
            onward = !forward;
            if length <= 1 {
                pos
            } else if at_end {
                pos - 1
            } else {
                pos + 1
            }
        } else {
            pos
        }
    } else if forward {
        pos + 1
    } else {
        pos - 1
    };
    Travel {
        cursor,
        forward: onward,
        end_pending: (at_end || at_start) && !loop_enabled && !back_and_forth,
    }
}

/// What the interface is told of a played pixel.
#[derive(Clone, Copy, Debug, PartialEq, Eq, Structural)]
pub enum NoteReport {
    Mono(MonoReport),
    Poly(PolyReport),
}

/// A played pixel: the synth, the absolute pixel index, the color, and what
/// it was turned into.
#[derive(Clone, Copy, Debug, PartialEq, Eq, Structural)]
pub struct PixelTick {
    pub id: u32,
    pub pixel: usize,
    pub r: u8,
    pub g: u8,
    pub b: u8,
    pub a: u8,
    pub brightness_level: u8,
    pub velocity: u8,
    pub mode: SynthMode,
    pub notes: NoteReport,
}

/// What a step comes to.
pub enum StepOutcome {
    /// The sequence is over: a playing synth has stopped, and its notes are
    /// released.
    Stopped { messages: Vec<NoteMessage> },
    /// There is nothing to play, and the synth was not playing.
    Idle,
    /// A pixel was played. With note lengths enabled it occupies exactly
    /// `length`; without, it is a quarter-note step with legato sustain.
    Played { messages: Vec<NoteMessage>, tick: PixelTick, length: Option<NoteLength> },
}

/// The synth after it has stopped at the end of its sequence.
pub open spec fn ended(synth: Synth) -> Synth {
    silenced(
        Synth {
            playing: false,
            cursor: 0,
            tempo_accumulator: Double { bits: ZERO_BITS },
            ..synth
        },
    )
}

/// True when the pixel under the playhead is silenced by hand, or its
/// brightness is outside the window of the synth.
pub open spec fn rests(synth: Synth, head: Playhead, tone: PixelTone) -> bool {
    !audible(
        synth,
        tone.brightness_level,
        sequence::selected(synth.mute_zones@, head.x as int, head.y as int),
    )
}

/// True when each pixel is articulated anew: with note lengths enabled, it is
/// a distinct note of a fixed duration.
pub open spec fn retriggers(synth: Synth) -> bool {
    synth.note_lengths@.len() > 0
}

/// The synth once the pixel under the playhead has been articulated.
pub open spec fn articulated(
    synth: Synth,
    head: Playhead,
    tone: PixelTone,
    bounds: RangeBounds,
) -> Synth {
    let sounds = !rests(synth, head, tone);
    let voiced = Synth { velocity: tone.velocity, ..synth };
    match synth.mode {
        SynthMode::Monophonic => monophonic_after(
            voiced,
            tone.position as int,
            bounds,
            sounds,
            retriggers(synth),
        ),
        SynthMode::Polyphonic => polyphonic_after(
            voiced,
            (head.r, head.g, head.b),
            bounds,
            sounds,
            retriggers(synth),
        ),
    }
}

/// The messages of the articulation.
pub open spec fn articulation_messages(
    synth: Synth,
    head: Playhead,
    tone: PixelTone,
    bounds: RangeBounds,
) -> Seq<NoteMessage> {
    let sounds = !rests(synth, head, tone);
    let voiced = Synth { velocity: tone.velocity, ..synth };
    match synth.mode {
        SynthMode::Monophonic => mono_messages(
            voiced,
            tone.position as int,
            bounds,
            tone.velocity,
            sounds,
            retriggers(synth),
        ),
        SynthMode::Polyphonic => chord_messages(
            voiced,
            (head.r, head.g, head.b),
            bounds,
            tone.velocity,
            sounds,
            retriggers(synth),
        ),
    }
}

/// The synth once a pixel has been played: articulated, released again right
/// away without sustain (pizzicato), and the playhead moved on.
pub open spec fn performed(
    synth: Synth,
    head: Playhead,
    tone: PixelTone,
    bounds: RangeBounds,
) -> Synth {
    let voiced = articulated(synth, head, tone, bounds);
    let rung = if synth.note_sustain {
        voiced
    } else {
        silenced(voiced)
    };
    let next = travelled(
        head.pos,
        head.length,
        synth.play_forward,
        synth.loop_enabled,
        synth.back_and_forth,
    );
    Synth {
        play_forward: next.forward,
        cursor: next.cursor,
        end_pending: next.end_pending,
        ..rung
    }
}

/// The messages of a played pixel.
pub open spec fn performance(
    synth: Synth,
    head: Playhead,
    tone: PixelTone,
    bounds: RangeBounds,
) -> Seq<NoteMessage> {
    articulation_messages(synth, head, tone, bounds) + (if synth.note_sustain {
        Seq::empty()
    } else {
        releases(articulated(synth, head, tone, bounds))
    })
}

/// The length that a pixel is played for, where note lengths are enabled.
pub open spec fn played_length(synth: Synth, brightness_level: u8) -> Option<NoteLength> {
    if retriggers(synth) {
        Some(
            rhythm::picked_length(
                synth.note_lengths@,
                synth.note_length_reversed,
                brightness_level,
            ),
        )
    } else {
        None
    }
}

/// True of what the interface is told of a played pixel.
pub open spec fn is_tick(
    tick: PixelTick,
    synth: Synth,
    head: Playhead,
    tone: PixelTone,
    bounds: RangeBounds,
) -> bool {
    let voiced = Synth { velocity: tone.velocity, ..synth };
    &&& tick.id == synth.id
    &&& tick.pixel == head.pixel
    &&& (tick.r, tick.g, tick.b, tick.a) == (head.r, head.g, head.b, head.a)
    &&& tick.brightness_level == tone.brightness_level
    &&& tick.velocity == tone.velocity
    &&& tick.mode == synth.mode
    &&& match tick.notes {
        NoteReport::Mono(report) => {
            &&& synth.mode is Monophonic
            &&& report.note == mono_note(voiced, tone.position as int, bounds)
            &&& report.raw_note == tone.raw_note
            &&& report.muted == rests(synth, head, tone)
        },
        NoteReport::Poly(report) => {
            &&& synth.mode is Polyphonic
            &&& is_poly_report(
                report,
                voiced,
                (head.r, head.g, head.b),
                bounds,
                !rests(synth, head, tone),
            )
        },
    }
}

/// The synth after a step.
pub open spec fn after_step(
    synth: Synth,
    head: Option<Playhead>,
    tone: PixelTone,
    bounds: RangeBounds,
) -> Synth {
    match head {
        Some(head) => performed(synth, head, tone, bounds),
        None => if synth.playing {
            ended(synth)
        } else {
            synth
        },
    }
}

/// True of the outcome of a step.
pub open spec fn is_outcome(
    outcome: StepOutcome,
    synth: Synth,
    head: Option<Playhead>,
    tone: PixelTone,
    bounds: RangeBounds,
) -> bool {
    match (head, outcome) {
        (None, StepOutcome::Stopped { messages }) => synth.playing && messages@ == releases(synth),
        (None, StepOutcome::Idle) => !synth.playing,
        (Some(head), StepOutcome::Played { messages, tick, length }) => {
            &&& messages@ == performance(synth, head, tone, bounds)
            &&& is_tick(tick, synth, head, tone, bounds)
            &&& length == played_length(synth, tone.brightness_level)
        },
        _ => false,
    }
}

/// Stops a synth at the end of its sequence.
fn end_playback(synth: &mut Synth, messages: &mut Vec<NoteMessage>)
    requires
        old(messages)@.len() == 0,
    ensures
        *final(synth) == ended(*old(synth)),
        final(messages)@ == releases(*old(synth)),
{
    release_all(synth, messages);
    synth.playing = false;
    synth.cursor = 0;
    synth.tempo_accumulator = Double { bits: ZERO_BITS };
    assert(messages@ =~= releases(*old(synth)));
}

fn set_travel(synth: &mut Synth, next: Travel)
    ensures
        *final(synth) == (Synth {
            play_forward: next.forward,
            cursor: next.cursor,
            end_pending: next.end_pending,
            ..*old(synth)
        }),
{
    synth.play_forward = next.forward;
    synth.cursor = next.cursor;
    synth.end_pending = next.end_pending;
}

fn set_velocity(synth: &mut Synth, velocity: u8)
    ensures
        *final(synth) == (Synth { velocity, ..*old(synth) }),
{
    synth.velocity = velocity;
}

/// Plays the pixel at the synth's current playhead position, then advances
/// the playhead by one pixel in its zone sequence, exactly like a metronome
/// tick would. Used both by the metronome and by the manual step command;
/// the synth does not need to be playing. Where there is no pixel to play, a
/// playing synth stops: otherwise the tick would silently stall, leaving the
/// sounding note on forever.
pub fn step_synth_once(
    synth: &mut Synth,
    head: Option<Playhead>,
    tone: PixelTone,
    bounds: &RangeBounds,
) -> (outcome: StepOutcome)
    requires
        head matches Some(head) ==> head.well_formed(),
    ensures
        *final(synth) == after_step(*old(synth), head, tone, *bounds),
        is_outcome(outcome, *old(synth), head, tone, *bounds),
{
    let mut messages: Vec<NoteMessage> = Vec::new();
    let head: Playhead = match head {
        Some(head) => head,
        None => {
            if !synth.playing {
                return StepOutcome::Idle;
            }
            end_playback(synth, &mut messages);
            return StepOutcome::Stopped { messages };
        },
    };
    // Manually silenced pixel (rest): the playhead still travels over it, it
    // just sounds nothing
    let manual_mute: bool = pixel_in_zones(&synth.mute_zones, head.x, head.y);
    // The duration applies even to muted pixels, so the rhythm structure
    // stays consistent
    let length: Option<NoteLength> = if synth.note_lengths.len() == 0 {
        None
    } else {
        Some(rhythm::pick_note_length(synth, tone.brightness_level))
    };
    let retrigger: bool = length.is_some();
    let id: u32 = synth.id;
    let mode: SynthMode = synth.mode;
    let note_sustain: bool = synth.note_sustain;
    let next: Travel = travel(
        head.pos,
        head.length,
        synth.play_forward,
        synth.loop_enabled,
        synth.back_and_forth,
    );
    let notes: NoteReport = voice_pixel(
        synth,
        &mut messages,
        bounds,
        head,
        tone,
        retrigger,
        manual_mute,
    );
    proof {
        let voiced = articulation_messages(*old(synth), head, tone, *bounds);
        assert(Seq::<NoteMessage>::empty() + voiced =~= voiced);
        assert(voiced + Seq::<NoteMessage>::empty() =~= voiced);
    }
    if !note_sustain {
        release_all(synth, &mut messages);
    }
    set_travel(synth, next);
    let tick = PixelTick {
        id,
        pixel: head.pixel,
        r: head.r,
        g: head.g,
        b: head.b,
        a: head.a,
        brightness_level: tone.brightness_level,
        velocity: tone.velocity,
        mode,
        notes,
    };
    StepOutcome::Played { messages, tick, length }
}

/// Articulates a pixel in the mode of the synth.
fn voice_pixel(
    synth: &mut Synth,
    messages: &mut Vec<NoteMessage>,
    bounds: &RangeBounds,
    head: Playhead,
    tone: PixelTone,
    retrigger: bool,
    manual_mute: bool,
) -> (notes: NoteReport)
    requires
        retrigger == retriggers(*old(synth)),
        manual_mute == sequence::selected(old(synth).mute_zones@, head.x as int, head.y as int),
    ensures
        *final(synth) == articulated(*old(synth), head, tone, *bounds),
        final(messages)@ == old(messages)@ + articulation_messages(
            *old(synth),
            head,
            tone,
            *bounds,
        ),
        match notes {
            NoteReport::Mono(report) => {
                &&& old(synth).mode is Monophonic
                &&& report.note == mono_note(
                    (Synth { velocity: tone.velocity, ..*old(synth) }),
                    tone.position as int,
                    *bounds,
                )
                &&& report.raw_note == tone.raw_note
                &&& report.muted == rests(*old(synth), head, tone)
            },
            NoteReport::Poly(report) => {
                &&& old(synth).mode is Polyphonic
                &&& is_poly_report(
                    report,
                    (Synth { velocity: tone.velocity, ..*old(synth) }),
                    (head.r, head.g, head.b),
                    *bounds,
                    !rests(*old(synth), head, tone),
                )
            },
        },
{
    set_velocity(synth, tone.velocity);
    let ghost voiced = *synth;
    let ghost sounds = audible(voiced, tone.brightness_level, manual_mute);
    assert(sounds == !rests(*old(synth), head, tone));
    match synth.mode {
        SynthMode::Monophonic => {
            let report = process_monophonic(synth, messages, bounds, tone, retrigger, manual_mute);
            NoteReport::Mono(report)
        },
        SynthMode::Polyphonic => {
            let report = process_polyphonic(
                synth,
                messages,
                bounds,
                (head.r, head.g, head.b),
                tone.brightness_level,
                tone.velocity,
                retrigger,
                manual_mute,
            );
            NoteReport::Poly(report)
        },
    }
}

} // verus!
