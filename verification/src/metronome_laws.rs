//! What holds of every wake of the metronome and of every manual step.

use vstd::prelude::*;

use crate::metronome::{self, ScheduledRelease};
use crate::number::Double;
use crate::number_laws;
use crate::pitch::RangeBounds;
use crate::playback::{self, PixelTone, Playhead};
use crate::playback_laws;
use crate::rhythm;
use crate::state::{ChannelVoice, Synth};

verus! {

/// A wake leaves a paused synth alone. A playing one whose next step is not
/// due yet only accumulates; one whose step is due takes it.
pub proof fn wakes_advance_the_synths_that_are_due(
    synth: Synth,
    accumulated: Double,
    remainder: Double,
    head: Option<Playhead>,
    tone: PixelTone,
    bounds: RangeBounds,
)
    ensures
        ({
            let after = metronome::after_tick(synth, accumulated, remainder, head, tone, bounds);
            let stepped = playback::after_step(
                Synth { tempo_accumulator: remainder, ..synth },
                head,
                tone,
                bounds,
            );
            &&& !synth.playing ==> after == synth
            &&& synth.playing && !metronome::due(accumulated) ==> after == (Synth {
                tempo_accumulator: accumulated,
                ..synth
            })
            &&& synth.playing && metronome::due(accumulated) ==> after == (Synth {
                tempo_accumulator: after.tempo_accumulator,
                ..stepped
            })
        }),
{
}

/// A played pixel occupies the beats of its note: with note lengths enabled
/// the accumulator is short of the next step by exactly them; without, it goes
/// on from the remainder.
pub proof fn played_pixels_take_their_length(
    synth: Synth,
    accumulated: Double,
    remainder: Double,
    head: Playhead,
    tone: PixelTone,
    bounds: RangeBounds,
)
    requires
        synth.playing,
        metronome::due(accumulated),
    ensures
        ({
            let after = metronome::after_tick(
                synth,
                accumulated,
                remainder,
                Some(head),
                tone,
                bounds,
            );
            if synth.note_lengths@.len() > 0 {
                let length = rhythm::picked_length(
                    synth.note_lengths@,
                    synth.note_length_reversed,
                    tone.brightness_level,
                );
                number_laws::steps(after.tempo_accumulator) + number_laws::steps(
                    rhythm::beats(length),
                ) == vstd::arithmetic::power2::pow2(1074)
            } else {
                after.tempo_accumulator == remainder
            }
        }),
{
    if synth.note_lengths@.len() > 0 {
        number_laws::accumulator_is_rewound_by_the_length(
            rhythm::picked_length(
                synth.note_lengths@,
                synth.note_length_reversed,
                tone.brightness_level,
            ),
        );
    }
}

/// The notes to be released after a manual step are those that sound.
pub proof fn sounding_notes_are_scheduled(synth: Synth, note: u8)
    ensures
        metronome::sounding(synth).contains(note) <==> playback_laws::sounds(synth, note) > 0,
{
    let mono = metronome::sounding_note(synth.note, synth.note_is_on);
    let voices = synth.poly_voices@;
    let a = metronome::sounding_note(voices[0].note, voices[0].note_is_on);
    let b = metronome::sounding_note(voices[1].note, voices[1].note_is_on);
    let c = metronome::sounding_note(voices[2].note, voices[2].note_is_on);
    vstd::seq_lib::lemma_seq_concat_contains_all_elements(mono + a + b, c, note);
    vstd::seq_lib::lemma_seq_concat_contains_all_elements(mono + a, b, note);
    vstd::seq_lib::lemma_seq_concat_contains_all_elements(mono, a, note);
    lemma_sounding_note(synth.note, synth.note_is_on, note);
    lemma_sounding_note(voices[0].note, voices[0].note_is_on, note);
    lemma_sounding_note(voices[1].note, voices[1].note_is_on, note);
    lemma_sounding_note(voices[2].note, voices[2].note_is_on, note);
}

proof fn lemma_sounding_note(of: u8, on: bool, note: u8)
    ensures
        metronome::sounding_note(of, on).contains(note) <==> on && of == note,
{
    if on {
        assert(metronome::sounding_note(of, on)[0] == of);
    }
}

/// The scheduled notes are released only while the synth is paused, on the
/// same channel, and has struck no note since.
pub proof fn newer_notes_cancel_a_release(synth: Synth, scheduled: ScheduledRelease)
    ensures
        metronome::still_sounding(synth, scheduled) <==> {
            &&& !synth.playing
            &&& synth.channel == scheduled.channel
            &&& synth.note_generation == scheduled.generation
        },
{
}

/// Releasing the scheduled notes turns off each of them that sounds, where it
/// was sent, and no other; the synth is otherwise left alone.
pub proof fn scheduled_notes_are_released(synth: Synth, scheduled: ScheduledRelease, note: u8)
    ensures
        ({
            let after = metronome::after_release(synth, scheduled.notes@);
            let messages = metronome::scheduled_releases(synth, scheduled);
            &&& playback_laws::sounds(after, note) == (if scheduled.notes@.contains(note) {
                0
            } else {
                playback_laws::sounds(synth, note)
            })
            &&& playback_laws::net(messages, note) == playback_laws::sounds(after, note)
                - playback_laws::sounds(synth, note)
            &&& playback_laws::go_to(messages, scheduled.port, scheduled.channel)
            &&& after == (Synth {
                note_is_on: after.note_is_on,
                poly_voices: after.poly_voices,
                ..synth
            })
            &&& forall|voice: int|
                0 <= voice < 3 ==> (#[trigger] after.poly_voices@[voice]).note
                    == synth.poly_voices@[voice].note
        }),
{
    lemma_scheduled_net(synth, scheduled, note);
    lemma_scheduled_port(synth, scheduled);
}

proof fn lemma_scheduled_port(synth: Synth, scheduled: ScheduledRelease)
    ensures
        playback_laws::go_to(
            metronome::scheduled_releases(synth, scheduled),
            scheduled.port,
            scheduled.channel,
        ),
{
    let notes = scheduled.notes@;
    let voices = synth.poly_voices@;
    let (port, channel) = (scheduled.port, scheduled.channel);
    let m = playback::release(
        port,
        channel,
        synth.note,
        metronome::expires(synth.note, synth.note_is_on, notes),
    );
    let a = playback::release(
        port,
        channel,
        voices[0].note,
        metronome::expires(voices[0].note, voices[0].note_is_on, notes),
    );
    let b = playback::release(
        port,
        channel,
        voices[1].note,
        metronome::expires(voices[1].note, voices[1].note_is_on, notes),
    );
    let c = playback::release(
        port,
        channel,
        voices[2].note,
        metronome::expires(voices[2].note, voices[2].note_is_on, notes),
    );
    playback_laws::lemma_go_to_concat(m, a, port, channel);
    playback_laws::lemma_go_to_concat(m + a, b, port, channel);
    playback_laws::lemma_go_to_concat(m + a + b, c, port, channel);
}

proof fn lemma_scheduled_net(synth: Synth, scheduled: ScheduledRelease, note: u8)
    ensures
        playback_laws::net(metronome::scheduled_releases(synth, scheduled), note) == (
        if scheduled.notes@.contains(note) {
            -playback_laws::sounds(synth, note)
        } else {
            0
        }),
{
    let notes = scheduled.notes@;
    let voices = synth.poly_voices@;
    let (port, channel) = (scheduled.port, scheduled.channel);
    let mono = ChannelVoice {
        note: synth.note,
        note_is_on: metronome::expires(synth.note, synth.note_is_on, notes),
    };
    let first = ChannelVoice {
        note: voices[0].note,
        note_is_on: metronome::expires(voices[0].note, voices[0].note_is_on, notes),
    };
    let second = ChannelVoice {
        note: voices[1].note,
        note_is_on: metronome::expires(voices[1].note, voices[1].note_is_on, notes),
    };
    let third = ChannelVoice {
        note: voices[2].note,
        note_is_on: metronome::expires(voices[2].note, voices[2].note_is_on, notes),
    };
    let m = playback::release(port, channel, mono.note, mono.note_is_on);
    let a = playback::release(port, channel, first.note, first.note_is_on);
    let b = playback::release(port, channel, second.note, second.note_is_on);
    let c = playback::release(port, channel, third.note, third.note_is_on);
    playback_laws::lemma_release(port, channel, mono, note);
    playback_laws::lemma_release(port, channel, first, note);
    playback_laws::lemma_release(port, channel, second, note);
    playback_laws::lemma_release(port, channel, third, note);
    playback_laws::lemma_net_concat(m, a, note);
    playback_laws::lemma_net_concat(m + a, b, note);
    playback_laws::lemma_net_concat(m + a + b, c, note);
}

} // verus!
