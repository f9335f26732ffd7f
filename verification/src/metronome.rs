//! The metronome: when the synthesizers advance, and what it waits for.

use image::DynamicImage;
use vstd::prelude::*;

use crate::error::{synth_not_found, AppError};
use crate::number::{Double, ONE_BITS};
use crate::pitch::RangeBounds;
use crate::playback::{
    self, playhead, step_synth_once, NoteMessage, PixelTone, Playhead, StepOutcome,
};
use crate::rhythm;
use crate::state::{ChannelVoice, NoteLength, Synth, SynthState};
use crate::synth;

verus! {

broadcast use vstd::std_specs::hash::group_hash_axioms;

/// True when a full step has accumulated.
pub open spec fn due(accumulated: Double) -> bool {
    !accumulated.below(Double { bits: ONE_BITS })
}

/// Tells whether a full step has accumulated.
pub fn is_due(accumulated: Double) -> (b: bool)
    ensures
        b == due(accumulated),
{
    !accumulated.is_below(Double { bits: ONE_BITS })
}

/// A synth with its tempo accumulator set.
pub open spec fn accumulating(synth: Synth, accumulator: Double) -> Synth {
    Synth { tempo_accumulator: accumulator, ..synth }
}

/// The length of the pixel that a step plays, if it plays one and note
/// lengths are enabled.
pub open spec fn length_played(
    synth: Synth,
    head: Option<Playhead>,
    tone: PixelTone,
) -> Option<NoteLength> {
    if head is Some {
        playback::played_length(synth, tone.brightness_level)
    } else {
        None
    }
}

/// The synth after a quarter-beat wake.
pub open spec fn after_tick(
    synth: Synth,
    accumulated: Double,
    remainder: Double,
    head: Option<Playhead>,
    tone: PixelTone,
    bounds: RangeBounds,
) -> Synth {
    if !synth.playing {
        synth
    } else if !due(accumulated) {
        accumulating(synth, accumulated)
    } else {
        let after = playback::after_step(accumulating(synth, remainder), head, tone, bounds);
        match length_played(synth, head, tone) {
            Some(length) => accumulating(after, rhythm::rewound(length)),
            None => after,
        }
    }
}

/// One quarter-beat wake of one synth. Each wake adds a quarter of the
/// synth's tempo ratio to its accumulator, which makes it `accumulated`; the
/// synth advances when at least one full step has accumulated (a ratio of
/// 0.5 is one pixel every two beats), which leaves `remainder`. With note
/// lengths enabled the played pixel occupies exactly its note's duration:
/// the accumulator is rewound so that the next pixel is due after that many
/// beats of the synth's own tempo.
pub fn tick_synth(
    synth: &mut Synth,
    accumulated: Double,
    remainder: Double,
    head: Option<Playhead>,
    tone: PixelTone,
    bounds: &RangeBounds,
) -> (outcome: Option<StepOutcome>)
    requires
        head matches Some(head) ==> head.well_formed(),
    ensures
        *final(synth) == after_tick(*old(synth), accumulated, remainder, head, tone, *bounds),
        match outcome {
            Some(outcome) => old(synth).playing && due(accumulated) && playback::is_outcome(
                outcome,
                accumulating(*old(synth), remainder),
                head,
                tone,
                *bounds,
            ),
            None => !old(synth).playing || !due(accumulated),
        },
{
    if !synth.playing {
        return None;
    }
    if !is_due(accumulated) {
        set_accumulator(synth, accumulated);
        return None;
    }
    set_accumulator(synth, remainder);
    let outcome = step_synth_once(synth, head, tone, bounds);
    if let StepOutcome::Played { length: Some(length), .. } = &outcome {
        set_accumulator(synth, rhythm::rewound_accumulator(*length));
    }
    Some(outcome)
}

fn set_accumulator(synth: &mut Synth, accumulator: Double)
    ensures
        *final(synth) == accumulating(*old(synth), accumulator),
{
    synth.tempo_accumulator = accumulator;
}

/// Finds the pixel that a manual step of a synth would play. Only a paused
/// synth can be stepped by hand.
pub fn ready_to_step(id: u32, state: &SynthState, image: &Option<DynamicImage>) -> (ready: Result<
    Option<Playhead>,
    AppError,
>)
    ensures
        match (*image, ready) {
            (None, ready) => ready == Err::<Option<Playhead>, AppError>(AppError::NoProcessedImage),
            (Some(image), Err(AppError::SynthNotFound { id: unknown })) => unknown == id
                && !state.synths@.contains_key(id),
            (Some(image), Err(AppError::SynthIsPlaying { id: busy })) => busy == id
                && state.synths@.contains_key(id) && state.synths@[id].playing,
            (Some(image), Ok(head)) => state.synths@.contains_key(id) && !state.synths@[id].playing
                && playback::is_playhead(head, state.synths@[id], image),
            _ => false,
        },
{
    match image {
        None => Err(AppError::NoProcessedImage),
        Some(image) => match state.synths.get(&id) {
            None => Err(synth_not_found(id)),
            Some(synth) => if synth.playing {
                Err(AppError::SynthIsPlaying { id })
            } else {
                Ok(playhead(synth, image))
            },
        },
    }
}

/// The notes of a manual step that still sound, to be turned off once their
/// duration is over.
pub struct ScheduledRelease {
    pub port: usize,
    pub channel: u8,
    pub notes: Vec<u8>,
    pub generation: u32,
}

pub open spec fn sounding_note(note: u8, note_is_on: bool) -> Seq<u8> {
    if note_is_on {
        seq![note]
    } else {
        Seq::empty()
    }
}

/// The notes a synth sounds: its single note, then its voices.
pub open spec fn sounding(synth: Synth) -> Seq<u8> {
    sounding_note(synth.note, synth.note_is_on) + sounding_note(
        synth.poly_voices@[0].note,
        synth.poly_voices@[0].note_is_on,
    ) + sounding_note(synth.poly_voices@[1].note, synth.poly_voices@[1].note_is_on) + sounding_note(
        synth.poly_voices@[2].note,
        synth.poly_voices@[2].note_is_on,
    )
}

fn sounding_notes(synth: &Synth) -> (notes: Vec<u8>)
    ensures
        notes@ == sounding(*synth),
{
    let mut notes: Vec<u8> = Vec::new();
    if synth.note_is_on {
        notes.push(synth.note);
    }
    if synth.poly_voices[0].note_is_on {
        notes.push(synth.poly_voices[0].note);
    }
    if synth.poly_voices[1].note_is_on {
        notes.push(synth.poly_voices[1].note);
    }
    if synth.poly_voices[2].note_is_on {
        notes.push(synth.poly_voices[2].note);
    }
    assert(notes@ =~= sounding(*synth));
    notes
}

/// Manually advances a synth's playhead by one pixel in its zone sequence,
/// playing the resulting pixel like a metronome tick would. Only usable
/// while the synth is paused. The notes played by a manual step have a fixed
/// duration, after which they are released.
pub fn step_synth(
    id: u32,
    state: &mut SynthState,
    head: Option<Playhead>,
    tone: PixelTone,
    bounds: &RangeBounds,
) -> (result: Result<(StepOutcome, ScheduledRelease), AppError>)
    requires
        head matches Some(head) ==> head.well_formed(),
    ensures
        ({
            let before = old(state).synths@;
            match result {
                Err(AppError::SynthNotFound { id: unknown }) => {
                    &&& unknown == id && !before.contains_key(id)
                    &&& synth::same_registry(*old(state), *final(state))
                },
                Err(AppError::SynthIsPlaying { id: busy }) => {
                    &&& busy == id && before.contains_key(id) && before[id].playing
                    &&& synth::same_registry(*old(state), *final(state))
                },
                Ok((outcome, scheduled)) => {
                    let after = playback::after_step(before[id], head, tone, *bounds);
                    &&& before.contains_key(id) && !before[id].playing
                    &&& synth::replaced(*old(state), *final(state), id, after)
                    &&& playback::is_outcome(outcome, before[id], head, tone, *bounds)
                    &&& scheduled.port == after.midi_port
                    &&& scheduled.channel == after.channel
                    &&& scheduled.notes@ == sounding(after)
                    &&& scheduled.generation == after.note_generation
                },
                _ => false,
            }
        }),
{
    match synth::take(state, id) {
        Some(mut synth) => {
            if synth.playing {
                synth::put(state, id, synth, Ghost(old(state).synths@));
                assert(state.synths@ =~= old(state).synths@);
                return Err(AppError::SynthIsPlaying { id });
            }
            let outcome = step_synth_once(&mut synth, head, tone, bounds);
            let scheduled = ScheduledRelease {
                port: synth.midi_port,
                channel: synth.channel,
                notes: sounding_notes(&synth),
                generation: synth.note_generation,
            };
            synth::put(state, id, synth, Ghost(old(state).synths@));
            Ok((outcome, scheduled))
        },
        None => Err(synth_not_found(id)),
    }
}

/// True when the scheduled notes are still the ones that sound: a newer
/// manual step (a different note generation), a stop, or the metronome
/// taking over in the meantime cancels the release.
pub open spec fn still_sounding(synth: Synth, scheduled: ScheduledRelease) -> bool {
    !synth.playing && synth.channel == scheduled.channel && synth.note_generation
        == scheduled.generation
}

/// True of a note that sounds and is to be released.
pub open spec fn expires(note: u8, note_is_on: bool, notes: Seq<u8>) -> bool {
    note_is_on && notes.contains(note)
}

/// A voice once the scheduled notes are released.
pub open spec fn expired(voice: ChannelVoice, notes: Seq<u8>) -> ChannelVoice {
    ChannelVoice {
        note: voice.note,
        note_is_on: voice.note_is_on && !notes.contains(voice.note),
    }
}

/// The synth once the scheduled notes are released.
pub open spec fn after_release(synth: Synth, notes: Seq<u8>) -> Synth {
    Synth {
        note_is_on: synth.note_is_on && !notes.contains(synth.note),
        poly_voices: [
            expired(synth.poly_voices@[0], notes),
            expired(synth.poly_voices@[1], notes),
            expired(synth.poly_voices@[2], notes),
        ],
        ..synth
    }
}

/// The Note Offs of the scheduled notes, on the port they were sent to: even
/// if the synth has since changed ports, they are turned off where they are
/// sounding.
pub open spec fn scheduled_releases(synth: Synth, scheduled: ScheduledRelease) -> Seq<NoteMessage> {
    let port = scheduled.port;
    let channel = scheduled.channel;
    let notes = scheduled.notes@;
    let voices = synth.poly_voices@;
    playback::release(port, channel, synth.note, expires(synth.note, synth.note_is_on, notes))
        + playback::release(
        port,
        channel,
        voices[0].note,
        expires(voices[0].note, voices[0].note_is_on, notes),
    ) + playback::release(
        port,
        channel,
        voices[1].note,
        expires(voices[1].note, voices[1].note_is_on, notes),
    ) + playback::release(
        port,
        channel,
        voices[2].note,
        expires(voices[2].note, voices[2].note_is_on, notes),
    )
}

/// Releases one scheduled note, and tells whether it still sounds.
fn expire(messages: &mut Vec<NoteMessage>, scheduled: &ScheduledRelease, note: u8, on: bool) -> (still:
    bool)
    ensures
        still == (on && !scheduled.notes@.contains(note)),
        final(messages)@ == old(messages)@ + playback::release(
            scheduled.port,
            scheduled.channel,
            note,
            expires(note, on, scheduled.notes@),
        ),
{
    let mut listed: bool = false;
    let mut i: usize = 0;
    while i < scheduled.notes.len()
        invariant
            i <= scheduled.notes.len(),
            listed == exists|k: int| 0 <= k < i && #[trigger] scheduled.notes@[k] == note,
        decreases scheduled.notes.len() - i,
    {
        if scheduled.notes[i] == note {
            listed = true;
        }
        i = i + 1;
    }
    assert(listed == scheduled.notes@.contains(note));
    if on && listed {
        messages.push(
            NoteMessage::Off { port: scheduled.port, channel: scheduled.channel, note },
        );
    }
    assert(messages@ =~= old(messages)@ + playback::release(
        scheduled.port,
        scheduled.channel,
        note,
        expires(note, on, scheduled.notes@),
    ));
    on && !listed
}

/// Turns the notes of a manual step off, once their duration is over, only if
/// the synth is still paused and still sounding those same articulation.
pub fn release_scheduled(id: u32, state: &mut SynthState, scheduled: &ScheduledRelease) -> (messages:
    Vec<NoteMessage>)
    ensures
        ({
            let before = old(state).synths@;
            if before.contains_key(id) && still_sounding(before[id], *scheduled) {
                &&& messages@ == scheduled_releases(before[id], *scheduled)
                &&& synth::replaced(
                    *old(state),
                    *final(state),
                    id,
                    after_release(before[id], scheduled.notes@),
                )
            } else {
                messages@.len() == 0 && synth::same_registry(*old(state), *final(state))
            }
        }),
{
    let mut messages: Vec<NoteMessage> = Vec::new();
    if let Some(mut synth) = synth::take(state, id) {
        if !synth.playing && synth.channel == scheduled.channel && synth.note_generation
            == scheduled.generation {
            expire_all(&mut synth, scheduled, &mut messages);
        }
        synth::put(state, id, synth, Ghost(old(state).synths@));
        assert(old(state).synths@.insert(id, old(state).synths@[id]) =~= old(state).synths@);
    }
    messages
}

fn expire_all(synth: &mut Synth, scheduled: &ScheduledRelease, messages: &mut Vec<NoteMessage>)
    requires
        old(messages)@.len() == 0,
    ensures
        *final(synth) == after_release(*old(synth), scheduled.notes@),
        final(messages)@ == scheduled_releases(*old(synth), *scheduled),
{
    let first: ChannelVoice = synth.poly_voices[0];
    let second: ChannelVoice = synth.poly_voices[1];
    let third: ChannelVoice = synth.poly_voices[2];
    let mono_on: bool = expire(messages, scheduled, synth.note, synth.note_is_on);
    let first_on: bool = expire(messages, scheduled, first.note, first.note_is_on);
    let second_on: bool = expire(messages, scheduled, second.note, second.note_is_on);
    let third_on: bool = expire(messages, scheduled, third.note, third.note_is_on);
    set_sounding(
        synth,
        mono_on,
        ChannelVoice { note: first.note, note_is_on: first_on },
        ChannelVoice { note: second.note, note_is_on: second_on },
        ChannelVoice { note: third.note, note_is_on: third_on },
    );
    assert(messages@ =~= scheduled_releases(*old(synth), *scheduled));
}

fn set_sounding(
    synth: &mut Synth,
    note_is_on: bool,
    first: ChannelVoice,
    second: ChannelVoice,
    third: ChannelVoice,
)
    ensures
        *final(synth) == (Synth {
            note_is_on,
            poly_voices: [first, second, third],
            ..*old(synth)
        }),
{
    synth.note_is_on = note_is_on;
    synth.poly_voices = [first, second, third];
}

} // verus!
