//! What holds of every step of a synthesizer.

use vstd::prelude::*;

use crate::pitch::{self, RangeBounds};
use crate::pitch_laws;
use crate::playback::{
    self, NoteMessage, NoteReport, PixelTick, PixelTone, Playhead, StepOutcome,
};
use crate::raster;
use crate::sequence;
use crate::sequence_laws;
use crate::state::{ChannelVoice, Synth, SynthMode};

verus! {

/// The Note Ons minus the Note Offs of a note among some messages.
pub open spec fn net(messages: Seq<NoteMessage>, note: u8) -> int
    decreases messages.len(),
{
    if messages.len() == 0 {
        0
    } else {
        net(messages.drop_last(), note) + (match messages.last() {
            NoteMessage::On { note: struck, .. } => if struck == note {
                1int
            } else {
                0
            },
            NoteMessage::Off { note: released, .. } => if released == note {
                -1int
            } else {
                0
            },
        })
    }
}

/// 1 where a voice sounds a note, 0 otherwise.
pub open spec fn holds(voice: ChannelVoice, note: u8) -> int {
    if voice.note_is_on && voice.note == note {
        1
    } else {
        0
    }
}

/// How many times a synth sounds a note.
pub open spec fn sounds(synth: Synth, note: u8) -> int {
    holds(playback::mono_voice(synth), note) + holds(synth.poly_voices@[0], note) + holds(
        synth.poly_voices@[1],
        note,
    ) + holds(synth.poly_voices@[2], note)
}

/// True when all messages go to a port and channel.
pub open spec fn go_to(messages: Seq<NoteMessage>, port: usize, channel: u8) -> bool {
    forall|i: int|
        0 <= i < messages.len() ==> match #[trigger] messages[i] {
            NoteMessage::On { port: to, channel: on, .. } => to == port && on == channel,
            NoteMessage::Off { port: to, channel: on, .. } => to == port && on == channel,
        }
}

pub(crate) proof fn lemma_go_to_concat(
    a: Seq<NoteMessage>,
    b: Seq<NoteMessage>,
    port: usize,
    channel: u8,
)
    requires
        go_to(a, port, channel),
        go_to(b, port, channel),
    ensures
        go_to(a + b, port, channel),
{
    assert forall|i: int| 0 <= i < (a + b).len() implies match #[trigger] (a + b)[i] {
        NoteMessage::On { port: to, channel: on, .. } => to == port && on == channel,
        NoteMessage::Off { port: to, channel: on, .. } => to == port && on == channel,
    } by {
        if i < a.len() {
            assert((a + b)[i] == a[i]);
        } else {
            assert((a + b)[i] == b[i - a.len()]);
        }
    }
}

pub(crate) proof fn lemma_net_concat(a: Seq<NoteMessage>, b: Seq<NoteMessage>, note: u8)
    ensures
        net(a + b, note) == net(a, note) + net(b, note),
    decreases b.len(),
{
    if b.len() == 0 {
        assert(a + b =~= a);
    } else {
        lemma_net_concat(a, b.drop_last(), note);
        assert((a + b).drop_last() =~= a + b.drop_last());
    }
}

pub(crate) proof fn lemma_release(port: usize, channel: u8, voice: ChannelVoice, note: u8)
    ensures
        net(playback::release(port, channel, voice.note, voice.note_is_on), note) == -holds(
            voice,
            note,
        ),
{
    reveal_with_fuel(net, 2);
    let messages = playback::release(port, channel, voice.note, voice.note_is_on);
    if voice.note_is_on {
        assert(messages.drop_last() =~= Seq::empty());
    }
}

proof fn lemma_articulation(
    port: usize,
    channel: u8,
    was: ChannelVoice,
    next: u8,
    velocity: u8,
    audible: bool,
    retrigger: bool,
    note: u8,
)
    ensures
        net(
            playback::articulation(port, channel, was, next, velocity, audible, retrigger),
            note,
        ) == holds(ChannelVoice { note: next, note_is_on: audible }, note) - holds(was, note),
{
    reveal_with_fuel(net, 3);
    let messages = playback::articulation(port, channel, was, next, velocity, audible, retrigger);
    if messages.len() == 1 {
        assert(messages.drop_last() =~= Seq::empty());
    } else if messages.len() == 2 {
        assert(messages.drop_last().drop_last() =~= Seq::empty());
        assert(messages.drop_last().last() == messages[0]);
    }
}

/// Releasing the notes of a synth turns off each of them, and no other.
pub proof fn releases_match_what_sounds(synth: Synth, note: u8)
    ensures
        net(playback::releases(synth), note) == -sounds(synth, note),
        sounds(playback::silenced(synth), note) == 0,
        go_to(playback::releases(synth), synth.midi_port, synth.channel),
{
    let port = synth.midi_port;
    let channel = synth.channel;
    let voices = synth.poly_voices@;
    let mono = playback::release(port, channel, synth.note, synth.note_is_on);
    let a = playback::release(port, channel, voices[0].note, voices[0].note_is_on);
    let b = playback::release(port, channel, voices[1].note, voices[1].note_is_on);
    let c = playback::release(port, channel, voices[2].note, voices[2].note_is_on);
    lemma_release(port, channel, playback::mono_voice(synth), note);
    lemma_release(port, channel, voices[0], note);
    lemma_release(port, channel, voices[1], note);
    lemma_release(port, channel, voices[2], note);
    lemma_net_concat(mono, a, note);
    lemma_net_concat(mono + a, b, note);
    lemma_net_concat(mono + a + b, c, note);
}

proof fn lemma_mono_balances(
    synth: Synth,
    position: int,
    bounds: RangeBounds,
    velocity: u8,
    audible: bool,
    retrigger: bool,
    note: u8,
)
    ensures
        net(
            playback::mono_messages(synth, position, bounds, velocity, audible, retrigger),
            note,
        ) == sounds(
            playback::monophonic_after(synth, position, bounds, audible, retrigger),
            note,
        ) - sounds(synth, note),
{
    lemma_articulation(
        synth.midi_port,
        synth.channel,
        playback::mono_voice(synth),
        playback::mono_note(synth, position, bounds),
        velocity,
        audible,
        retrigger,
        note,
    );
}

proof fn lemma_voice_balances(
    synth: Synth,
    voice: int,
    value: u8,
    bounds: RangeBounds,
    velocity: u8,
    audible: bool,
    retrigger: bool,
    note: u8,
)
    ensures
        net(
            playback::voice_messages(synth, voice, value, bounds, velocity, audible, retrigger),
            note,
        ) == holds(playback::voice_after(synth, voice, value, bounds, audible), note) - holds(
            synth.poly_voices@[voice],
            note,
        ),
{
    lemma_articulation(
        synth.midi_port,
        synth.channel,
        synth.poly_voices@[voice],
        playback::voice_note(synth, voice, value, bounds),
        velocity,
        synth.channel_enabled@[voice] && audible,
        retrigger,
        note,
    );
}

proof fn lemma_chord_balances(
    synth: Synth,
    color: (u8, u8, u8),
    bounds: RangeBounds,
    velocity: u8,
    audible: bool,
    retrigger: bool,
    note: u8,
)
    ensures
        net(
            playback::chord_messages(synth, color, bounds, velocity, audible, retrigger),
            note,
        ) == sounds(
            playback::polyphonic_after(synth, color, bounds, audible, retrigger),
            note,
        ) - sounds(synth, note),
{
    let a = playback::voice_messages(synth, 0, color.0, bounds, velocity, audible, retrigger);
    let b = playback::voice_messages(synth, 1, color.1, bounds, velocity, audible, retrigger);
    let c = playback::voice_messages(synth, 2, color.2, bounds, velocity, audible, retrigger);
    lemma_voice_balances(synth, 0, color.0, bounds, velocity, audible, retrigger, note);
    lemma_voice_balances(synth, 1, color.1, bounds, velocity, audible, retrigger, note);
    lemma_voice_balances(synth, 2, color.2, bounds, velocity, audible, retrigger, note);
    lemma_net_concat(a, b, note);
    lemma_net_concat(a + b, c, note);
}

/// No note is ever stuck: the Note Ons and Note Offs of a played pixel make
/// up exactly for what the synth sounds after it and did not before, note by
/// note, on its port and channel.
pub proof fn played_pixel_leaves_no_note_stuck(
    synth: Synth,
    head: Playhead,
    tone: PixelTone,
    bounds: RangeBounds,
    note: u8,
)
    ensures
        net(playback::performance(synth, head, tone, bounds), note) == sounds(
            playback::performed(synth, head, tone, bounds),
            note,
        ) - sounds(synth, note),
        go_to(
            playback::performance(synth, head, tone, bounds),
            synth.midi_port,
            synth.channel,
        ),
{
    let voiced = Synth { velocity: tone.velocity, ..synth };
    let audible = !playback::rests(synth, head, tone);
    let retrigger = playback::retriggers(synth);
    let color = (head.r, head.g, head.b);
    match synth.mode {
        SynthMode::Monophonic => {
            lemma_mono_balances(
                voiced,
                tone.position as int,
                bounds,
                tone.velocity,
                audible,
                retrigger,
                note,
            );
            lemma_articulation_goes_to(
                synth.midi_port,
                synth.channel,
                playback::mono_voice(voiced),
                playback::mono_note(voiced, tone.position as int, bounds),
                tone.velocity,
                audible,
                retrigger,
            );
        },
        SynthMode::Polyphonic => {
            lemma_chord_balances(
                voiced,
                color,
                bounds,
                tone.velocity,
                audible,
                retrigger,
                note,
            );
            lemma_voices_go_to(voiced, color, bounds, tone.velocity, audible, retrigger);
        },
    }
    let after = playback::articulated(synth, head, tone, bounds);
    releases_match_what_sounds(after, note);
    lemma_net_concat(
        playback::articulation_messages(synth, head, tone, bounds),
        if synth.note_sustain {
            Seq::empty()
        } else {
            playback::releases(after)
        },
        note,
    );
    lemma_go_to_concat(
        playback::articulation_messages(synth, head, tone, bounds),
        if synth.note_sustain {
            Seq::empty()
        } else {
            playback::releases(after)
        },
        synth.midi_port,
        synth.channel,
    );
}

proof fn lemma_articulation_goes_to(
    port: usize,
    channel: u8,
    was: ChannelVoice,
    note: u8,
    velocity: u8,
    audible: bool,
    retrigger: bool,
)
    ensures
        go_to(
            playback::articulation(port, channel, was, note, velocity, audible, retrigger),
            port,
            channel,
        ),
{
}

proof fn lemma_voices_go_to(
    synth: Synth,
    color: (u8, u8, u8),
    bounds: RangeBounds,
    velocity: u8,
    audible: bool,
    retrigger: bool,
)
    ensures
        go_to(
            playback::chord_messages(synth, color, bounds, velocity, audible, retrigger),
            synth.midi_port,
            synth.channel,
        ),
{
    let port = synth.midi_port;
    let channel = synth.channel;
    let a = playback::voice_messages(synth, 0, color.0, bounds, velocity, audible, retrigger);
    let b = playback::voice_messages(synth, 1, color.1, bounds, velocity, audible, retrigger);
    let c = playback::voice_messages(synth, 2, color.2, bounds, velocity, audible, retrigger);
    lemma_articulation_goes_to(
        port,
        channel,
        synth.poly_voices@[0],
        playback::voice_note(synth, 0, color.0, bounds),
        velocity,
        synth.channel_enabled@[0] && audible,
        retrigger,
    );
    lemma_articulation_goes_to(
        port,
        channel,
        synth.poly_voices@[1],
        playback::voice_note(synth, 1, color.1, bounds),
        velocity,
        synth.channel_enabled@[1] && audible,
        retrigger,
    );
    lemma_articulation_goes_to(
        port,
        channel,
        synth.poly_voices@[2],
        playback::voice_note(synth, 2, color.2, bounds),
        velocity,
        synth.channel_enabled@[2] && audible,
        retrigger,
    );
    lemma_go_to_concat(a, b, port, channel);
    lemma_go_to_concat(a + b, c, port, channel);
}

/// Pizzicato: without sustain, a played pixel leaves the synth silent.
pub proof fn pizzicato_leaves_silence(
    synth: Synth,
    head: Playhead,
    tone: PixelTone,
    bounds: RangeBounds,
    note: u8,
)
    requires
        !synth.note_sustain,
    ensures
        sounds(playback::performed(synth, head, tone, bounds), note) == 0,
{
}

/// Legato: as long as the note stays the same and audible, and the pixels are
/// not articulated one by one, nothing is sent.
pub proof fn legato_sends_nothing(
    port: usize,
    channel: u8,
    voice: ChannelVoice,
    velocity: u8,
)
    requires
        voice.note_is_on,
    ensures
        playback::articulation(port, channel, voice, voice.note, velocity, true, false).len() == 0,
{
}

/// A pixel that rests strikes no note (it is silent in monophonic mode, and
/// all its voices are in polyphonic mode), and the playhead still travels over
/// it.
pub proof fn resting_pixel_is_silent(
    synth: Synth,
    head: Playhead,
    tone: PixelTone,
    bounds: RangeBounds,
)
    requires
        playback::rests(synth, head, tone),
    ensures
        ({
            let after = playback::performed(synth, head, tone, bounds);
            &&& match synth.mode {
                SynthMode::Monophonic => !after.note_is_on,
                SynthMode::Polyphonic => forall|voice: int|
                    0 <= voice < 3 ==> !(#[trigger] after.poly_voices@[voice]).note_is_on,
            }
            &&& after.cursor == playback::travelled(
                head.pos,
                head.length,
                synth.play_forward,
                synth.loop_enabled,
                synth.back_and_forth,
            ).cursor
        }),
{
}

/// Where the playhead is after some steps, and its travel direction.
pub open spec fn travelled_by(
    pos: usize,
    length: usize,
    forward: bool,
    loop_enabled: bool,
    back_and_forth: bool,
    steps: nat,
) -> (usize, bool)
    decreases steps,
{
    if steps == 0 {
        (pos, forward)
    } else {
        let (at, onward) = travelled_by(
            pos,
            length,
            forward,
            loop_enabled,
            back_and_forth,
            (steps - 1) as nat,
        );
        let next = playback::travelled(at, length, onward, loop_enabled, back_and_forth);
        (next.cursor, next.forward)
    }
}

/// The playhead never leaves its sequence.
pub proof fn playhead_stays_in_the_sequence(
    pos: usize,
    length: usize,
    forward: bool,
    loop_enabled: bool,
    back_and_forth: bool,
    steps: nat,
)
    requires
        pos < length,
    ensures
        travelled_by(pos, length, forward, loop_enabled, back_and_forth, steps).0 < length,
    decreases steps,
{
    if steps > 0 {
        playhead_stays_in_the_sequence(
            pos,
            length,
            forward,
            loop_enabled,
            back_and_forth,
            (steps - 1) as nat,
        );
    }
}

/// A loop runs through the sequence over and over: forward, the place after
/// `steps` steps is that many further, counted around.
pub proof fn loop_runs_around_forward(
    pos: usize,
    length: usize,
    back_and_forth: bool,
    steps: nat,
)
    requires
        pos < length,
    ensures
        travelled_by(pos, length, true, true, back_and_forth, steps) == (
            ((pos + steps) % length as int) as usize,
            true,
        ),
    decreases steps,
{
    vstd::arithmetic::div_mod::lemma_mod_bound(pos + steps, length as int);
    if steps == 0 {
        vstd::arithmetic::div_mod::lemma_small_mod(pos as nat, length as nat);
    } else {
        loop_runs_around_forward(pos, length, back_and_forth, (steps - 1) as nat);
        lemma_next_around(pos + steps - 1, length as int);
        vstd::arithmetic::div_mod::lemma_mod_bound(pos + steps - 1, length as int);
    }
}

/// The same backward.
pub proof fn loop_runs_around_backward(
    pos: usize,
    length: usize,
    back_and_forth: bool,
    steps: nat,
)
    requires
        pos < length,
    ensures
        travelled_by(pos, length, false, true, back_and_forth, steps) == (
            ((pos - steps) % length as int) as usize,
            false,
        ),
    decreases steps,
{
    vstd::arithmetic::div_mod::lemma_mod_bound(pos - steps, length as int);
    if steps == 0 {
        vstd::arithmetic::div_mod::lemma_small_mod(pos as nat, length as nat);
    } else {
        loop_runs_around_backward(pos, length, back_and_forth, (steps - 1) as nat);
        lemma_next_around(pos - steps, length as int);
        vstd::arithmetic::div_mod::lemma_mod_bound(pos - steps, length as int);
        vstd::arithmetic::div_mod::lemma_mod_bound(pos - steps + 1, length as int);
    }
}

/// One further around a circle.
proof fn lemma_next_around(place: int, length: int)
    requires
        length > 0,
    ensures
        (place + 1) % length == (if place % length == length - 1 {
            0
        } else {
            place % length + 1
        }),
{
    let quotient = place / length;
    vstd::arithmetic::div_mod::lemma_fundamental_div_mod(place, length);
    vstd::arithmetic::div_mod::lemma_mod_bound(place, length);
    if place % length == length - 1 {
        assert(place + 1 == (quotient + 1) * length + 0) by (nonlinear_arith)
            requires
                place == length * quotient + (length - 1),
        ;
        vstd::arithmetic::div_mod::lemma_fundamental_div_mod_converse(
            place + 1,
            length,
            quotient + 1,
            0,
        );
    } else {
        assert(place + 1 == quotient * length + (place % length + 1)) by (nonlinear_arith)
            requires
                place == length * quotient + place % length,
        ;
        vstd::arithmetic::div_mod::lemma_fundamental_div_mod_converse(
            place + 1,
            length,
            quotient,
            place % length + 1,
        );
    }
}

/// Back-and-forth bounces between the bounds of the sequence: from the
/// beginning the playhead climbs to the last pixel, and descends to the first
/// one again, over and over.
pub proof fn back_and_forth_bounces(length: usize, steps: nat)
    requires
        length > 1,
    ensures
        ({
            let turn = steps as int % (2 * (length - 1));
            travelled_by(0, length, true, false, true, steps) == (if turn == 0 && steps > 0 {
                (0usize, false)
            } else if turn <= length - 1 {
                (turn as usize, true)
            } else {
                ((2 * (length - 1) - turn) as usize, false)
            })
        }),
    decreases steps,
{
    let period = 2 * (length - 1);
    vstd::arithmetic::div_mod::lemma_mod_bound(steps as int, period);
    if steps == 0 {
        vstd::arithmetic::div_mod::lemma_small_mod(0, period as nat);
    } else {
        back_and_forth_bounces(length, (steps - 1) as nat);
        lemma_next_around(steps - 1, period);
        vstd::arithmetic::div_mod::lemma_mod_bound(steps - 1, period);
    }
}

/// A loop and a bounce never end; a one-shot sequence read forward ends with
/// its last pixel, and with no other.
pub proof fn only_one_shot_playback_ends(
    pos: usize,
    length: usize,
    forward: bool,
    loop_enabled: bool,
    back_and_forth: bool,
)
    requires
        pos < length,
    ensures
        playback::travelled(pos, length, forward, loop_enabled, back_and_forth).end_pending <==> (
        !loop_enabled && !back_and_forth && (if forward {
            pos + 1 == length
        } else {
            pos == 0
        })),
{
}

/// A one-shot sequence plays each pixel once, in its order, up to the last.
pub proof fn one_shot_plays_each_pixel_in_turn(length: usize, steps: nat)
    requires
        steps < length,
    ensures
        travelled_by(0, length, true, false, false, steps) == (steps as usize, true),
    decreases steps,
{
    if steps > 0 {
        one_shot_plays_each_pixel_in_turn(length, (steps - 1) as nat);
    }
}

/// The final note of a one-shot sequence rings for a full step: the pixel
/// after it is none, and the step that finds none stops the synth and
/// releases its notes.
pub proof fn one_shot_playback_stops_after_its_last_pixel(
    synth: Synth,
    image: image::DynamicImage,
    head: Option<Playhead>,
    tone: PixelTone,
    bounds: RangeBounds,
    note: u8,
)
    requires
        synth.playing,
        synth.end_pending,
        !synth.loop_enabled,
        playback::is_playhead(head, synth, image),
    ensures
        head is None,
        !playback::after_step(synth, head, tone, bounds).playing,
        playback::after_step(synth, head, tone, bounds).cursor == 0,
        sounds(playback::after_step(synth, head, tone, bounds), note) == 0,
{
}

/// Emptying the zones of a playing synth stops it cleanly: its notes are
/// released.
pub proof fn emptied_zones_stop_the_synth(
    synth: Synth,
    image: image::DynamicImage,
    head: Option<Playhead>,
    tone: PixelTone,
    bounds: RangeBounds,
    note: u8,
)
    requires
        synth.playing,
        synth.zones@.len() == 0,
        raster::image_size(image).0 * raster::image_size(image).1 <= usize::MAX,
        playback::is_playhead(head, synth, image),
    ensures
        head is None,
        !playback::after_step(synth, head, tone, bounds).playing,
        sounds(playback::after_step(synth, head, tone, bounds), note) == 0,
{
    sequence_laws::no_zone_reads_nothing(
        raster::image_size(image).0 as usize,
        raster::image_size(image).1 as usize,
        synth.reading_direction,
        synth.sorted_reading,
    );
    assert(synth.zones@ =~= Seq::empty());
}

/// True of a run of steps over an image: before step `i` the synth is
/// `synths[i]`, `heads[i]` is the pixel under its playhead, and the step makes
/// it `synths[i + 1]`.
pub open spec fn is_run(
    synths: Seq<Synth>,
    heads: Seq<Option<Playhead>>,
    tones: Seq<PixelTone>,
    image: image::DynamicImage,
    bounds: RangeBounds,
) -> bool {
    &&& synths.len() == heads.len() + 1
    &&& tones.len() == heads.len()
    &&& forall|i: int|
        0 <= i < heads.len() ==> {
            &&& playback::is_playhead(#[trigger] heads[i], synths[i], image)
            &&& synths[i + 1] == playback::after_step(synths[i], heads[i], tones[i], bounds)
        }
}

/// True when two synths read the same pixels in the same way.
pub open spec fn reads_alike(a: Synth, b: Synth) -> bool {
    &&& a.zones == b.zones
    &&& a.reading_direction == b.reading_direction
    &&& a.sorted_reading == b.sorted_reading
    &&& a.loop_enabled == b.loop_enabled
    &&& a.back_and_forth == b.back_and_forth
    &&& a.playing == b.playing
}

proof fn lemma_played_pixel_moves_on(
    synth: Synth,
    head: Playhead,
    tone: PixelTone,
    bounds: RangeBounds,
)
    ensures
        ({
            let after = playback::performed(synth, head, tone, bounds);
            let next = playback::travelled(
                head.pos,
                head.length,
                synth.play_forward,
                synth.loop_enabled,
                synth.back_and_forth,
            );
            &&& reads_alike(after, synth)
            &&& after.cursor == next.cursor
            &&& after.play_forward == next.forward
            &&& after.end_pending == next.end_pending
        }),
{
}

/// As long as there are pixels to play, the playhead of a run travels.
proof fn lemma_run_travels(
    synths: Seq<Synth>,
    heads: Seq<Option<Playhead>>,
    tones: Seq<PixelTone>,
    image: image::DynamicImage,
    bounds: RangeBounds,
    steps: nat,
)
    requires
        is_run(synths, heads, tones, image, bounds),
        steps < heads.len(),
        forall|i: int| 0 <= i <= steps ==> (#[trigger] heads[i]) is Some,
    ensures
        reads_alike(synths[steps as int], synths[0]),
        playback::reading(synths[steps as int], image) == playback::reading(synths[0], image),
        heads[steps as int]->0.length == heads[0]->0.length,
        heads[0]->0.pos < heads[0]->0.length,
        (heads[steps as int]->0.pos, synths[steps as int].play_forward) == travelled_by(
            heads[0]->0.pos,
            heads[0]->0.length,
            synths[0].play_forward,
            synths[0].loop_enabled,
            synths[0].back_and_forth,
            steps,
        ),
    decreases steps,
{
    assert(heads[0] is Some);
    assert(heads[steps as int] is Some);
    if steps > 0 {
        let last = steps - 1;
        lemma_run_travels(synths, heads, tones, image, bounds, last as nat);
        assert(heads[last] is Some);
        lemma_played_pixel_moves_on(synths[last], heads[last]->0, tones[last], bounds);
        assert(synths[last + 1] == playback::after_step(
            synths[last],
            heads[last],
            tones[last],
            bounds,
        ));
        let length = heads[0]->0.length;
        playhead_stays_in_the_sequence(
            heads[0]->0.pos,
            length,
            synths[0].play_forward,
            synths[0].loop_enabled,
            synths[0].back_and_forth,
            steps,
        );
        vstd::arithmetic::div_mod::lemma_small_mod(
            synths[steps as int].cursor as nat,
            length as nat,
        );
    }
}

/// A loop and a bounce always find a pixel to play.
proof fn lemma_endless_run_plays_on(
    synths: Seq<Synth>,
    heads: Seq<Option<Playhead>>,
    tones: Seq<PixelTone>,
    image: image::DynamicImage,
    bounds: RangeBounds,
    step: int,
)
    requires
        is_run(synths, heads, tones, image, bounds),
        synths[0].loop_enabled || (synths[0].back_and_forth && !synths[0].end_pending),
        playback::reading(synths[0], image).len() > 0,
        0 <= step < heads.len(),
    ensures
        forall|i: int| 0 <= i <= step ==> (#[trigger] heads[i]) is Some,
    decreases step,
{
    assert(playback::is_playhead(heads[0], synths[0], image));
    if step > 0 {
        lemma_endless_run_plays_on(synths, heads, tones, image, bounds, step - 1);
        lemma_run_travels(synths, heads, tones, image, bounds, (step - 1) as nat);
        assert(heads[step - 1] is Some);
        lemma_played_pixel_moves_on(
            synths[step - 1],
            heads[step - 1]->0,
            tones[step - 1],
            bounds,
        );
        assert(playback::is_playhead(heads[step], synths[step], image));
    }
}

/// A looping synth runs through its sequence over and over: step after step
/// it plays the next pixel in its travel direction, counted around.
pub proof fn looping_synth_plays_around(
    synths: Seq<Synth>,
    heads: Seq<Option<Playhead>>,
    tones: Seq<PixelTone>,
    image: image::DynamicImage,
    bounds: RangeBounds,
    step: int,
)
    requires
        is_run(synths, heads, tones, image, bounds),
        synths[0].loop_enabled,
        playback::reading(synths[0], image).len() > 0,
        0 <= step < heads.len(),
    ensures
        ({
            let sequence = playback::reading(synths[0], image);
            let length = sequence.len() as int;
            let start = synths[0].cursor as int % length;
            let place = if synths[0].play_forward {
                (start + step) % length
            } else {
                (start - step) % length
            };
            &&& heads[step] matches Some(head)
            &&& head.pos == place
            &&& head.pixel == sequence[place]
        }),
{
    lemma_endless_run_plays_on(synths, heads, tones, image, bounds, step);
    assert(heads[0] is Some);
    assert(heads[step] is Some);
    lemma_run_travels(synths, heads, tones, image, bounds, step as nat);
    let first = heads[0]->0;
    if synths[0].play_forward {
        loop_runs_around_forward(
            first.pos,
            first.length,
            synths[0].back_and_forth,
            step as nat,
        );
        vstd::arithmetic::div_mod::lemma_mod_bound(first.pos + step, first.length as int);
    } else {
        loop_runs_around_backward(
            first.pos,
            first.length,
            synths[0].back_and_forth,
            step as nat,
        );
        vstd::arithmetic::div_mod::lemma_mod_bound(first.pos - step, first.length as int);
    }
}

/// A synth that goes back and forth, from the beginning, climbs to the last
/// pixel of its sequence and descends to the first one again, over and over,
/// playing the bounds once at each turn. A single pixel is played again and
/// again.
pub proof fn bouncing_synth_plays_back_and_forth(
    synths: Seq<Synth>,
    heads: Seq<Option<Playhead>>,
    tones: Seq<PixelTone>,
    image: image::DynamicImage,
    bounds: RangeBounds,
    step: int,
)
    requires
        is_run(synths, heads, tones, image, bounds),
        !synths[0].loop_enabled,
        synths[0].back_and_forth,
        synths[0].play_forward,
        !synths[0].end_pending,
        synths[0].cursor == 0,
        playback::reading(synths[0], image).len() > 0,
        0 <= step < heads.len(),
    ensures
        ({
            let sequence = playback::reading(synths[0], image);
            let last = sequence.len() - 1;
            let turn = step % (2 * last);
            let place = if last == 0 {
                0
            } else if turn <= last {
                turn
            } else {
                2 * last - turn
            };
            &&& heads[step] matches Some(head)
            &&& head.pos == place
            &&& head.pixel == sequence[place]
        }),
{
    lemma_endless_run_plays_on(synths, heads, tones, image, bounds, step);
    assert(heads[0] is Some);
    assert(heads[step] is Some);
    lemma_run_travels(synths, heads, tones, image, bounds, step as nat);
    let first = heads[0]->0;
    vstd::arithmetic::div_mod::lemma_small_mod(0, first.length as nat);
    playhead_stays_in_the_sequence(0, first.length, true, false, true, step as nat);
    if first.length > 1 {
        back_and_forth_bounces(first.length, step as nat);
        vstd::arithmetic::div_mod::lemma_mod_bound(step, 2 * (first.length - 1));
    }
}

proof fn lemma_one_shot_run_plays_on(
    synths: Seq<Synth>,
    heads: Seq<Option<Playhead>>,
    tones: Seq<PixelTone>,
    image: image::DynamicImage,
    bounds: RangeBounds,
    step: int,
)
    requires
        is_run(synths, heads, tones, image, bounds),
        !synths[0].loop_enabled,
        !synths[0].back_and_forth,
        synths[0].play_forward,
        !synths[0].end_pending,
        synths[0].cursor == 0,
        0 <= step < heads.len(),
        step < playback::reading(synths[0], image).len(),
    ensures
        forall|i: int|
            0 <= i <= step ==> ((#[trigger] heads[i]) matches Some(head) && head.pos == i),
        synths[step].play_forward,
        reads_alike(synths[step], synths[0]),
        playback::reading(synths[step], image) == playback::reading(synths[0], image),
    decreases step,
{
    assert(playback::is_playhead(heads[0], synths[0], image));
    let length = playback::reading(synths[0], image).len();
    vstd::arithmetic::div_mod::lemma_small_mod(0, length);
    if step > 0 {
        lemma_one_shot_run_plays_on(synths, heads, tones, image, bounds, step - 1);
        assert(heads[step - 1] is Some);
        assert(playback::is_playhead(heads[step - 1], synths[step - 1], image));
        lemma_played_pixel_moves_on(
            synths[step - 1],
            heads[step - 1]->0,
            tones[step - 1],
            bounds,
        );
        assert(playback::is_playhead(heads[step], synths[step], image));
        vstd::arithmetic::div_mod::lemma_small_mod(synths[step].cursor as nat, length);
    }
}

/// A one-shot synth, started at the beginning, plays each pixel of its
/// sequence once and in order; the step after the last one plays nothing, and
/// stops the synth with its notes released.
pub proof fn one_shot_synth_plays_once(
    synths: Seq<Synth>,
    heads: Seq<Option<Playhead>>,
    tones: Seq<PixelTone>,
    image: image::DynamicImage,
    bounds: RangeBounds,
    step: int,
    note: u8,
)
    requires
        is_run(synths, heads, tones, image, bounds),
        synths[0].playing,
        !synths[0].loop_enabled,
        !synths[0].back_and_forth,
        synths[0].play_forward,
        !synths[0].end_pending,
        synths[0].cursor == 0,
        playback::reading(synths[0], image).len() > 0,
        0 <= step < heads.len(),
        step <= playback::reading(synths[0], image).len(),
    ensures
        ({
            let sequence = playback::reading(synths[0], image);
            if step < sequence.len() {
                &&& heads[step] matches Some(head)
                &&& head.pos == step
                &&& head.pixel == sequence[step]
                &&& synths[step + 1].playing
            } else {
                &&& heads[step] is None
                &&& !synths[step + 1].playing
                &&& synths[step + 1].cursor == 0
                &&& sounds(synths[step + 1], note) == 0
            }
        }),
{
    let length = playback::reading(synths[0], image).len();
    let last = if step < length {
        step
    } else {
        step - 1
    };
    lemma_one_shot_run_plays_on(synths, heads, tones, image, bounds, last);
    assert(heads[last] is Some);
    assert(playback::is_playhead(heads[last], synths[last], image));
    lemma_played_pixel_moves_on(synths[last], heads[last]->0, tones[last], bounds);
    assert(playback::is_playhead(heads[step], synths[step], image));
    if step == length {
        one_shot_playback_stops_after_its_last_pixel(
            synths[step],
            image,
            heads[step],
            tones[step],
            bounds,
            note,
        );
    }
}

/// True when all messages are Note Offs.
spec fn only_offs(messages: Seq<NoteMessage>) -> bool {
    forall|i: int| 0 <= i < messages.len() ==> (#[trigger] messages[i]) is Off
}

/// True when every Note On among the messages is the given one.
spec fn strikes_only(messages: Seq<NoteMessage>, strike: NoteMessage) -> bool {
    forall|i: int| 0 <= i < messages.len() && (#[trigger] messages[i]) is On ==> messages[i] == strike
}

proof fn lemma_releases_are_offs(synth: Synth)
    ensures
        only_offs(playback::releases(synth)),
{
}

/// The number of Note Ons among some messages.
pub open spec fn strikes(messages: Seq<NoteMessage>) -> int
    decreases messages.len(),
{
    if messages.len() == 0 {
        0
    } else {
        strikes(messages.drop_last()) + (if messages.last() is On {
            1int
        } else {
            0
        })
    }
}

proof fn lemma_strikes_concat(a: Seq<NoteMessage>, b: Seq<NoteMessage>)
    ensures
        strikes(a + b) == strikes(a) + strikes(b),
    decreases b.len(),
{
    if b.len() == 0 {
        assert(a + b =~= a);
    } else {
        lemma_strikes_concat(a, b.drop_last());
        assert((a + b).drop_last() =~= a + b.drop_last());
    }
}

proof fn lemma_no_strikes(messages: Seq<NoteMessage>)
    requires
        only_offs(messages),
    ensures
        strikes(messages) == 0,
    decreases messages.len(),
{
    if messages.len() > 0 {
        lemma_no_strikes(messages.drop_last());
    }
}

proof fn lemma_articulation_strikes(
    port: usize,
    channel: u8,
    was: ChannelVoice,
    note: u8,
    velocity: u8,
    audible: bool,
    retrigger: bool,
)
    ensures
        strikes(playback::articulation(port, channel, was, note, velocity, audible, retrigger)) == (
        if playback::struck(was, note, audible, retrigger) {
            1int
        } else {
            0
        }),
{
    reveal_with_fuel(strikes, 3);
    let messages = playback::articulation(port, channel, was, note, velocity, audible, retrigger);
    if messages.len() == 1 {
        assert(messages.drop_last() =~= Seq::empty());
    } else if messages.len() == 2 {
        assert(messages.drop_last().drop_last() =~= Seq::empty());
        assert(messages.drop_last().last() == messages[0]);
    }
}

/// One voice from its note to the next: a note that sounded ends before the
/// next begins; what is to sound and does not yet is struck; with `retrigger`
/// it is struck anew even where the note stays; without, a note that stays is
/// left sounding. What is silent and stays so sends nothing.
pub proof fn voices_are_led_from_note_to_note(
    port: usize,
    channel: u8,
    was: ChannelVoice,
    note: u8,
    velocity: u8,
    audible: bool,
    retrigger: bool,
)
    ensures
        ({
            let messages = playback::articulation(
                port,
                channel,
                was,
                note,
                velocity,
                audible,
                retrigger,
            );
            let off = NoteMessage::Off { port, channel, note: was.note };
            let on = NoteMessage::On { port, channel, note, velocity };
            messages == (if was.note_is_on && audible {
                if was.note == note && !retrigger {
                    Seq::empty()
                } else {
                    seq![off, on]
                }
            } else if was.note_is_on {
                seq![off]
            } else if audible {
                seq![on]
            } else {
                Seq::empty()
            })
        }),
{
    let messages = playback::articulation(port, channel, was, note, velocity, audible, retrigger);
    let off = NoteMessage::Off { port, channel, note: was.note };
    let on = NoteMessage::On { port, channel, note, velocity };
    assert(messages =~= (if was.note_is_on && audible {
        if was.note == note && !retrigger {
            Seq::empty()
        } else {
            seq![off, on]
        }
    } else if was.note_is_on {
        seq![off]
    } else if audible {
        seq![on]
    } else {
        Seq::empty()
    }));
}

/// A pixel rests when its brightness is outside the window of the synth, or
/// when it lies in one of the zones silenced by hand; the bounds of the window
/// sound.
pub proof fn pixels_rest_outside_the_window(synth: Synth, head: Playhead, tone: PixelTone)
    ensures
        playback::rests(synth, head, tone) <==> {
            ||| tone.brightness_level < synth.brightness_min
            ||| tone.brightness_level > synth.brightness_max
            ||| sequence::selected(synth.mute_zones@, head.x as int, head.y as int)
        },
{
}

/// The value of the color channel that a voice plays: red, green, blue.
pub open spec fn channel_value(head: Playhead, voice: int) -> u8 {
    if voice == 0 {
        head.r
    } else if voice == 1 {
        head.g
    } else {
        head.b
    }
}

/// In polyphonic mode each color channel is a voice of its own: its note is
/// the pitch of the synth's scale, within the ranges enabled for that voice,
/// nearest to the channel value's place among them. The voice sounds when its
/// channel is enabled and the pixel does not rest.
pub proof fn chord_is_in_the_scale(
    synth: Synth,
    head: Playhead,
    tone: PixelTone,
    bounds: RangeBounds,
    voice: int,
)
    requires
        synth.mode is Polyphonic,
        0 <= voice < 3,
        pitch_laws::bounds_in_order(bounds, synth.voice_note_ranges@[voice]),
    ensures
        ({
            let toggles = synth.voice_note_ranges@[voice];
            let last = pitch_laws::playable_below(256, bounds, toggles) - 1;
            let after = playback::articulated(synth, head, tone, bounds).poly_voices@[voice];
            &&& after.note_is_on <==> synth.channel_enabled@[voice] && !playback::rests(
                synth,
                head,
                tone,
            )
            &&& exists|place: int|
                -255 < 2 * (255 * place - channel_value(head, voice) * last) < 255
                    && #[trigger] pitch_laws::lands(
                    after.note,
                    place,
                    synth.scale,
                    synth.scale_root,
                    bounds,
                    toggles,
                )
        }),
{
    let toggles = synth.voice_note_ranges@[voice];
    let total = pitch::total_notes(pitch::playable_ranges(bounds, toggles));
    let value = channel_value(head, voice);
    let place = pitch::channel_place(value, total);
    pitch_laws::playable_total_counts_each_note_once(bounds, toggles);
    pitch_laws::some_note_is_playable(bounds, toggles);
    pitch_laws::channel_place_is_the_nearest(value, total);
    pitch_laws::places_land_in_the_scale(place, synth.scale, synth.scale_root, bounds, toggles);
    let after = playback::articulated(synth, head, tone, bounds).poly_voices@[voice];
    assert(after.note == pitch::effective_note(
        place,
        synth.scale,
        synth.scale_root,
        bounds,
        toggles,
    ));
}

/// In monophonic mode the note is the pitch of the synth's scale, within its
/// enabled ranges, nearest to the place of the hue among them.
pub proof fn single_note_is_in_the_scale(
    synth: Synth,
    head: Playhead,
    tone: PixelTone,
    bounds: RangeBounds,
)
    requires
        synth.mode is Monophonic,
        pitch_laws::bounds_in_order(bounds, synth.mono_note_range),
        0 <= tone.position < pitch_laws::playable_below(256, bounds, synth.mono_note_range),
    ensures
        ({
            let after = playback::articulated(synth, head, tone, bounds);
            &&& after.note_is_on <==> !playback::rests(synth, head, tone)
            &&& pitch_laws::lands(
                after.note,
                tone.position as int,
                synth.scale,
                synth.scale_root,
                bounds,
                synth.mono_note_range,
            )
        }),
{
    pitch_laws::places_land_in_the_scale(
        tone.position as int,
        synth.scale,
        synth.scale_root,
        bounds,
        synth.mono_note_range,
    );
}

proof fn lemma_articulation_on(
    port: usize,
    channel: u8,
    was: ChannelVoice,
    note: u8,
    velocity: u8,
    audible: bool,
    retrigger: bool,
)
    ensures
        strikes_only(
            playback::articulation(port, channel, was, note, velocity, audible, retrigger),
            NoteMessage::On { port, channel, note, velocity },
        ),
        !audible ==> only_offs(
            playback::articulation(port, channel, was, note, velocity, audible, retrigger),
        ),
{
}

/// Every Note On of a played pixel is sent with the velocity of the pixel on
/// the port and channel of the synth, and is that of a note which the pixel
/// comes to: the single note, or that of an enabled voice. A resting pixel
/// sends none.
pub proof fn strikes_are_the_notes_of_the_pixel(
    synth: Synth,
    head: Playhead,
    tone: PixelTone,
    bounds: RangeBounds,
    i: int,
)
    requires
        0 <= i < playback::performance(synth, head, tone, bounds).len(),
        playback::performance(synth, head, tone, bounds)[i] is On,
    ensures
        ({
            let after = playback::articulated(synth, head, tone, bounds);
            &&& !playback::rests(synth, head, tone)
            &&& playback::performance(synth, head, tone, bounds)[i] matches NoteMessage::On {
                port,
                channel,
                note,
                velocity,
            }
            &&& port == synth.midi_port
            &&& channel == synth.channel
            &&& velocity == tone.velocity
            &&& match synth.mode {
                SynthMode::Monophonic => note == after.note,
                SynthMode::Polyphonic => exists|voice: int|
                    0 <= voice < 3 && #[trigger] synth.channel_enabled@[voice] && note
                        == after.poly_voices@[voice].note,
            }
        }),
{
    let messages = playback::performance(synth, head, tone, bounds);
    let voiced = Synth { velocity: tone.velocity, ..synth };
    let audible = !playback::rests(synth, head, tone);
    let retrigger = playback::retriggers(synth);
    let first = playback::articulation_messages(synth, head, tone, bounds);
    lemma_releases_are_offs(playback::articulated(synth, head, tone, bounds));
    if i >= first.len() {
        assert(messages[i] == playback::releases(
            playback::articulated(synth, head, tone, bounds),
        )[i - first.len()]);
    }
    assert(messages[i] == first[i]);
    let (port, channel, velocity) = (synth.midi_port, synth.channel, tone.velocity);
    match synth.mode {
        SynthMode::Monophonic => {
            lemma_articulation_on(
                port,
                channel,
                playback::mono_voice(voiced),
                playback::mono_note(voiced, tone.position as int, bounds),
                velocity,
                audible,
                retrigger,
            );
        },
        SynthMode::Polyphonic => {
            let a = playback::voice_messages(
                voiced,
                0,
                head.r,
                bounds,
                velocity,
                audible,
                retrigger,
            );
            let b = playback::voice_messages(
                voiced,
                1,
                head.g,
                bounds,
                velocity,
                audible,
                retrigger,
            );
            let c = playback::voice_messages(
                voiced,
                2,
                head.b,
                bounds,
                velocity,
                audible,
                retrigger,
            );
            lemma_articulation_on(
                port,
                channel,
                voiced.poly_voices@[0],
                playback::voice_note(voiced, 0, head.r, bounds),
                velocity,
                voiced.channel_enabled@[0] && audible,
                retrigger,
            );
            lemma_articulation_on(
                port,
                channel,
                voiced.poly_voices@[1],
                playback::voice_note(voiced, 1, head.g, bounds),
                velocity,
                voiced.channel_enabled@[1] && audible,
                retrigger,
            );
            lemma_articulation_on(
                port,
                channel,
                voiced.poly_voices@[2],
                playback::voice_note(voiced, 2, head.b, bounds),
                velocity,
                voiced.channel_enabled@[2] && audible,
                retrigger,
            );
            if i < a.len() {
                assert(first[i] == a[i]);
                assert(synth.channel_enabled@[0]);
            } else if i < a.len() + b.len() {
                assert(first[i] == b[i - a.len()]);
                assert(synth.channel_enabled@[1]);
            } else {
                assert(first[i] == c[i - a.len() - b.len()]);
                assert(synth.channel_enabled@[2]);
            }
        },
    }
}

proof fn lemma_chord_strikes(
    synth: Synth,
    color: (u8, u8, u8),
    bounds: RangeBounds,
    velocity: u8,
    audible: bool,
    retrigger: bool,
)
    ensures
        strikes(playback::chord_messages(synth, color, bounds, velocity, audible, retrigger))
            == playback::voices_struck(synth, color, bounds, audible, retrigger),
{
    let (port, channel) = (synth.midi_port, synth.channel);
    let a = playback::voice_messages(synth, 0, color.0, bounds, velocity, audible, retrigger);
    let b = playback::voice_messages(synth, 1, color.1, bounds, velocity, audible, retrigger);
    let c = playback::voice_messages(synth, 2, color.2, bounds, velocity, audible, retrigger);
    lemma_articulation_strikes(
        port,
        channel,
        synth.poly_voices@[0],
        playback::voice_note(synth, 0, color.0, bounds),
        velocity,
        synth.channel_enabled@[0] && audible,
        retrigger,
    );
    lemma_articulation_strikes(
        port,
        channel,
        synth.poly_voices@[1],
        playback::voice_note(synth, 1, color.1, bounds),
        velocity,
        synth.channel_enabled@[1] && audible,
        retrigger,
    );
    lemma_articulation_strikes(
        port,
        channel,
        synth.poly_voices@[2],
        playback::voice_note(synth, 2, color.2, bounds),
        velocity,
        synth.channel_enabled@[2] && audible,
        retrigger,
    );
    lemma_strikes_concat(a, b);
    lemma_strikes_concat(a + b, c);
}

/// The note generation counts the notes that are struck, starting over past
/// the last number. With note lengths enabled, a pixel that does not rest
/// strikes each of its voices.
pub proof fn generation_counts_the_strikes(
    synth: Synth,
    head: Playhead,
    tone: PixelTone,
    bounds: RangeBounds,
)
    ensures
        playback::performed(synth, head, tone, bounds).note_generation == (synth.note_generation
            + strikes(playback::performance(synth, head, tone, bounds))) % 0x1_0000_0000,
        retriggers_all(synth, head, tone) ==> strikes(
            playback::performance(synth, head, tone, bounds),
        ) == voices_heard(synth),
{
    let voiced = Synth { velocity: tone.velocity, ..synth };
    let audible = !playback::rests(synth, head, tone);
    let retrigger = playback::retriggers(synth);
    let first = playback::articulation_messages(synth, head, tone, bounds);
    let after = playback::articulated(synth, head, tone, bounds);
    let second = if synth.note_sustain {
        Seq::empty()
    } else {
        playback::releases(after)
    };
    assert(playback::performance(synth, head, tone, bounds) == first + second);
    lemma_releases_are_offs(after);
    lemma_no_strikes(second);
    lemma_strikes_concat(first, second);
    match synth.mode {
        SynthMode::Monophonic => {
            lemma_articulation_strikes(
                synth.midi_port,
                synth.channel,
                playback::mono_voice(voiced),
                playback::mono_note(voiced, tone.position as int, bounds),
                tone.velocity,
                audible,
                retrigger,
            );
        },
        SynthMode::Polyphonic => {
            lemma_chord_strikes(
                voiced,
                (head.r, head.g, head.b),
                bounds,
                tone.velocity,
                audible,
                retrigger,
            );
        },
    }
}

/// True when a pixel sounds and note lengths are enabled, so that it is
/// articulated as a note of its own.
pub open spec fn retriggers_all(synth: Synth, head: Playhead, tone: PixelTone) -> bool {
    synth.note_lengths@.len() > 0 && !playback::rests(synth, head, tone)
}

/// The voices of a synth that are heard: one, or as many as there are enabled
/// color channels.
pub open spec fn voices_heard(synth: Synth) -> int {
    match synth.mode {
        SynthMode::Monophonic => 1,
        SynthMode::Polyphonic => (if synth.channel_enabled@[0] {
            1int
        } else {
            0
        }) + (if synth.channel_enabled@[1] {
            1int
        } else {
            0
        }) + (if synth.channel_enabled@[2] {
            1int
        } else {
            0
        }),
    }
}

/// A played pixel changes only what playing is: the notes of the mode, the
/// velocity, and where the playhead is. The settings of the synth stay.
pub proof fn playing_leaves_the_settings_alone(
    synth: Synth,
    head: Playhead,
    tone: PixelTone,
    bounds: RangeBounds,
)
    ensures
        ({
            let after = playback::performed(synth, head, tone, bounds);
            &&& after == (Synth {
                note: after.note,
                note_is_on: after.note_is_on,
                poly_voices: after.poly_voices,
                active_note: after.active_note,
                note_generation: after.note_generation,
                velocity: tone.velocity,
                cursor: after.cursor,
                play_forward: after.play_forward,
                end_pending: after.end_pending,
                ..synth
            })
            &&& match synth.mode {
                SynthMode::Monophonic => {
                    &&& after.note == playback::articulated(synth, head, tone, bounds).note
                    &&& after.active_note <==> !playback::rests(synth, head, tone)
                    &&& after.note_is_on <==> synth.note_sustain && !playback::rests(
                        synth,
                        head,
                        tone,
                    )
                    &&& forall|voice: int|
                        0 <= voice < 3 ==> (#[trigger] after.poly_voices@[voice]).note
                            == synth.poly_voices@[voice].note
                },
                SynthMode::Polyphonic => {
                    &&& after.note == synth.note
                    &&& after.active_note <==> !playback::rests(synth, head, tone) && (
                    synth.channel_enabled@[0] || synth.channel_enabled@[1]
                        || synth.channel_enabled@[2])
                    &&& forall|voice: int|
                        0 <= voice < 3 ==> (#[trigger] after.poly_voices@[voice]).note
                            == playback::articulated(synth, head, tone, bounds).poly_voices@[voice].note
                            && (after.poly_voices@[voice].note_is_on <==> synth.note_sustain
                            && synth.channel_enabled@[voice] && !playback::rests(synth, head, tone))
                },
            }
        }),
{
}

/// The interface is told the notes that are played, and next to each the MIDI
/// note nearest to the raw channel value.
pub proof fn reports_tell_what_is_played(
    tick: PixelTick,
    synth: Synth,
    head: Playhead,
    tone: PixelTone,
    bounds: RangeBounds,
)
    requires
        playback::is_tick(tick, synth, head, tone, bounds),
    ensures
        tick.id == synth.id,
        tick.pixel == head.pixel,
        tick.r == head.r && tick.g == head.g && tick.b == head.b && tick.a == head.a,
        tick.mode == synth.mode,
        tick.velocity == tone.velocity,
        tick.brightness_level == tone.brightness_level,
        match tick.notes {
            NoteReport::Mono(report) => {
                &&& synth.mode is Monophonic
                &&& report.note == playback::performed(synth, head, tone, bounds).note
                &&& report.raw_note == tone.raw_note
                &&& report.muted <==> playback::rests(synth, head, tone)
            },
            NoteReport::Poly(report) => {
                let voices = playback::performed(synth, head, tone, bounds).poly_voices@;
                &&& synth.mode is Polyphonic
                &&& report.muted <==> playback::rests(synth, head, tone)
                &&& report.red.note == voices[0].note
                &&& report.green.note == voices[1].note
                &&& report.blue.note == voices[2].note
                &&& report.red.enabled == synth.channel_enabled@[0]
                &&& report.green.enabled == synth.channel_enabled@[1]
                &&& report.blue.enabled == synth.channel_enabled@[2]
                &&& report.red.muted <==> !report.red.enabled || report.muted
                &&& report.green.muted <==> !report.green.enabled || report.muted
                &&& report.blue.muted <==> !report.blue.enabled || report.muted
                &&& -255 < 2 * (report.red.raw_note * 255 - head.r * 127) < 255
                &&& -255 < 2 * (report.green.raw_note * 255 - head.g * 127) < 255
                &&& -255 < 2 * (report.blue.raw_note * 255 - head.b * 127) < 255
            },
        },
{
}

/// Inside its sequence the playhead moves by one in its travel direction. At
/// a bound a loop goes to the other one; back-and-forth turns round and goes
/// to the neighbor, unless there is none; a one-shot sequence stays.
pub proof fn playhead_moves_by_one(
    pos: usize,
    length: usize,
    forward: bool,
    loop_enabled: bool,
    back_and_forth: bool,
)
    requires
        pos < length,
    ensures
        ({
            let next = playback::travelled(pos, length, forward, loop_enabled, back_and_forth);
            let last = length - 1;
            &&& forward && pos < last ==> next.cursor == pos + 1 && next.forward
            &&& !forward && pos > 0 ==> next.cursor == pos - 1 && !next.forward
            &&& forward && pos == last && loop_enabled ==> next.cursor == 0 && next.forward
            &&& !forward && pos == 0 && loop_enabled ==> next.cursor == last && !next.forward
            &&& forward && pos == last && !loop_enabled && back_and_forth ==> !next.forward
                && next.cursor == (if last == 0 {
                0
            } else {
                last - 1
            })
            &&& !forward && pos == 0 && !loop_enabled && back_and_forth ==> next.forward
                && next.cursor == (if last == 0 {
                0
            } else {
                1int
            })
            &&& !loop_enabled && !back_and_forth && (if forward {
                pos == last
            } else {
                pos == 0
            }) ==> next.cursor == pos && next.forward == forward
        }),
{
}

/// A playing synth that finds no pixel stops at the beginning and silent, and
/// keeps everything else; one that is paused is left alone. Note lengths are
/// told for every played pixel where they are enabled, and for none otherwise.
pub proof fn steps_without_a_pixel_only_stop(
    synth: Synth,
    tone: PixelTone,
    bounds: RangeBounds,
    voice: int,
)
    requires
        0 <= voice < 3,
    ensures
        ({
            let after = playback::after_step(synth, None, tone, bounds);
            if synth.playing {
                &&& after == (Synth {
                    playing: false,
                    cursor: 0,
                    tempo_accumulator: after.tempo_accumulator,
                    note_is_on: false,
                    poly_voices: after.poly_voices,
                    ..synth
                })
                &&& after.tempo_accumulator.bits == 0
                &&& after.poly_voices@[voice].note == synth.poly_voices@[voice].note
                &&& !after.poly_voices@[voice].note_is_on
            } else {
                after == synth
            }
        }),
        playback::played_length(synth, tone.brightness_level) is Some
            <==> synth.note_lengths@.len() > 0,
{
}

/// Every Note On of a played pixel, in either mode, carries a pitch of the
/// synth's scale within the ranges enabled for the voice that plays it,
/// wherever there is one, and none of them is nearer to the note at the raw
/// place: that of the hue, or that of the voice's color channel.
pub proof fn every_strike_is_in_the_scale(
    synth: Synth,
    head: Playhead,
    tone: PixelTone,
    bounds: RangeBounds,
    i: int,
)
    requires
        0 <= i < playback::performance(synth, head, tone, bounds).len(),
        forall|k: int| 0 <= k < 3 ==> (#[trigger] bounds@[k]).0 <= bounds@[k].1,
        synth.mode is Monophonic ==> 0 <= tone.position < pitch_laws::playable_below(
            256,
            bounds,
            synth.mono_note_range,
        ),
    ensures
        playback::performance(synth, head, tone, bounds)[i] matches NoteMessage::On { note, .. }
            ==> match synth.mode {
            SynthMode::Monophonic => pitch_laws::lands(
                note,
                tone.position as int,
                synth.scale,
                synth.scale_root,
                bounds,
                synth.mono_note_range,
            ),
            SynthMode::Polyphonic => exists|voice: int, place: int|
                {
                    let toggles = synth.voice_note_ranges@[voice];
                    let last = pitch_laws::playable_below(256, bounds, toggles) - 1;
                    &&& 0 <= voice < 3
                    &&& synth.channel_enabled@[voice]
                    &&& -255 < 2 * (255 * place - channel_value(head, voice) * last) < 255
                    &&& #[trigger] pitch_laws::lands(
                        note,
                        place,
                        synth.scale,
                        synth.scale_root,
                        bounds,
                        synth.voice_note_ranges@[voice],
                    )
                },
        },
{
    if playback::performance(synth, head, tone, bounds)[i] is On {
        strikes_are_the_notes_of_the_pixel(synth, head, tone, bounds, i);
        match synth.mode {
            SynthMode::Monophonic => {
                single_note_is_in_the_scale(synth, head, tone, bounds);
            },
            SynthMode::Polyphonic => {
                let after = playback::articulated(synth, head, tone, bounds);
                let note = playback::performance(synth, head, tone, bounds)[i]->On_note;
                let voice = choose|voice: int|
                    0 <= voice < 3 && #[trigger] synth.channel_enabled@[voice] && note
                        == after.poly_voices@[voice].note;
                chord_is_in_the_scale(synth, head, tone, bounds, voice);
            },
        }
    }
}

/// What a step comes to: with a pixel under the playhead it is played, and
/// its messages and its length are told; without one a playing synth stops
/// and its notes are turned off, and a paused one stays idle.
pub proof fn steps_play_or_stop(
    outcome: StepOutcome,
    synth: Synth,
    head: Option<Playhead>,
    tone: PixelTone,
    bounds: RangeBounds,
    note: u8,
)
    requires
        playback::is_outcome(outcome, synth, head, tone, bounds),
    ensures
        match outcome {
            StepOutcome::Played { messages, tick, length } => {
                &&& head is Some
                &&& messages@ == playback::performance(synth, head->0, tone, bounds)
                &&& playback::is_tick(tick, synth, head->0, tone, bounds)
                &&& length == playback::played_length(synth, tone.brightness_level)
                &&& net(messages@, note) == sounds(
                    playback::after_step(synth, head, tone, bounds),
                    note,
                ) - sounds(synth, note)
            },
            StepOutcome::Stopped { messages } => {
                &&& head is None
                &&& synth.playing
                &&& net(messages@, note) == -sounds(synth, note)
                &&& go_to(messages@, synth.midi_port, synth.channel)
            },
            StepOutcome::Idle => head is None && !synth.playing,
        },
{
    if let Some(head) = head {
        played_pixel_leaves_no_note_stuck(synth, head, tone, bounds, note);
    }
    releases_match_what_sounds(synth, note);
}

} // verus!
