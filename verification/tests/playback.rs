use image::{DynamicImage, Rgba, RgbaImage};
use wysiwyl::error::AppError;
use wysiwyl::metronome::{
    is_due, ready_to_step, release_scheduled, step_synth, tick_synth, ScheduledRelease,
};
use wysiwyl::number::{Double, ZERO_BITS};
use wysiwyl::playback::{
    playhead, process_monophonic, process_polyphonic, release_all, step_synth_once, NoteMessage,
    NoteReport, PixelTone, Playhead, StepOutcome, VoiceReport,
};
use wysiwyl::rhythm::{length_beats, pick_note_length, rewound_accumulator};
use wysiwyl::state::{ChannelVoice, NoteLength, PixelZone, Synth, SynthMode, SynthState};
use wysiwyl::velocity::{bounded_velocity, velocity_bounds};

const BOUNDS: [(u8, u8); 3] = [(21, 47), (48, 71), (72, 108)];

fn tone(position: i16) -> PixelTone {
    PixelTone {
        brightness_level: 64,
        velocity: 90,
        raw_note: 33,
        position,
    }
}

fn on(note: u8) -> NoteMessage {
    NoteMessage::On {
        port: 0,
        channel: 0,
        note,
        velocity: 90,
    }
}

fn off(note: u8) -> NoteMessage {
    NoteMessage::Off {
        port: 0,
        channel: 0,
        note,
    }
}

fn double(value: f64) -> Double {
    Double {
        bits: value.to_bits(),
    }
}

/// A held-note synth with no note lengths over the top row of an image.
fn legato(pixels: u32) -> Synth {
    let mut synth = Synth::new(1);
    synth.note_sustain = true;
    synth.note_lengths = Vec::new();
    synth.zones = vec![PixelZone {
        x: 0,
        y: 0,
        w: pixels,
        h: 1,
    }];
    synth
}

/// An image of four columns and two rows, each pixel of its own color.
fn picture() -> DynamicImage {
    DynamicImage::ImageRgba8(RgbaImage::from_fn(4, 2, |x, y| {
        Rgba([x as u8 * 10, y as u8 * 20, 7, 200])
    }))
}

#[test]
fn monophonic_note_is_held_while_it_stays() {
    let mut synth = legato(4);
    let mut messages = Vec::new();
    let report = process_monophonic(&mut synth, &mut messages, &BOUNDS, tone(60), false, false);
    assert_eq!((report.note, report.raw_note, report.muted), (60, 33, false));
    assert_eq!(messages, vec![on(60)]);
    assert!(synth.note_is_on && synth.active_note);
    assert_eq!(synth.note_generation, 1);
    // the same note keeps sounding
    process_monophonic(&mut synth, &mut messages, &BOUNDS, tone(60), false, false);
    assert_eq!(messages, vec![on(60)]);
    assert_eq!(synth.note_generation, 1);
    // another one replaces it
    process_monophonic(&mut synth, &mut messages, &BOUNDS, tone(61), false, false);
    assert_eq!(messages, vec![on(60), off(60), on(61)]);
    // a forced articulation
    process_monophonic(&mut synth, &mut messages, &BOUNDS, tone(61), true, false);
    assert_eq!(messages[3..], [off(61), on(61)]);
    assert_eq!(synth.note_generation, 3);
    // a rest
    let report = process_monophonic(&mut synth, &mut messages, &BOUNDS, tone(50), true, true);
    assert!(report.muted);
    assert_eq!(messages[5..], [off(61)]);
    assert!(!synth.note_is_on && !synth.active_note);
    assert_eq!(synth.note, 50);
}

#[test]
fn pixels_outside_the_brightness_window_are_silent() {
    let mut synth = legato(4);
    synth.brightness_min = 65;
    let mut messages = Vec::new();
    let report = process_monophonic(&mut synth, &mut messages, &BOUNDS, tone(60), true, false);
    assert!(report.muted && messages.is_empty());
    synth.brightness_min = 64;
    synth.brightness_max = 64;
    let report = process_monophonic(&mut synth, &mut messages, &BOUNDS, tone(60), true, false);
    assert!(!report.muted);
    assert_eq!(messages, vec![on(60)]);
    synth.brightness_max = 63;
    process_monophonic(&mut synth, &mut messages, &BOUNDS, tone(60), false, false);
    assert_eq!(messages, vec![on(60), off(60)]);
}

#[test]
fn polyphonic_channels_form_a_chord() {
    let mut synth = legato(4);
    synth.mode = SynthMode::Polyphonic;
    synth.channel_enabled = [true, false, true];
    synth.voice_note_ranges = [[false; 3], [false; 3], [true, false, false]];
    synth.poly_voices[1] = ChannelVoice {
        note: 5,
        note_is_on: true,
    };
    let mut messages = Vec::new();
    let report = process_polyphonic(
        &mut synth,
        &mut messages,
        &BOUNDS,
        (128, 10, 255),
        64,
        90,
        false,
        false,
    );
    assert_eq!(messages, vec![on(64), off(5), on(47)]);
    assert_eq!(
        report.red,
        VoiceReport {
            enabled: true,
            note: 64,
            raw_note: 64,
            muted: false
        }
    );
    assert_eq!(
        report.green,
        VoiceReport {
            enabled: false,
            note: 5,
            raw_note: 5,
            muted: true
        }
    );
    assert_eq!(report.blue.note, 47);
    assert_eq!(report.blue.raw_note, 127);
    assert!(!report.muted);
    assert!(synth.active_note);
    assert_eq!(synth.note_generation, 2);
    // a rest releases them, one by one
    let report = process_polyphonic(
        &mut synth,
        &mut messages,
        &BOUNDS,
        (128, 10, 255),
        64,
        90,
        false,
        true,
    );
    assert!(report.muted && !synth.active_note);
    assert_eq!(messages[3..], [off(64), off(47)]);
}

#[test]
fn releasing_tells_what_sounds() {
    let mut synth = legato(1);
    synth.note = 10;
    synth.note_is_on = true;
    synth.poly_voices[2] = ChannelVoice {
        note: 12,
        note_is_on: true,
    };
    let mut messages = vec![off(1)];
    release_all(&mut synth, &mut messages);
    assert_eq!(messages, vec![off(1), off(10), off(12)]);
    release_all(&mut synth, &mut messages);
    assert_eq!(messages.len(), 3);
}

#[test]
fn playhead_reads_the_pixel_under_it() {
    let image = picture();
    let mut synth = legato(4);
    synth.zones[0].y = 1;
    synth.cursor = 6;
    assert_eq!(
        playhead(&synth, &image),
        Some(Playhead {
            pos: 2,
            length: 4,
            pixel: 6,
            x: 2,
            y: 1,
            r: 20,
            g: 20,
            b: 7,
            a: 200
        })
    );
    synth.zones = Vec::new();
    assert_eq!(playhead(&synth, &image), None);
}

/// Plays the pixel under the playhead; the note is the red value.
fn play(synth: &mut Synth, image: &DynamicImage) -> StepOutcome {
    let head = playhead(synth, image);
    let position = match head {
        Some(head) => head.r as i16,
        None => 0,
    };
    step_synth_once(synth, head, tone(position), &BOUNDS)
}

fn played(outcome: StepOutcome) -> (Vec<NoteMessage>, usize) {
    match outcome {
        StepOutcome::Played { messages, tick, .. } => (messages, tick.pixel),
        _ => panic!("nothing was played"),
    }
}

#[test]
fn one_shot_stops_after_its_last_pixel() {
    let image = picture();
    let mut synth = legato(3);
    synth.loop_enabled = false;
    synth.playing = true;
    assert_eq!(played(play(&mut synth, &image)), (vec![on(0)], 0));
    assert_eq!(played(play(&mut synth, &image)), (vec![off(0), on(10)], 1));
    assert!(!synth.end_pending);
    assert_eq!(played(play(&mut synth, &image)), (vec![off(10), on(20)], 2));
    assert!(synth.end_pending && synth.playing);
    assert_eq!(synth.cursor, 2);
    match play(&mut synth, &image) {
        StepOutcome::Stopped { messages } => assert_eq!(messages, vec![off(20)]),
        _ => panic!("the sequence is over"),
    }
    assert!(!synth.playing && !synth.note_is_on);
    assert_eq!(synth.cursor, 0);
    assert_eq!(synth.tempo_accumulator.bits, ZERO_BITS);
    // a paused synth at its end stays as it is
    assert!(matches!(play(&mut synth, &image), StepOutcome::Idle));
}

#[test]
fn loop_starts_over() {
    let image = picture();
    let mut synth = legato(3);
    let pixels: Vec<usize> = (0..7).map(|_| played(play(&mut synth, &image)).1).collect();
    assert_eq!(pixels, vec![0, 1, 2, 0, 1, 2, 0]);
    synth.play_forward = false;
    synth.cursor = 1;
    let pixels: Vec<usize> = (0..4).map(|_| played(play(&mut synth, &image)).1).collect();
    assert_eq!(pixels, vec![1, 0, 2, 1]);
}

#[test]
fn back_and_forth_turns_at_the_bounds() {
    let image = picture();
    let mut synth = legato(3);
    synth.loop_enabled = false;
    synth.back_and_forth = true;
    let pixels: Vec<usize> = (0..9).map(|_| played(play(&mut synth, &image)).1).collect();
    assert_eq!(pixels, vec![0, 1, 2, 1, 0, 1, 2, 1, 0]);
    let mut single = legato(1);
    single.loop_enabled = false;
    single.back_and_forth = true;
    for _ in 0..3 {
        assert_eq!(played(play(&mut single, &image)).1, 0);
        assert!(!single.end_pending);
    }
}

#[test]
fn emptied_zones_stop_a_playing_synth() {
    let image = picture();
    let mut synth = legato(2);
    synth.playing = true;
    play(&mut synth, &image);
    synth.zones = vec![PixelZone {
        x: 4,
        y: 0,
        w: 3,
        h: 3,
    }];
    match play(&mut synth, &image) {
        StepOutcome::Stopped { messages } => assert_eq!(messages, vec![off(0)]),
        _ => panic!("there is nothing left to play"),
    }
    assert!(!synth.playing);
}

#[test]
fn pizzicato_plucks_every_pixel() {
    let image = picture();
    let mut synth = legato(1);
    synth.note_sustain = false;
    for _ in 0..2 {
        assert_eq!(played(play(&mut synth, &image)).0, vec![on(0), off(0)]);
        assert!(!synth.note_is_on);
    }
}

#[test]
fn muted_zone_is_a_rest() {
    let image = picture();
    let mut synth = legato(2);
    synth.mute_zones = vec![PixelZone {
        x: 1,
        y: 0,
        w: 1,
        h: 1,
    }];
    assert_eq!(played(play(&mut synth, &image)), (vec![on(0)], 0));
    assert_eq!(played(play(&mut synth, &image)), (vec![off(0)], 1));
}

#[test]
fn tick_reports_the_pixel() {
    let image = picture();
    let mut synth = legato(4);
    synth.cursor = 3;
    synth.mode = SynthMode::Polyphonic;
    let head = playhead(&synth, &image);
    match step_synth_once(&mut synth, head, tone(0), &BOUNDS) {
        StepOutcome::Played { tick, length, .. } => {
            assert_eq!((tick.id, tick.pixel), (1, 3));
            assert_eq!((tick.r, tick.g, tick.b, tick.a), (30, 0, 7, 200));
            assert_eq!((tick.brightness_level, tick.velocity), (64, 90));
            assert_eq!(tick.mode, SynthMode::Polyphonic);
            match tick.notes {
                NoteReport::Poly(report) => assert_eq!(
                    (report.red.note, report.green.note, report.blue.note),
                    (15, 0, 3)
                ),
                NoteReport::Mono(_) => panic!("three voices were asked for"),
            }
            assert_eq!(length, None);
        }
        _ => panic!("nothing was played"),
    }
    assert_eq!(synth.velocity, 90);
}

#[test]
fn accumulator_decides_when_a_synth_advances() {
    assert!(!is_due(double(0.999)));
    assert!(is_due(double(1.0)));
    assert!(!is_due(double(-2.0)));
    let image = picture();
    let mut synth = legato(4);
    let head = playhead(&synth, &image);
    // a paused synth does not hear the metronome
    assert!(tick_synth(&mut synth, double(1.5), double(0.5), head, tone(0), &BOUNDS).is_none());
    assert_eq!(synth.tempo_accumulator.bits, ZERO_BITS);
    synth.playing = true;
    assert!(tick_synth(&mut synth, double(0.75), double(-0.25), head, tone(0), &BOUNDS).is_none());
    assert_eq!(synth.tempo_accumulator, double(0.75));
    assert!(tick_synth(&mut synth, double(1.25), double(0.25), head, tone(0), &BOUNDS).is_some());
    assert_eq!(synth.tempo_accumulator, double(0.25));
    assert_eq!(synth.cursor, 1);
    // with note lengths the pixel lasts as long as its note
    synth.note_lengths = vec![NoteLength::Half];
    let head = playhead(&synth, &image);
    match tick_synth(&mut synth, double(1.25), double(0.25), head, tone(0), &BOUNDS) {
        Some(StepOutcome::Played { length, .. }) => assert_eq!(length, Some(NoteLength::Half)),
        _ => panic!("a step was due"),
    }
    assert_eq!(synth.tempo_accumulator, double(-1.0));
}

fn paused() -> SynthState {
    let mut state = SynthState::default();
    state.synths.insert(1, legato(4));
    state
}

#[test]
fn manual_step_schedules_its_release() {
    let mut state = paused();
    let image = Some(picture());
    let head = ready_to_step(1, &state, &image).unwrap();
    let (outcome, scheduled) = step_synth(1, &mut state, head, tone(77), &BOUNDS).unwrap();
    assert_eq!(played(outcome), (vec![on(77)], 0));
    assert_eq!((scheduled.port, scheduled.channel), (0, 0));
    assert_eq!(scheduled.notes, vec![77]);
    assert_eq!(scheduled.generation, 1);
    assert_eq!(
        release_scheduled(1, &mut state, &scheduled),
        vec![off(77)]
    );
    assert!(!state.synths[&1].note_is_on);
    assert_eq!(release_scheduled(1, &mut state, &scheduled), vec![]);
}

#[test]
fn stale_release_cancels_itself() {
    let scheduled = ScheduledRelease {
        port: 5,
        channel: 0,
        notes: vec![60, 61],
        generation: 4,
    };
    let mut state = paused();
    let synth = state.synths.get_mut(&1).unwrap();
    synth.note = 60;
    synth.note_is_on = true;
    synth.note_generation = 4;
    synth.poly_voices[0] = ChannelVoice {
        note: 62,
        note_is_on: true,
    };
    synth.poly_voices[1] = ChannelVoice {
        note: 61,
        note_is_on: true,
    };
    let told = |state: &mut SynthState| release_scheduled(1, state, &scheduled);
    state.synths.get_mut(&1).unwrap().playing = true;
    assert_eq!(told(&mut state), vec![]);
    state.synths.get_mut(&1).unwrap().playing = false;
    state.synths.get_mut(&1).unwrap().channel = 1;
    assert_eq!(told(&mut state), vec![]);
    state.synths.get_mut(&1).unwrap().channel = 0;
    state.synths.get_mut(&1).unwrap().note_generation = 5;
    assert_eq!(told(&mut state), vec![]);
    state.synths.get_mut(&1).unwrap().note_generation = 4;
    // released where they were sent
    assert_eq!(
        told(&mut state),
        vec![
            NoteMessage::Off {
                port: 5,
                channel: 0,
                note: 60
            },
            NoteMessage::Off {
                port: 5,
                channel: 0,
                note: 61
            }
        ]
    );
    assert!(state.synths[&1].poly_voices[0].note_is_on);
    state.synths.clear();
    assert_eq!(told(&mut state), vec![]);
}

#[test]
fn manual_step_needs_a_paused_synth_and_an_image() {
    let mut state = paused();
    let image = Some(picture());
    assert!(matches!(
        ready_to_step(1, &state, &None),
        Err(AppError::NoProcessedImage)
    ));
    assert!(matches!(
        ready_to_step(2, &state, &image),
        Err(AppError::SynthNotFound { id: 2 })
    ));
    assert!(matches!(
        step_synth(2, &mut state, None, tone(0), &BOUNDS),
        Err(AppError::SynthNotFound { id: 2 })
    ));
    state.synths.get_mut(&1).unwrap().playing = true;
    assert!(matches!(
        ready_to_step(1, &state, &image),
        Err(AppError::SynthIsPlaying { id: 1 })
    ));
    assert!(matches!(
        step_synth(1, &mut state, None, tone(0), &BOUNDS),
        Err(AppError::SynthIsPlaying { id: 1 })
    ));
}

#[test]
fn note_lengths_are_beats() {
    for (length, beats) in [
        (NoteLength::Whole, 4.0),
        (NoteLength::Half, 2.0),
        (NoteLength::Quarter, 1.0),
        (NoteLength::Eighth, 0.5),
        (NoteLength::Sixteenth, 0.25),
    ] {
        assert_eq!(length_beats(length), double(beats));
        assert_eq!(rewound_accumulator(length), double(1.0 - beats));
    }
}

#[test]
fn brightness_picks_the_length() {
    let mut synth = Synth::new(1);
    synth.note_lengths = vec![NoteLength::Whole, NoteLength::Sixteenth, NoteLength::Quarter];
    let bands = |synth: &Synth| {
        [0, 42, 43, 85, 86, 127, 255].map(|level| pick_note_length(synth, level))
    };
    assert_eq!(
        bands(&synth),
        [
            NoteLength::Sixteenth,
            NoteLength::Sixteenth,
            NoteLength::Quarter,
            NoteLength::Quarter,
            NoteLength::Whole,
            NoteLength::Whole,
            NoteLength::Whole
        ]
    );
    synth.note_length_reversed = true;
    assert_eq!(
        bands(&synth),
        [
            NoteLength::Whole,
            NoteLength::Whole,
            NoteLength::Quarter,
            NoteLength::Quarter,
            NoteLength::Sixteenth,
            NoteLength::Sixteenth,
            NoteLength::Sixteenth
        ]
    );
}

#[test]
fn velocity_stays_within_its_bounds() {
    assert_eq!(velocity_bounds(40, 90), (40, 90));
    assert_eq!(velocity_bounds(127, 200), (126, 127));
    assert_eq!(velocity_bounds(80, 20), (80, 80));
    assert_eq!(bounded_velocity(64, 40, 90), 64);
    assert_eq!(bounded_velocity(1, 40, 90), 40);
    assert_eq!(bounded_velocity(127, 40, 90), 90);
    assert_eq!(bounded_velocity(-5, 0, 127), 1);
    let (low, high) = velocity_bounds(0, 1);
    for velocity in -3..130 {
        assert_eq!(bounded_velocity(velocity, low, high), 1);
    }
}

/// Maps a saturation (0–255) to a velocity within the bounds.
fn saturation_to_velocity(saturation: f32, min: u8, max: u8, relative: bool) -> u8 {
    let (low, high) = velocity_bounds(min, max);
    let velocity = if relative {
        low as f32 + (saturation / 255.0) * (high as f32 - low as f32)
    } else {
        1.0 + (saturation / 255.0) * 126.0
    };
    bounded_velocity(velocity.round() as i32, low, high)
}

#[test]
fn relative_mapping_rescales_saturation_onto_the_bounds() {
    // min=40, max=90: the saturation range is compressed onto [40, 90]
    assert_eq!(saturation_to_velocity(0.0, 40, 90, true), 40);
    assert_eq!(saturation_to_velocity(255.0, 40, 90, true), 90);
    // Half saturation → halfway between the bounds
    assert_eq!(saturation_to_velocity(127.5, 40, 90, true), 65);
    // A nearly-gray pixel still lands inside the range
    assert_eq!(saturation_to_velocity(25.5, 40, 90, true), 45);
}

#[test]
fn clamp_mapping_uses_the_full_range_then_clamps() {
    // min=40, max=90: native 1–127 mapping, values outside clamped
    // Weak saturation → below 40 → clamped to 40
    assert_eq!(saturation_to_velocity(0.0, 40, 90, false), 40);
    assert_eq!(saturation_to_velocity(25.5, 40, 90, false), 40); // ~14 → 40

    // In range → untouched
    assert_eq!(saturation_to_velocity(127.5, 40, 90, false), 64); // ~64

    // Strong saturation → above 90 → clamped to 90
    assert_eq!(saturation_to_velocity(255.0, 40, 90, false), 90);
    assert_eq!(saturation_to_velocity(229.5, 40, 90, false), 90); // ~114 → 90
}
