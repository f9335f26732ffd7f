use std::collections::HashMap;

use image::{DynamicImage, Rgba, RgbaImage};
use wysiwyl::config::SynthTemplate;
use wysiwyl::error::AppError;
use wysiwyl::number::{Double, ZERO_BITS};
use wysiwyl::playback::NoteMessage;
use wysiwyl::state::{
    ChannelVoice, NoteLength, PixelZone, ReadingDirection, Scale, Synth, SynthMode, SynthState,
};
use wysiwyl::synth::{
    add_synth, is_synth_playing, panic_all, remove_synth, renumber_synths, reset_synth_cursor,
    set_synth_back_n_forth, set_synth_brightness_range, set_synth_channel,
    set_synth_channel_enabled, set_synth_hue_shift, set_synth_loop, set_synth_midi_port,
    set_synth_mode, set_synth_mute_zones, set_synth_name, set_synth_note_length_reversed,
    set_synth_note_lengths, set_synth_note_ranges, set_synth_note_sustain, set_synth_order,
    set_synth_reading_direction, set_synth_scale, set_synth_sorted_reading, set_synth_tempo,
    set_synth_velocity_range, set_synth_velocity_relative, set_synth_zones, start_synth,
    stop_synth, synth_ids,
};

fn state_with_ids(ids: &[u32]) -> HashMap<u32, Synth> {
    ids.iter().map(|&id| (id, Synth::new(id))).collect()
}

#[test]
fn renumber_assigns_ids_in_display_order() {
    // Synths #1 and #2 deleted from a stack of 4: the remaining ids
    // are renumbered 1..N following the display order
    let mut synths = state_with_ids(&[1, 3, 4]);
    for (&id, synth) in synths.iter_mut() {
        synth.channel = id as u8; // mark each synth to track the moves
    }
    let mut next_id = 5;

    renumber_synths(&mut synths, &mut next_id, &[3, 1, 4]).unwrap();

    assert_eq!(synths.len(), 3);
    let mut ids: Vec<u32> = synths.keys().copied().collect();
    ids.sort(); // HashMap iteration order is arbitrary
    assert_eq!(ids, vec![1, 2, 3]);
    // The synths themselves moved with their state
    assert_eq!(synths.get(&1).unwrap().channel, 3);
    assert_eq!(synths.get(&2).unwrap().channel, 1);
    assert_eq!(synths.get(&3).unwrap().channel, 4);
    // The id field follows the renumbering
    assert_eq!(synths.get(&2).unwrap().id, 2);
    // The next created synth continues right after the stack
    assert_eq!(next_id, 4);
}

#[test]
fn renumber_already_ordered_stack_is_a_no_op() {
    let mut synths = state_with_ids(&[1, 2]);
    let mut next_id = 3;
    renumber_synths(&mut synths, &mut next_id, &[1, 2]).unwrap();
    assert_eq!(synths.get(&1).unwrap().id, 1);
    assert_eq!(synths.get(&2).unwrap().id, 2);
    assert_eq!(next_id, 3);
}

#[test]
fn renumber_rejects_incomplete_order() {
    let mut synths = state_with_ids(&[1, 2, 3]);
    let mut next_id = 4;
    assert!(renumber_synths(&mut synths, &mut next_id, &[1, 2]).is_err());
    // Nothing was mutated
    assert_eq!(synths.len(), 3);
    assert_eq!(next_id, 4);
}

#[test]
fn renumber_rejects_unknown_id() {
    let mut synths = state_with_ids(&[1, 3]);
    let mut next_id = 4;
    assert!(renumber_synths(&mut synths, &mut next_id, &[1, 2]).is_err());
    assert_eq!(synths.len(), 2);
    assert_eq!(next_id, 4);
}

#[test]
fn renumber_preserves_display_numbers() {
    // The display number is the synth's stable identity for the
    // default title: reordering the stack renumbers the ids but must
    // never touch it
    let mut synths = state_with_ids(&[1, 3]);
    synths.get_mut(&1).unwrap().display_number = 1;
    synths.get_mut(&3).unwrap().display_number = 3;
    let mut next_id = 4;

    renumber_synths(&mut synths, &mut next_id, &[3, 1]).unwrap();

    // Ids follow the new display order...
    assert_eq!(synths.get(&1).unwrap().id, 1);
    assert_eq!(synths.get(&2).unwrap().id, 2);
    // ...but each synth kept its original display number
    assert_eq!(synths.get(&1).unwrap().display_number, 3);
    assert_eq!(synths.get(&2).unwrap().display_number, 1);
}

#[test]
fn renumber_rejects_duplicate_ids() {
    let mut synths = state_with_ids(&[1, 2]);
    let mut next_id = 3;
    assert!(renumber_synths(&mut synths, &mut next_id, &[2, 2]).is_err());
    assert_eq!(synths.len(), 2);
    assert_eq!(next_id, 3);
}

/// A registry with one synth, number 1, that sounds a mono note and two
/// voices.
fn sounding() -> SynthState {
    let mut state = SynthState::default();
    let template = SynthTemplate::default();
    add_synth(&template, &mut state).unwrap();
    let synth = state.synths.get_mut(&1).unwrap();
    synth.playing = true;
    synth.end_pending = true;
    synth.cursor = 5;
    synth.tempo_accumulator = Double {
        bits: 0.75f64.to_bits(),
    };
    synth.channel = 2;
    synth.midi_port = 6;
    synth.note = 60;
    synth.note_is_on = true;
    synth.note_sustain = true;
    synth.poly_voices = [
        ChannelVoice {
            note: 40,
            note_is_on: true,
        },
        ChannelVoice {
            note: 41,
            note_is_on: false,
        },
        ChannelVoice {
            note: 42,
            note_is_on: true,
        },
    ];
    state
}

fn off(note: u8) -> NoteMessage {
    NoteMessage::Off {
        port: 6,
        channel: 2,
        note,
    }
}

fn all_off() -> Vec<NoteMessage> {
    vec![off(60), off(40), off(42)]
}

fn is_silent(synth: &Synth) -> bool {
    !synth.note_is_on && synth.poly_voices.iter().all(|voice| !voice.note_is_on)
}

fn double(value: f64) -> Double {
    Double {
        bits: value.to_bits(),
    }
}

#[test]
fn new_synths_take_the_next_numbers() {
    let mut state = SynthState::default();
    let mut template = SynthTemplate::default();
    template.channel = 7;
    let first = add_synth(&template, &mut state).unwrap();
    assert_eq!((first.id, first.display_number), (1, 1));
    assert_eq!(first.channel, 7);
    let second = add_synth(&template, &mut state).unwrap();
    assert_eq!((second.id, second.display_number), (2, 2));
    remove_synth(1, &mut state);
    let mut ids = synth_ids(&state.synths);
    ids.sort();
    assert_eq!(ids, vec![2]);
    // the ids close up, the display numbers are never reused
    set_synth_order(&vec![2], &mut state).unwrap();
    let third = add_synth(&template, &mut state).unwrap();
    assert_eq!((third.id, third.display_number), (2, 3));
    assert!(matches!(
        set_synth_order(&vec![1, 1], &mut state),
        Err(AppError::SynthOrderMismatch)
    ));
    // removing what is not there changes nothing
    remove_synth(9, &mut state);
    assert_eq!(state.synths.len(), 2);
}

#[test]
fn every_command_reports_an_unknown_synth() {
    let mut state = SynthState::default();
    let image: Option<DynamicImage> = None;
    assert!(matches!(
        start_synth(3, &mut state),
        Err(AppError::SynthNotFound { id: 3 })
    ));
    assert!(stop_synth(3, &mut state).is_err());
    assert!(reset_synth_cursor(3, &mut state).is_err());
    assert!(set_synth_name(3, "x", &mut state).is_err());
    assert!(set_synth_channel(3, 0, &mut state).is_err());
    assert!(set_synth_midi_port(3, 0, &mut state).is_err());
    assert!(set_synth_velocity_relative(3, true, &mut state).is_err());
    assert!(set_synth_velocity_range(3, 1, 2, &mut state).is_err());
    assert!(set_synth_brightness_range(3, 1, 2, &mut state).is_err());
    assert!(set_synth_tempo(3, double(1.0), &mut state).is_err());
    assert!(set_synth_loop(3, true, &mut state).is_err());
    assert!(set_synth_back_n_forth(3, true, &mut state).is_err());
    assert!(set_synth_reading_direction(3, ReadingDirection::Spiral, &mut state).is_err());
    assert!(set_synth_mode(3, SynthMode::Polyphonic, &mut state).is_err());
    assert!(set_synth_note_lengths(3, Vec::new(), &mut state).is_err());
    assert!(set_synth_note_length_reversed(3, true, &mut state).is_err());
    assert!(set_synth_note_sustain(3, true, &mut state).is_err());
    assert!(set_synth_note_ranges(3, [true; 3], [[true; 3]; 3], &mut state).is_err());
    assert!(set_synth_scale(3, Scale::Blues, 0, &mut state).is_err());
    assert!(set_synth_hue_shift(3, 1, &mut state).is_err());
    assert!(set_synth_zones(3, Vec::new(), &mut state, &image).is_err());
    assert!(set_synth_mute_zones(3, Vec::new(), &mut state).is_err());
    assert!(set_synth_sorted_reading(3, true, &mut state, &image).is_err());
    assert!(matches!(
        set_synth_channel_enabled(3, 2, true, &mut state),
        Err(AppError::SynthNotFound { id: 3 })
    ));
    // a channel that does not exist is told first
    assert!(matches!(
        set_synth_channel_enabled(3, 3, true, &mut state),
        Err(AppError::InvalidChannelIndex)
    ));
    assert!(!is_synth_playing(3, &state));
}

#[test]
fn names_are_trimmed() {
    let mut state = sounding();
    set_synth_name(1, "  \t Lead pad\u{a0}\n", &mut state).unwrap();
    assert_eq!(state.synths[&1].name.as_deref(), Some("Lead pad"));
    set_synth_name(1, " \u{2003}\n", &mut state).unwrap();
    assert_eq!(state.synths[&1].name, None);
    set_synth_name(1, "Bass", &mut state).unwrap();
    assert_eq!(state.synths[&1].name.as_deref(), Some("Bass"));
    set_synth_name(1, "", &mut state).unwrap();
    assert_eq!(state.synths[&1].name, None);
}

#[test]
fn starting_and_stopping() {
    let mut state = sounding();
    assert!(is_synth_playing(1, &state));
    assert_eq!(stop_synth(1, &mut state).unwrap(), all_off());
    let synth = &state.synths[&1];
    assert!(!synth.playing && !synth.end_pending && is_silent(synth));
    assert_eq!(synth.tempo_accumulator.bits, ZERO_BITS);
    assert_eq!(synth.cursor, 5);
    assert_eq!(synth.note_generation, 0);
    // nothing sounds any more
    assert_eq!(stop_synth(1, &mut state).unwrap(), vec![]);
    state.synths.get_mut(&1).unwrap().end_pending = true;
    start_synth(1, &mut state).unwrap();
    assert!(is_synth_playing(1, &state));
    assert!(!state.synths[&1].end_pending);
}

#[test]
fn resetting_the_cursor_goes_back_to_the_start() {
    let mut state = sounding();
    reset_synth_cursor(1, &mut state).unwrap();
    let synth = &state.synths[&1];
    assert_eq!(synth.cursor, 0);
    assert!(!synth.end_pending && synth.playing);
    assert_eq!(synth.tempo_accumulator.bits, ZERO_BITS);
}

#[test]
fn panic_silences_everything() {
    let mut state = sounding();
    let mut other = Synth::new(2);
    other.note = 99;
    other.note_is_on = true;
    other.note_generation = u32::MAX;
    state.synths.insert(2, other);
    let messages = panic_all(&mut state);
    assert_eq!(messages.len(), 4);
    for message in all_off() {
        assert!(messages.contains(&message));
    }
    assert!(messages.contains(&NoteMessage::Off {
        port: 0,
        channel: 0,
        note: 99
    }));
    for synth in state.synths.values() {
        assert!(is_silent(synth) && !synth.playing && !synth.end_pending);
    }
    assert_eq!(state.synths[&1].note_generation, 1);
    assert_eq!(state.synths[&2].note_generation, 0);
}

#[test]
fn plain_settings_are_brought_into_range() {
    let mut state = sounding();
    set_synth_channel(1, 200, &mut state).unwrap();
    set_synth_velocity_relative(1, false, &mut state).unwrap();
    set_synth_velocity_range(1, 127, 3, &mut state).unwrap();
    set_synth_brightness_range(1, 200, 128, &mut state).unwrap();
    set_synth_scale(1, Scale::Dorian, 12, &mut state).unwrap();
    set_synth_hue_shift(1, 361, &mut state).unwrap();
    set_synth_note_lengths(1, vec![NoteLength::Half], &mut state).unwrap();
    set_synth_note_length_reversed(1, true, &mut state).unwrap();
    set_synth_note_ranges(1, [true, false, true], [[false, true, false]; 3], &mut state).unwrap();
    let zone = PixelZone {
        x: 1,
        y: 2,
        w: 3,
        h: 4,
    };
    set_synth_mute_zones(1, vec![zone], &mut state).unwrap();
    let synth = &state.synths[&1];
    assert_eq!(synth.channel, 15);
    assert!(!synth.velocity_relative);
    assert_eq!((synth.velocity_min, synth.velocity_max), (126, 126));
    assert_eq!((synth.brightness_min, synth.brightness_max), (127, 127));
    assert_eq!(synth.scale, Scale::Dorian);
    assert_eq!(synth.scale_root, 11);
    assert_eq!(synth.hue_shift, 360);
    assert_eq!(synth.note_lengths, vec![NoteLength::Half]);
    assert!(synth.note_length_reversed);
    assert_eq!(synth.mono_note_range, [true, false, true]);
    assert_eq!(synth.voice_note_ranges, [[false, true, false]; 3]);
    assert_eq!(synth.mute_zones, vec![zone]);
}

#[test]
fn velocity_ceiling_always_sounds() {
    let mut state = sounding();
    for (min, max, kept) in [
        (0, 0, (0, 1)),
        (0, 1, (0, 1)),
        (40, 90, (40, 90)),
        (90, 40, (90, 90)),
        (0, 255, (0, 127)),
        (255, 255, (126, 127)),
    ] {
        set_synth_velocity_range(1, min, max, &mut state).unwrap();
        let synth = &state.synths[&1];
        assert_eq!((synth.velocity_min, synth.velocity_max), kept);
    }
}

#[test]
fn tempo_is_clamped() {
    let mut state = sounding();
    for (given, kept) in [
        (1.0, 1.0),
        (0.05, 0.05),
        (0.01, 0.05),
        (-3.0, 0.05),
        (f64::NEG_INFINITY, 0.05),
        (-0.0, 0.05),
        (3.999, 3.999),
        (4.0, 4.0),
        (4.5, 4.0),
        (f64::INFINITY, 4.0),
    ] {
        set_synth_tempo(1, double(given), &mut state).unwrap();
        assert_eq!(f64::from_bits(state.synths[&1].tempo_ratio.bits), kept);
    }
    set_synth_tempo(1, double(f64::NAN), &mut state).unwrap();
    assert!(f64::from_bits(state.synths[&1].tempo_ratio.bits).is_nan());
}

#[test]
fn loop_and_bounce_are_exclusive() {
    let mut state = sounding();
    set_synth_back_n_forth(1, true, &mut state).unwrap();
    let synth = &state.synths[&1];
    assert!(synth.back_and_forth && !synth.loop_enabled && !synth.end_pending);
    set_synth_loop(1, true, &mut state).unwrap();
    let synth = &state.synths[&1];
    assert!(!synth.back_and_forth && synth.loop_enabled);
    state.synths.get_mut(&1).unwrap().end_pending = true;
    set_synth_loop(1, false, &mut state).unwrap();
    set_synth_back_n_forth(1, false, &mut state).unwrap();
    let synth = &state.synths[&1];
    assert!(!synth.back_and_forth && !synth.loop_enabled && synth.end_pending);
}

#[test]
fn new_direction_starts_over() {
    let mut state = sounding();
    state.synths.get_mut(&1).unwrap().play_forward = false;
    set_synth_reading_direction(1, ReadingDirection::BottomToTop, &mut state).unwrap();
    let synth = &state.synths[&1];
    assert_eq!(synth.reading_direction, ReadingDirection::BottomToTop);
    assert_eq!(synth.cursor, 0);
    assert!(synth.play_forward && !synth.end_pending);
    assert_eq!(synth.tempo_accumulator.bits, ZERO_BITS);
}

#[test]
fn another_port_releases_the_old_one() {
    let mut state = sounding();
    assert_eq!(set_synth_midi_port(1, 6, &mut state).unwrap(), vec![]);
    assert!(state.synths[&1].note_is_on);
    assert_eq!(set_synth_midi_port(1, 7, &mut state).unwrap(), all_off());
    assert!(is_silent(&state.synths[&1]));
    assert_eq!(state.synths[&1].midi_port, 7);
}

#[test]
fn another_mode_releases_the_notes() {
    let mut state = sounding();
    assert_eq!(
        set_synth_mode(1, SynthMode::Monophonic, &mut state).unwrap(),
        vec![]
    );
    assert_eq!(
        set_synth_mode(1, SynthMode::Polyphonic, &mut state).unwrap(),
        all_off()
    );
    assert!(is_silent(&state.synths[&1]));
    assert_eq!(state.synths[&1].mode, SynthMode::Polyphonic);
}

#[test]
fn pizzicato_releases_the_held_notes() {
    let mut state = sounding();
    assert_eq!(set_synth_note_sustain(1, true, &mut state).unwrap(), vec![]);
    assert_eq!(
        set_synth_note_sustain(1, false, &mut state).unwrap(),
        all_off()
    );
    assert!(is_silent(&state.synths[&1]));
    assert!(!state.synths[&1].note_sustain);
    state.synths.get_mut(&1).unwrap().note_is_on = true;
    assert_eq!(set_synth_note_sustain(1, true, &mut state).unwrap(), vec![]);
    assert!(state.synths[&1].note_is_on && state.synths[&1].note_sustain);
}

#[test]
fn disabling_a_channel_releases_its_voice() {
    let mut state = sounding();
    assert_eq!(
        set_synth_channel_enabled(1, 2, false, &mut state).unwrap(),
        vec![off(42)]
    );
    let synth = &state.synths[&1];
    assert_eq!(synth.channel_enabled, [true, true, false]);
    assert!(!synth.poly_voices[2].note_is_on);
    assert!(synth.note_is_on && synth.poly_voices[0].note_is_on);
    assert_eq!(
        set_synth_channel_enabled(1, 2, true, &mut state).unwrap(),
        vec![]
    );
    assert_eq!(
        set_synth_channel_enabled(1, 1, false, &mut state).unwrap(),
        vec![]
    );
}

fn grid(width: u32, height: u32) -> Option<DynamicImage> {
    Some(DynamicImage::ImageRgba8(RgbaImage::from_pixel(
        width,
        height,
        Rgba([9, 9, 9, 255]),
    )))
}

fn zone(x: u32, y: u32, w: u32, h: u32) -> PixelZone {
    PixelZone { x, y, w, h }
}

#[test]
fn zone_edits_keep_the_playhead_on_its_pixel() {
    let mut state = sounding();
    let image = grid(4, 3);
    set_synth_zones(1, vec![zone(0, 0, 4, 1)], &mut state, &image).unwrap();
    // nothing was selected before
    assert_eq!(state.synths[&1].cursor, 0);
    assert!(!state.synths[&1].end_pending);
    state.synths.get_mut(&1).unwrap().cursor = 2;
    set_synth_zones(1, vec![zone(0, 1, 2, 1), zone(1, 0, 3, 1)], &mut state, &image).unwrap();
    // pixel 2 comes fourth
    assert_eq!(state.synths[&1].cursor, 3);
    set_synth_sorted_reading(1, true, &mut state, &image).unwrap();
    assert!(state.synths[&1].sorted_reading);
    // sorted: 1, 2, 3, 4, 5
    assert_eq!(state.synths[&1].cursor, 1);
    // without an image the reading restarts
    set_synth_sorted_reading(1, false, &mut state, &None).unwrap();
    assert_eq!(state.synths[&1].cursor, 0);
    // a pixel that is gone restarts it too
    state.synths.get_mut(&1).unwrap().cursor = 1;
    set_synth_zones(1, vec![zone(0, 2, 4, 1)], &mut state, &image).unwrap();
    assert_eq!(state.synths[&1].cursor, 0);
    assert_eq!(state.synths[&1].zones, vec![zone(0, 2, 4, 1)]);
}
