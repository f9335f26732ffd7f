use wysiwyl::pitch::{
    allowed_pitches, channel_position, channel_to_midi_note, effective_note_for,
    merged_note_ranges, playable_total, rescale_into_range, scale_intervals, snap_to_allowed,
};
use wysiwyl::state::{Scale, Synth};

const BOUNDS: [(u8, u8); 3] = [(21, 47), (48, 71), (72, 108)];

/// The place of a normalized value (0.0–1.0) on the playable notes.
fn place(normalized: f32, bounds: &[(u8, u8); 3], toggles: &[bool; 3]) -> i16 {
    let last = playable_total(bounds, toggles) - 1;
    (normalized.clamp(0.0, 1.0) * last as f32).round() as i16
}

fn rescale(normalized: f32, bounds: &[(u8, u8); 3], toggles: &[bool; 3]) -> u8 {
    rescale_into_range(place(normalized, bounds, toggles), bounds, toggles)
}

fn effective(synth: &Synth, normalized: f32, bounds: &[(u8, u8); 3], toggles: &[bool; 3]) -> u8 {
    effective_note_for(synth, place(normalized, bounds, toggles), bounds, toggles)
}

#[test]
fn no_range_enabled_uses_full_midi_range() {
    assert_eq!(rescale(0.0, &BOUNDS, &[false; 3]), 0);
    assert_eq!(rescale(0.5, &BOUNDS, &[false; 3]), 64);
    assert_eq!(rescale(1.0, &BOUNDS, &[false; 3]), 127);
}

#[test]
fn single_range_rises_gradually_from_low_to_high() {
    // Medium only [48, 71]: hue 0° -> 48, hue 360° -> 71, no jumps
    let toggles = [false, true, false];
    assert_eq!(rescale(0.0, &BOUNDS, &toggles), 48);
    assert_eq!(rescale(1.0, &BOUNDS, &toggles), 71);
    let notes: Vec<u8> = (0..=100)
        .map(|i| rescale(i as f32 / 100.0, &BOUNDS, &toggles))
        .collect();
    for w in notes.windows(2) {
        let step = w[1] as i32 - w[0] as i32;
        assert!(step == 0 || step == 1, "expected a gradual rise, got {w:?}");
    }
}

#[test]
fn two_ranges_skip_the_gap_and_stay_monotonic() {
    // Bass [21, 47] + treble [72, 108]: the sweep climbs the bass range
    // then the treble range, never landing in the 48–71 gap
    let toggles = [true, false, true];
    assert_eq!(rescale(0.0, &BOUNDS, &toggles), 21);
    assert_eq!(rescale(1.0, &BOUNDS, &toggles), 108);
    let notes: Vec<u8> = (0..=200)
        .map(|i| rescale(i as f32 / 200.0, &BOUNDS, &toggles))
        .collect();
    for w in notes.windows(2) {
        assert!(w[1] >= w[0], "expected a monotonic rise, got {w:?}");
        assert!(
            !(48..=71).contains(&w[1]),
            "note {w:?} landed in the disabled gap"
        );
    }
}

#[test]
fn overlapping_ranges_are_merged() {
    // Bass extended up to 60 overlaps the medium range: no note is
    // double-counted, the sweep stays continuous
    let bounds = [(21, 60), (48, 71), (72, 108)];
    let toggles = [true, true, false];
    assert_eq!(rescale(0.0, &bounds, &toggles), 21);
    assert_eq!(rescale(1.0, &bounds, &toggles), 71);
    assert_eq!(rescale(0.5, &bounds, &toggles), 46);
}

#[test]
fn clamps_out_of_bounds_values() {
    let toggles = [true, false, false];
    assert_eq!(rescale(-1.0, &BOUNDS, &toggles), 21);
    assert_eq!(rescale(2.0, &BOUNDS, &toggles), 47);
}

/// A synth configured for a scale (used by the quantization tests).
fn scaled_synth(scale: Scale, root: u8) -> Synth {
    let mut synth = Synth::new(1);
    synth.scale = scale;
    synth.scale_root = root;
    synth
}

#[test]
fn snaps_to_the_nearest_degree_of_the_scale() {
    // C major, no range filter: every note lands on a scale tone
    let synth = scaled_synth(Scale::Major, 0);
    let allowed = allowed_pitches(&synth, &BOUNDS, &[false; 3]);
    // C#4 (61) is equidistant between C4 (60) and D4 (62): tie → lower
    assert_eq!(snap_to_allowed(61, &allowed), 60);
    // F#4 (66): equidistant between F4 (65) and G4 (67) → lower
    assert_eq!(snap_to_allowed(66, &allowed), 65);
    // A4 (69) is a scale tone: unchanged
    assert_eq!(snap_to_allowed(69, &allowed), 69);
    // Below the lowest degree and above the highest: clamped to the
    // nearest allowed pitch
    assert_eq!(snap_to_allowed(0, &allowed), 0);
    assert_eq!(snap_to_allowed(127, &allowed), 127);
}

#[test]
fn scale_respects_the_root_and_the_enabled_ranges() {
    // A minor pentatonic, bass range [21, 47] only: allowed pitches
    // are the A-minor-pentatonic tones within [21, 47]
    let synth = scaled_synth(Scale::MinorPentatonic, 9); // A
    let allowed = allowed_pitches(&synth, &BOUNDS, &[true, false, false]);
    assert!(!allowed.is_empty());
    for &n in &allowed {
        // In the bass range…
        assert!((21..=47).contains(&n));
        // …and a minor pentatonic degree from A
        let rel = (n as i16 - 9).rem_euclid(12);
        assert!([0, 3, 5, 7, 10].contains(&rel));
    }
    // Snap stays inside the range: D4 (62) can't reach the scale tones
    // above it (all disabled ranges), so it lands on the highest
    // allowed pitch below it — 45 (A2), B not being in the scale
    assert_eq!(snap_to_allowed(62, &allowed), 45);
}

#[test]
fn narrow_range_without_any_degree_falls_back_to_the_raw_note() {
    // Medium range manually narrowed to [61, 61] (a single C#4):
    // no C-major degree in it, the snap must leave the note alone
    let bounds = [(21, 47), (61, 61), (72, 108)];
    let synth = scaled_synth(Scale::Major, 0);
    let allowed = allowed_pitches(&synth, &bounds, &[false, true, false]);
    assert!(allowed.is_empty());
    assert_eq!(snap_to_allowed(61, &allowed), 61);
}

#[test]
fn quantized_sweep_rises_monotonically() {
    // Full hue sweep quantized to C major pentatonic: the pitch never
    // decreases as the hue rises (snapping to a sorted set is monotonic)
    let synth = scaled_synth(Scale::MajorPentatonic, 0);
    let notes: Vec<u8> = (0..=200)
        .map(|i| effective(&synth, i as f32 / 200.0, &BOUNDS, &[false; 3]))
        .collect();
    for w in notes.windows(2) {
        assert!(w[1] >= w[0], "expected a monotonic rise, got {w:?}");
    }
    // Every landed note is a degree of the scale
    for &n in &notes {
        assert!([0, 2, 4, 7, 9].contains(&(n % 12)));
    }
}

#[test]
fn chromatic_scale_leaves_the_rescaled_note_untouched() {
    let synth = scaled_synth(Scale::Chromatic, 0);
    let toggles = [false, true, false];
    for i in 0..=100 {
        let normalized = i as f32 / 100.0;
        assert_eq!(
            effective(&synth, normalized, &BOUNDS, &toggles),
            rescale(normalized, &BOUNDS, &toggles),
        );
    }
}

#[test]
fn channel_values_become_notes_by_rounding() {
    for value in 0..=255u8 {
        assert_eq!(
            channel_to_midi_note(value),
            ((value as f32 / 255.0) * 127.0).round() as u8
        );
    }
}

#[test]
fn channel_values_find_their_place_by_rounding() {
    for total in -400..=400i16 {
        for value in 0..=255u8 {
            let normalized = (value as f32 / 255.0).clamp(0.0, 1.0);
            assert_eq!(
                channel_position(value, total),
                (normalized * (total - 1) as f32).round() as i16
            );
        }
    }
}

#[test]
fn touching_ranges_are_merged() {
    assert_eq!(
        merged_note_ranges(&BOUNDS, &[true, true, true]),
        vec![(21, 108)]
    );
    assert_eq!(
        merged_note_ranges(&[(72, 80), (10, 20), (15, 40)], &[true, true, true]),
        vec![(10, 40), (72, 80)]
    );
    assert!(merged_note_ranges(&BOUNDS, &[false; 3]).is_empty());
    assert_eq!(playable_total(&BOUNDS, &[true, false, true]), 27 + 37);
}

#[test]
fn each_place_of_a_sweep_is_the_next_playable_note() {
    let bounds = [(21, 30), (28, 40), (100, 101)];
    let toggles = [true, true, true];
    let notes: Vec<u8> = (0..playable_total(&bounds, &toggles))
        .map(|index| rescale_into_range(index, &bounds, &toggles))
        .collect();
    let expected: Vec<u8> = (21..=40).chain(100..=101).collect();
    assert_eq!(notes, expected);
}

#[test]
fn scales_have_their_degrees() {
    assert_eq!(scale_intervals(Scale::Blues), vec![0, 3, 5, 6, 7, 10]);
    assert_eq!(scale_intervals(Scale::Chromatic).len(), 12);
    assert_eq!(scale_intervals(Scale::Locrian), vec![0, 1, 3, 5, 6, 8, 10]);
}
