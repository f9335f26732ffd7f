use image::{DynamicImage, Rgba, RgbaImage};
use wysiwyl::clock::{ClockMode, MetronomeState};
use wysiwyl::config::{set_clock_mode, AppConfig, SynthTemplate};
use wysiwyl::error::AppError;
use wysiwyl::image_processing::ImageState;
use wysiwyl::midi::{get_known_programs, MidiState};
use wysiwyl::number::{Double, Single};
use wysiwyl::playback::NoteMessage;
use wysiwyl::session::{
    default_mirror_zones_mode, highest_numbers, install_decoded, legacy_mirror_zones_mode,
    load_session, mirror_zones_mode, programs_to_send, restore_synths, save_session, save_synths,
    try_save_session, SessionFile, SessionImageSettings, SessionSynth, SessionUi, SynthUiEntry,
    SESSION_VERSION,
};
use wysiwyl::state::{
    NoteLength, PixelZone, ProgramState, ReadingDirection, Scale, Synth, SynthMode, SynthState,
};
use wysiwyl::synth::add_synth;

fn single(value: f32) -> Single {
    Single {
        bits: value.to_bits(),
    }
}

fn picture() -> DynamicImage {
    DynamicImage::ImageRgba8(RgbaImage::from_fn(3, 2, |x, y| {
        Rgba([x as u8 * 80, y as u8 * 90, 200, 255])
    }))
}

fn loaded() -> ImageState {
    ImageState {
        original: Some(picture()),
        processed: None,
    }
}

fn color(id: u32, color: &str) -> SynthUiEntry {
    SynthUiEntry {
        id,
        color: color.to_string(),
    }
}

fn ui(synth_colors: Vec<SynthUiEntry>) -> SessionUi {
    SessionUi {
        bpm: 96,
        grid_slider: 800,
        contrast: single(10.0),
        brightness: 5,
        vibrance: single(-30.0),
        posterize_levels: Some(4),
        texture: single(1.0),
        clarity: single(2.0),
        simplify: single(3.0),
        auto_levels: true,
        mirror_zones_mode: "active".to_string(),
        synth_colors,
    }
}

/// A synth with every parameter away from its default.
fn altered(id: u32) -> Synth {
    let mut synth = SynthTemplate::default().to_synth(id);
    synth.tempo_ratio = Double {
        bits: 0.5f64.to_bits(),
    };
    synth.channel = 9;
    synth.midi_port = 2;
    synth.mode = SynthMode::Polyphonic;
    synth.loop_enabled = false;
    synth.back_and_forth = true;
    synth.reading_direction = ReadingDirection::BottomToTop;
    synth.sorted_reading = true;
    synth.brightness_min = 12;
    synth.brightness_max = 100;
    synth.velocity_min = 40;
    synth.velocity_max = 110;
    synth.velocity_relative = false;
    synth.volume = 55;
    synth.hue_shift = 180;
    synth.channel_enabled = [true, false, true];
    synth.note_lengths = vec![NoteLength::Whole, NoteLength::Eighth];
    synth.note_length_reversed = true;
    synth.note_sustain = false;
    synth.mono_note_range = [true, false, true];
    synth.voice_note_ranges = [
        [true, false, false],
        [false, true, false],
        [false, false, true],
    ];
    synth.scale = Scale::Blues;
    synth.scale_root = 9;
    synth
}

fn same_settings(s: &Synth, synth: &Synth) {
    assert_eq!(s.tempo_ratio, synth.tempo_ratio);
    assert_eq!(s.channel, synth.channel);
    assert_eq!(s.midi_port, synth.midi_port);
    assert_eq!(s.mode, synth.mode);
    assert_eq!(s.loop_enabled, synth.loop_enabled);
    assert_eq!(s.back_and_forth, synth.back_and_forth);
    assert_eq!(s.reading_direction, synth.reading_direction);
    assert_eq!(s.sorted_reading, synth.sorted_reading);
    assert_eq!(s.brightness_min, synth.brightness_min);
    assert_eq!(s.brightness_max, synth.brightness_max);
    assert_eq!(s.velocity_min, synth.velocity_min);
    assert_eq!(s.velocity_max, synth.velocity_max);
    assert_eq!(s.velocity_relative, synth.velocity_relative);
    assert_eq!(s.volume, synth.volume);
    assert_eq!(s.hue_shift, synth.hue_shift);
    assert_eq!(s.channel_enabled, synth.channel_enabled);
    assert_eq!(s.note_lengths, synth.note_lengths);
    assert_eq!(s.note_length_reversed, synth.note_length_reversed);
    assert_eq!(s.note_sustain, synth.note_sustain);
    assert_eq!(s.mono_note_range, synth.mono_note_range);
    assert_eq!(s.voice_note_ranges, synth.voice_note_ranges);
    assert_eq!(s.scale, synth.scale);
    assert_eq!(s.scale_root, synth.scale_root);
}

const SOUND: ProgramState = ProgramState {
    bank_msb: Some(1),
    bank_lsb: Some(32),
    program: Some(41),
};

/// A registry with the altered synth, number 7, and the sound of its channel.
fn work() -> (SynthState, MidiState) {
    let mut state = SynthState::default();
    let mut synth = altered(7);
    synth.name = Some("Lead".to_string());
    synth.zones = vec![PixelZone {
        x: 2,
        y: 3,
        w: 5,
        h: 4,
    }];
    synth.mute_zones = vec![PixelZone {
        x: 3,
        y: 4,
        w: 1,
        h: 2,
    }];
    synth.playing = true;
    synth.cursor = 3;
    state.synths.insert(7, synth);
    state.next_id = 8;
    state.next_display_number = 8;
    let mut midi = MidiState::default();
    midi.send_program_change(2, 9, SOUND.program, SOUND.bank_msb, SOUND.bank_lsb);
    (state, midi)
}

/// A synth's full parameter set survives a save → load cycle.
#[test]
fn session_synth_round_trip() {
    let (mut state, midi) = work();
    let saved = save_synths(&vec![color(7, "#3498db")], &state, &midi);
    assert_eq!(saved.len(), 1);
    assert_eq!(saved[0].id, 7);
    assert_eq!(saved[0].display_number, Some(7));
    assert_eq!(saved[0].name.as_deref(), Some("Lead"));
    assert_eq!(saved[0].color, "#3498db");
    assert_eq!(saved[0].program, Some(SOUND));
    same_settings(&saved[0].settings.to_synth(7), &altered(7));
    let zones = state.synths[&7].zones.clone();
    let mute_zones = state.synths[&7].mute_zones.clone();
    restore_synths(&saved, &mut state);
    let restored = &state.synths[&7];
    same_settings(restored, &altered(7));
    assert_eq!(restored.display_number, 7);
    assert_eq!(restored.name.as_deref(), Some("Lead"));
    assert_eq!(restored.zones, zones);
    assert_eq!(restored.mute_zones, mute_zones);
    // playback starts over
    assert!(!restored.playing);
    assert_eq!(restored.cursor, 0);
}

#[test]
fn mirror_modes_are_three() {
    assert_eq!(default_mirror_zones_mode(), "none");
    assert_eq!(legacy_mirror_zones_mode(true), "all");
    assert_eq!(legacy_mirror_zones_mode(false), "none");
    for mode in ["all", "active", "none"] {
        assert_eq!(mirror_zones_mode(mode).as_deref(), Some(mode));
    }
    assert_eq!(mirror_zones_mode("sometimes"), None);
    assert_eq!(mirror_zones_mode("All"), None);
}

#[test]
fn saving_collects_the_session() {
    let (mut state, midi) = work();
    state.synths.insert(1, SynthTemplate::default().to_synth(1));
    let colors = vec![color(7, "red"), color(5, "gone"), color(1, "blue")];
    let file = save_session(ui(colors), &loaded(), &state, &midi).unwrap();
    assert_eq!((file.version, file.bpm), (SESSION_VERSION, 96));
    assert_eq!(SESSION_VERSION, 2);
    let settings = &file.image_settings;
    assert_eq!((settings.grid_slider, settings.brightness), (800, 5));
    assert_eq!(settings.contrast, single(10.0));
    assert_eq!(settings.vibrance, single(-30.0));
    assert_eq!(settings.posterize_levels, Some(4));
    assert_eq!(settings.texture, single(1.0));
    assert_eq!(settings.clarity, single(2.0));
    assert_eq!(settings.simplify, single(3.0));
    assert!(settings.auto_levels);
    assert_eq!(settings.mirror_zones_mode, "active");
    // in display order; colors without a synth are dropped
    let ids: Vec<u32> = file.synths.iter().map(|synth| synth.id).collect();
    assert_eq!(ids, vec![7, 1]);
    assert_eq!(file.synths[1].color, "blue");
    assert_eq!(file.synths[1].program, None);
    assert_eq!(highest_numbers(&file.synths), (7, 7));
}

#[test]
fn saving_needs_an_image() {
    let (state, midi) = work();
    assert!(matches!(
        save_session(ui(Vec::new()), &ImageState::default(), &state, &midi),
        Err(AppError::NoImageLoaded)
    ));
    let float = ImageState {
        original: Some(DynamicImage::ImageRgb32F(image::Rgb32FImage::new(1, 1))),
        processed: None,
    };
    assert!(matches!(
        save_session(ui(Vec::new()), &float, &state, &midi),
        Err(AppError::PngEncodingError { .. })
    ));
}

#[test]
fn saving_tells_an_impossible_buffer() {
    let (state, midi) = work();
    let roomy = RgbaImage::from_raw(1, 1, vec![0; 8]).unwrap();
    let images = ImageState {
        original: Some(DynamicImage::ImageRgba8(roomy)),
        processed: None,
    };
    assert!(try_save_session(ui(Vec::new()), &images, &state, &midi).is_none());
    let file = try_save_session(ui(Vec::new()), &loaded(), &state, &midi)
        .unwrap()
        .unwrap();
    assert_eq!(file.bpm, 96);
    assert!(
        try_save_session(ui(Vec::new()), &ImageState::default(), &state, &midi)
            .unwrap()
            .is_err()
    );
}

#[test]
fn loading_brings_everything_back() {
    let (state, midi) = work();
    let file = save_session(ui(vec![color(7, "red")]), &loaded(), &state, &midi).unwrap();
    // another work is going on
    let mut images = ImageState::default();
    let mut state = SynthState::default();
    add_synth(&SynthTemplate::default(), &mut state).unwrap();
    let synth = state.synths.get_mut(&1).unwrap();
    synth.note = 61;
    synth.note_is_on = true;
    let mut midi = MidiState::default();
    let restoration = load_session(file, &mut images, &mut state, &mut midi).unwrap();
    // its notes are turned off
    assert_eq!(
        restoration.messages,
        vec![NoteMessage::Off {
            port: 0,
            channel: 0,
            note: 61
        }]
    );
    assert_eq!(images.original, Some(picture()));
    assert_eq!(images.processed, Some(picture()));
    assert_eq!(state.synths.len(), 1);
    same_settings(&state.synths[&7], &altered(7));
    assert_eq!((state.next_id, state.next_display_number), (8, 8));
    // the instrument is reconfigured
    assert_eq!(restoration.selections.len(), 1);
    assert_eq!(restoration.selections[0].port, 2);
    assert_eq!(
        restoration.selections[0].messages,
        vec![vec![0xB9, 0, 1], vec![0xB9, 32, 32], vec![0xC9, 41]]
    );
    assert_eq!(midi.known_program(2, 9), Some(SOUND));
    let session = restoration.session;
    assert_eq!((session.version, session.bpm), (2, 96));
    assert_eq!((session.orig_width, session.orig_height), (3, 2));
    assert!(session.image_base64.starts_with("iVBORw0KGg"));
    assert_eq!(session.image_settings.mirror_zones_mode, "active");
    assert_eq!(session.synths[0].color, "red");
}

fn entry(id: u32, program: Option<u8>) -> SessionSynth {
    SessionSynth {
        id,
        display_number: None,
        name: None,
        color: String::new(),
        zones: Vec::new(),
        mute_zones: Vec::new(),
        program: program.map(|program| ProgramState {
            bank_msb: None,
            bank_lsb: None,
            program: Some(program),
        }),
        settings: SynthTemplate::default(),
    }
}

fn settings() -> SessionImageSettings {
    SessionImageSettings {
        grid_slider: 1,
        contrast: single(0.0),
        brightness: 0,
        vibrance: single(0.0),
        posterize_levels: None,
        texture: single(0.0),
        clarity: single(0.0),
        simplify: single(0.0),
        auto_levels: false,
        mirror_zones_mode: default_mirror_zones_mode(),
    }
}

#[test]
fn older_sessions_number_by_id() {
    let mut state = SynthState::default();
    restore_synths(&vec![entry(4, None), entry(2, None)], &mut state);
    assert_eq!(state.synths[&4].display_number, 4);
    assert_eq!(state.synths[&2].display_number, 2);
    assert_eq!((state.next_id, state.next_display_number), (5, 5));
    restore_synths(&Vec::new(), &mut state);
    assert!(state.synths.is_empty());
    assert_eq!((state.next_id, state.next_display_number), (1, 1));
}

#[test]
fn last_program_of_a_channel_wins() {
    let mut entries = vec![entry(1, Some(10)), entry(2, Some(20)), entry(3, Some(30))];
    entries[1].settings.channel = 4;
    entries.push(entry(4, None));
    let mut state = SynthState::default();
    restore_synths(&entries, &mut state);
    let mut list = programs_to_send(&entries, &state);
    list.sort_by_key(|known| known.channel);
    let told: Vec<(usize, u8, Option<u8>)> = list
        .iter()
        .map(|known| (known.port, known.channel, known.program.program))
        .collect();
    assert_eq!(told, vec![(0, 0, Some(30)), (0, 4, Some(20))]);
}

#[test]
fn broken_images_are_refused() {
    for data in ["not base64!", "AAAA", ""] {
        let file = SessionFile {
            version: 2,
            bpm: 120,
            image: wysiwyl::session::SessionImage {
                data: data.to_string(),
            },
            image_settings: settings(),
            synths: vec![entry(1, Some(3))],
        };
        let (mut state, mut midi) = work();
        let mut images = ImageState::default();
        match load_session(file, &mut images, &mut state, &mut midi) {
            Err(AppError::SessionParseError { details }) => assert!(!details.is_empty()),
            _ => panic!("there is no image in it"),
        }
        assert_eq!(images.original, None);
        assert!(state.synths.contains_key(&7));
        assert_eq!(get_known_programs(&midi).len(), 1);
    }
}

#[test]
fn saved_images_load_again_whatever_their_samples() {
    let (state, midi) = work();
    let shown = picture();
    let originals = vec![
        DynamicImage::ImageLuma8(shown.to_luma8()),
        DynamicImage::ImageLumaA8(shown.to_luma_alpha8()),
        DynamicImage::ImageRgb8(shown.to_rgb8()),
        DynamicImage::ImageLuma16(shown.to_luma16()),
        DynamicImage::ImageLumaA16(shown.to_luma_alpha16()),
        DynamicImage::ImageRgb16(shown.to_rgb16()),
        DynamicImage::ImageRgba16(shown.to_rgba16()),
        shown,
    ];
    for original in originals {
        let images = ImageState {
            original: Some(original.clone()),
            processed: None,
        };
        let file = save_session(ui(vec![color(7, "red")]), &images, &state, &midi).unwrap();
        assert_eq!(highest_numbers(&file.synths), (7, 7));
        let data = file.image.data.clone();
        let mut images = ImageState::default();
        let mut state = SynthState::default();
        let mut midi = MidiState::default();
        let restoration = load_session(file, &mut images, &mut state, &mut midi).unwrap();
        assert_eq!(images.original, Some(original));
        assert_eq!(restoration.session.image_base64, data);
        assert_eq!(restoration.session.bpm, 96);
    }
}

fn empty_session() -> SessionFile {
    SessionFile {
        version: 2,
        bpm: 120,
        image: wysiwyl::session::SessionImage {
            data: String::new(),
        },
        image_settings: settings(),
        synths: vec![entry(3, None)],
    }
}

#[test]
fn decoded_image_decides_what_is_installed() {
    let (mut state, mut midi) = work();
    let mut images = ImageState::default();
    let failed = Err("broken".to_string());
    match install_decoded(empty_session(), failed, &mut images, &mut state, &mut midi) {
        Err(AppError::SessionParseError { details }) => assert_eq!(details, "broken"),
        _ => panic!("there is no image"),
    }
    let roomy = RgbaImage::from_raw(1, 1, vec![0; 8]).unwrap();
    let roomy = Ok(DynamicImage::ImageRgba8(roomy));
    match install_decoded(empty_session(), roomy, &mut images, &mut state, &mut midi) {
        Err(AppError::SessionParseError { details }) => {
            assert_eq!(details, "image buffer too long")
        }
        _ => panic!("the buffer is longer than the pixels"),
    }
    let float = Ok(DynamicImage::ImageRgb32F(picture().to_rgb32f()));
    assert!(matches!(
        install_decoded(empty_session(), float, &mut images, &mut state, &mut midi),
        Err(AppError::PngEncodingError { .. })
    ));
    assert_eq!(images.original, None);
    assert!(state.synths.contains_key(&7));
    let good = Ok(picture());
    let restoration =
        install_decoded(empty_session(), good, &mut images, &mut state, &mut midi).unwrap();
    assert_eq!(restoration.session.bpm, 120);
    assert_eq!(images.original, Some(picture()));
    assert!(state.synths.contains_key(&3));
    assert!(!state.synths.contains_key(&7));
}

#[test]
fn chosen_clock_mode_is_remembered() {
    let mut metronome = MetronomeState::default();
    let mut config = AppConfig::default();
    assert_eq!(config.max_image_size, 0);
    assert_eq!(config.default_bpm, 120);
    assert_eq!(config.note_range_bounds, [(21, 47), (48, 71), (72, 108)]);
    set_clock_mode(
        &mut metronome,
        &mut config,
        ClockMode::Input,
        Some("  IAC Bus 1 \n".to_string()),
    );
    assert_eq!(config.clock_mode, ClockMode::Input);
    assert_eq!(config.clock_source.as_deref(), Some("IAC Bus 1"));
    assert_eq!(metronome.clock_mode(), ClockMode::Input);
    assert_eq!(metronome.clock_source().as_deref(), Some("IAC Bus 1"));
    for source in [None, Some("  ".to_string())] {
        set_clock_mode(&mut metronome, &mut config, ClockMode::Input, source);
        assert_eq!(config.clock_mode, ClockMode::Auto);
        assert_eq!(config.clock_source, None);
        assert_eq!(metronome.clock_mode(), ClockMode::Auto);
    }
    set_clock_mode(
        &mut metronome,
        &mut config,
        ClockMode::Master,
        Some("IAC".to_string()),
    );
    assert_eq!(metronome.clock_mode(), ClockMode::Master);
    assert_eq!(metronome.clock_source(), None);
}

#[test]
fn errors_have_their_codes() {
    let details = || "why".to_string();
    for (error, code) in [
        (AppError::NoImageLoaded, "no_image_loaded"),
        (AppError::NoProcessedImage, "no_processed_image"),
        (AppError::SynthNotFound { id: 1 }, "synth_not_found"),
        (AppError::SynthIsPlaying { id: 1 }, "synth_is_playing"),
        (AppError::SynthOrderMismatch, "synth_order_mismatch"),
        (AppError::InvalidChannelIndex, "invalid_channel_index"),
        (AppError::NoFileSelected, "no_file_selected"),
        (AppError::InvalidFilePath, "invalid_file_path"),
        (
            AppError::ImageLoadError { details: details() },
            "image_load_error",
        ),
        (
            AppError::PngEncodingError { details: details() },
            "png_encoding_error",
        ),
        (
            AppError::SessionReadError { details: details() },
            "session_read_error",
        ),
        (
            AppError::SessionWriteError { details: details() },
            "session_write_error",
        ),
        (
            AppError::SessionParseError { details: details() },
            "session_parse_error",
        ),
    ] {
        assert_eq!(error.code(), code);
    }
}
