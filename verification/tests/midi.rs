use wysiwyl::clock::{ClockMode, MetronomeState};
use wysiwyl::error::AppError;
use wysiwyl::midi::{
    broadcast_ports_are_fresh, get_known_programs, handle_input_message,
    handle_input_message_at, list_midi_input_ports, list_midi_ports, midi_to_percent,
    normalize_port_name, note_bytes, output_port_for_input, parse_input, percent_to_midi,
    send_note_off, send_note_on, set_synth_program, strip_direction, InputEvent, InputMessage, KnownProgram, Message,
    MidiPortInfo, MidiState, ProgramEvent, VolumeEvent, MIDI_CLOCK, MIDI_CONTINUE, MIDI_START,
    MIDI_STOP, VIRTUAL_PORT_INDEX, VIRTUAL_PORT_NAME,
};
use wysiwyl::playback::NoteMessage;
use wysiwyl::state::{ProgramState, Synth, SynthState};

#[test]
fn volume_conversions_hit_their_bounds() {
    assert_eq!(percent_to_midi(0), 0);
    assert_eq!(percent_to_midi(50), 64);
    assert_eq!(percent_to_midi(100), 127);
    // Out-of-range percentages are clamped
    assert_eq!(percent_to_midi(200), 127);
    assert_eq!(midi_to_percent(0), 0);
    assert_eq!(midi_to_percent(64), 50);
    assert_eq!(midi_to_percent(127), 100);
    assert_eq!(midi_to_percent(255), 100);
}

#[test]
fn volume_round_trip_is_stable() {
    // A CC value echoed back by the instrument (IAC/thru loop) must
    // convert to the percentage that produced it, so the UI field
    // never flickers to a neighboring value.
    for percent in 0..=100u8 {
        let midi = percent_to_midi(percent);
        assert_eq!(midi_to_percent(midi), percent, "percent {percent}");
    }
}

fn port(index: usize, name: &str) -> MidiPortInfo {
    MidiPortInfo {
        index,
        name: name.to_string(),
        is_virtual: false,
    }
}

#[test]
fn note_messages_have_their_bytes() {
    let on = NoteMessage::On {
        port: 3,
        channel: 9,
        note: 60,
        velocity: 100,
    };
    assert_eq!(note_bytes(on), vec![0x99, 60, 100]);
    let off = NoteMessage::Off {
        port: 3,
        channel: 25,
        note: 200,
    };
    assert_eq!(note_bytes(off), vec![0x89, 72, 0]);
    assert_eq!(send_note_on(0, 64, 127), vec![0x90, 64, 127]);
    assert_eq!(send_note_off(15, 0), vec![0x8F, 0, 0]);
    assert_eq!(MidiState::send_channel_volume(2, 50), vec![0xB2, 7, 64]);
}

#[test]
fn virtual_port_is_listed_first() {
    let names = vec![
        Some("Synth A".to_string()),
        Some("Wysiwyl".to_string()),
        None,
    ];
    let ports = list_midi_ports(&names, true);
    let told: Vec<(usize, &str, bool)> = ports
        .iter()
        .map(|p| (p.index, p.name.as_str(), p.is_virtual))
        .collect();
    assert_eq!(
        told,
        vec![
            (VIRTUAL_PORT_INDEX, VIRTUAL_PORT_NAME, true),
            (0, "Synth A", false),
            (2, "Port 2", false)
        ]
    );
    let plain = list_midi_ports(&names, false);
    assert_eq!(plain.len(), 3);
    assert_eq!(plain[1].name, "Wysiwyl");
    let many = vec![None; 124];
    let listed = list_midi_ports(&many, false);
    for (index, name) in [(0, "Port 0"), (9, "Port 9"), (10, "Port 10"), (123, "Port 123")] {
        assert_eq!(listed[index].name, name);
    }
}

#[test]
fn input_ports_hide_the_own_output() {
    let names = vec!["Wysiwyl".to_string(), String::new(), "Keys".to_string()];
    let ports = list_midi_input_ports(&names, true);
    let told: Vec<(&str, bool)> = ports
        .iter()
        .map(|p| (p.name.as_str(), p.is_virtual))
        .collect();
    assert_eq!(told, vec![("Keys", false), ("Wysiwyl", true)]);
    assert_eq!(list_midi_input_ports(&names, false).len(), 2);
}

#[test]
fn port_names_lose_their_direction() {
    assert_eq!(normalize_port_name("Korg MIDI IN"), "korg midi");
    assert_eq!(normalize_port_name("Korg MIDI Output"), "korg midi");
    assert_eq!(normalize_port_name("Korg Input "), "korg input ");
    assert_eq!(normalize_port_name("IAC Bus"), "iac bus");
    assert_eq!(strip_direction("ÉLAN out".to_string()), "ÉLAN");
    // a word of its own
    assert_eq!(normalize_port_name("OUT"), "");
    assert_eq!(normalize_port_name("Bus\u{a0}\tOutput"), "bus");
    // letters of another word
    assert_eq!(normalize_port_name("Violin"), "violin");
    assert_eq!(normalize_port_name("Layout"), "layout");
    assert_eq!(normalize_port_name("Lapin IN"), "lapin");
}

#[test]
fn unrelated_ports_are_no_counterparts() {
    let outputs = vec![port(0, "Viol"), port(1, "Drums")];
    assert_eq!(output_port_for_input("Violin", &outputs), None);
    assert_eq!(output_port_for_input("DRUMS in", &outputs), Some(1));
}

#[test]
fn inputs_find_their_output_port() {
    let outputs = vec![port(0, "Korg OUT"), port(1, "Moog OUT"), port(4, "Keys")];
    // the exact name first
    assert_eq!(output_port_for_input("Keys", &outputs), Some(4));
    // then the name without its direction
    assert_eq!(output_port_for_input("Moog IN", &outputs), Some(1));
    assert_eq!(output_port_for_input("Other", &outputs), None);
    // two candidates are none
    let twins = vec![port(0, "Korg OUT"), port(1, "korg output")];
    assert_eq!(output_port_for_input("Korg IN", &twins), None);
    // a single port is the one
    assert_eq!(
        output_port_for_input("Other", &vec![port(7, "Only")]),
        Some(7)
    );
    assert_eq!(output_port_for_input("Other", &Vec::new()), None);
}

#[test]
fn input_messages_are_parsed() {
    assert_eq!(parse_input(&[0xF8]), InputMessage::Realtime(0xF8));
    assert_eq!(parse_input(&[]), InputMessage::Ignored);
    assert_eq!(
        parse_input(&[0xC3, 0x85]),
        InputMessage::Channel {
            channel: 3,
            message: Message::Program(5)
        }
    );
    assert_eq!(
        parse_input(&[0xB1, 0, 9]),
        InputMessage::Channel {
            channel: 1,
            message: Message::Bank(0, 9)
        }
    );
    assert_eq!(
        parse_input(&[0xBF, 32, 7]),
        InputMessage::Channel {
            channel: 15,
            message: Message::Bank(32, 7)
        }
    );
    assert_eq!(
        parse_input(&[0xB0, 7, 64]),
        InputMessage::Channel {
            channel: 0,
            message: Message::Volume(64)
        }
    );
    assert_eq!(parse_input(&[0xB0, 1, 64]), InputMessage::Ignored);
    assert_eq!(parse_input(&[0xB0, 7]), InputMessage::Ignored);
    assert_eq!(parse_input(&[0x90, 60, 100]), InputMessage::Ignored);
}

#[test]
fn programs_and_banks_are_learned() {
    let mut metronome = MetronomeState::default();
    let mut synths = SynthState::default();
    let mut midi = MidiState::default();
    let outputs = vec![port(2, "Keys")];
    let mut hear = |data: &[u8]| {
        handle_input_message(
            data,
            "Keys",
            &outputs,
            &mut metronome,
            &mut synths,
            &mut midi,
        )
    };
    assert_eq!(
        hear(&[0xB1, 0, 9]),
        InputEvent::Program(ProgramEvent {
            port: 2,
            channel: 1,
            program: ProgramState {
                bank_msb: Some(9),
                bank_lsb: None,
                program: None
            }
        })
    );
    hear(&[0xB1, 32, 3]);
    hear(&[0xC1, 41]);
    hear(&[0xC2, 5]);
    let full = ProgramState {
        bank_msb: Some(9),
        bank_lsb: Some(3),
        program: Some(41),
    };
    assert_eq!(midi.known_program(2, 1), Some(full));
    assert_eq!(midi.known_program(2, 3), None);
    let mut list = get_known_programs(&midi);
    list.sort_by_key(|known| known.channel);
    assert_eq!(
        list,
        vec![
            KnownProgram {
                port: 2,
                channel: 1,
                program: full
            },
            KnownProgram {
                port: 2,
                channel: 2,
                program: ProgramState {
                    bank_msb: None,
                    bank_lsb: None,
                    program: Some(5)
                }
            },
        ]
    );
}

#[test]
fn volume_is_learned_by_every_synth_of_the_channel() {
    let mut metronome = MetronomeState::default();
    let mut synths = SynthState::default();
    let mut midi = MidiState::default();
    for (id, midi_port, channel) in [(1, 2, 5), (2, 2, 6), (3, 2, 5), (4, 0, 5)] {
        let mut synth = Synth::new(id);
        synth.midi_port = midi_port;
        synth.channel = channel;
        synths.synths.insert(id, synth);
    }
    let outputs = vec![port(2, "Keys")];
    let event = handle_input_message_at(
        parse_input(&[0xB5, 7, 64]),
        "Keys",
        &outputs,
        0,
        &mut metronome,
        &mut synths,
        &mut midi,
    );
    assert_eq!(
        event,
        InputEvent::Volume(VolumeEvent {
            port: 2,
            channel: 5,
            volume: 50
        })
    );
    assert_eq!(synths.synths[&1].volume, 50);
    assert_eq!(synths.synths[&2].volume, 100);
    assert_eq!(synths.synths[&3].volume, 50);
    assert_eq!(synths.synths[&4].volume, 100);
}

#[test]
fn message_of_an_unknown_port_is_dropped() {
    let mut metronome = MetronomeState::default();
    let mut synths = SynthState::default();
    let mut midi = MidiState::default();
    let event = handle_input_message(
        &[0xC4, 1],
        "Keys",
        &Vec::new(),
        &mut metronome,
        &mut synths,
        &mut midi,
    );
    assert_eq!(event, InputEvent::Dropped { channel: 4 });
    assert!(get_known_programs(&midi).is_empty());
}

#[test]
fn realtime_messages_drive_the_clock() {
    let mut metronome = MetronomeState::default();
    let mut synths = SynthState::default();
    let mut midi = MidiState::default();
    let mut hear = |byte: u8, now_ns: u64, metronome: &mut MetronomeState| {
        let event = handle_input_message_at(
            InputMessage::Realtime(byte),
            "DAW",
            &Vec::new(),
            now_ns,
            metronome,
            &mut synths,
            &mut midi,
        );
        assert_eq!(event, InputEvent::Nothing);
    };
    hear(MIDI_CLOCK, 1_000_000_000, &mut metronome);
    hear(MIDI_CLOCK, 1_010_000_000, &mut metronome);
    assert_eq!(metronome.clock.pulses, 2);
    assert_eq!(metronome.clock.period_ns, 10_000_000);
    hear(MIDI_START, 0, &mut metronome);
    assert!(metronome.clock.started);
    assert_eq!(metronome.clock.anchor, 2);
    hear(MIDI_STOP, 0, &mut metronome);
    assert!(metronome.clock.stopped);
    hear(MIDI_CONTINUE, 0, &mut metronome);
    assert!(!metronome.clock.stopped);
    // active sensing means nothing
    hear(0xFE, 0, &mut metronome);
    assert_eq!(metronome.clock.pulses, 2);
    metronome.apply_clock_mode(ClockMode::Off, None);
    hear(MIDI_CLOCK, 1_020_000_000, &mut metronome);
    assert_eq!(metronome.clock.pulses, 2);
}

#[test]
fn program_selection_is_sent_and_known() {
    let mut state = SynthState::default();
    let mut synth = Synth::new(1);
    synth.midi_port = 4;
    synth.channel = 10;
    state.synths.insert(1, synth);
    let mut midi = MidiState::default();
    let (to, messages, sound) =
        set_synth_program(1, Some(41), Some(1), Some(32), &mut midi, &state).unwrap();
    assert_eq!(to, 4);
    assert_eq!(
        messages,
        vec![vec![0xBA, 0, 1], vec![0xBA, 32, 32], vec![0xCA, 41]]
    );
    assert!(sound.is_known());
    assert_eq!(midi.known_program(4, 10), Some(sound));
    let (_, messages, sound) =
        set_synth_program(1, None, None, Some(2), &mut midi, &state).unwrap();
    assert_eq!(messages, vec![vec![0xBA, 32, 2]]);
    assert!(!sound.is_known());
    assert!(matches!(
        set_synth_program(9, None, None, None, &mut midi, &state),
        Err(AppError::SynthNotFound { id: 9 })
    ));
}

#[test]
fn broadcast_ports_stay_fresh_for_a_second() {
    assert!(broadcast_ports_are_fresh(Some(999)));
    assert!(!broadcast_ports_are_fresh(Some(1_000)));
    assert!(!broadcast_ports_are_fresh(None));
}
