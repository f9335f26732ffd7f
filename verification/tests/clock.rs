use wysiwyl::clock::{
    is_metronome_running, measured_bpm, on_clock_pulse, on_clock_pulse_at, on_clock_start,
    on_clock_stop, register_pulse, sanitize_clock_mode, set_metronome_bpm, start_metronome,
    stop_metronome, ClockMode, ClockState, MetronomeState,
};
use wysiwyl::conductor::{
    beat_ms, begin_wake, clock_collected, clock_lost, closing_bytes, finish, opening_bytes,
    pick_timing, poll_clock, pulse_ns, quarter_beat_ms, timing_bytes, try_engage, try_engage_at,
    ClockPoll, Conductor, Farewell, Timing, WakeStart,
};
use wysiwyl::config::{set_clock_mode, AppConfig};

#[test]
fn measured_bpm_converts_the_pulse_period() {
    // 24 ppqn: the pulse period is the beat duration divided by 24
    let mut clock = ClockState::default();
    // 120 BPM → beat 500 ms → pulse 20 833 333 ns
    clock.period_ns = 20_833_333;
    assert_eq!(measured_bpm(&clock), 120);
    // 20 BPM → beat 3 s → pulse 125 000 000 ns (the metronome's floor)
    clock.period_ns = 125_000_000;
    assert_eq!(measured_bpm(&clock), 20);
    // 300 BPM → beat 200 ms → pulse 8 333 333 ns (the ceiling)
    clock.period_ns = 8_333_333;
    assert_eq!(measured_bpm(&clock), 300);
    // Out-of-range clocks are clamped into the metronome's BPM range
    clock.period_ns = 1_000_000_000;
    assert_eq!(measured_bpm(&clock), 20);
    clock.period_ns = 1_000_000;
    assert_eq!(measured_bpm(&clock), 300);
    // No measurable interval yet: unknown
    clock.period_ns = 0;
    assert_eq!(measured_bpm(&clock), 0);
}

#[test]
fn register_pulse_counts_and_smooths_the_interval() {
    let mut clock = ClockState::default();
    const P120: u64 = 20_833_333; // pulse period at 120 BPM

    // First pulse: counted, no interval measured yet
    register_pulse(&mut clock, 1_000_000_000);
    assert_eq!(clock.pulses, 1);
    assert_eq!(clock.period_ns, 0);

    // Second pulse: the observed interval seeds the average
    register_pulse(&mut clock, 1_000_000_000 + P120);
    assert_eq!(clock.pulses, 2);
    assert_eq!(clock.period_ns, P120);

    // A jittered pulse only shifts the average a quarter of the way
    register_pulse(&mut clock, 1_000_000_000 + 2 * P120 + 5_000_000);
    let smoothed = clock.period_ns;
    assert!(smoothed > P120 && smoothed < P120 + 5_000_000);
    // ...and it converges back towards the steady period
    register_pulse(&mut clock, 1_000_000_000 + 3 * P120 + 5_000_000);
    register_pulse(&mut clock, 1_000_000_000 + 4 * P120 + 5_000_000);
    let converged = clock.period_ns;
    assert!(converged < smoothed);

    // Implausible intervals (port glitches) are ignored, not counted
    // into the average
    let before = clock.period_ns;
    register_pulse(&mut clock, 1_000_000_000 + 5 * P120 + 5_000_000 + 9_000_000_000);
    assert_eq!(clock.period_ns, before);
    // ...but the pulse itself is still counted
    assert_eq!(clock.pulses, 6);
}

#[test]
fn clock_stop_marks_the_clock_stopped_and_a_pulse_clears_it() {
    let mut state = MetronomeState::default();
    state.apply_clock_mode(ClockMode::Auto, None);

    on_clock_stop(&mut state, "port");
    assert!(state.clock.stopped);

    // A pulse means the sender streams again
    on_clock_pulse(&mut state, "port");
    assert!(!state.clock.stopped);

    // So does a Start/Continue message
    on_clock_stop(&mut state, "port");
    on_clock_start(&mut state, "port");
    assert!(!state.clock.stopped);
    // Start also re-anchors the grid on the next pulse
    assert!(state.clock.started);
}

#[test]
fn clock_messages_are_ignored_in_off_and_master_modes() {
    let mut state = MetronomeState::default();

    // Off: incoming clocks are ignored entirely
    state.apply_clock_mode(ClockMode::Off, None);
    on_clock_pulse(&mut state, "port");
    on_clock_start(&mut state, "port");
    on_clock_stop(&mut state, "port");
    assert_eq!(state.clock.pulses, 0);
    assert!(!state.clock.started);
    assert!(!state.clock.stopped);

    // Master: same — our own broadcast must never loop back into
    // the sync state through a device set to thru
    state.apply_clock_mode(ClockMode::Master, None);
    on_clock_pulse(&mut state, "port");
    on_clock_stop(&mut state, "port");
    assert_eq!(state.clock.pulses, 0);
    assert!(!state.clock.stopped);
}

#[test]
fn input_mode_accepts_only_the_selected_source() {
    let mut state = MetronomeState::default();
    state.apply_clock_mode(ClockMode::Input, Some("Wysiwyl".to_string()));

    // Another port's clock is ignored
    on_clock_pulse(&mut state, "other port");
    on_clock_stop(&mut state, "other port");
    assert_eq!(state.clock.pulses, 0);
    assert!(!state.clock.stopped);

    // The selected port's is followed
    on_clock_pulse(&mut state, "Wysiwyl");
    assert_eq!(state.clock.pulses, 1);
    on_clock_stop(&mut state, "Wysiwyl");
    assert!(state.clock.stopped);
}

#[test]
fn clock_mode_round_trips_through_the_atomic() {
    let mut state = MetronomeState::default();
    assert_eq!(state.clock_mode(), ClockMode::Auto);
    state.apply_clock_mode(ClockMode::Master, None);
    assert_eq!(state.clock_mode(), ClockMode::Master);
    assert_eq!(state.clock_source(), None);
    state.apply_clock_mode(ClockMode::Input, Some("in".to_string()));
    assert_eq!(state.clock_mode(), ClockMode::Input);
    assert_eq!(state.clock_source().as_deref(), Some("in"));
}

#[test]
fn modes_survive_their_encoding() {
    for mode in [
        ClockMode::Auto,
        ClockMode::Off,
        ClockMode::Master,
        ClockMode::Input,
    ] {
        assert_eq!(ClockMode::decode(mode.encode()), mode);
    }
    assert_eq!(ClockMode::decode(200), ClockMode::Auto);
}

#[test]
fn pulse_at_a_given_time_is_registered() {
    let mut state = MetronomeState::default();
    state.clock.stopped = true;
    on_clock_pulse_at(&mut state, "port", 5_000_000_000);
    on_clock_pulse_at(&mut state, "port", 5_020_000_000);
    assert_eq!(state.clock.pulses, 2);
    assert_eq!(state.clock.last_pulse_ns, 5_020_000_000);
    assert_eq!(state.clock.period_ns, 20_000_000);
    assert!(!state.clock.stopped);
}

#[test]
fn pulses_tell_the_time_of_day() {
    let mut state = MetronomeState::default();
    on_clock_pulse(&mut state, "port");
    // well past the year 2020, in nanoseconds since 1970
    assert!(state.clock.last_pulse_ns > 1_577_000_000_000_000_000);
}

#[test]
fn jittered_period_moves_by_a_quarter() {
    let mut clock = ClockState::default();
    register_pulse(&mut clock, 1_000_000_000);
    register_pulse(&mut clock, 1_020_000_000);
    register_pulse(&mut clock, 1_048_000_000);
    assert_eq!(clock.period_ns, 22_000_000);
    // a clock that goes backward is no interval
    register_pulse(&mut clock, 1_000_000_000);
    assert_eq!(clock.period_ns, 22_000_000);
    assert_eq!(clock.pulses, 4);
}

#[test]
fn steady_clock_keeps_its_period() {
    let mut clock = ClockState::default();
    for i in 1..20 {
        register_pulse(&mut clock, i * 20_833_333);
    }
    assert_eq!(clock.period_ns, 20_833_333);
    assert_eq!(measured_bpm(&clock), 120);
}

#[test]
fn tempo_is_brought_into_range() {
    let mut state = MetronomeState::default();
    assert_eq!(state.bpm, 120);
    set_metronome_bpm(&mut state, 5);
    assert_eq!(state.bpm, 20);
    set_metronome_bpm(&mut state, 1_000);
    assert_eq!(state.bpm, 300);
    set_metronome_bpm(&mut state, 90);
    assert_eq!(state.bpm, 90);
}

#[test]
fn metronome_starts_once() {
    let mut state = MetronomeState::default();
    assert!(!is_metronome_running(&state));
    assert!(start_metronome(&mut state));
    assert!(!start_metronome(&mut state));
    assert!(is_metronome_running(&state));
    stop_metronome(&mut state);
    assert!(!is_metronome_running(&state));
}

#[test]
fn input_without_a_source_is_auto() {
    assert_eq!(
        sanitize_clock_mode(ClockMode::Input, None),
        (ClockMode::Auto, None)
    );
    assert_eq!(
        sanitize_clock_mode(ClockMode::Input, Some(" \t\n".to_string())),
        (ClockMode::Auto, None)
    );
    assert_eq!(
        sanitize_clock_mode(ClockMode::Input, Some("  IAC bus\u{a0}".to_string())),
        (ClockMode::Input, Some("IAC bus".to_string()))
    );
    assert_eq!(
        sanitize_clock_mode(ClockMode::Master, Some("IAC".to_string())),
        (ClockMode::Master, None)
    );
}

#[test]
fn clock_mode_is_applied_and_kept() {
    let mut metronome = MetronomeState::default();
    let mut config = AppConfig::default();
    set_clock_mode(
        &mut metronome,
        &mut config,
        ClockMode::Input,
        Some(" DAW ".to_string()),
    );
    assert_eq!(metronome.clock_mode(), ClockMode::Input);
    assert_eq!(metronome.clock_source().as_deref(), Some("DAW"));
    assert_eq!(config.clock_mode, ClockMode::Input);
    assert_eq!(config.clock_source.as_deref(), Some("DAW"));
    assert_eq!(config.default_bpm, 120);
    set_clock_mode(&mut metronome, &mut config, ClockMode::Input, None);
    assert_eq!(metronome.clock_mode(), ClockMode::Auto);
    assert_eq!(config.clock_source, None);
}

#[test]
fn every_fourth_wake_is_a_beat() {
    let mut conductor = Conductor::default();
    let mut clock = ClockState::default();
    let mut beats = Vec::new();
    for _ in 0..9 {
        if let Some(beat) = begin_wake(&mut conductor, ClockMode::Off).beat {
            beats.push(beat);
        }
        let (dropped, timing) = pick_timing(&mut conductor, ClockMode::Off, &mut clock);
        assert!(!dropped);
        assert_eq!(timing, Timing::Internal);
    }
    assert_eq!(beats, vec![0, 1, 2]);
}

#[test]
fn master_mode_announces_its_transport() {
    let mut conductor = Conductor::default();
    let mut clock = ClockState::default();
    let start = begin_wake(&mut conductor, ClockMode::Master);
    assert_eq!(
        start,
        WakeStart {
            master: Some(true),
            beat: Some(0)
        }
    );
    let (_, timing) = pick_timing(&mut conductor, ClockMode::Master, &mut clock);
    assert_eq!(timing, Timing::Master);
    assert_eq!(begin_wake(&mut conductor, ClockMode::Master).master, None);
    assert_eq!(
        finish(&conductor),
        Farewell {
            release_master: true,
            release_sync: false
        }
    );
    assert_eq!(
        begin_wake(&mut conductor, ClockMode::Auto).master,
        Some(false)
    );
}

#[test]
fn streaming_clock_is_followed_and_lost() {
    let mut metronome = MetronomeState::default();
    let mut conductor = Conductor::default();
    for i in 1..=3 {
        on_clock_pulse_at(&mut metronome, "DAW", i * 25_000_000);
    }
    assert!(try_engage_at(
        &mut conductor,
        ClockMode::Auto,
        &mut metronome.clock,
        100_000_000
    ));
    assert!(conductor.following);
    assert_eq!(metronome.clock.anchor, 3);

    let (_, timing) = pick_timing(&mut conductor, ClockMode::Auto, &mut metronome.clock);
    assert_eq!(timing, Timing::Follow { target: 9 });
    assert_eq!(poll_clock(&mut metronome.clock, 9), ClockPoll::Waiting);
    for i in 4..=9 {
        on_clock_pulse_at(&mut metronome, "DAW", i * 25_000_000);
    }
    assert_eq!(poll_clock(&mut metronome.clock, 9), ClockPoll::Collected);
    assert_eq!(metronome.clock.anchor, 9);
    // 25 ms per pulse: 100 BPM, announced once
    assert_eq!(
        clock_collected(&mut conductor, &mut metronome),
        Some(100)
    );
    assert_eq!(metronome.bpm, 100);
    assert_eq!(clock_collected(&mut conductor, &mut metronome), None);

    on_clock_stop(&mut metronome, "DAW");
    assert_eq!(poll_clock(&mut metronome.clock, 15), ClockPoll::Stopped);
    clock_lost(&mut conductor);
    assert!(!conductor.following);
    assert_eq!(conductor.last_synced_bpm, 0);
    assert_eq!(metronome.bpm, 100);
}

#[test]
fn old_or_known_pulses_do_not_engage() {
    let mut conductor = Conductor::default();
    let mut clock = ClockState::default();
    assert!(!try_engage_at(&mut conductor, ClockMode::Auto, &mut clock, 0));
    register_pulse(&mut clock, 1_000_000_000);
    // 750 ms later is too late
    let mut late = conductor;
    assert!(!try_engage_at(
        &mut late,
        ClockMode::Auto,
        &mut clock,
        1_750_000_000
    ));
    // the pulse has been seen by then
    assert!(!try_engage_at(
        &mut late,
        ClockMode::Auto,
        &mut clock,
        1_000_000_001
    ));
    assert!(!try_engage_at(
        &mut conductor,
        ClockMode::Off,
        &mut clock,
        1_000_000_001
    ));
}

#[test]
fn recent_pulse_engages_now() {
    let mut metronome = MetronomeState::default();
    let mut conductor = Conductor::default();
    on_clock_pulse(&mut metronome, "DAW");
    assert!(try_engage(
        &mut conductor,
        ClockMode::Auto,
        &mut metronome.clock
    ));
}

#[test]
fn start_message_realigns_the_wakes() {
    let mut metronome = MetronomeState::default();
    metronome.clock.pulses = 41;
    metronome.clock.anchor = 40;
    let mut conductor = Conductor {
        wake: 6,
        following: true,
        last_pulses: 41,
        last_synced_bpm: 120,
        was_master: false,
    };
    on_clock_start(&mut metronome, "DAW");
    let (_, timing) = pick_timing(&mut conductor, ClockMode::Auto, &mut metronome.clock);
    assert_eq!(timing, Timing::Follow { target: 47 });
    assert_eq!(conductor.wake, 0);
    assert!(!metronome.clock.started);
}

#[test]
fn leaving_the_following_modes_drops_the_sync() {
    let mut conductor = Conductor {
        wake: 6,
        following: true,
        last_pulses: 41,
        last_synced_bpm: 120,
        was_master: false,
    };
    let mut clock = ClockState::default();
    let (dropped, timing) = pick_timing(&mut conductor, ClockMode::Off, &mut clock);
    assert!(dropped);
    assert_eq!(timing, Timing::Internal);
    assert!(!conductor.following);
    assert_eq!(conductor.last_synced_bpm, 0);
    assert_eq!(conductor.wake, 7);
}

#[test]
fn tempo_gives_the_pulse_and_beat_times() {
    assert_eq!(pulse_ns(120), 20_833_333);
    assert_eq!(beat_ms(120), 500);
    assert_eq!(quarter_beat_ms(120), 125);
    assert_eq!(quarter_beat_ms(0), 15_000);
    // a follower measures the tempo that the master clock was sent at
    for bpm in 20..=300 {
        let clock = ClockState {
            period_ns: pulse_ns(bpm),
            ..ClockState::default()
        };
        assert_eq!(measured_bpm(&clock), bpm);
    }
}

/// What is broadcast during wakes under the given modes, and at the end.
fn broadcast(modes: &[ClockMode]) -> Vec<u8> {
    let mut conductor = Conductor::default();
    let mut clock = ClockState::default();
    let mut bytes = Vec::new();
    for mode in modes {
        bytes.extend(opening_bytes(&begin_wake(&mut conductor, *mode)));
        let (_, timing) = pick_timing(&mut conductor, *mode, &mut clock);
        bytes.extend(timing_bytes(&timing));
    }
    bytes.extend(closing_bytes(&finish(&conductor)));
    bytes
}

#[test]
fn master_clock_stands_between_start_and_stop() {
    for wakes in 1..=8 {
        let mut expected = vec![0xFA];
        expected.extend(vec![0xF8; 6 * wakes]);
        expected.push(0xFC);
        assert_eq!(broadcast(&vec![ClockMode::Master; wakes]), expected);
    }
    assert_eq!(broadcast(&[ClockMode::Auto, ClockMode::Off]), vec![]);
    // leaving the mode stops the followers too
    assert_eq!(
        broadcast(&[ClockMode::Master, ClockMode::Off]),
        vec![0xFA, 0xF8, 0xF8, 0xF8, 0xF8, 0xF8, 0xF8, 0xFC]
    );
}
