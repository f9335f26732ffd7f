//! What holds of the clock and of the wakes that it drives.

use vstd::prelude::*;

use crate::clock::{self, ClockMode, ClockState, MetronomeState};
use crate::conductor::{self, Conductor, Timing};
use crate::midi;
use crate::text;

verus! {

proof fn lemma_nearest_tempo(period: u64, bpm: int)
    requires
        20 <= bpm <= 300,
        period > 0,
        2 * period * bpm <= 5_000_000_000 + period < 2 * period * bpm + 2 * period,
    ensures
        clock::bpm_of_period(period) == bpm,
{
    let rest = 5_000_000_000 + period - 2 * period * bpm;
    assert(5_000_000_000 + period == bpm * (2 * period) + rest) by (nonlinear_arith)
        requires
            rest == 5_000_000_000 + period - 2 * period * bpm,
    ;
    vstd::arithmetic::div_mod::lemma_fundamental_div_mod_converse(
        5_000_000_000 + period,
        2 * period as int,
        bpm,
        rest,
    );
}

/// A clock at any tempo of the metronome's range, 20 to 300 BPM, is measured
/// from its second pulse on: two pulses as far apart as a 24th of a beat, to
/// the nanosecond, leave that period on a clock without one, and the measured
/// tempo is that of the sender.
pub proof fn any_tempo_is_measured_from_two_pulses(clock: ClockState, interval: int, bpm: int)
    requires
        20 <= bpm <= 300,
        -24 * bpm <= 24 * interval * bpm - 60_000_000_000 <= 24 * bpm,
        clock.period_ns == 0,
        clock.last_pulse_ns > 0,
        clock.last_pulse_ns + interval <= u64::MAX,
    ensures
        ({
            let after = clock::pulsed(clock, (clock.last_pulse_ns + interval) as u64);
            after.period_ns == interval && clock::bpm_of_period(after.period_ns) == bpm
        }),
{
    assert(8_333_332 <= interval <= 125_000_001) by (nonlinear_arith)
        requires
            20 <= bpm <= 300,
            -24 * bpm <= 24 * interval * bpm - 60_000_000_000 <= 24 * bpm,
    ;
    assert(24 * interval * bpm == 12 * (2 * interval * bpm)) by (nonlinear_arith);
    lemma_nearest_tempo(interval as u64, bpm);
}

/// Every interval that a pulse of 20 to 300 BPM can take is learned by a clock
/// without a period; those shorter than 4 ms or of 2 s and more are no pulses
/// of a clock, and leave the period alone.
pub proof fn pulses_of_a_clock_are_told_from_others(clock: ClockState, now_ns: u64)
    requires
        clock.last_pulse_ns > 0,
    ensures
        ({
            let interval = now_ns - clock.last_pulse_ns;
            let after = clock::pulsed(clock, now_ns).period_ns;
            &&& clock.period_ns == 0 && 4_000_000 <= interval && interval < 2_000_000_000
                ==> after == interval
            &&& interval < 4_000_000 || interval >= 2_000_000_000 ==> after == clock.period_ns
        }),
{
}

/// Later intervals are averaged in: the period moves a quarter of the way to
/// the new interval, rounded down.
pub proof fn later_intervals_move_the_period_by_a_quarter(clock: ClockState, now_ns: u64)
    requires
        clock.last_pulse_ns > 0,
        clock.period_ns > 0,
        4_000_000 <= now_ns - clock.last_pulse_ns < 2_000_000_000,
    ensures
        ({
            let interval = now_ns - clock.last_pulse_ns;
            let after = clock::pulsed(clock, now_ns).period_ns as int;
            4 * after <= 3 * clock.period_ns + interval < 4 * after + 4
        }),
{
    let interval = now_ns - clock.last_pulse_ns;
    assert((3 * clock.period_ns + interval) / 4 <= u64::MAX);
}

/// Each pulse is counted and its time remembered; the first one of all measures
/// nothing. Neither the anchor nor the transport changes.
pub proof fn pulses_are_counted(clock: ClockState, now_ns: u64)
    ensures
        clock.pulses < u64::MAX ==> clock::pulsed(clock, now_ns).pulses == clock.pulses + 1,
        clock.pulses == u64::MAX ==> clock::pulsed(clock, now_ns).pulses == 0,
        clock::pulsed(clock, now_ns).last_pulse_ns == now_ns,
        clock::pulsed(clock, now_ns).anchor == clock.anchor,
        clock::pulsed(clock, now_ns).started == clock.started,
        clock::pulsed(clock, now_ns).stopped == clock.stopped,
        clock.last_pulse_ns == 0 ==> clock::pulsed(clock, now_ns).period_ns == clock.period_ns,
{
}

/// The measured tempo is the whole number of beats per minute nearest to the
/// one that has 24 pulses of the period in a beat, brought into 20 to 300.
pub proof fn measured_tempo_is_the_nearest(period: u64)
    requires
        period > 0,
    ensures
        ({
            let bpm = clock::bpm_of_period(period) as int;
            let minute = 60_000_000_000int;
            &&& 20 <= bpm <= 300
            // no slower tempo is as near, unless the slowest is too fast
            &&& bpm > 20 ==> 24 * period * (2 * bpm - 1) <= 2 * minute
            // no faster tempo is nearer, unless the fastest is too slow
            &&& bpm < 300 ==> 2 * minute < 24 * period * (2 * bpm + 1)
        }),
{
    let p = period as int;
    let q = (5_000_000_000 + p) / (2 * p);
    vstd::arithmetic::div_mod::lemma_fundamental_div_mod(5_000_000_000 + p, 2 * p);
    vstd::arithmetic::div_mod::lemma_mod_bound(5_000_000_000 + p, 2 * p);
    let bpm = clock::bpm_of_period(period) as int;
    assert(2 * p * q <= 5_000_000_000 + p < 2 * p * q + 2 * p);
    if bpm > 20 {
        assert(bpm <= q);
        assert(24 * p * (2 * bpm - 1) <= 120_000_000_000) by (nonlinear_arith)
            requires
                bpm <= q,
                p > 0,
                2 * p * q <= 5_000_000_000 + p,
        ;
    }
    if bpm < 300 {
        assert(bpm >= q);
        assert(120_000_000_000 < 24 * p * (2 * bpm + 1)) by (nonlinear_arith)
            requires
                bpm >= q,
                p > 0,
                5_000_000_000 + p < 2 * p * q + 2 * p,
        ;
    }
}

/// A number outside a range is brought to its nearest bound; one inside stays.
pub proof fn clamped_numbers_are_in_range(value: int, low: int, high: int)
    requires
        low <= high,
    ensures
        value <= low ==> clock::clamp(value, low, high) == low,
        value >= high ==> clock::clamp(value, low, high) == high,
        low <= value <= high ==> clock::clamp(value, low, high) == value,
{
}

/// Which clocks are followed: any in `Auto` mode, only that of the chosen
/// input in `Input` mode, and none in the others.
pub proof fn modes_pick_the_clock(state: MetronomeState, input_name: Seq<char>)
    ensures
        state.mode_view() is Auto ==> state.accepts(input_name),
        state.mode_view() is Input ==> (state.accepts(input_name) <==> (state.source matches Some(
            source,
        ) && source@ == input_name)),
        state.mode_view() is Off || state.mode_view() is Master ==> !state.accepts(input_name),
        state.mode_view().follows_spec() <==> state.mode_view() is Auto
            || state.mode_view() is Input,
{
}

/// A pulse that is accepted is registered and ends a stop; one that is not
/// changes nothing. The tempo, the mode and whether the metronome runs stay.
pub proof fn accepted_pulses_end_a_stop(
    state: MetronomeState,
    input_name: Seq<char>,
    now_ns: u64,
)
    ensures
        ({
            let after = clock::after_pulse(state, input_name, now_ns);
            &&& after == (MetronomeState { clock: after.clock, ..state })
            &&& state.accepts(input_name) ==> !after.clock.stopped && after.clock == (ClockState {
                stopped: false,
                ..clock::pulsed(state.clock, now_ns)
            })
            &&& !state.accepts(input_name) ==> after.clock == state.clock
        }),
{
}

/// A chosen input is kept without the white space around its name; without a
/// name, `Input` falls back to `Auto`. The other modes are kept and have no
/// input.
pub proof fn choices_of_a_clock_are_sane(mode: ClockMode, source: Option<Seq<char>>)
    ensures
        ({
            let (kept, input) = clock::sanitized(mode, source);
            &&& !(mode is Input) ==> kept == mode && input is None
            &&& mode is Input && source is None ==> kept is Auto && input is None
            &&& mode is Input && source is Some && text::trimmed(source->0).len() == 0
                ==> kept is Auto && input is None
            &&& mode is Input && source is Some && text::trimmed(source->0).len() > 0 ==> kept
                is Input && input == Some(text::trimmed(source->0))
        }),
{
}

/// The modes have different encodings, and what encodes none of them is
/// `Auto`.
pub proof fn encodings_tell_the_modes_apart(a: ClockMode, b: ClockMode, value: u8)
    ensures
        a.encode_spec() == b.encode_spec() ==> a == b,
        (forall|mode: ClockMode| #[trigger] mode.encode_spec() != value)
            ==> ClockMode::decode_spec(value) is Auto,
        ClockMode::decode_spec(a.encode_spec()) == a,
{
    assert(ClockMode::Off.encode_spec() == 1);
    assert(ClockMode::Master.encode_spec() == 2);
    assert(ClockMode::Input.encode_spec() == 3);
}

/// Four wakes make a beat: a beat begins with every fourth wake, and with no
/// other, and the beats are numbered one after the other.
pub proof fn four_wakes_make_a_beat(conductor: Conductor, mode: ClockMode)
    ensures
        match conductor::wake_start(conductor, mode).beat {
            Some(beat) => 4 * beat == conductor.wake,
            None => conductor.wake % 4 != 0,
        },
{
}

/// Entering master mode sends one Start (0xFA), leaving it one Stop (0xFC),
/// and staying in or out of it sends neither.
pub proof fn transport_follows_the_master_mode(conductor: Conductor, mode: ClockMode)
    ensures
        conductor::begun(conductor, mode) == (Conductor {
            was_master: mode is Master,
            ..conductor
        }),
        conductor::opening(conductor::wake_start(conductor, mode)) == (if mode is Master
            && !conductor.was_master {
            seq![0xFAu8]
        } else if !(mode is Master) && conductor.was_master {
            seq![0xFCu8]
        } else {
            Seq::<u8>::empty()
        }),
        conductor::closing(conductor::farewell(conductor)) == (if conductor.was_master {
            seq![0xFCu8]
        } else {
            Seq::<u8>::empty()
        }),
        conductor::farewell(conductor).release_sync == conductor.following,
{
}

/// A wake in master mode broadcasts six clock pulses (0xF8), a quarter of the
/// 24 of a beat; in the other modes it broadcasts none.
pub proof fn master_wakes_pulse_six_times(timing: Timing, i: int)
    ensures
        conductor::pulses(timing).len() == (if timing is Master {
            6int
        } else {
            0
        }),
        0 <= i < conductor::pulses(timing).len() ==> conductor::pulses(timing)[i] == 0xF8u8,
{
}

/// What a wake waits for: its own pulses in master mode; six pulses of the
/// clock past the anchor while one is followed in a mode that follows; the
/// internal tempo otherwise.
pub proof fn wakes_wait_for_their_source(
    conductor: Conductor,
    mode: ClockMode,
    clock: ClockState,
)
    requires
        clock.pulses <= u64::MAX - 6,
        clock.anchor <= u64::MAX - 6,
    ensures
        ({
            let follows = mode is Auto || mode is Input;
            let after = conductor::timed_conductor(conductor, mode, clock);
            let grid = conductor::timed_clock(conductor, mode, clock);
            &&& conductor::timing(conductor, mode, clock) == (if mode is Master {
                Timing::Master
            } else if conductor.following && follows {
                Timing::Follow {
                    target: if clock.started {
                        (clock.pulses + 6) as u64
                    } else {
                        (clock.anchor + 6) as u64
                    },
                }
            } else {
                Timing::Internal
            })
            &&& conductor::drops_sync(conductor, mode) <==> conductor.following && !follows
            &&& after.following <==> conductor.following && follows
            &&& after.was_master == conductor.was_master
            &&& after.last_pulses == conductor.last_pulses
            &&& after.last_synced_bpm == (if conductor.following && !follows {
                0
            } else {
                conductor.last_synced_bpm
            })
            &&& after.wake == (if conductor.following && follows && clock.started {
                0
            } else if conductor.wake == u64::MAX {
                0
            } else {
                conductor.wake + 1
            })
            &&& grid == (if conductor.following && follows && clock.started {
                ClockState { started: false, anchor: clock.pulses, ..clock }
            } else {
                clock
            })
        }),
{
}

/// A clock is engaged when the mode follows one, pulses have come since the
/// last look, and the latest is less than 750 ms old.
pub proof fn streaming_clocks_are_recent(
    conductor: Conductor,
    mode: ClockMode,
    clock: ClockState,
    now_ns: u64,
)
    ensures
        conductor::streaming(conductor, mode, clock, now_ns) <==> {
            &&& mode is Auto || mode is Input
            &&& clock.pulses > 0
            &&& clock.pulses != conductor.last_pulses
            &&& now_ns - clock.last_pulse_ns < 750_000_000
        },
{
}

/// Engaging a clock anchors the grid at its latest pulse, and its tempo is yet
/// to be announced; a look at a clock that does not stream only remembers its
/// pulses.
pub proof fn engaging_anchors_the_grid(conductor: Conductor, clock: ClockState)
    ensures
        conductor::engaged_conductor(conductor, clock, true) == (Conductor {
            following: true,
            last_synced_bpm: 0,
            last_pulses: clock.pulses,
            ..conductor
        }),
        conductor::engaged_conductor(conductor, clock, false) == (Conductor {
            last_pulses: clock.pulses,
            ..conductor
        }),
        conductor::engaged_clock(clock, true) == (ClockState { anchor: clock.pulses, ..clock }),
        conductor::engaged_clock(clock, false) == clock,
        conductor::unsynced(conductor) == (Conductor {
            following: false,
            last_synced_bpm: 0,
            ..conductor
        }),
{
}

/// The time between two master pulses is a 24th of a beat, to the nanosecond;
/// a tempo of zero counts as one.
pub proof fn master_pulses_are_a_24th_of_a_beat(bpm: u32)
    ensures
        ({
            let ns = conductor::pulse_period(bpm);
            let beats = if bpm == 0 {
                1int
            } else {
                bpm as int
            };
            &&& conductor::at_least_one(bpm) == beats
            &&& 24 * ns * beats <= 60_000_000_000
            &&& 60_000_000_000 < 24 * (ns + 1) * beats
        }),
{
    let beats = conductor::at_least_one(bpm);
    let ns = conductor::pulse_period(bpm);
    vstd::arithmetic::div_mod::lemma_fundamental_div_mod(60_000_000_000, 24 * beats);
    vstd::arithmetic::div_mod::lemma_mod_bound(60_000_000_000, 24 * beats);
    assert(24 * ns * beats == 24 * beats * ns) by (nonlinear_arith);
    assert(24 * (ns + 1) * beats == 24 * beats * ns + 24 * beats) by (nonlinear_arith);
}

/// What the clock makes of a system realtime byte: 0xF8 is a pulse, 0xFA and
/// 0xFB start or continue and anchor the grid at the latest pulse, 0xFC stops;
/// no other byte counts, and none from an input that is not accepted.
pub proof fn realtime_bytes_drive_the_clock(
    metronome: MetronomeState,
    byte: u8,
    input_name: Seq<char>,
    now_ns: u64,
)
    ensures
        ({
            let before = metronome.clock;
            let after = midi::clock_after(metronome, byte, input_name, now_ns);
            if !metronome.accepts(input_name) {
                after == before
            } else if byte == 0xF8 {
                &&& !after.stopped
                &&& after.period_ns == clock::pulsed(before, now_ns).period_ns
                &&& after.pulses == clock::pulsed(before, now_ns).pulses
                &&& after.last_pulse_ns == now_ns
                &&& after.anchor == before.anchor
                &&& after.started == before.started
            } else if byte == 0xFA || byte == 0xFB {
                &&& after.started
                &&& !after.stopped
                &&& after.anchor == before.pulses
                &&& after.pulses == before.pulses
                &&& after.period_ns == before.period_ns
                &&& after.last_pulse_ns == before.last_pulse_ns
            } else if byte == 0xFC {
                after == (ClockState { stopped: true, ..before })
            } else {
                after == before
            }
        }),
{
}

/// A followed clock is waited for until its pulses reach the target, which is
/// the next anchor then; a Stop ends the wait at once.
pub proof fn followed_clocks_are_waited_for(clock: ClockState, target: u64)
    ensures
        conductor::polled(clock, target) is Stopped <==> clock.stopped,
        conductor::polled(clock, target) is Collected <==> !clock.stopped && clock.pulses >= target,
        conductor::polled(clock, target) is Waiting <==> !clock.stopped && clock.pulses < target,
        conductor::polled_clock(clock, target) == (ClockState {
            anchor: if !clock.stopped && clock.pulses >= target {
                target
            } else {
                clock.anchor
            },
            ..clock
        }),
{
}

/// A followed wake moves the grid by six pulses, however late it is looked at:
/// no pulse is lost from one wake to the next.
pub proof fn followed_wakes_move_the_grid_by_six(
    conductor: Conductor,
    mode: ClockMode,
    clock: ClockState,
    later: ClockState,
)
    requires
        clock.pulses <= u64::MAX - 6,
        clock.anchor <= u64::MAX - 6,
        conductor.following,
        mode is Auto || mode is Input,
        !clock.started,
        later.anchor == clock.anchor,
        !later.stopped,
        later.pulses >= clock.anchor + 6,
    ensures
        conductor::timing(conductor, mode, clock) matches Timing::Follow { target }
            && conductor::polled_clock(later, target).anchor == clock.anchor + 6,
{
}

/// The tempo of a followed clock becomes that of the metronome, and is
/// announced where it is a new one; as long as none is measured, the tempo
/// stays and none is announced.
pub proof fn measured_tempos_are_announced_once(conductor: Conductor, metronome: MetronomeState)
    ensures
        ({
            let measured = clock::bpm_of_period(metronome.clock.period_ns);
            let told = conductor::announcement(conductor, metronome.clock);
            if metronome.clock.period_ns == 0 {
                &&& told is None
                &&& conductor::synced_bpm(metronome) == metronome.bpm
            } else {
                &&& conductor::synced_bpm(metronome) == measured
                &&& told is Some <==> conductor.last_synced_bpm != measured
                &&& told matches Some(bpm) ==> bpm == measured
            }
        }),
{
    clock::measured_tempo_is_in_range(metronome.clock.period_ns);
}

/// At the internal tempo a minute has as many beats as the tempo says, to the
/// millisecond, and a beat has four wakes.
pub proof fn internal_beats_fill_the_minute(bpm: u32)
    requires
        bpm >= 1,
    ensures
        bpm * conductor::beat_period(bpm) <= 60_000,
        60_000 < bpm * (conductor::beat_period(bpm) + 1),
        4 * conductor::wake_period(bpm) <= conductor::beat_period(bpm),
        conductor::beat_period(bpm) < 4 * conductor::wake_period(bpm) + 4,
{
    let ms = conductor::beat_period(bpm);
    vstd::arithmetic::div_mod::lemma_fundamental_div_mod(60_000, bpm as int);
    vstd::arithmetic::div_mod::lemma_mod_bound(60_000, bpm as int);
    assert(bpm * (ms + 1) == bpm * ms + bpm) by (nonlinear_arith);
}

} // verus!
