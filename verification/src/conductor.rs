//! The decisions of the metronome's loop, one quarter-beat wake at a time.
//!
//! One "wake" is a quarter-beat (a sixteenth note): every fourth wake is a
//! beat boundary, reported to the interface as a metronome tick. While a MIDI
//! clock streams, the wakes are driven by its pulses (6 per sixteenth); in
//! master mode the metronome broadcasts its own pulses (24 per quarter note);
//! otherwise it sleeps on its own BPM.
//!
//! A wake goes: `begin_wake`, whose `opening_bytes` are broadcast, then the
//! synths advance, then `pick_timing`. `Timing::Master` is followed by the
//! broadcast of its `timing_bytes`, `pulse_ns` apart;
//! `Timing::Follow` by `poll_clock` until it is no longer waiting or the
//! clock has been silent for too long, then by `clock_collected` or
//! `clock_lost`; `Timing::Internal` by a sleep of `quarter_beat_ms` and
//! `try_engage`. At the end, the `closing_bytes` of `finish` are broadcast.

use vstd::prelude::*;

use crate::clock::{self, measured_bpm, now_ns, ClockMode, ClockState, MetronomeState};
use crate::midi::{MIDI_CLOCK, MIDI_START, MIDI_STOP};

verus! {

/// A clock without a pulse for this long (ms) has stopped: the metronome
/// falls back to its internal tempo, keeping the last synced BPM.
pub const CLOCK_FALLBACK_MS: u64 = 2_000;

/// A pulse seen more recently than this (ns) means a clock is streaming and
/// the metronome should engage sync on its next wake.
pub const CLOCK_ENGAGE_WINDOW_NS: u64 = 750_000_000;

/// What the metronome remembers from one wake to the next.
#[derive(Clone, Copy, Debug, PartialEq, Eq, Structural)]
pub struct Conductor {
    /// The number of the wake.
    pub wake: u64,
    /// True while the wakes follow an incoming MIDI clock.
    pub following: bool,
    /// The pulse count at the last look for a streaming clock.
    pub last_pulses: u64,
    /// The tempo last announced as synced; 0 = none yet.
    pub last_synced_bpm: u32,
    /// True while the master clock is broadcast; transport messages
    /// (Start/Stop) are sent on the engage/disengage transitions, including
    /// the metronome's own start and exit.
    pub was_master: bool,
}

impl Default for Conductor {
    fn default() -> (conductor: Self)
        ensures
            conductor == (Conductor {
                wake: 0,
                following: false,
                last_pulses: 0,
                last_synced_bpm: 0,
                was_master: false,
            }),
    {
        Conductor {
            wake: 0,
            following: false,
            last_pulses: 0,
            last_synced_bpm: 0,
            was_master: false,
        }
    }
}

/// What the beginning of a wake brings.
#[derive(Clone, Copy, Debug, PartialEq, Eq, Structural)]
pub struct WakeStart {
    /// The master clock engages (a Start is broadcast) or disengages (a Stop
    /// is).
    pub master: Option<bool>,
    /// The beat that begins, if one does.
    pub beat: Option<u64>,
}

/// What the beginning of a wake brings under a clock mode.
pub open spec fn wake_start(conductor: Conductor, mode: ClockMode) -> WakeStart {
    WakeStart {
        master: if conductor.was_master == (mode is Master) {
            None
        } else {
            Some(mode is Master)
        },
        beat: if conductor.wake % 4 == 0 {
            Some((conductor.wake / 4) as u64)
        } else {
            None
        },
    }
}

/// The conductor once a wake has begun.
pub open spec fn begun(conductor: Conductor, mode: ClockMode) -> Conductor {
    Conductor { was_master: mode is Master, ..conductor }
}

/// Begins a wake under the current clock mode, which is read live so that
/// changes apply.
pub fn begin_wake(conductor: &mut Conductor, mode: ClockMode) -> (start: WakeStart)
    ensures
        *final(conductor) == begun(*old(conductor), mode),
        start == wake_start(*old(conductor), mode),
{
    let master: bool = match mode {
        ClockMode::Master => true,
        _ => false,
    };
    let changed: Option<bool> = if master != conductor.was_master {
        Some(master)
    } else {
        None
    };
    conductor.was_master = master;
    let beat: Option<u64> = if conductor.wake % 4 == 0 {
        Some(conductor.wake / 4)
    } else {
        None
    };
    WakeStart { master: changed, beat }
}

/// The transport message that begins or ends the master clock, if either
/// happens.
pub open spec fn opening(start: WakeStart) -> Seq<u8> {
    match start.master {
        Some(true) => seq![MIDI_START],
        Some(false) => seq![MIDI_STOP],
        None => Seq::empty(),
    }
}

/// What is broadcast at the beginning of a wake.
pub fn opening_bytes(start: &WakeStart) -> (bytes: Vec<u8>)
    ensures
        bytes@ == opening(*start),
{
    let mut bytes: Vec<u8> = Vec::new();
    if let Some(master) = start.master {
        bytes.push(
            if master {
                MIDI_START
            } else {
                MIDI_STOP
            },
        );
    }
    assert(bytes@ =~= opening(*start));
    bytes
}

/// What the metronome waits for before its next wake.
#[derive(Clone, Copy, Debug, PartialEq, Eq, Structural)]
pub enum Timing {
    /// Six pulses of its own.
    Master,
    /// The pulse count of the incoming clock to reach `target`: six pulses,
    /// one sixteenth note, past the anchor.
    Follow { target: u64 },
    /// A quarter-beat of the internal tempo.
    Internal,
}

/// The pulses of the master clock in a wake: six, so that a beat of four wakes
/// has 24.
pub open spec fn pulses(timing: Timing) -> Seq<u8> {
    if timing is Master {
        Seq::new(6, |i: int| MIDI_CLOCK)
    } else {
        Seq::empty()
    }
}

/// What is broadcast while the metronome waits for its next wake, one pulse
/// after the other.
pub fn timing_bytes(timing: &Timing) -> (bytes: Vec<u8>)
    ensures
        bytes@ == pulses(*timing),
        *timing is Master ==> bytes@.len() == 6,
{
    let mut bytes: Vec<u8> = Vec::new();
    if let Timing::Master = timing {
        bytes = vec![MIDI_CLOCK, MIDI_CLOCK, MIDI_CLOCK, MIDI_CLOCK, MIDI_CLOCK, MIDI_CLOCK];
    }
    assert(bytes@ =~= pulses(*timing));
    bytes
}

/// The conductor without an active DAW sync.
pub open spec fn unsynced(conductor: Conductor) -> Conductor {
    Conductor { following: false, last_synced_bpm: 0, ..conductor }
}

/// The number of the next wake; it starts over past the last one.
pub open spec fn next_wake(wake: u64) -> u64 {
    clock::counted(wake)
}

/// True when a mode change drops an active DAW sync.
pub open spec fn drops_sync(conductor: Conductor, mode: ClockMode) -> bool {
    conductor.following && !mode.follows_spec()
}

/// True when a Start/Continue realigns the grid of an active DAW sync.
pub open spec fn realigns(conductor: Conductor, mode: ClockMode, clock: ClockState) -> bool {
    conductor.following && mode.follows_spec() && clock.started
}

/// The conductor after the timing source of the next wake has been picked.
pub open spec fn timed_conductor(
    conductor: Conductor,
    mode: ClockMode,
    clock: ClockState,
) -> Conductor {
    let next = Conductor { wake: next_wake(conductor.wake), ..conductor };
    if drops_sync(conductor, mode) {
        unsynced(next)
    } else if realigns(conductor, mode, clock) {
        Conductor { wake: 0, ..next }
    } else {
        next
    }
}

/// The clock after the timing source of the next wake has been picked.
pub open spec fn timed_clock(
    conductor: Conductor,
    mode: ClockMode,
    clock: ClockState,
) -> ClockState {
    if realigns(conductor, mode, clock) {
        ClockState { started: false, anchor: clock.pulses, ..clock }
    } else {
        clock
    }
}

/// The timing source of the next wake.
pub open spec fn timing(conductor: Conductor, mode: ClockMode, clock: ClockState) -> Timing {
    if mode is Master {
        Timing::Master
    } else if conductor.following && mode.follows_spec() {
        Timing::Follow { target: (timed_clock(conductor, mode, clock).anchor + 6) as u64 }
    } else {
        Timing::Internal
    }
}

/// Picks the timing source of the next wake. A mode change to `Off` or
/// `Master` drops an active DAW sync, which the first component tells. A
/// Start/Continue received in the meantime realigns the grid with the
/// sender's beats.
pub fn pick_timing(conductor: &mut Conductor, mode: ClockMode, clock: &mut ClockState) -> (picked: (
    bool,
    Timing,
))
    requires
        old(clock).pulses <= u64::MAX - 6,
        old(clock).anchor <= u64::MAX - 6,
    ensures
        picked.0 == drops_sync(*old(conductor), mode),
        *final(conductor) == timed_conductor(*old(conductor), mode, *old(clock)),
        *final(clock) == timed_clock(*old(conductor), mode, *old(clock)),
        picked.1 == timing(*old(conductor), mode, *old(clock)),
{
    conductor.wake = conductor.wake.wrapping_add(1);
    let dropped: bool = conductor.following && !mode.follows();
    if dropped {
        conductor.following = false;
        conductor.last_synced_bpm = 0;
    }
    if let ClockMode::Master = mode {
        return (dropped, Timing::Master);
    }
    if conductor.following {
        if clock.started {
            clock.started = false;
            clock.anchor = clock.pulses;
            conductor.wake = 0;
        }
        return (dropped, Timing::Follow { target: clock.anchor + 6 });
    }
    (dropped, Timing::Internal)
}

/// What a look at the incoming clock tells.
#[derive(Clone, Copy, Debug, PartialEq, Eq, Structural)]
pub enum ClockPoll {
    /// An explicit Stop message: fall back without waiting for the timeout.
    Stopped,
    /// The target is reached, and is the new anchor.
    Collected,
    /// Not yet.
    Waiting,
}

/// What a look at the incoming clock tells while a target is waited for.
pub open spec fn polled(clock: ClockState, target: u64) -> ClockPoll {
    if clock.stopped {
        ClockPoll::Stopped
    } else if clock.pulses >= target {
        ClockPoll::Collected
    } else {
        ClockPoll::Waiting
    }
}

/// The clock after such a look.
pub open spec fn polled_clock(clock: ClockState, target: u64) -> ClockState {
    if polled(clock, target) is Collected {
        ClockState { anchor: target, ..clock }
    } else {
        clock
    }
}

/// Looks at the incoming clock while it is followed.
pub fn poll_clock(clock: &mut ClockState, target: u64) -> (poll: ClockPoll)
    ensures
        poll == polled(*old(clock), target),
        *final(clock) == polled_clock(*old(clock), target),
        poll == (if old(clock).stopped {
            ClockPoll::Stopped
        } else if old(clock).pulses >= target {
            ClockPoll::Collected
        } else {
            ClockPoll::Waiting
        }),
        *final(clock) == (if poll is Collected {
            ClockState { anchor: target, ..*old(clock) }
        } else {
            *old(clock)
        }),
{
    if clock.stopped {
        ClockPoll::Stopped
    } else if clock.pulses >= target {
        clock.anchor = target;
        ClockPoll::Collected
    } else {
        ClockPoll::Waiting
    }
}

/// The clock has stopped: fall back to the internal tempo, keeping the last
/// synced BPM.
pub fn clock_lost(conductor: &mut Conductor)
    ensures
        *final(conductor) == unsynced(*old(conductor)),
{
    conductor.following = false;
    conductor.last_synced_bpm = 0;
}

/// The tempo to announce after a clock has been followed for a wake: the
/// measured one, where there is one and it is new.
pub open spec fn announcement(conductor: Conductor, clock: ClockState) -> Option<u32> {
    let measured = clock::bpm_of_period(clock.period_ns);
    if measured >= 20 && measured != conductor.last_synced_bpm {
        Some(measured)
    } else {
        None
    }
}

/// The tempo of the metronome after a clock has been followed for a wake.
pub open spec fn synced_bpm(metronome: MetronomeState) -> u32 {
    let measured = clock::bpm_of_period(metronome.clock.period_ns);
    if measured >= 20 {
        measured
    } else {
        metronome.bpm
    }
}

/// Tempo learned from the clock: it becomes the metronome's BPM so the
/// display and an eventual internal fallback both follow the DAW's project
/// tempo. Tells the tempo to announce, where it is a new one.
pub fn clock_collected(conductor: &mut Conductor, metronome: &mut MetronomeState) -> (announced:
    Option<u32>)
    ensures
        announced == announcement(*old(conductor), old(metronome).clock),
        final(metronome).bpm == synced_bpm(*old(metronome)),
        ({
            let measured = clock::bpm_of_period(old(metronome).clock.period_ns);
            if measured >= 20 {
                &&& *final(metronome) == (MetronomeState { bpm: measured, ..*old(metronome) })
                &&& *final(conductor) == (Conductor {
                    last_synced_bpm: measured,
                    ..*old(conductor)
                })
                &&& announced == (if measured != old(conductor).last_synced_bpm {
                    Some(measured)
                } else {
                    None
                })
            } else {
                &&& *final(metronome) == *old(metronome)
                &&& *final(conductor) == *old(conductor)
                &&& announced is None
            }
        }),
{
    let measured: u32 = measured_bpm(&metronome.clock);
    if measured < 20 {
        return None;
    }
    metronome.bpm = measured;
    if measured != conductor.last_synced_bpm {
        conductor.last_synced_bpm = measured;
        return Some(measured);
    }
    None
}

/// True when a clock streams that the mode follows: pulses have arrived since
/// the last look, the latest a moment ago.
pub open spec fn streaming(
    conductor: Conductor,
    mode: ClockMode,
    clock: ClockState,
    now_ns: u64,
) -> bool {
    &&& mode.follows_spec()
    &&& clock.pulses > 0
    &&& clock.pulses != conductor.last_pulses
    &&& now_ns - clock.last_pulse_ns < CLOCK_ENGAGE_WINDOW_NS
}

/// The conductor after a look for a streaming clock.
pub open spec fn engaged_conductor(
    conductor: Conductor,
    clock: ClockState,
    engaged: bool,
) -> Conductor {
    if engaged {
        Conductor {
            following: true,
            last_synced_bpm: 0,
            last_pulses: clock.pulses,
            ..conductor
        }
    } else {
        Conductor { last_pulses: clock.pulses, ..conductor }
    }
}

/// The clock after a look whether it streams.
pub open spec fn engaged_clock(clock: ClockState, engaged: bool) -> ClockState {
    if engaged {
        ClockState { anchor: clock.pulses, ..clock }
    } else {
        clock
    }
}

/// Opportunistic engagement at the time `now_ns`: as soon as a clock streams,
/// the next wakes follow its pulses instead of the internal BPM.
pub fn try_engage_at(
    conductor: &mut Conductor,
    mode: ClockMode,
    clock: &mut ClockState,
    now_ns: u64,
) -> (engaged: bool)
    ensures
        engaged == streaming(*old(conductor), mode, *old(clock), now_ns),
        *final(conductor) == engaged_conductor(*old(conductor), *old(clock), engaged),
        *final(clock) == engaged_clock(*old(clock), engaged),
{
    let pulses: u64 = clock.pulses;
    let recent: bool = now_ns < clock.last_pulse_ns || now_ns - clock.last_pulse_ns
        < CLOCK_ENGAGE_WINDOW_NS;
    let engaged: bool = mode.follows() && pulses > 0 && pulses != conductor.last_pulses && recent;
    if engaged {
        conductor.following = true;
        clock.anchor = pulses;
        conductor.last_synced_bpm = 0;
    }
    conductor.last_pulses = pulses;
    engaged
}

/// Opportunistic engagement (in `Input` mode the pulses of non-selected ports
/// are already filtered out on arrival): as soon as a clock streams, the next
/// wakes follow its pulses instead of the internal BPM.
pub fn try_engage(conductor: &mut Conductor, mode: ClockMode, clock: &mut ClockState) -> (engaged:
    bool)
    ensures
        exists|now: u64| engaged == #[trigger] streaming(*old(conductor), mode, *old(clock), now),
        *final(conductor) == engaged_conductor(*old(conductor), *old(clock), engaged),
        *final(clock) == engaged_clock(*old(clock), engaged),
{
    let now: u64 = now_ns();
    try_engage_at(conductor, mode, clock, now)
}

/// What is left to be told when the metronome stops.
#[derive(Clone, Copy, Debug, PartialEq, Eq, Structural)]
pub struct Farewell {
    /// Stop broadcasting the master clock, with a transport Stop so the
    /// followers halt too.
    pub release_master: bool,
    /// Release the tempo controls from the DAW clock.
    pub release_sync: bool,
}

/// What is left to be told when the loop of a conductor ends.
pub open spec fn farewell(conductor: Conductor) -> Farewell {
    Farewell { release_master: conductor.was_master, release_sync: conductor.following }
}

/// The transport message at the end of the loop, if there is one.
pub open spec fn closing(farewell: Farewell) -> Seq<u8> {
    if farewell.release_master {
        seq![MIDI_STOP]
    } else {
        Seq::empty()
    }
}

/// What is broadcast when the loop ends.
pub fn closing_bytes(farewell: &Farewell) -> (bytes: Vec<u8>)
    ensures
        bytes@ == closing(*farewell),
{
    let mut bytes: Vec<u8> = Vec::new();
    if farewell.release_master {
        bytes.push(MIDI_STOP);
    }
    assert(bytes@ =~= closing(*farewell));
    bytes
}

/// Ends the loop.
pub fn finish(conductor: &Conductor) -> (told: Farewell)
    ensures
        told == farewell(*conductor),
{
    Farewell { release_master: conductor.was_master, release_sync: conductor.following }
}

/// The tempo, kept above zero.
pub open spec fn at_least_one(bpm: u32) -> int {
    if bpm < 1 {
        1
    } else {
        bpm as int
    }
}

/// The time between two pulses of the master clock in ns.
pub open spec fn pulse_period(bpm: u32) -> int {
    60_000_000_000int / (24 * at_least_one(bpm))
}

/// The time between two pulses of the master clock in ns: 24 per quarter
/// note. Nanosecond periods avoid the drift an integer-milliseconds division
/// would introduce.
pub fn pulse_ns(bpm: u32) -> (ns: u64)
    ensures
        ns == pulse_period(bpm),
{
    let bpm: u64 = if bpm < 1 {
        1
    } else {
        bpm as u64
    };
    60_000_000_000 / (bpm * 24)
}

/// The time between two beats in ms.
pub open spec fn beat_period(bpm: u32) -> int {
    60_000int / at_least_one(bpm)
}

/// The time between two wakes in ms, at the internal tempo.
pub open spec fn wake_period(bpm: u32) -> int {
    beat_period(bpm) / 4
}

/// The time between two beats in ms.
pub fn beat_ms(bpm: u32) -> (ms: u64)
    ensures
        ms == beat_period(bpm),
        ms == 60_000int / at_least_one(bpm),
{
    let bpm: u64 = if bpm < 1 {
        1
    } else {
        bpm as u64
    };
    60_000 / bpm
}

/// The time between two wakes in ms, at the internal tempo.
pub fn quarter_beat_ms(bpm: u32) -> (ms: u64)
    ensures
        ms == wake_period(bpm),
        ms == 60_000int / at_least_one(bpm) / 4,
{
    beat_ms(bpm) / 4
}

/// In `Off` and `Master` modes the wakes never follow an incoming clock.
pub proof fn off_and_master_never_follow(conductor: Conductor, mode: ClockMode, clock: ClockState)
    requires
        mode is Off || mode is Master,
    ensures
        !timed_conductor(conductor, mode, clock).following,
        timing(conductor, mode, clock) !is Follow,
        forall|now_ns: u64| !#[trigger] streaming(conductor, mode, clock, now_ns),
{
}

/// A wake that follows a clock waits for six pulses past the anchor, so that
/// four wakes, one beat, take 24.
pub proof fn followed_wake_is_six_pulses(conductor: Conductor, mode: ClockMode, clock: ClockState)
    requires
        clock.pulses <= u64::MAX - 6,
        clock.anchor <= u64::MAX - 6,
        timing(conductor, mode, clock) is Follow,
    ensures
        timing(conductor, mode, clock)->target == timed_clock(conductor, mode, clock).anchor + 6,
{
}

/// A Start/Continue message aligns the grid with the sender's beats: the next
/// wake is a beat, and its pulses are counted from there.
pub proof fn start_realigns_the_grid(conductor: Conductor, mode: ClockMode, clock: ClockState)
    requires
        conductor.following,
        mode.follows_spec(),
        clock.started,
    ensures
        timed_conductor(conductor, mode, clock).wake % 4 == 0,
        timed_clock(conductor, mode, clock).anchor == clock.pulses,
        !timed_clock(conductor, mode, clock).started,
{
}

/// 24 pulses of the master clock make a beat, short of it by less than a
/// nanosecond each.
pub proof fn master_clock_keeps_the_tempo(bpm: u32)
    requires
        bpm >= 1,
    ensures
        24 * pulse_period(bpm) * bpm <= 60_000_000_000,
        60_000_000_000 < 24 * (pulse_period(bpm) + 1) * bpm,
{
    let ns = pulse_period(bpm);
    vstd::arithmetic::div_mod::lemma_fundamental_div_mod(60_000_000_000, 24 * bpm as int);
    vstd::arithmetic::div_mod::lemma_mod_bound(60_000_000_000, 24 * bpm as int);
    assert(24 * ns * bpm == 24 * bpm * ns) by (nonlinear_arith);
    assert(24 * (ns + 1) * bpm == 24 * bpm * ns + 24 * bpm) by (nonlinear_arith);
}

/// A follower of the master clock measures the tempo it was sent at.
pub proof fn master_tempo_is_measured_back(bpm: u32)
    requires
        20 <= bpm <= 300,
    ensures
        clock::bpm_of_period(pulse_period(bpm) as u64) == bpm,
{
    let ns = pulse_period(bpm);
    master_clock_keeps_the_tempo(bpm);
    assert(8_000_000 <= ns <= 125_000_000) by (nonlinear_arith)
        requires
            20 <= bpm <= 300,
            24 * ns * bpm <= 60_000_000_000,
            60_000_000_000 < 24 * (ns + 1) * bpm,
    ;
    assert(2 * ns * bpm <= 5_000_000_000 + ns < 2 * ns * (bpm + 1)) by (nonlinear_arith)
        requires
            20 <= bpm <= 300,
            8_000_000 <= ns,
            24 * ns * bpm <= 60_000_000_000,
            60_000_000_000 < 24 * (ns + 1) * bpm,
    ;
    assert((5_000_000_000 + ns) / (2 * ns) == bpm) by {
        let rest = 5_000_000_000 + ns - 2 * ns * bpm;
        assert(5_000_000_000 + ns == bpm * (2 * ns) + rest) by (nonlinear_arith)
            requires
                rest == 5_000_000_000 + ns - 2 * ns * bpm,
        ;
        assert(0 <= rest < 2 * ns) by (nonlinear_arith)
            requires
                rest == 5_000_000_000 + ns - 2 * ns * bpm,
                2 * ns * bpm <= 5_000_000_000 + ns < 2 * ns * (bpm + 1),
        ;
        vstd::arithmetic::div_mod::lemma_fundamental_div_mod_converse(
            5_000_000_000 + ns,
            2 * ns,
            bpm as int,
            rest,
        );
    }
}

/// The conductor after some wakes in master mode; the incoming clock is
/// `clocks[i]` when wake `i` picks its timing.
pub open spec fn after_master_wakes(conductor: Conductor, clocks: Seq<ClockState>) -> Conductor
    decreases clocks.len(),
{
    if clocks.len() == 0 {
        conductor
    } else {
        let before = after_master_wakes(conductor, clocks.drop_last());
        timed_conductor(begun(before, ClockMode::Master), ClockMode::Master, clocks.last())
    }
}

/// What is broadcast during these wakes.
pub open spec fn master_broadcast(conductor: Conductor, clocks: Seq<ClockState>) -> Seq<u8>
    decreases clocks.len(),
{
    if clocks.len() == 0 {
        Seq::empty()
    } else {
        let before = after_master_wakes(conductor, clocks.drop_last());
        master_broadcast(conductor, clocks.drop_last()) + opening(
            wake_start(before, ClockMode::Master),
        ) + pulses(timing(begun(before, ClockMode::Master), ClockMode::Master, clocks.last()))
    }
}

proof fn lemma_master_broadcast(conductor: Conductor, clocks: Seq<ClockState>)
    requires
        !conductor.was_master,
        clocks.len() >= 1,
    ensures
        after_master_wakes(conductor, clocks).was_master,
        master_broadcast(conductor, clocks) == seq![MIDI_START] + Seq::new(
            6 * clocks.len(),
            |i: int| MIDI_CLOCK,
        ),
    decreases clocks.len(),
{
    let before = clocks.drop_last();
    let sent = master_broadcast(conductor, clocks);
    if before.len() >= 1 {
        lemma_master_broadcast(conductor, before);
        assert(sent =~= master_broadcast(conductor, before) + Seq::new(6, |i: int| MIDI_CLOCK));
    } else {
        assert(after_master_wakes(conductor, before) == conductor);
        assert(master_broadcast(conductor, before) =~= Seq::empty());
        assert(sent =~= seq![MIDI_START] + Seq::new(6, |i: int| MIDI_CLOCK));
    }
    assert(sent =~= seq![MIDI_START] + Seq::new(6 * clocks.len(), |i: int| MIDI_CLOCK));
}

/// A metronome in master mode broadcasts one Start when playback begins, then
/// six pulses in each wake, then one Stop when it ends.
pub proof fn master_clock_is_framed(conductor: Conductor, clocks: Seq<ClockState>)
    requires
        !conductor.was_master,
        clocks.len() >= 1,
    ensures
        master_broadcast(conductor, clocks) + closing(
            farewell(after_master_wakes(conductor, clocks)),
        ) == seq![MIDI_START] + Seq::new(6 * clocks.len(), |i: int| MIDI_CLOCK) + seq![MIDI_STOP],
{
    lemma_master_broadcast(conductor, clocks);
}

/// A beat of the master clock, four wakes, has 24 pulses.
pub proof fn master_beat_is_twenty_four_pulses(conductor: Conductor, clocks: Seq<ClockState>)
    requires
        conductor.was_master,
        clocks.len() == 4,
    ensures
        master_broadcast(conductor, clocks) == Seq::new(24, |i: int| MIDI_CLOCK),
{
    reveal_with_fuel(master_broadcast, 5);
    reveal_with_fuel(after_master_wakes, 5);
    assert(master_broadcast(conductor, clocks) =~= Seq::new(24, |i: int| MIDI_CLOCK));
}

} // verus!
