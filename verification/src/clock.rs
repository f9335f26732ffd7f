//! The MIDI clock: the tempo of the metronome, its source, and the pulses
//! that carry it.

use vstd::prelude::*;

use crate::text;

verus! {

/// Source of the metronome's timing: the internal tempo, or a MIDI clock.
/// Persisted in the config file and applied at startup; runtime changes go
/// through `set_clock_mode`.
#[derive(Clone, Copy, Debug, PartialEq, Eq, Structural)]
pub enum ClockMode {
    /// Follow any incoming MIDI clock, engaging opportunistically.
    Auto,
    /// Internal tempo only: incoming clock messages are ignored.
    Off,
    /// Broadcast a MIDI clock (24 ppqn) to every output port while the
    /// metronome runs, with Start/Stop transport messages on play/stop.
    Master,
    /// Follow the MIDI clock of one chosen input port only.
    Input,
}

impl ClockMode {
    pub open spec fn encode_spec(self) -> u8 {
        match self {
            ClockMode::Auto => 0,
            ClockMode::Off => 1,
            ClockMode::Master => 2,
            ClockMode::Input => 3,
        }
    }

    /// Any other number means `Auto`.
    pub open spec fn decode_spec(value: u8) -> ClockMode {
        if value == 1 {
            ClockMode::Off
        } else if value == 2 {
            ClockMode::Master
        } else if value == 3 {
            ClockMode::Input
        } else {
            ClockMode::Auto
        }
    }

    /// Compact encoding of the mode.
    pub fn encode(self) -> (value: u8)
        ensures
            value == self.encode_spec(),
    {
        match self {
            ClockMode::Auto => 0,
            ClockMode::Off => 1,
            ClockMode::Master => 2,
            ClockMode::Input => 3,
        }
    }

    /// The mode of an encoding; an unknown one is `Auto`.
    pub fn decode(value: u8) -> (mode: Self)
        ensures
            mode == Self::decode_spec(value),
    {
        match value {
            1 => ClockMode::Off,
            2 => ClockMode::Master,
            3 => ClockMode::Input,
            _ => ClockMode::Auto,
        }
    }

    /// True of the modes that follow an incoming clock.
    pub open spec fn follows_spec(self) -> bool {
        self is Auto || self is Input
    }

    /// True of the modes that follow an incoming clock.
    pub fn follows(self) -> (b: bool)
        ensures
            b == self.follows_spec(),
    {
        match self {
            ClockMode::Auto | ClockMode::Input => true,
            ClockMode::Off | ClockMode::Master => false,
        }
    }
}

/// DAW clock sync state: a MIDI clock (24 pulses per quarter note) streamed
/// by a DAW or any external device drives the metronome's tempo while the
/// pulses keep arriving.
#[derive(Clone, Copy, Debug, PartialEq, Eq, Structural)]
pub struct ClockState {
    /// Total number of clock pulses seen since launch.
    pub pulses: u64,
    /// Pulse count at the last quarter-beat boundary: the metronome wakes
    /// every 6 pulses past the anchor (24 ppqn, 6 per sixteenth note).
    /// Re-anchored by a Start/Continue message so the grid aligns with the
    /// sender's beats.
    pub anchor: u64,
    /// Wall-clock time (ns since the Unix epoch) of the last pulse, to
    /// detect a streaming clock and a stopped one.
    pub last_pulse_ns: u64,
    /// Smoothed pulse period (ns), an exponential moving average of the
    /// observed intervals: the tempo is derived from it.
    pub period_ns: u64,
    /// Set by a Start/Continue message: the metronome re-anchors the grid
    /// and resets its beat counter on the next wake.
    pub started: bool,
    /// Set by a MIDI Stop message: the metronome falls back to its internal
    /// tempo immediately instead of waiting for the pulse timeout. Cleared
    /// by a pulse or a Start/Continue message.
    pub stopped: bool,
}

impl Default for ClockState {
    fn default() -> (clock: Self)
        ensures
            clock == (ClockState {
                pulses: 0,
                anchor: 0,
                last_pulse_ns: 0,
                period_ns: 0,
                started: false,
                stopped: false,
            }),
    {
        ClockState {
            pulses: 0,
            anchor: 0,
            last_pulse_ns: 0,
            period_ns: 0,
            started: false,
            stopped: false,
        }
    }
}

/// The next count of pulses; it starts over past the last one.
pub open spec fn counted(pulses: u64) -> u64 {
    if pulses == u64::MAX {
        0
    } else {
        (pulses + 1) as u64
    }
}

/// True of plausible pulse intervals: at 20–300 BPM a pulse takes 8–125 ms.
pub open spec fn plausible(interval: int) -> bool {
    4_000_000 <= interval < 2_000_000_000
}

/// The pulse period after one more interval: the first plausible one seeds
/// the average, later ones are smoothed.
pub open spec fn smoothed(period: u64, interval: int) -> u64 {
    if !plausible(interval) {
        period
    } else if period == 0 {
        interval as u64
    } else {
        ((3 * period + interval) / 4) as u64
    }
}

/// The clock after one more pulse.
pub open spec fn pulsed(clock: ClockState, now_ns: u64) -> ClockState {
    ClockState {
        pulses: counted(clock.pulses),
        last_pulse_ns: now_ns,
        period_ns: if clock.last_pulse_ns == 0 {
            clock.period_ns
        } else {
            smoothed(clock.period_ns, now_ns - clock.last_pulse_ns)
        },
        ..clock
    }
}

/// Registers one MIDI clock pulse (24 ppqn): counts it and smooths the
/// observed interval into the period estimate. `now_ns` is the wall-clock
/// time in ns.
pub fn register_pulse(clock: &mut ClockState, now_ns: u64)
    ensures
        *final(clock) == pulsed(*old(clock), now_ns),
{
    let previous: u64 = clock.last_pulse_ns;
    clock.last_pulse_ns = now_ns;
    clock.pulses = clock.pulses.wrapping_add(1);
    if previous == 0 || now_ns < previous {
        return ;  // first pulse ever: no interval to measure yet
    }
    let interval: u64 = now_ns - previous;
    if interval < 4_000_000 || interval >= 2_000_000_000 {
        return ;
    }
    let previous_period: u64 = clock.period_ns;
    clock.period_ns = if previous_period == 0 {
        interval
    } else {
        ((previous_period as u128 * 3 + interval as u128) / 4) as u64
    };
}

pub open spec fn clamp(value: int, low: int, high: int) -> int {
    if value < low {
        low
    } else if value > high {
        high
    } else {
        value
    }
}

/// The tempo of a pulse period: the integer nearest to 60e9 / (24 × period),
/// clamped to the metronome's BPM range; 0 for no period.
pub open spec fn bpm_of_period(period: u64) -> u32 {
    if period == 0 {
        0
    } else {
        clamp((5_000_000_000 + period) / (2 * period as int), 20, 300) as u32
    }
}

/// Tempo measured from the clock's smoothed pulse period (24 ppqn), clamped
/// to the metronome's BPM range. 0 means "unknown yet" (no measurable
/// interval has been observed).
pub fn measured_bpm(clock: &ClockState) -> (bpm: u32)
    ensures
        bpm == bpm_of_period(clock.period_ns),
{
    let period: u64 = clock.period_ns;
    if period == 0 {
        return 0;
    }
    let bpm: u128 = (5_000_000_000 + period as u128) / (2 * period as u128);
    if bpm < 20 {
        20
    } else if bpm > 300 {
        300
    } else {
        bpm as u32
    }
}

/// The metronome: whether it runs, its tempo, and where it has its timing
/// from.
pub struct MetronomeState {
    pub running: bool,
    pub bpm: u32,
    /// MIDI clock sync state, fed by the MIDI input and consumed by the
    /// metronome.
    pub clock: ClockState,
    /// Current clock mode, encoded.
    pub mode: u8,
    /// Input port name the sync follows in `Input` mode (exact match with
    /// the names reported by the MIDI input listeners).
    pub source: Option<String>,
}

impl MetronomeState {
    /// The clock mode.
    pub open spec fn mode_view(self) -> ClockMode {
        ClockMode::decode_spec(self.mode)
    }

    /// The input port that the sync follows.
    pub open spec fn source_view(self) -> Option<Seq<char>> {
        text_view(self.source)
    }

    /// True when a clock message from an input is handled: of any in `Auto`
    /// mode, of the chosen one in `Input` mode, of none otherwise.
    pub open spec fn accepts(self, input_name: Seq<char>) -> bool {
        match self.mode_view() {
            ClockMode::Auto => true,
            ClockMode::Input => self.source_view() == Some(input_name),
            ClockMode::Off | ClockMode::Master => false,
        }
    }

    /// Current clock mode.
    pub fn clock_mode(&self) -> (mode: ClockMode)
        ensures
            mode == self.mode_view(),
    {
        ClockMode::decode(self.mode)
    }

    /// Applies a clock mode, and the input port it follows in `Input` mode.
    pub fn apply_clock_mode(&mut self, mode: ClockMode, source: Option<String>)
        ensures
            *final(self) == (MetronomeState { mode: mode.encode_spec(), source, ..*old(self) }),
            final(self).mode_view() == mode,
    {
        self.mode = mode.encode();
        self.source = source;
    }

    /// The input port name the clock sync follows in `Input` mode.
    pub fn clock_source(&self) -> (source: Option<String>)
        ensures
            text_view(source) == self.source_view(),
    {
        match &self.source {
            Some(source) => Some(source.clone()),
            None => None,
        }
    }

    /// Whether an incoming clock message from `input_name` should be
    /// handled, given the current clock mode.
    pub fn clock_accepts(&self, input_name: &str) -> (accepted: bool)
        ensures
            accepted == self.accepts(input_name@),
    {
        match self.clock_mode() {
            ClockMode::Auto => true,
            ClockMode::Input => match &self.source {
                Some(source) => text::same_str(input_name, source),
                None => false,
            },
            ClockMode::Off | ClockMode::Master => false,
        }
    }
}

/// The characters of an optional text.
pub open spec fn text_view(text: Option<String>) -> Option<Seq<char>> {
    match text {
        Some(text) => Some(text@),
        None => None,
    }
}

impl Default for MetronomeState {
    fn default() -> (state: Self)
        ensures
            !state.running,
            state.bpm == 120,
            state.clock == (ClockState {
                pulses: 0,
                anchor: 0,
                last_pulse_ns: 0,
                period_ns: 0,
                started: false,
                stopped: false,
            }),
            state.mode_view() is Auto,
            state.source_view() is None,
    {
        MetronomeState {
            running: false,
            bpm: 120,
            clock: ClockState::default(),
            mode: ClockMode::Auto.encode(),
            source: None,
        }
    }
}

/// Calls `SystemTime::now`, and tells the time in ns since the Unix epoch.
/// Nothing is stated of it: it is whatever the machine says.
#[verifier::external_body]
pub(crate) fn now_ns() -> (ns: u64) {
    std::time::SystemTime::now()
        .duration_since(std::time::UNIX_EPOCH)
        .unwrap_or_default()
        .as_nanos() as u64
}

/// The metronome after a clock pulse received on an input at the time
/// `now_ns`.
pub open spec fn after_pulse(
    state: MetronomeState,
    input_name: Seq<char>,
    now_ns: u64,
) -> MetronomeState {
    if state.accepts(input_name) {
        // A pulse means the sender is streaming again
        MetronomeState {
            clock: ClockState { stopped: false, ..pulsed(state.clock, now_ns) },
            ..state
        }
    } else {
        state
    }
}

/// Handles a MIDI clock pulse received on any input port at the time
/// `now_ns`.
pub fn on_clock_pulse_at(state: &mut MetronomeState, input_name: &str, now_ns: u64)
    ensures
        *final(state) == after_pulse(*old(state), input_name@, now_ns),
{
    if !state.clock_accepts(input_name) {
        return ;
    }
    register_pulse(&mut state.clock, now_ns);
    state.clock.stopped = false;
}

/// Handles a MIDI clock pulse received on any input port just now. In `Input`
/// mode only pulses from the selected port are accepted; `Off` and `Master`
/// modes ignore incoming clocks entirely (in master mode our own broadcast
/// could otherwise loop back through a device set to thru).
pub fn on_clock_pulse(state: &mut MetronomeState, input_name: &str)
    ensures
        exists|now: u64| *final(state) == #[trigger] after_pulse(*old(state), input_name@, now),
{
    let now: u64 = now_ns();
    on_clock_pulse_at(state, input_name, now);
}

/// Handles a MIDI Start or Continue message: re-anchors the pulse grid so
/// the metronome's quarter-beats align with the sender's beats, starting
/// from the next pulse.
pub fn on_clock_start(state: &mut MetronomeState, input_name: &str)
    ensures
        *final(state) == (if old(state).accepts(input_name@) {
            MetronomeState {
                clock: ClockState {
                    anchor: old(state).clock.pulses,
                    started: true,
                    stopped: false,
                    ..old(state).clock
                },
                ..*old(state)
            }
        } else {
            *old(state)
        }),
{
    if !state.clock_accepts(input_name) {
        return ;
    }
    state.clock.anchor = state.clock.pulses;
    state.clock.started = true;
    state.clock.stopped = false;
}

/// Handles a MIDI Stop message: marks the clock stopped so the metronome
/// falls back to its internal tempo immediately instead of waiting for the
/// pulse timeout.
pub fn on_clock_stop(state: &mut MetronomeState, input_name: &str)
    ensures
        *final(state) == (if old(state).accepts(input_name@) {
            MetronomeState {
                clock: ClockState { stopped: true, ..old(state).clock },
                ..*old(state)
            }
        } else {
            *old(state)
        }),
{
    if !state.clock_accepts(input_name) {
        return ;
    }
    state.clock.stopped = true;
}

/// Sets the tempo, brought into the metronome's range.
pub fn set_metronome_bpm(state: &mut MetronomeState, bpm: u32)
    ensures
        *final(state) == (MetronomeState {
            bpm: clamp(bpm as int, 20, 300) as u32,
            ..*old(state)
        }),
{
    state.bpm = if bpm < 20 {
        20
    } else if bpm > 300 {
        300
    } else {
        bpm
    };
}

/// Stops the metronome.
pub fn stop_metronome(state: &mut MetronomeState)
    ensures
        *final(state) == (MetronomeState { running: false, ..*old(state) }),
{
    state.running = false;
}

/// Starts the metronome, and tells whether it stood still.
pub fn start_metronome(state: &mut MetronomeState) -> (started: bool)
    ensures
        started == !old(state).running,
        *final(state) == (MetronomeState { running: true, ..*old(state) }),
{
    if state.running {
        return false;
    }
    state.running = true;
    true
}

/// Whether the metronome runs.
pub fn is_metronome_running(state: &MetronomeState) -> (running: bool)
    ensures
        running == state.running,
{
    state.running
}

/// The clock mode and source that a choice comes to: `Input` without a
/// source is `Auto`, and only `Input` keeps a source.
pub open spec fn sanitized(mode: ClockMode, source: Option<Seq<char>>) -> (
    ClockMode,
    Option<Seq<char>>,
) {
    match (mode, source) {
        (ClockMode::Input, Some(source)) if text::trimmed(source).len() > 0 => (
            ClockMode::Input,
            Some(text::trimmed(source)),
        ),
        (ClockMode::Input, _) => (ClockMode::Auto, None),
        _ => (mode, None),
    }
}

/// Brings a choice of clock mode and source into order: `Input` without a
/// source falls back to `Auto`.
pub fn sanitize_clock_mode(mode: ClockMode, source: Option<String>) -> (chosen: (
    ClockMode,
    Option<String>,
))
    ensures
        (chosen.0, text_view(chosen.1)) == sanitized(mode, text_view(source)),
{
    match mode {
        ClockMode::Input => match source {
            Some(source) => {
                let rest: &str = text::trim(source.as_str());
                if rest.is_empty() {
                    (ClockMode::Auto, None)
                } else {
                    (ClockMode::Input, Some(rest.to_owned()))
                }
            },
            None => (ClockMode::Auto, None),
        },
        mode => (mode, None),
    }
}

/// The mode survives its encoding.
pub proof fn mode_survives_its_encoding(mode: ClockMode)
    ensures
        ClockMode::decode_spec(mode.encode_spec()) == mode,
{
}

/// In `Off` and `Master` modes every clock message is ignored, whatever input
/// it comes from.
pub proof fn off_and_master_accept_nothing(state: MetronomeState, input_name: Seq<char>)
    requires
        state.mode_view() is Off || state.mode_view() is Master,
    ensures
        !state.accepts(input_name),
{
}

/// The smoothed period lies between the previous one and the new interval, so
/// that a single odd interval moves the tempo by no more than a quarter of
/// the difference.
pub proof fn smoothing_stays_between(period: u64, interval: int)
    requires
        plausible(interval),
        period > 0,
    ensures
        period <= interval ==> period <= smoothed(period, interval) <= interval,
        interval <= period ==> interval <= smoothed(period, interval) <= period,
        4 * (smoothed(period, interval) - period) <= interval - period,
{
}

/// A steady clock is learned exactly: its first interval is the period, and
/// stays it.
pub proof fn steady_clock_is_learned_exactly(interval: u64)
    requires
        plausible(interval as int),
    ensures
        smoothed(0, interval as int) == interval,
        smoothed(interval, interval as int) == interval,
{
}

/// The period of a clock is one of a plausible interval, or none yet.
pub proof fn learned_period_is_plausible(clock: ClockState, now_ns: u64)
    requires
        clock.period_ns == 0 || plausible(clock.period_ns as int),
    ensures
        pulsed(clock, now_ns).period_ns == 0 || plausible(pulsed(clock, now_ns).period_ns as int),
{
}

/// The measured tempo is unknown or within the metronome's range.
pub proof fn measured_tempo_is_in_range(period: u64)
    ensures
        period == 0 <==> bpm_of_period(period) == 0,
        period > 0 ==> 20 <= bpm_of_period(period) <= 300,
{
}

/// A slower clock never measures as a faster tempo.
pub proof fn slower_clock_measures_slower(fast: u64, slow: u64)
    requires
        0 < fast <= slow,
    ensures
        bpm_of_period(fast) >= bpm_of_period(slow),
{
    let a = (5_000_000_000 + fast) / (2 * fast as int);
    let b = (5_000_000_000 + slow) / (2 * slow as int);
    vstd::arithmetic::div_mod::lemma_fundamental_div_mod(5_000_000_000 + fast, 2 * fast as int);
    vstd::arithmetic::div_mod::lemma_fundamental_div_mod(5_000_000_000 + slow, 2 * slow as int);
    vstd::arithmetic::div_mod::lemma_mod_bound(5_000_000_000 + fast, 2 * fast as int);
    vstd::arithmetic::div_mod::lemma_mod_bound(5_000_000_000 + slow, 2 * slow as int);
    assert(a >= b) by (nonlinear_arith)
        requires
            0 < fast <= slow,
            5_000_000_000 + fast < 2 * fast * a + 2 * fast,
            5_000_000_000 + slow >= 2 * slow * b,
            b >= 0,
    ;
}

/// A choice that has been brought into order is in order: doing it again
/// changes nothing.
pub proof fn sanitizing_twice_is_once(mode: ClockMode, source: Option<Seq<char>>)
    ensures
        sanitized(sanitized(mode, source).0, sanitized(mode, source).1) == sanitized(mode, source),
{
    if let (ClockMode::Input, Some(source)) = (mode, source) {
        text::trimming_twice_is_once(source);
    }
}

} // verus!
