//! MIDI messages and ports: what is sent, and what is learned from the
//! instruments.

use std::collections::HashMap;

use vstd::prelude::*;

use crate::clock::{
    self, now_ns, on_clock_pulse_at, on_clock_start, on_clock_stop, MetronomeState,
};
use crate::error::{synth_not_found, AppError};
use crate::playback::NoteMessage;
use crate::state::{ProgramState, Synth, SynthState};
use crate::synth;
use crate::text;

verus! {

broadcast use vstd::std_specs::hash::group_hash_axioms;

/// System realtime messages: the MIDI clock stream (24 pulses per quarter
/// note) and the transport messages that accompany it, sent in master mode
/// and received from a DAW in slave mode.
pub const MIDI_CLOCK: u8 = 0xF8;

pub const MIDI_START: u8 = 0xFA;

pub const MIDI_CONTINUE: u8 = 0xFB;

pub const MIDI_STOP: u8 = 0xFC;

/// Index of the app's virtual MIDI output port. A sentinel far above any
/// physical port index: it must stay well below 2^53 to survive the JS/JSON
/// round-trip unharmed, and never collide with a physical index.
pub const VIRTUAL_PORT_INDEX: usize = 1_000_000;

/// Name given to both virtual endpoints (input and output): in the DAW, the
/// app appears as a MIDI source and a sync destination named "Wysiwyl".
pub const VIRTUAL_PORT_NAME: &'static str = "Wysiwyl";

/// A MIDI output port. The index is the port identifier of a synth.
pub struct MidiPortInfo {
    pub index: usize,
    pub name: String,
    /// True for the app's own virtual port, created for DAW routing.
    pub is_virtual: bool,
}

/// An entry of the MIDI input port list, offered when choosing the
/// metronome's clock sync source. Unlike output ports, input ports are
/// identified by name: it is the exact string the input listeners report
/// (and the value stored in the config as the sync source).
pub struct MidiInputPortInfo {
    pub name: String,
    /// True for the app's own virtual input port, the route a DAW's MIDI
    /// clock takes into the app.
    pub is_virtual: bool,
}

/// The value of a volume percentage as a MIDI value: the nearest to
/// `percent × 127 / 100`, percentages above 100 taken as 100.
pub open spec fn midi_value(percent: u8) -> int {
    if percent < 100 {
        (percent * 127 + 50) / 100
    } else {
        127
    }
}

/// The percentage of a MIDI value, values above 127 taken as 127.
pub open spec fn volume_percent(value: u8) -> int {
    if value < 127 {
        (value * 100 + 63) / 127
    } else {
        100
    }
}

/// Converts a channel volume percentage (0–100) to a MIDI CC value (0–127).
/// Rounded, so a value echoed back by the instrument converts to the same
/// percentage.
pub fn percent_to_midi(percent: u8) -> (value: u8)
    ensures
        value == midi_value(percent),
        value <= 127,
{
    let percent: u16 = if percent < 100 {
        percent as u16
    } else {
        100
    };
    ((percent * 127 + 50) / 100) as u8
}

/// Converts a MIDI CC value (0–127) to a channel volume percentage (0–100).
/// Inverse of `percent_to_midi`.
pub fn midi_to_percent(value: u8) -> (percent: u8)
    ensures
        percent == volume_percent(value),
        percent <= 100,
{
    let value: u16 = if value < 127 {
        value as u16
    } else {
        127
    };
    ((value * 100 + 63) / 127) as u8
}

/// A CC value echoed back by the instrument converts to the percentage that
/// produced it, so that the display never flickers to a neighboring value.
pub proof fn volume_survives_the_instrument(percent: u8)
    requires
        percent <= 100,
    ensures
        volume_percent(midi_value(percent) as u8) == percent,
{
}

/// The status byte of a channel message.
pub open spec fn status(kind: int, channel: u8) -> u8 {
    (kind + channel % 16) as u8
}

/// The data bits of a byte.
pub open spec fn data_bits(byte: u8) -> u8 {
    (byte % 128) as u8
}

fn status_byte(kind: u8, channel: u8) -> (byte: u8)
    requires
        kind % 16 == 0,
    ensures
        byte == status(kind as int, channel),
{
    assert(kind | (channel & 0x0F) == kind + channel % 16) by (bit_vector)
        requires
            kind % 16 == 0,
    ;
    kind | (channel & 0x0F)
}

fn data_byte(byte: u8) -> (data: u8)
    ensures
        data == data_bits(byte),
{
    assert(byte & 0x7F == byte % 128) by (bit_vector);
    byte & 0x7F
}

/// The bytes of a Note On (0x90 | channel, note, velocity) or a Note Off
/// (0x80 | channel, note, velocity 0).
pub open spec fn note_bytes_spec(message: NoteMessage) -> Seq<u8> {
    match message {
        NoteMessage::On { channel, note, velocity, .. } => seq![
            status(0x90, channel),
            data_bits(note),
            data_bits(velocity),
        ],
        NoteMessage::Off { channel, note, .. } => seq![status(0x80, channel), data_bits(note), 0u8],
    }
}

/// The bytes of a Note On message.
pub fn send_note_on(channel: u8, note: u8, velocity: u8) -> (bytes: Vec<u8>)
    ensures
        bytes@ == seq![status(0x90, channel), data_bits(note), data_bits(velocity)],
{
    vec![status_byte(0x90, channel), data_byte(note), data_byte(velocity)]
}

/// The bytes of a Note Off message.
pub fn send_note_off(channel: u8, note: u8) -> (bytes: Vec<u8>)
    ensures
        bytes@ == seq![status(0x80, channel), data_bits(note), 0u8],
{
    vec![status_byte(0x80, channel), data_byte(note), 0]
}

/// The bytes of a note message.
pub fn note_bytes(message: NoteMessage) -> (bytes: Vec<u8>)
    ensures
        bytes@ == note_bytes_spec(message),
{
    match message {
        NoteMessage::On { channel, note, velocity, .. } => send_note_on(channel, note, velocity),
        NoteMessage::Off { channel, note, .. } => send_note_off(channel, note),
    }
}

/// The bytes of a Control Change (0xB0 | channel, controller, value).
pub open spec fn control_bytes(channel: u8, controller: u8, value: u8) -> Seq<u8> {
    seq![status(0xB0, channel), controller, data_bits(value)]
}

/// The messages that select a sound: a Bank Select (CC 0 / CC 32, the known
/// parts only) followed by a Program Change.
pub open spec fn selection_bytes(channel: u8, sound: ProgramState) -> Seq<Seq<u8>> {
    (match sound.bank_msb {
        Some(msb) => seq![control_bytes(channel, 0, msb)],
        None => Seq::empty(),
    }) + (match sound.bank_lsb {
        Some(lsb) => seq![control_bytes(channel, 32, lsb)],
        None => Seq::empty(),
    }) + (match sound.program {
        Some(program) => seq![seq![status(0xC0, channel), data_bits(program)]],
        None => Seq::empty(),
    })
}

/// The contents of several byte strings.
pub open spec fn contents(messages: Seq<Vec<u8>>) -> Seq<Seq<u8>> {
    Seq::new(messages.len(), |i: int| messages[i]@)
}

fn program_messages(channel: u8, sound: ProgramState) -> (messages: Vec<Vec<u8>>)
    ensures
        contents(messages@) == selection_bytes(channel, sound),
{
    let mut messages: Vec<Vec<u8>> = Vec::new();
    if let Some(msb) = sound.bank_msb {
        messages.push(vec![status_byte(0xB0, channel), 0, data_byte(msb)]);
    }
    if let Some(lsb) = sound.bank_lsb {
        messages.push(vec![status_byte(0xB0, channel), 32, data_byte(lsb)]);
    }
    if let Some(program) = sound.program {
        messages.push(vec![status_byte(0xC0, channel), data_byte(program)]);
    }
    assert(contents(messages@) =~= selection_bytes(channel, sound));
    messages
}

/// One entry of the known-programs map, flattened for the frontend.
#[derive(Clone, Copy, Debug, PartialEq, Eq, Structural)]
pub struct KnownProgram {
    pub port: usize,
    pub channel: u8,
    pub program: ProgramState,
}

/// The number under which the sound of a (port, channel) pair is filed.
pub open spec fn slot_number(port: usize, channel: u8) -> u128 {
    (port * 256 + channel) as u128
}

fn slot(port: usize, channel: u8) -> (number: u128)
    ensures
        number == slot_number(port, channel),
{
    port as u128 * 256 + channel as u128
}

/// Two pairs never share a number.
proof fn lemma_slots_differ(port: usize, channel: u8, other_port: usize, other_channel: u8)
    requires
        slot_number(port, channel) == slot_number(other_port, other_channel),
    ensures
        port == other_port,
        channel == other_channel,
{
}

/// What is known of the MIDI channels: the sound selected on each (output
/// port, channel) pair, as far as it has been learned or sent.
pub struct MidiState {
    pub known_programs: HashMap<u128, ProgramState>,
}

impl MidiState {
    /// The sound known of a channel.
    pub open spec fn program(self, port: usize, channel: u8) -> Option<ProgramState> {
        if self.known_programs@.contains_key(slot_number(port, channel)) {
            Some(self.known_programs@[slot_number(port, channel)])
        } else {
            None
        }
    }

    /// Every sound is filed under the number of a (port, channel) pair.
    pub open spec fn well_formed(self) -> bool {
        forall|number: u128| #[trigger]
            self.known_programs@.contains_key(number) ==> number / 256 <= usize::MAX
    }

    /// True when a state knows one sound more, or another one, than a state
    /// before.
    pub open spec fn learned(
        self,
        before: MidiState,
        port: usize,
        channel: u8,
        sound: ProgramState,
    ) -> bool {
        &&& self.program(port, channel) == Some(sound)
        &&& forall|other_port: usize, other_channel: u8|
            (other_port, other_channel) != (port, channel) ==> #[trigger] self.program(
                other_port,
                other_channel,
            ) == before.program(other_port, other_channel)
    }

    /// The sound known of a channel.
    pub fn known_program(&self, port: usize, channel: u8) -> (sound: Option<ProgramState>)
        ensures
            sound == self.program(port, channel),
    {
        match self.known_programs.get(&slot(port, channel)) {
            Some(sound) => Some(*sound),
            None => None,
        }
    }

    /// Records the sound of a channel.
    pub fn learn(&mut self, port: usize, channel: u8, sound: ProgramState)
        requires
            old(self).well_formed(),
        ensures
            final(self).well_formed(),
            final(self).learned(*old(self), port, channel, sound),
    {
        self.known_programs.insert(slot(port, channel), sound);
        proof {
            assert forall|other_port: usize, other_channel: u8|
                (other_port, other_channel) != (port, channel) implies #[trigger] self.program(
                other_port,
                other_channel,
            ) == old(self).program(other_port, other_channel) by {
                if slot_number(other_port, other_channel) == slot_number(port, channel) {
                    lemma_slots_differ(other_port, other_channel, port, channel);
                }
            }
        }
    }

    /// The bytes of a Channel Volume message (CC 7). `volume_percent` (0–100)
    /// is mapped onto the MIDI value range 0–127, with 100 % sent as the full
    /// value 127.
    pub fn send_channel_volume(channel: u8, volume_percent: u8) -> (bytes: Vec<u8>)
        ensures
            bytes@ == control_bytes(channel, 7, midi_value(volume_percent) as u8),
    {
        vec![status_byte(0xB0, channel), 7, data_byte(percent_to_midi(volume_percent))]
    }

    /// Selects a sound on the given output port and channel: the messages to
    /// send, and the resulting state, which is recorded as the channel's
    /// known program. The UI always passes the full selection, so `None`
    /// means "leave that part alone" (no CC / no PC sent).
    pub fn send_program_change(
        &mut self,
        port_index: usize,
        channel: u8,
        program: Option<u8>,
        bank_msb: Option<u8>,
        bank_lsb: Option<u8>,
    ) -> (sent: (Vec<Vec<u8>>, ProgramState))
        requires
            old(self).well_formed(),
        ensures
            final(self).well_formed(),
            sent.1 == (ProgramState { bank_msb, bank_lsb, program }),
            contents(sent.0@) == selection_bytes(channel, sent.1),
            final(self).learned(*old(self), port_index, channel, sent.1),
    {
        let updated = ProgramState { bank_msb, bank_lsb, program };
        let messages = program_messages(channel, updated);
        self.learn(port_index, channel, updated);
        (messages, updated)
    }
}

impl Default for MidiState {
    fn default() -> (state: Self)
        ensures
            state.well_formed(),
            forall|port: usize, channel: u8| #[trigger] state.program(port, channel) is None,
    {
        MidiState { known_programs: HashMap::new() }
    }
}

/// True when a list of known programs holds each one exactly once.
pub open spec fn lists_every_program(list: Seq<KnownProgram>, state: MidiState) -> bool {
    &&& forall|i: int|
        0 <= i < list.len() ==> state.program(
            (#[trigger] list[i]).port,
            list[i].channel,
        ) == Some(list[i].program)
    &&& forall|port: usize, channel: u8| #[trigger]
        state.program(port, channel) is Some ==> exists|i: int|
            0 <= i < list.len() && (#[trigger] list[i]).port == port && list[i].channel == channel
    &&& forall|i: int, j: int|
        0 <= i < j < list.len() ==> (#[trigger] list[i]).port != (#[trigger] list[j]).port
            || list[i].channel != list[j].channel
}

/// Returns every program learned so far, in no particular order, for the
/// frontend to hydrate its display at startup (events emitted before the UI
/// is ready would otherwise be missed).
pub fn get_known_programs(state: &MidiState) -> (list: Vec<KnownProgram>)
    requires
        state.well_formed(),
    ensures
        lists_every_program(list@, *state),
{
    let mut list: Vec<KnownProgram> = Vec::new();
    let ghost mut slots: Seq<u128> = Seq::empty();
    for key in it: state.known_programs.keys()
        invariant
            state.well_formed(),
            slots == it.seq().unref().take(it.index()),
            slots.no_duplicates(),
            it.seq().no_duplicates(),
            it.seq().unref().to_set() == state.known_programs@.dom(),
            it.index() == it.seq().len() ==> slots == it.seq().unref(),
            list@.len() == slots.len(),
            forall|i: int|
                0 <= i < list@.len() ==> {
                    &&& state.known_programs@.contains_key(slots[i])
                    &&& slots[i] == slot_number((#[trigger] list@[i]).port, list@[i].channel)
                    &&& list@[i].program == state.known_programs@[slots[i]]
                },
    {
        let number: u128 = *key;
        proof {
            assert(it.seq().unref().to_set().contains(number));
            slots = slots.push(number);
        }
        if let Some(program) = state.known_programs.get(&number) {
            list.push(
                KnownProgram {
                    port: (number / 256) as usize,
                    channel: (number % 256) as u8,
                    program: *program,
                },
            );
        }
    }
    proof {
        assert forall|port: usize, channel: u8| #[trigger]
            state.program(port, channel) is Some implies exists|i: int|
            0 <= i < list@.len() && (#[trigger] list@[i]).port == port && list@[i].channel
                == channel by {
            let number = slot_number(port, channel);
            assert(slots.to_set().contains(number));
            let i = choose|i: int| 0 <= i < slots.len() && slots[i] == number;
            lemma_slots_differ(list@[i].port, list@[i].channel, port, channel);
            assert(list@[i].port == port);
        }
        assert forall|i: int, j: int| 0 <= i < j < list@.len() implies (#[trigger] list@[i]).port
            != (#[trigger] list@[j]).port || list@[i].channel != list@[j].channel by {
            assert(slots[i] != slots[j]);
        }
    }
    list
}

/// The decimal digits of a number.
pub open spec fn decimal(number: nat) -> Seq<char>
    decreases number,
{
    let digit = ('0' as int + number % 10) as char;
    if number < 10 {
        seq![digit]
    } else {
        decimal(number / 10).push(digit)
    }
}

/// A digit as a text.
fn digit_text(digit: usize) -> (text: &'static str)
    requires
        digit < 10,
    ensures
        text@ == seq![('0' as int + digit) as char],
{
    proof {
        reveal_strlit("0");
        reveal_strlit("1");
        reveal_strlit("2");
        reveal_strlit("3");
        reveal_strlit("4");
        reveal_strlit("5");
        reveal_strlit("6");
        reveal_strlit("7");
        reveal_strlit("8");
        reveal_strlit("9");
    }
    let text: &'static str = match digit {
        0 => "0",
        1 => "1",
        2 => "2",
        3 => "3",
        4 => "4",
        5 => "5",
        6 => "6",
        7 => "7",
        8 => "8",
        _ => "9",
    };
    assert(text@ =~= seq![('0' as int + digit) as char]);
    text
}

/// Writes a number in decimal behind a text.
fn push_decimal(text: &mut String, number: usize)
    ensures
        final(text)@ == old(text)@ + decimal(number as nat),
    decreases number,
{
    if number >= 10 {
        push_decimal(text, number / 10);
    }
    text.append(digit_text(number % 10));
    assert(text@ =~= old(text)@ + decimal(number as nat));
}

/// The name of an output port that tells none: its number behind the word.
fn nameless_port(index: usize) -> (name: String)
    ensures
        name@ == "Port "@ + decimal(index as nat),
{
    let mut name: String = "Port ".to_owned();
    push_decimal(&mut name, index);
    name
}

/// What a listed output port is called.
pub open spec fn port_label(names: Seq<Option<String>>, index: int) -> Seq<char> {
    match names[index] {
        Some(name) => name@,
        None => "Port "@ + decimal(index as nat),
    }
}

/// True of an output port that is listed. The app's own virtual input port (a
/// destination, created for the DAW's MIDI clock) is hidden: connecting a
/// synth to it would only loop our own messages back.
pub open spec fn listed_output(
    names: Seq<Option<String>>,
    index: int,
    virtual_ports: bool,
) -> bool {
    !virtual_ports || port_label(names, index) != VIRTUAL_PORT_NAME@
}

/// What is told of an output port: index, name, and whether it is virtual.
pub type PortEntry = (usize, Seq<char>, bool);

/// The entries of a list of output ports.
pub open spec fn port_entries(ports: Seq<MidiPortInfo>) -> Seq<PortEntry> {
    Seq::new(ports.len(), |i: int| (ports[i].index, ports[i].name@, ports[i].is_virtual))
}

/// The entries of the first physical output ports.
pub open spec fn physical_outputs(
    names: Seq<Option<String>>,
    count: int,
    virtual_ports: bool,
) -> Seq<PortEntry>
    decreases count,
{
    if count <= 0 {
        Seq::empty()
    } else {
        let before = physical_outputs(names, count - 1, virtual_ports);
        if listed_output(names, count - 1, virtual_ports) {
            before.push(((count - 1) as usize, port_label(names, count - 1), false))
        } else {
            before
        }
    }
}

/// The list of output ports: the virtual one first, where there is one.
pub open spec fn output_list(names: Seq<Option<String>>, virtual_ports: bool) -> Seq<PortEntry> {
    (if virtual_ports {
        seq![(VIRTUAL_PORT_INDEX, VIRTUAL_PORT_NAME@, true)]
    } else {
        Seq::empty()
    }) + physical_outputs(names, names.len() as int, virtual_ports)
}

/// Lists the available MIDI output ports, given the names that the physical
/// ones tell. The index of each entry is the port identifier to pass to
/// `set_synth_midi_port`. Where the system has virtual ports, the app's own
/// comes first, so a DAW user finds it without digging through their hardware
/// interfaces.
pub fn list_midi_ports(names: &Vec<Option<String>>, virtual_ports: bool) -> (ports: Vec<
    MidiPortInfo,
>)
    ensures
        port_entries(ports@) == output_list(names@, virtual_ports),
{
    let mut ports: Vec<MidiPortInfo> = Vec::new();
    if virtual_ports {
        ports.push(
            MidiPortInfo {
                index: VIRTUAL_PORT_INDEX,
                name: VIRTUAL_PORT_NAME.to_owned(),
                is_virtual: true,
            },
        );
    }
    let ghost first = port_entries(ports@);
    assert(first =~= output_list(Seq::empty(), virtual_ports));
    let mut i: usize = 0;
    while i < names.len()
        invariant
            i <= names.len(),
            first == output_list(Seq::empty(), virtual_ports),
            port_entries(ports@) == first + physical_outputs(names@, i as int, virtual_ports),
        decreases names.len() - i,
    {
        let name: String = match &names[i] {
            Some(name) => name.clone(),
            None => nameless_port(i),
        };
        let hidden: bool = virtual_ports && text::same_str(VIRTUAL_PORT_NAME, &name);
        let ghost before = ports@;
        if !hidden {
            ports.push(MidiPortInfo { index: i, name, is_virtual: false });
            assert(port_entries(ports@) =~= port_entries(before).push((i, name@, false)));
        }
        assert(port_entries(ports@) =~= first + physical_outputs(
            names@,
            i + 1,
            virtual_ports,
        ));
        i = i + 1;
    }
    assert(port_entries(ports@) =~= output_list(names@, virtual_ports));
    ports
}

/// What is told of an input port: name, and whether it is virtual.
pub type InputEntry = (Seq<char>, bool);

/// The entries of a list of input ports.
pub open spec fn input_entries(ports: Seq<MidiInputPortInfo>) -> Seq<InputEntry> {
    Seq::new(ports.len(), |i: int| (ports[i].name@, ports[i].is_virtual))
}

/// True of an input port that is listed: it has a name, and is not the app's
/// own virtual output port.
pub open spec fn listed_input(name: Seq<char>, virtual_ports: bool) -> bool {
    name.len() > 0 && (!virtual_ports || name != VIRTUAL_PORT_NAME@)
}

/// The entries of the first physical input ports.
pub open spec fn physical_inputs(
    names: Seq<String>,
    count: int,
    virtual_ports: bool,
) -> Seq<InputEntry>
    decreases count,
{
    if count <= 0 {
        Seq::empty()
    } else {
        let before = physical_inputs(names, count - 1, virtual_ports);
        if listed_input(names[count - 1]@, virtual_ports) {
            before.push((names[count - 1]@, false))
        } else {
            before
        }
    }
}

/// The list of input ports: the virtual one last, where there is one.
pub open spec fn input_list(names: Seq<String>, virtual_ports: bool) -> Seq<InputEntry> {
    physical_inputs(names, names.len() as int, virtual_ports) + (if virtual_ports {
        seq![(VIRTUAL_PORT_NAME@, true)]
    } else {
        Seq::empty()
    })
}

/// Lists the available MIDI input ports, given the names that the physical
/// ones tell, offered as the metronome's clock sync source in `Input` mode.
/// The names match exactly those the input listeners report, so the
/// config-stored source filters the right port. Where the system has virtual
/// ports, the app's own virtual input port comes last, labeled as the DAW's
/// route; the app's own virtual output port (which also shows up as a source)
/// is hidden.
pub fn list_midi_input_ports(names: &Vec<String>, virtual_ports: bool) -> (ports: Vec<
    MidiInputPortInfo,
>)
    ensures
        input_entries(ports@) == input_list(names@, virtual_ports),
{
    let mut ports: Vec<MidiInputPortInfo> = Vec::new();
    let mut i: usize = 0;
    assert(input_entries(ports@) =~= Seq::<InputEntry>::empty());
    while i < names.len()
        invariant
            i <= names.len(),
            input_entries(ports@) == physical_inputs(names@, i as int, virtual_ports),
        decreases names.len() - i,
    {
        let name: String = names[i].clone();
        let hidden: bool = virtual_ports && text::same_str(VIRTUAL_PORT_NAME, &name);
        let ghost before = ports@;
        if !hidden && !name.as_str().is_empty() {
            ports.push(MidiInputPortInfo { name, is_virtual: false });
            assert(input_entries(ports@) =~= input_entries(before).push((name@, false)));
        }
        i = i + 1;
    }
    if virtual_ports {
        ports.push(
            MidiInputPortInfo { name: VIRTUAL_PORT_NAME.to_owned(), is_virtual: true },
        );
    }
    assert(input_entries(ports@) =~= input_list(names@, virtual_ports));
    ports
}

/// True when a text ends in a word: the word stands alone or behind white
/// space.
pub open spec fn ends_in_word(text: Seq<char>, word: Seq<char>) -> bool {
    &&& word.is_suffix_of(text)
    &&& text.len() > word.len() ==> text::is_white(text[text.len() - word.len() - 1])
}

/// A text without the word at its end, nor the white space before it.
pub open spec fn without_word(text: Seq<char>, word: Seq<char>) -> Seq<char> {
    text::without_end(text.take(text.len() - word.len()))
}

/// A port name, already in lowercase, without a trailing word that tells its
/// direction.
pub open spec fn without_direction(lower: Seq<char>) -> Seq<char> {
    if ends_in_word(lower, "input"@) {
        without_word(lower, "input"@)
    } else if ends_in_word(lower, "in"@) {
        without_word(lower, "in"@)
    } else if ends_in_word(lower, "output"@) {
        without_word(lower, "output"@)
    } else if ends_in_word(lower, "out"@) {
        without_word(lower, "out"@)
    } else {
        lower
    }
}

/// Strips a word from the end of a text, if the text ends in it.
fn strip_word(lower: &str, word: &str) -> (rest: Option<String>)
    ensures
        match rest {
            Some(rest) => ends_in_word(lower@, word@) && rest@ == without_word(lower@, word@),
            None => !ends_in_word(lower@, word@),
        },
{
    match text::strip_suffix(lower, word) {
        Some(rest) => {
            assert(lower@.take(lower@.len() - word@.len()) =~= rest@);
            assert(lower@.subrange(lower@.len() - word@.len(), lower@.len() as int) =~= word@);
            let kept: String = text::trim_end(rest).to_owned();
            let apart: bool = !text::same_str(rest, &kept);
            proof {
                if rest@.len() > 0 {
                    text::lemma_without_end(rest@.drop_last());
                    assert(rest@.last() == lower@[lower@.len() - word@.len() - 1]);
                }
            }
            if rest.is_empty() || apart {
                Some(kept)
            } else {
                None
            }
        },
        None => None,
    }
}

/// Strips a trailing word that tells the direction from a port name already
/// in lowercase.
pub fn strip_direction(lower: String) -> (stripped: String)
    ensures
        stripped@ == without_direction(lower@),
{
    if let Some(rest) = strip_word(lower.as_str(), "input") {
        return rest;
    }
    if let Some(rest) = strip_word(lower.as_str(), "in") {
        return rest;
    }
    if let Some(rest) = strip_word(lower.as_str(), "output") {
        return rest;
    }
    if let Some(rest) = strip_word(lower.as_str(), "out") {
        return rest;
    }
    lower
}

/// True of the words that tell the direction of a port.
pub open spec fn is_direction(word: Seq<char>) -> bool {
    word == "input"@ || word == "in"@ || word == "output"@ || word == "out"@
}

/// An input port and its output counterpart have the same key: whichever word
/// tells the direction behind a name, the name is what is left.
pub proof fn direction_leaves_the_name(name: Seq<char>, word: Seq<char>)
    requires
        is_direction(word),
    ensures
        without_direction(name + seq![' '] + word) == text::without_end(name),
{
    reveal_strlit("input");
    reveal_strlit("in");
    reveal_strlit("output");
    reveal_strlit("out");
    let full = name + seq![' '] + word;
    let spaced = name + seq![' '];
    assert(full.take(full.len() - word.len()) =~= spaced);
    assert(spaced.drop_last() =~= name);
    assert(word.is_suffix_of(full)) by {
        assert(full.subrange(full.len() - word.len(), full.len() as int) =~= word);
    }
    assert(full[full.len() - word.len() - 1] == ' ');
    lemma_suffix_ends(full, word);
    if "input"@.is_suffix_of(full) {
        lemma_suffix_ends(full, "input"@);
    }
    if "in"@.is_suffix_of(full) {
        lemma_suffix_ends(full, "in"@);
    }
    if "output"@.is_suffix_of(full) {
        lemma_suffix_ends(full, "output"@);
    }
}

/// What a text ends with agrees with it from the end.
proof fn lemma_suffix_ends(text: Seq<char>, suffix: Seq<char>)
    requires
        suffix.is_suffix_of(text),
        suffix.len() >= 2,
    ensures
        suffix[suffix.len() - 1] == text[text.len() - 1],
        suffix[suffix.len() - 2] == text[text.len() - 2],
        suffix.len() >= 3 ==> suffix[suffix.len() - 3] == text[text.len() - 3],
        suffix.len() >= 4 ==> suffix[suffix.len() - 4] == text[text.len() - 4],
{
    let end = text.subrange(text.len() - suffix.len(), text.len() as int);
    assert(end =~= suffix);
}

/// A name that merely ends in the letters of such a word keeps them.
pub proof fn letters_of_a_name_stay(name: Seq<char>)
    requires
        name.len() > 0,
        forall|i: int| 0 <= i < name.len() ==> !text::is_white(#[trigger] name[i]),
        !is_direction(name),
    ensures
        without_direction(name) == name,
{
    reveal_strlit("input");
    reveal_strlit("in");
    reveal_strlit("output");
    reveal_strlit("out");
    assert("input"@.is_suffix_of(name) && name.len() == 5 ==> name =~= "input"@);
    assert("in"@.is_suffix_of(name) && name.len() == 2 ==> name =~= "in"@);
    assert("output"@.is_suffix_of(name) && name.len() == 6 ==> name =~= "output"@);
    assert("out"@.is_suffix_of(name) && name.len() == 3 ==> name =~= "out"@);
}

/// The key that an input port and its output counterpart share.
pub open spec fn normalized(name: Seq<char>) -> Seq<char> {
    without_direction(text::lowered(name))
}

/// Strips a trailing "in"/"input" or "out"/"output" word from a port name so
/// an input port and its output counterpart normalize to the same key.
pub fn normalize_port_name(name: &str) -> (key: String)
    ensures
        key@ == normalized(name@),
{
    strip_direction(text::to_lowercase(name))
}

/// The first output port of a name.
pub open spec fn first_named(ports: Seq<PortEntry>, name: Seq<char>) -> Option<usize>
    decreases ports.len(),
{
    if ports.len() == 0 {
        None
    } else if ports[0].1 == name {
        Some(ports[0].0)
    } else {
        first_named(ports.drop_first(), name)
    }
}

/// The output ports whose names normalize to a key.
pub open spec fn matching(ports: Seq<PortEntry>, key: Seq<char>) -> Seq<usize>
    decreases ports.len(),
{
    if ports.len() == 0 {
        Seq::empty()
    } else {
        let before = matching(ports.drop_last(), key);
        if normalized(ports.last().1) == key {
            before.push(ports.last().0)
        } else {
            before
        }
    }
}

/// The output port an input port name corresponds to: exact name match, then
/// normalized-name match, then the single-port fallback.
pub open spec fn counterpart(ports: Seq<PortEntry>, input_name: Seq<char>) -> Option<usize> {
    if first_named(ports, input_name) is Some {
        first_named(ports, input_name)
    } else if matching(ports, normalized(input_name)).len() == 1 {
        Some(matching(ports, normalized(input_name))[0])
    } else if ports.len() == 1 {
        Some(ports[0].0)
    } else {
        None
    }
}

/// Finds the output port index an input port name corresponds to: exact name
/// match, then normalized-name match, then the single-port fallback. None
/// means the event can't be attributed and is dropped.
pub fn output_port_for_input(input_name: &str, outputs: &Vec<MidiPortInfo>) -> (port: Option<usize>)
    ensures
        port == counterpart(port_entries(outputs@), input_name@),
{
    let ghost entries = port_entries(outputs@);
    let mut i: usize = 0;
    assert(entries.skip(0) =~= entries);
    while i < outputs.len()
        invariant
            i <= outputs.len(),
            entries == port_entries(outputs@),
            first_named(entries, input_name@) == first_named(entries.skip(i as int), input_name@),
        decreases outputs.len() - i,
    {
        if text::same_str(input_name, &outputs[i].name) {
            return Some(outputs[i].index);
        }
        assert(entries.skip(i as int).drop_first() =~= entries.skip(i + 1));
        i = i + 1;
    }
    let want = normalize_port_name(input_name);
    let mut matches: Vec<usize> = Vec::new();
    let mut k: usize = 0;
    while k < outputs.len()
        invariant
            k <= outputs.len(),
            entries == port_entries(outputs@),
            want@ == normalized(input_name@),
            matches@ == matching(entries.take(k as int), want@),
        decreases outputs.len() - k,
    {
        assert(entries.take(k + 1).drop_last() =~= entries.take(k as int));
        let key = normalize_port_name(outputs[k].name.as_str());
        if key == want {
            matches.push(outputs[k].index);
        }
        k = k + 1;
    }
    assert(entries.take(k as int) =~= entries);
    if matches.len() == 1 {
        return Some(matches[0]);
    }
    if outputs.len() == 1 {
        return Some(outputs[0].index);
    }
    None
}

/// How long the broadcast port list stays valid before the MIDI devices are
/// enumerated again, in ms (hot-plugged devices are picked up within a
/// second, while the 24 pulses-per-beat master clock stays cheap).
pub const BROADCAST_PORTS_TTL_MS: u64 = 1_000;

/// Tells whether a cached port list of the given age (ms) can still be used.
pub fn broadcast_ports_are_fresh(age_ms: Option<u64>) -> (fresh: bool)
    ensures
        fresh == (age_ms matches Some(age) && age < BROADCAST_PORTS_TTL_MS),
        fresh ==> (age_ms matches Some(age) && age < 1_000),
{
    match age_ms {
        Some(age) => age < BROADCAST_PORTS_TTL_MS,
        None => false,
    }
}

/// A channel message that the app learns from.
#[derive(Clone, Copy, Debug, PartialEq, Eq, Structural)]
pub enum Message {
    /// A Program Change.
    Program(u8),
    /// A Bank Select: the controller (0 or 32) and its value.
    Bank(u8, u8),
    /// A Channel Volume.
    Volume(u8),
}

/// An incoming MIDI message.
#[derive(Clone, Copy, Debug, PartialEq, Eq, Structural)]
pub enum InputMessage {
    /// A single byte: a system realtime message.
    Realtime(u8),
    /// A channel message that the app learns from.
    Channel { channel: u8, message: Message },
    /// Anything else.
    Ignored,
}

/// What an incoming MIDI message is: a single byte is a system realtime
/// message; of the channel messages, Program Change ([0xC0|ch, program]) and
/// the Control Changes ([0xB0|ch, cc, value]) for banks and volume count.
pub open spec fn input_message(data: Seq<u8>) -> InputMessage {
    if data.len() == 1 {
        InputMessage::Realtime(data[0])
    } else if data.len() == 0 {
        InputMessage::Ignored
    } else {
        let channel = (data[0] % 16) as u8;
        if data[0] / 16 == 0xC {
            InputMessage::Channel { channel, message: Message::Program(data_bits(data[1])) }
        } else if data[0] / 16 != 0xB || data.len() < 3 {
            InputMessage::Ignored
        } else if data[1] == 0 || data[1] == 32 {
            InputMessage::Channel { channel, message: Message::Bank(data[1], data_bits(data[2])) }
        } else if data[1] == 7 {
            InputMessage::Channel { channel, message: Message::Volume(data_bits(data[2])) }
        } else {
            InputMessage::Ignored
        }
    }
}

/// Parses one incoming MIDI message.
pub fn parse_input(data: &[u8]) -> (message: InputMessage)
    ensures
        message == input_message(data@),
{
    if data.len() == 1 {
        return InputMessage::Realtime(data[0]);
    }
    if data.len() < 2 {
        return InputMessage::Ignored;
    }
    let first: u8 = data[0];
    assert(first & 0x0F == first % 16) by (bit_vector);
    assert((first & 0xF0) == 0xC0 <==> first / 16 == 0xC) by (bit_vector);
    assert((first & 0xF0) == 0xB0 <==> first / 16 == 0xB) by (bit_vector);
    let channel: u8 = first & 0x0F;
    let kind: u8 = first & 0xF0;
    if kind == 0xC0 {
        InputMessage::Channel { channel, message: Message::Program(data_byte(data[1])) }
    } else if kind == 0xB0 && data.len() >= 3 {
        match data[1] {
            0 | 32 => InputMessage::Channel {
                channel,
                message: Message::Bank(data[1], data_byte(data[2])),
            },
            7 => InputMessage::Channel { channel, message: Message::Volume(data_byte(data[2])) },
            _ => InputMessage::Ignored,
        }
    } else {
        InputMessage::Ignored
    }
}

/// The learned channel volume (percent, 0–100) of one (output port, channel)
/// pair.
#[derive(Clone, Copy, Debug, PartialEq, Eq, Structural)]
pub struct VolumeEvent {
    pub port: usize,
    pub channel: u8,
    pub volume: u8,
}

/// The learned program of one (output port, channel) pair.
#[derive(Clone, Copy, Debug, PartialEq, Eq, Structural)]
pub struct ProgramEvent {
    pub port: usize,
    pub channel: u8,
    pub program: ProgramState,
}

/// What the interface is told of an incoming message.
#[derive(Clone, Copy, Debug, PartialEq, Eq, Structural)]
pub enum InputEvent {
    Nothing,
    /// A program, bank or volume message on a channel whose output port is
    /// not known.
    Dropped { channel: u8 },
    Volume(VolumeEvent),
    Program(ProgramEvent),
}

/// A synth after a volume has been learned for a channel.
pub open spec fn with_volume(synth: Synth, port: usize, channel: u8, volume: u8) -> Synth {
    if synth.midi_port == port && synth.channel == channel {
        Synth { volume, ..synth }
    } else {
        synth
    }
}

/// Channel Volume learned from the instrument: updates every synth on a
/// (port, channel), since CC 7 addresses the channel.
fn learn_volume(state: &mut SynthState, port: usize, channel: u8, volume: u8)
    ensures
        final(state).synths@ == old(state).synths@.map_values(
            |synth: Synth| with_volume(synth, port, channel, volume),
        ),
        final(state).next_id == old(state).next_id,
        final(state).next_display_number == old(state).next_display_number,
{
    let ids = synth::synth_ids(&state.synths);
    let ghost before = state.synths@;
    let mut i: usize = 0;
    while i < ids.len()
        invariant
            i <= ids.len(),
            ids@.no_duplicates(),
            ids@.to_set() == before.dom(),
            state.synths@.dom() == before.dom(),
            forall|id: u32| #[trigger]
                before.contains_key(id) ==> state.synths@[id] == (if ids@.take(i as int).contains(
                    id,
                ) {
                    with_volume(before[id], port, channel, volume)
                } else {
                    before[id]
                }),
            state.next_id == old(state).next_id,
            state.next_display_number == old(state).next_display_number,
        decreases ids.len() - i,
    {
        let id: u32 = ids[i];
        let ghost now = state.synths@;
        proof {
            assert(ids@.to_set().contains(id));
            assert(ids@.take(i + 1) =~= ids@.take(i as int).push(id));
            if ids@.take(i as int).contains(id) {
                let k = choose|k: int| 0 <= k < i && ids@.take(i as int)[k] == id;
                assert(ids@[k] == ids@[i as int]);
            }
        }
        if let Some(mut synth) = synth::take(state, id) {
            if synth.midi_port == port && synth.channel == channel {
                synth.volume = volume;
            }
            synth::put(state, id, synth, Ghost(now));
        }
        proof {
            assert(state.synths@.dom() =~= before.dom());
            assert forall|other: u32| #[trigger] before.contains_key(other) implies state.synths@[other]
                == (if ids@.take(i + 1).contains(other) {
                with_volume(before[other], port, channel, volume)
            } else {
                before[other]
            }) by {
                vstd::seq_lib::lemma_seq_contains_after_push(ids@.take(i as int), id, other);
            }
        }
        i = i + 1;
    }
    proof {
        assert(ids@.take(i as int) =~= ids@);
        assert forall|id: u32| #[trigger] before.contains_key(id) implies ids@.contains(id) by {
            assert(ids@.to_set().contains(id));
        }
        assert(state.synths@ =~= before.map_values(
            |synth: Synth| with_volume(synth, port, channel, volume),
        ));
    }
}

/// What a channel sounds after a Program Change or a Bank Select.
pub open spec fn learned_sound(known: Option<ProgramState>, message: Message) -> ProgramState {
    let known = match known {
        Some(known) => known,
        None => ProgramState { bank_msb: None, bank_lsb: None, program: None },
    };
    match message {
        Message::Program(program) => ProgramState { program: Some(program), ..known },
        Message::Bank(0, value) => ProgramState { bank_msb: Some(value), ..known },
        Message::Bank(_, value) => ProgramState { bank_lsb: Some(value), ..known },
        Message::Volume(_) => known,
    }
}

/// The clock of the metronome after a system realtime message: clock pulses,
/// Start and Continue, and Stop count, from the inputs that the clock mode
/// accepts.
pub open spec fn clock_after(
    metronome: MetronomeState,
    byte: u8,
    input_name: Seq<char>,
    now_ns: u64,
) -> clock::ClockState {
    let before = metronome.clock;
    if !metronome.accepts(input_name) {
        before
    } else if byte == MIDI_CLOCK {
        clock::ClockState { stopped: false, ..clock::pulsed(before, now_ns) }
    } else if byte == MIDI_START || byte == MIDI_CONTINUE {
        clock::ClockState { anchor: before.pulses, started: true, stopped: false, ..before }
    } else if byte == MIDI_STOP {
        clock::ClockState { stopped: true, ..before }
    } else {
        before
    }
}

/// Dispatches a system realtime message to the metronome's clock sync: the
/// MIDI clock from a DAW or any external device drives the metronome's tempo.
/// The clock mode decides which input is accepted.
pub fn handle_realtime(metronome: &mut MetronomeState, byte: u8, input_name: &str, now_ns: u64)
    ensures
        *final(metronome) == (MetronomeState {
            clock: clock_after(*old(metronome), byte, input_name@, now_ns),
            ..*old(metronome)
        }),
{
    if byte == MIDI_CLOCK {
        on_clock_pulse_at(metronome, input_name, now_ns);
    } else if byte == MIDI_START || byte == MIDI_CONTINUE {
        on_clock_start(metronome, input_name);
    } else if byte == MIDI_STOP {
        on_clock_stop(metronome, input_name);
    }
}

/// True when a channel message has been handled that was heard on an input
/// whose output port is `port`.
pub open spec fn channel_message_handled(
    port: Option<usize>,
    channel: u8,
    message: Message,
    synths_before: SynthState,
    synths_after: SynthState,
    midi_before: MidiState,
    midi_after: MidiState,
    event: InputEvent,
) -> bool {
    match (port, message) {
        (None, _) => {
            &&& event == (InputEvent::Dropped { channel })
            &&& synth::same_registry(synths_before, synths_after)
            &&& midi_after == midi_before
        },
        (Some(port), Message::Volume(value)) => {
            let volume = volume_percent(value) as u8;
            &&& event == InputEvent::Volume(VolumeEvent { port, channel, volume })
            &&& synths_after.synths@ == synths_before.synths@.map_values(
                |synth: Synth| with_volume(synth, port, channel, volume),
            )
            &&& synths_after.next_id == synths_before.next_id
            &&& synths_after.next_display_number == synths_before.next_display_number
            &&& midi_after == midi_before
        },
        (Some(port), _) => {
            let program = learned_sound(midi_before.program(port, channel), message);
            &&& event == InputEvent::Program(ProgramEvent { port, channel, program })
            &&& midi_after.learned(midi_before, port, channel, program)
            &&& synth::same_registry(synths_before, synths_after)
        },
    }
}

/// Handles a channel message heard on an input whose output port is `port`:
/// updates the known-program state when it is a Bank Select or Program
/// Change, or the matching synths' volume when it is a Channel Volume. Our
/// own outgoing messages may loop back here (IAC/thru): updating with the
/// same value is harmless, and nothing is ever sent back in response.
pub fn handle_channel_message(
    port: Option<usize>,
    channel: u8,
    message: Message,
    synths: &mut SynthState,
    midi: &mut MidiState,
) -> (event: InputEvent)
    requires
        old(midi).well_formed(),
    ensures
        final(midi).well_formed(),
        channel_message_handled(
            port,
            channel,
            message,
            *old(synths),
            *final(synths),
            *old(midi),
            *final(midi),
            event,
        ),
{
    let port: usize = match port {
        Some(port) => port,
        None => return InputEvent::Dropped { channel },
    };
    let known: ProgramState = match midi.known_program(port, channel) {
        Some(known) => known,
        None => ProgramState::default(),
    };
    let program: ProgramState = match message {
        Message::Volume(value) => {
            let volume: u8 = midi_to_percent(value);
            learn_volume(synths, port, channel, volume);
            return InputEvent::Volume(VolumeEvent { port, channel, volume });
        },
        Message::Program(program) => ProgramState { program: Some(program), ..known },
        Message::Bank(cc, value) => if cc == 0 {
            ProgramState { bank_msb: Some(value), ..known }
        } else {
            ProgramState { bank_lsb: Some(value), ..known }
        },
    };
    midi.learn(port, channel, program);
    InputEvent::Program(ProgramEvent { port, channel, program })
}

/// Handles one incoming MIDI message heard on the input `input_name` at the
/// time `now_ns`, given the output ports: system realtime messages go to the
/// metronome's clock sync; programs, banks and volumes are learned for the
/// output port that the input belongs to.
pub fn handle_input_message_at(
    message: InputMessage,
    input_name: &str,
    outputs: &Vec<MidiPortInfo>,
    now_ns: u64,
    metronome: &mut MetronomeState,
    synths: &mut SynthState,
    midi: &mut MidiState,
) -> (event: InputEvent)
    requires
        old(midi).well_formed(),
    ensures
        final(midi).well_formed(),
        match message {
            InputMessage::Realtime(byte) => {
                &&& event is Nothing
                &&& *final(metronome) == (MetronomeState {
                    clock: clock_after(*old(metronome), byte, input_name@, now_ns),
                    ..*old(metronome)
                })
                &&& synth::same_registry(*old(synths), *final(synths))
                &&& *final(midi) == *old(midi)
            },
            InputMessage::Ignored => {
                &&& event is Nothing
                &&& *final(metronome) == *old(metronome)
                &&& synth::same_registry(*old(synths), *final(synths))
                &&& *final(midi) == *old(midi)
            },
            InputMessage::Channel { channel, message } => {
                &&& *final(metronome) == *old(metronome)
                &&& channel_message_handled(
                    counterpart(port_entries(outputs@), input_name@),
                    channel,
                    message,
                    *old(synths),
                    *final(synths),
                    *old(midi),
                    *final(midi),
                    event,
                )
            },
        },
{
    match message {
        InputMessage::Realtime(byte) => {
            handle_realtime(metronome, byte, input_name, now_ns);
            InputEvent::Nothing
        },
        InputMessage::Ignored => InputEvent::Nothing,
        InputMessage::Channel { channel, message } => {
            let port = output_port_for_input(input_name, outputs);
            handle_channel_message(port, channel, message, synths, midi)
        },
    }
}

/// Handles one incoming MIDI message heard on the input `input_name` just
/// now, given the output ports.
pub fn handle_input_message(
    data: &[u8],
    input_name: &str,
    outputs: &Vec<MidiPortInfo>,
    metronome: &mut MetronomeState,
    synths: &mut SynthState,
    midi: &mut MidiState,
) -> (event: InputEvent)
    requires
        old(midi).well_formed(),
    ensures
        final(midi).well_formed(),
        match input_message(data@) {
            InputMessage::Realtime(byte) => {
                &&& event is Nothing
                &&& exists|now: u64|
                    *final(metronome) == (MetronomeState {
                        clock: #[trigger] clock_after(*old(metronome), byte, input_name@, now),
                        ..*old(metronome)
                    })
                &&& synth::same_registry(*old(synths), *final(synths))
                &&& *final(midi) == *old(midi)
            },
            InputMessage::Ignored => {
                &&& event is Nothing
                &&& *final(metronome) == *old(metronome)
                &&& synth::same_registry(*old(synths), *final(synths))
                &&& *final(midi) == *old(midi)
            },
            InputMessage::Channel { channel, message } => {
                &&& *final(metronome) == *old(metronome)
                &&& channel_message_handled(
                    counterpart(port_entries(outputs@), input_name@),
                    channel,
                    message,
                    *old(synths),
                    *final(synths),
                    *old(midi),
                    *final(midi),
                    event,
                )
            },
        },
{
    let now: u64 = now_ns();
    handle_input_message_at(parse_input(data), input_name, outputs, now, metronome, synths, midi)
}

/// Sends the bank (letters A–P in the UI) and program selection of the synth
/// on its output port and channel, records it as the channel's known program,
/// and returns the resulting state for the frontend, with the messages to
/// send. Every part is optional: the UI sends the full selection, `None`
/// leaves that part untouched on the instrument.
pub fn set_synth_program(
    id: u32,
    program: Option<u8>,
    bank_msb: Option<u8>,
    bank_lsb: Option<u8>,
    midi: &mut MidiState,
    state: &SynthState,
) -> (result: Result<(usize, Vec<Vec<u8>>, ProgramState), AppError>)
    requires
        old(midi).well_formed(),
    ensures
        final(midi).well_formed(),
        if state.synths@.contains_key(id) {
            let synth = state.synths@[id];
            let sound = ProgramState { bank_msb, bank_lsb, program };
            &&& result matches Ok(sent)
            &&& sent.0 == synth.midi_port
            &&& contents(sent.1@) == selection_bytes(synth.channel, sound)
            &&& sent.2 == sound
            &&& final(midi).learned(*old(midi), synth.midi_port, synth.channel, sound)
        } else {
            &&& result == Err::<(usize, Vec<Vec<u8>>, ProgramState), AppError>(
                AppError::SynthNotFound { id },
            )
            &&& *final(midi) == *old(midi)
        },
{
    match state.synths.get(&id) {
        Some(synth) => {
            let (messages, sound) = midi.send_program_change(
                synth.midi_port,
                synth.channel,
                program,
                bank_msb,
                bank_lsb,
            );
            Ok((synth.midi_port, messages, sound))
        },
        None => Err(synth_not_found(id)),
    }
}

} // verus!
