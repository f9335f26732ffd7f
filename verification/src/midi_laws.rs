//! What holds of every MIDI message and port.

use vstd::prelude::*;

use crate::midi::{
    self, InputEvent, InputMessage, KnownProgram, Message, MidiInputPortInfo, MidiPortInfo,
    MidiState, PortEntry, ProgramEvent, VIRTUAL_PORT_INDEX, VIRTUAL_PORT_NAME,
};
use crate::playback::NoteMessage;
use crate::state::{ProgramState, Synth, SynthState};
use crate::text;

verus! {

/// A volume percentage is sent as the MIDI value nearest to its share of 127,
/// and a MIDI value is heard as the percentage nearest to its share of 100;
/// what exceeds the full volume counts as it.
pub proof fn volumes_convert_to_the_nearest(percent: u8, value: u8)
    ensures
        percent <= 100 ==> -100 < 2 * (100 * midi::midi_value(percent) - 127 * percent) <= 100,
        percent >= 100 ==> midi::midi_value(percent) == 127,
        value <= 127 ==> -127 < 2 * (127 * midi::volume_percent(value) - 100 * value) < 127,
        value >= 127 ==> midi::volume_percent(value) == 100,
{
}

/// A Note On is the status 0x90 with the channel in its low bits, the note and
/// the velocity; a Note Off has the status 0x80 and no velocity. Data bytes
/// have seven bits.
pub proof fn note_messages_have_three_bytes(message: NoteMessage)
    ensures
        midi::note_bytes_spec(message).len() == 3,
        match message {
            NoteMessage::On { channel, note, velocity, .. } => {
                let bytes = midi::note_bytes_spec(message);
                &&& bytes[0] / 16 == 9 && bytes[0] % 16 == channel % 16
                &&& note <= 127 ==> bytes[1] == note
                &&& velocity <= 127 ==> bytes[2] == velocity
                &&& bytes[1] <= 127 && bytes[2] <= 127
            },
            NoteMessage::Off { channel, note, .. } => {
                let bytes = midi::note_bytes_spec(message);
                &&& bytes[0] / 16 == 8 && bytes[0] % 16 == channel % 16
                &&& note <= 127 ==> bytes[1] == note
                &&& bytes[1] <= 127
                &&& bytes[2] == 0
            },
        },
{
}

/// The status byte of a channel message has its kind in the high bits and the
/// channel in the low ones; a data byte keeps its lower seven bits.
pub proof fn status_bytes_carry_kind_and_channel(kind: int, channel: u8, byte: u8)
    requires
        kind == 0x80 || kind == 0x90 || kind == 0xB0 || kind == 0xC0,
    ensures
        16 * (midi::status(kind, channel) / 16) == kind,
        midi::status(kind, channel) % 16 == channel % 16,
        midi::data_bits(byte) <= 127,
        byte <= 127 ==> midi::data_bits(byte) == byte,
        byte >= 128 ==> midi::data_bits(byte) == byte - 128,
{
}

/// A sound is selected by its bank first, the coarse part (controller 0)
/// before the fine one (controller 32), then by its program; parts that are
/// not known are left out.
pub proof fn sounds_are_selected_bank_first(channel: u8, sound: ProgramState)
    ensures
        ({
            let sent = midi::selection_bytes(channel, sound);
            let coarse = if sound.bank_msb is Some {
                1int
            } else {
                0
            };
            let fine = if sound.bank_lsb is Some {
                1int
            } else {
                0
            };
            let control = (0xB0 + channel % 16) as u8;
            let change = (0xC0 + channel % 16) as u8;
            &&& sent.len() == coarse + fine + (if sound.program is Some {
                1int
            } else {
                0
            })
            &&& sound.bank_msb matches Some(msb) ==> sent[0] == seq![control, 0u8, (msb % 128) as u8]
            &&& sound.bank_lsb matches Some(lsb) ==> sent[coarse] == seq![
                control,
                32u8,
                (lsb % 128) as u8,
            ]
            &&& sound.program matches Some(program) ==> sent[coarse + fine] == seq![
                change,
                (program % 128) as u8,
            ]
        }),
{
}

/// What an instrument echoes is heard as it was sent: a bank, a program and a
/// volume come back on their channel with their value.
pub proof fn sent_messages_are_heard_back(channel: u8, value: u8)
    requires
        channel <= 15,
        value <= 127,
    ensures
        midi::input_message(midi::control_bytes(channel, 0, value)) == (InputMessage::Channel {
            channel,
            message: Message::Bank(0, value),
        }),
        midi::input_message(midi::control_bytes(channel, 32, value)) == (InputMessage::Channel {
            channel,
            message: Message::Bank(32, value),
        }),
        midi::input_message(midi::control_bytes(channel, 7, value)) == (InputMessage::Channel {
            channel,
            message: Message::Volume(value),
        }),
        midi::input_message(seq![midi::status(0xC0, channel), value]) == (InputMessage::Channel {
            channel,
            message: Message::Program(value),
        }),
{
}

/// A single byte is a system realtime message. Of longer ones, those with the
/// status 0xC0 to 0xCF are program changes; those of three bytes and more with
/// the status 0xB0 to 0xBF are banks (controllers 0 and 32) and volumes
/// (controller 7). Nothing else is listened to.
pub proof fn inputs_are_told_by_their_status(data: Seq<u8>)
    ensures
        midi::input_message(data) == (if data.len() == 1 {
            InputMessage::Realtime(data[0])
        } else if data.len() >= 2 && 0xC0 <= data[0] <= 0xCF {
            InputMessage::Channel {
                channel: (data[0] - 0xC0) as u8,
                message: Message::Program((data[1] % 128) as u8),
            }
        } else if data.len() >= 3 && 0xB0 <= data[0] <= 0xBF && (data[1] == 0 || data[1] == 32) {
            InputMessage::Channel {
                channel: (data[0] - 0xB0) as u8,
                message: Message::Bank(data[1], (data[2] % 128) as u8),
            }
        } else if data.len() >= 3 && 0xB0 <= data[0] <= 0xBF && data[1] == 7 {
            InputMessage::Channel {
                channel: (data[0] - 0xB0) as u8,
                message: Message::Volume((data[2] % 128) as u8),
            }
        } else {
            InputMessage::Ignored
        }),
{
}

/// A program change teaches the program and leaves the bank; a bank select
/// teaches its part of the bank and leaves the rest. What was not known before
/// stays unknown.
pub proof fn sounds_are_learned_part_by_part(known: Option<ProgramState>, value: u8)
    ensures
        ({
            let before = match known {
                Some(known) => known,
                None => ProgramState { bank_msb: None, bank_lsb: None, program: None },
            };
            &&& midi::learned_sound(known, Message::Program(value)) == (ProgramState {
                program: Some(value),
                ..before
            })
            &&& midi::learned_sound(known, Message::Bank(0, value)) == (ProgramState {
                bank_msb: Some(value),
                ..before
            })
            &&& midi::learned_sound(known, Message::Bank(32, value)) == (ProgramState {
                bank_lsb: Some(value),
                ..before
            })
            &&& midi::learned_sound(known, Message::Volume(value)) == before
        }),
{
}

/// A volume belongs to a channel of a port: every synth there has it, and no
/// other is touched.
pub proof fn volumes_belong_to_their_channel(synth: Synth, port: usize, channel: u8, volume: u8)
    ensures
        midi::with_volume(synth, port, channel, volume) == (Synth {
            volume: if synth.midi_port == port && synth.channel == channel {
                volume
            } else {
                synth.volume
            },
            ..synth
        }),
{
}

proof fn lemma_first_named(ports: Seq<PortEntry>, name: Seq<char>)
    ensures
        midi::first_named(ports, name) is None <==> forall|i: int|
            0 <= i < ports.len() ==> (#[trigger] ports[i]).1 != name,
        midi::first_named(ports, name) matches Some(index) ==> exists|i: int|
            0 <= i < ports.len() && (#[trigger] ports[i]).1 == name && ports[i].0 == index
                && forall|k: int| 0 <= k < i ==> (#[trigger] ports[k]).1 != name,
    decreases ports.len(),
{
    if ports.len() > 0 && ports[0].1 != name {
        let rest = ports.drop_first();
        lemma_first_named(rest, name);
        if midi::first_named(rest, name) is Some {
            let i = choose|i: int|
                0 <= i < rest.len() && (#[trigger] rest[i]).1 == name && rest[i].0
                    == midi::first_named(rest, name)->0 && forall|k: int|
                    0 <= k < i ==> (#[trigger] rest[k]).1 != name;
            assert(ports[i + 1] == rest[i]);
            assert forall|k: int| 0 <= k < i + 1 implies (#[trigger] ports[k]).1 != name by {
                if k > 0 {
                    assert(rest[k - 1] == ports[k]);
                }
            }
        } else {
            assert forall|i: int| 0 <= i < ports.len() implies (#[trigger] ports[i]).1 != name by {
                if i > 0 {
                    assert(rest[i - 1] == ports[i]);
                }
            }
        }
    }
}

proof fn lemma_matching(ports: Seq<PortEntry>, key: Seq<char>)
    ensures
        midi::matching(ports, key).len() == 0 <==> forall|i: int|
            0 <= i < ports.len() ==> midi::normalized((#[trigger] ports[i]).1) != key,
        midi::matching(ports, key).len() == 1 ==> exists|i: int|
            0 <= i < ports.len() && midi::normalized((#[trigger] ports[i]).1) == key && ports[i].0
                == midi::matching(ports, key)[0] && forall|k: int|
                0 <= k < ports.len() && k != i ==> midi::normalized((#[trigger] ports[k]).1) != key,
        midi::matching(ports, key).len() >= 2 ==> exists|i: int, k: int|
            0 <= i < k < ports.len() && midi::normalized((#[trigger] ports[i]).1) == key
                && midi::normalized((#[trigger] ports[k]).1) == key,
    decreases ports.len(),
{
    if ports.len() > 0 {
        let rest = ports.drop_last();
        let last = ports.len() - 1;
        let before = midi::matching(rest, key);
        lemma_matching(rest, key);
        if midi::normalized(ports.last().1) == key {
            assert(midi::normalized(ports[last].1) == key);
            if before.len() == 0 {
                assert forall|k: int| 0 <= k < ports.len() && k != last implies midi::normalized(
                    (#[trigger] ports[k]).1,
                ) != key by {
                    assert(rest[k] == ports[k]);
                }
            } else if before.len() == 1 {
                let i = choose|i: int|
                    0 <= i < rest.len() && midi::normalized((#[trigger] rest[i]).1) == key
                        && rest[i].0 == before[0] && forall|k: int|
                        0 <= k < rest.len() && k != i ==> midi::normalized((#[trigger] rest[k]).1)
                            != key;
                assert(midi::normalized(ports[i].1) == key);
            } else {
                let (i, k) = choose|i: int, k: int|
                    0 <= i < k < rest.len() && midi::normalized((#[trigger] rest[i]).1) == key
                        && midi::normalized((#[trigger] rest[k]).1) == key;
                assert(midi::normalized(ports[i].1) == key && midi::normalized(ports[k].1) == key);
            }
        } else {
            if before.len() == 0 {
                assert forall|i: int| 0 <= i < ports.len() implies midi::normalized(
                    (#[trigger] ports[i]).1,
                ) != key by {
                    if i < last {
                        assert(rest[i] == ports[i]);
                    }
                }
            } else if before.len() == 1 {
                let i = choose|i: int|
                    0 <= i < rest.len() && midi::normalized((#[trigger] rest[i]).1) == key
                        && rest[i].0 == before[0] && forall|k: int|
                        0 <= k < rest.len() && k != i ==> midi::normalized((#[trigger] rest[k]).1)
                            != key;
                assert(midi::normalized(ports[i].1) == key && ports[i].0 == before[0]);
                assert forall|k: int| 0 <= k < ports.len() && k != i implies midi::normalized(
                    (#[trigger] ports[k]).1,
                ) != key by {
                    if k < last {
                        assert(rest[k] == ports[k]);
                    }
                }
            } else {
                let (i, k) = choose|i: int, k: int|
                    0 <= i < k < rest.len() && midi::normalized((#[trigger] rest[i]).1) == key
                        && midi::normalized((#[trigger] rest[k]).1) == key;
                assert(midi::normalized(ports[i].1) == key && midi::normalized(ports[k].1) == key);
            }
        }
    }
}

/// An input belongs to the first output of the very same name.
pub proof fn inputs_belong_to_their_namesake(ports: Seq<PortEntry>, name: Seq<char>, place: int)
    requires
        0 <= place < ports.len(),
        ports[place].1 == name,
        forall|k: int| 0 <= k < place ==> (#[trigger] ports[k]).1 != name,
    ensures
        midi::counterpart(ports, name) == Some(ports[place].0),
{
    lemma_first_named(ports, name);
    let i = choose|i: int|
        0 <= i < ports.len() && (#[trigger] ports[i]).1 == name && ports[i].0
            == midi::first_named(ports, name)->0 && forall|k: int|
            0 <= k < i ==> (#[trigger] ports[k]).1 != name;
    assert(ports[i].1 == name);
    if i < place {
        assert(ports[i].1 != name);
    }
}

/// Without a namesake, an input belongs to the output whose name differs only
/// in its direction, as long as there is a single one.
pub proof fn inputs_belong_to_their_other_direction(
    ports: Seq<PortEntry>,
    name: Seq<char>,
    place: int,
)
    requires
        0 <= place < ports.len(),
        forall|k: int| 0 <= k < ports.len() ==> (#[trigger] ports[k]).1 != name,
        midi::normalized(ports[place].1) == midi::normalized(name),
        forall|k: int|
            0 <= k < ports.len() && k != place ==> midi::normalized((#[trigger] ports[k]).1)
                != midi::normalized(name),
    ensures
        midi::counterpart(ports, name) == Some(ports[place].0),
{
    let key = midi::normalized(name);
    lemma_first_named(ports, name);
    lemma_matching(ports, key);
    assert(midi::normalized(ports[place].1) == key);
    if midi::matching(ports, key).len() >= 2 {
        let (i, k) = choose|i: int, k: int|
            0 <= i < k < ports.len() && midi::normalized((#[trigger] ports[i]).1) == key
                && midi::normalized((#[trigger] ports[k]).1) == key;
        assert(i == place && k == place);
    } else {
        let i = choose|i: int|
            0 <= i < ports.len() && midi::normalized((#[trigger] ports[i]).1) == key && ports[i].0
                == midi::matching(ports, key)[0] && forall|k: int|
                0 <= k < ports.len() && k != i ==> midi::normalized((#[trigger] ports[k]).1) != key;
        assert(midi::normalized(ports[i].1) == key);
    }
}

/// An input that no name leads to belongs to the only output there is; with
/// several outputs, or none, it belongs to none. Nor does it where two outputs
/// differ from it only in their direction.
pub proof fn unmatched_inputs_belong_to_a_single_output(ports: Seq<PortEntry>, name: Seq<char>)
    requires
        forall|k: int| 0 <= k < ports.len() ==> (#[trigger] ports[k]).1 != name,
        (forall|k: int|
            0 <= k < ports.len() ==> midi::normalized((#[trigger] ports[k]).1) != midi::normalized(
                name,
            )) || exists|i: int, k: int|
            0 <= i < k < ports.len() && midi::normalized((#[trigger] ports[i]).1)
                == midi::normalized(name) && midi::normalized((#[trigger] ports[k]).1)
                == midi::normalized(name),
    ensures
        midi::counterpart(ports, name) == (if ports.len() == 1 {
            Some(ports[0].0)
        } else {
            None
        }),
{
    let key = midi::normalized(name);
    lemma_first_named(ports, name);
    lemma_matching(ports, key);
    if midi::matching(ports, key).len() == 1 {
        let only = choose|i: int|
            0 <= i < ports.len() && midi::normalized((#[trigger] ports[i]).1) == key && ports[i].0
                == midi::matching(ports, key)[0] && forall|k: int|
                0 <= k < ports.len() && k != i ==> midi::normalized((#[trigger] ports[k]).1) != key;
        assert(midi::normalized(ports[only].1) == key);
        let (i, k) = choose|i: int, k: int|
            0 <= i < k < ports.len() && midi::normalized((#[trigger] ports[i]).1) == key
                && midi::normalized((#[trigger] ports[k]).1) == key;
        assert(i == only && k == only);
    }
}

proof fn lemma_physical_outputs(names: Seq<Option<String>>, count: int, virtual_ports: bool)
    requires
        0 <= count <= names.len() <= usize::MAX,
    ensures
        forall|i: int, j: int|
            0 <= i < j < midi::physical_outputs(names, count, virtual_ports).len() ==> (
            #[trigger] midi::physical_outputs(names, count, virtual_ports)[i]).0 < (
            #[trigger] midi::physical_outputs(names, count, virtual_ports)[j]).0,
        forall|i: int|
            0 <= i < midi::physical_outputs(names, count, virtual_ports).len() ==> {
                let entry = #[trigger] midi::physical_outputs(names, count, virtual_ports)[i];
                &&& entry.0 < count
                &&& entry.1 == midi::port_label(names, entry.0 as int)
                &&& !entry.2
                &&& midi::listed_output(names, entry.0 as int, virtual_ports)
            },
        forall|index: int|
            0 <= index < count && #[trigger] midi::listed_output(names, index, virtual_ports)
                ==> midi::physical_outputs(names, count, virtual_ports).contains(
                (index as usize, midi::port_label(names, index), false),
            ),
    decreases count,
{
    if count > 0 {
        let before = midi::physical_outputs(names, count - 1, virtual_ports);
        let all = midi::physical_outputs(names, count, virtual_ports);
        lemma_physical_outputs(names, count - 1, virtual_ports);
        assert forall|index: int|
            0 <= index < count && #[trigger] midi::listed_output(
                names,
                index,
                virtual_ports,
            ) implies all.contains((index as usize, midi::port_label(names, index), false)) by {
            let entry = (index as usize, midi::port_label(names, index), false);
            if index < count - 1 {
                assert(before.contains(entry));
                let i = choose|i: int| 0 <= i < before.len() && before[i] == entry;
                assert(all[i] == entry);
            } else {
                assert(all[before.len() as int] == entry);
            }
        }
    }
}

/// The list of outputs has the app's own virtual port first, where there is
/// one, and then the physical ones in their order, each under its own index
/// and name; of these it leaves out none but the app's own virtual input.
pub proof fn outputs_are_listed_in_their_order(
    names: Seq<Option<String>>,
    virtual_ports: bool,
    index: int,
    i: int,
    j: int,
)
    requires
        names.len() <= usize::MAX,
        0 <= index < names.len(),
    ensures
        ({
            let list = midi::output_list(names, virtual_ports);
            let first = if virtual_ports {
                1int
            } else {
                0
            };
            &&& virtual_ports ==> list.len() > 0 && list[0] == (
                VIRTUAL_PORT_INDEX,
                VIRTUAL_PORT_NAME@,
                true,
            )
            &&& first <= i < j < list.len() ==> list[i].0 < list[j].0
            &&& first <= i < list.len() ==> list[i].0 < names.len() && !list[i].2 && list[i].1 == (
            match names[list[i].0 as int] {
                Some(name) => name@,
                None => "Port "@ + midi::decimal(list[i].0 as nat),
            })
            &&& list.contains((index as usize, midi::port_label(names, index), false)) <==> (
            !virtual_ports || midi::port_label(names, index) != VIRTUAL_PORT_NAME@)
        }),
{
    let list = midi::output_list(names, virtual_ports);
    let physical = midi::physical_outputs(names, names.len() as int, virtual_ports);
    let first = list.len() - physical.len();
    lemma_physical_outputs(names, names.len() as int, virtual_ports);
    if first <= i < list.len() {
        assert(list[i] == physical[i - first]);
    }
    if first <= j < list.len() {
        assert(list[j] == physical[j - first]);
    }
    let entry = (index as usize, midi::port_label(names, index), false);
    if midi::listed_output(names, index, virtual_ports) {
        assert(physical.contains(entry));
        let k = choose|k: int| 0 <= k < physical.len() && physical[k] == entry;
        assert(list[first + k] == entry);
    }
    if list.contains(entry) {
        let k = choose|k: int| 0 <= k < list.len() && list[k] == entry;
        assert(k >= first);
        assert(list[k] == physical[k - first]);
    }
}

proof fn lemma_physical_inputs(names: Seq<String>, count: int, virtual_ports: bool)
    requires
        0 <= count <= names.len(),
    ensures
        forall|i: int|
            0 <= i < midi::physical_inputs(names, count, virtual_ports).len() ==> {
                let entry = #[trigger] midi::physical_inputs(names, count, virtual_ports)[i];
                &&& !entry.1
                &&& entry.0.len() > 0
                &&& virtual_ports ==> entry.0 != VIRTUAL_PORT_NAME@
                &&& exists|k: int| 0 <= k < count && (#[trigger] names[k])@ == entry.0
            },
        forall|k: int|
            0 <= k < count && (#[trigger] names[k])@.len() > 0 && !(virtual_ports && names[k]@
                == VIRTUAL_PORT_NAME@) ==> midi::physical_inputs(
                names,
                count,
                virtual_ports,
            ).contains((names[k]@, false)),
    decreases count,
{
    if count > 0 {
        let before = midi::physical_inputs(names, count - 1, virtual_ports);
        let all = midi::physical_inputs(names, count, virtual_ports);
        lemma_physical_inputs(names, count - 1, virtual_ports);
        assert forall|i: int| 0 <= i < all.len() implies {
            let entry = #[trigger] all[i];
            &&& !entry.1
            &&& entry.0.len() > 0
            &&& virtual_ports ==> entry.0 != VIRTUAL_PORT_NAME@
            &&& exists|k: int| 0 <= k < count && (#[trigger] names[k])@ == entry.0
        } by {
            if i < before.len() {
                assert(all[i] == before[i]);
                let k = choose|k: int| 0 <= k < count - 1 && (#[trigger] names[k])@ == before[i].0;
                assert(names[k]@ == all[i].0);
            } else {
                assert(names[count - 1]@ == all[i].0);
            }
        }
        assert forall|k: int|
            0 <= k < count && (#[trigger] names[k])@.len() > 0 && !(virtual_ports && names[k]@
                == VIRTUAL_PORT_NAME@) implies all.contains((names[k]@, false)) by {
            let entry = (names[k]@, false);
            if k < count - 1 {
                assert(before.contains(entry));
                let i = choose|i: int| 0 <= i < before.len() && before[i] == entry;
                assert(all[i] == entry);
            } else {
                assert(all[before.len() as int] == entry);
            }
        }
    }
}

/// The list of inputs has the physical ones that have a name, but for the
/// app's own virtual output, and at its end the app's own virtual input, where
/// there is one.
pub proof fn inputs_are_listed_by_name(
    names: Seq<String>,
    virtual_ports: bool,
    name: Seq<char>,
)
    ensures
        ({
            let list = midi::input_list(names, virtual_ports);
            &&& list.contains((name, false)) <==> {
                &&& name.len() > 0
                &&& exists|k: int| 0 <= k < names.len() && (#[trigger] names[k])@ == name
                &&& !virtual_ports || name != VIRTUAL_PORT_NAME@
            }
            &&& list.contains((name, true)) <==> virtual_ports && name == VIRTUAL_PORT_NAME@
            &&& virtual_ports ==> list.len() > 0 && list.last() == (VIRTUAL_PORT_NAME@, true)
        }),
{
    let list = midi::input_list(names, virtual_ports);
    let physical = midi::physical_inputs(names, names.len() as int, virtual_ports);
    lemma_physical_inputs(names, names.len() as int, virtual_ports);
    if list.contains((name, false)) {
        let i = choose|i: int| 0 <= i < list.len() && list[i] == (name, false);
        assert(i < physical.len());
        assert(list[i] == physical[i]);
    }
    if name.len() > 0 && (exists|k: int| 0 <= k < names.len() && (#[trigger] names[k])@ == name) && (
    !virtual_ports || name != VIRTUAL_PORT_NAME@) {
        let k = choose|k: int| 0 <= k < names.len() && (#[trigger] names[k])@ == name;
        assert(physical.contains((names[k]@, false)));
        let i = choose|i: int| 0 <= i < physical.len() && physical[i] == (name, false);
        assert(list[i] == (name, false));
    }
    if list.contains((name, true)) {
        let i = choose|i: int| 0 <= i < list.len() && list[i] == (name, true);
        if i < physical.len() {
            assert(list[i] == physical[i]);
        }
    }
    if virtual_ports && name == VIRTUAL_PORT_NAME@ {
        assert(list[physical.len() as int] == (name, true));
    }
}

/// The value of decimal digits.
pub open spec fn value_of(digits: Seq<char>) -> int
    decreases digits.len(),
{
    if digits.len() == 0 {
        0
    } else {
        10 * value_of(digits.drop_last()) + (digits.last() as int - '0' as int)
    }
}

/// The decimal digits of a number spell it, without leading zeros.
pub proof fn decimals_spell_their_number(number: nat)
    ensures
        value_of(midi::decimal(number)) == number,
        midi::decimal(number).len() > 0,
        number > 0 ==> midi::decimal(number)[0] != '0',
        forall|i: int|
            0 <= i < midi::decimal(number).len() ==> '0' <= #[trigger] midi::decimal(number)[i]
                <= '9',
    decreases number,
{
    let digits = midi::decimal(number);
    if number < 10 {
        reveal_with_fuel(value_of, 2);
        assert(digits.drop_last() =~= Seq::empty());
    } else {
        decimals_spell_their_number(number / 10);
        assert(digits.drop_last() =~= midi::decimal(number / 10));
    }
}

/// Whichever of the words "input", "in", "output" and "out" stands behind a
/// name, the name is what is left.
pub proof fn direction_words_are_stripped(name: Seq<char>)
    ensures
        midi::without_direction(name + seq![' '] + "input"@) == text::without_end(name),
        midi::without_direction(name + seq![' '] + "in"@) == text::without_end(name),
        midi::without_direction(name + seq![' '] + "output"@) == text::without_end(name),
        midi::without_direction(name + seq![' '] + "out"@) == text::without_end(name),
{
    midi::direction_leaves_the_name(name, "input"@);
    midi::direction_leaves_the_name(name, "in"@);
    midi::direction_leaves_the_name(name, "output"@);
    midi::direction_leaves_the_name(name, "out"@);
}

/// True when a text is a word, or ends in it behind white space.
pub open spec fn has_last_word(text: Seq<char>, word: Seq<char>) -> bool {
    ||| text == word
    ||| exists|start: Seq<char>|
        start.len() > 0 && text::is_white(start.last()) && text == #[trigger] (start + word)
}

proof fn lemma_last_word(text: Seq<char>, word: Seq<char>)
    requires
        midi::ends_in_word(text, word),
    ensures
        has_last_word(text, word),
{
    if text.len() > word.len() {
        let start = text.take(text.len() - word.len());
        assert(start.last() == text[text.len() - word.len() - 1]);
        assert(text.subrange(text.len() - word.len(), text.len() as int) =~= word);
        assert(text =~= start + word);
    } else {
        assert(text.subrange(text.len() - word.len(), text.len() as int) =~= word);
        assert(text =~= word);
    }
}

/// A name whose last word is none of these is left alone.
pub proof fn other_last_words_stay(name: Seq<char>)
    requires
        !has_last_word(name, "input"@),
        !has_last_word(name, "in"@),
        !has_last_word(name, "output"@),
        !has_last_word(name, "out"@),
    ensures
        midi::without_direction(name) == name,
{
    if midi::ends_in_word(name, "input"@) {
        lemma_last_word(name, "input"@);
    }
    if midi::ends_in_word(name, "in"@) {
        lemma_last_word(name, "in"@);
    }
    if midi::ends_in_word(name, "output"@) {
        lemma_last_word(name, "output"@);
    }
    if midi::ends_in_word(name, "out"@) {
        lemma_last_word(name, "out"@);
    }
}

/// What is heard on an input is learned for its output: a volume by every
/// synth on that port and channel, a program or a bank by the channel itself.
/// What cannot be attributed changes nothing.
pub proof fn heard_messages_are_learned(
    port: Option<usize>,
    channel: u8,
    message: Message,
    synths_before: SynthState,
    synths_after: SynthState,
    midi_before: MidiState,
    midi_after: MidiState,
    event: InputEvent,
    id: u32,
    other_port: usize,
    other_channel: u8,
)
    requires
        midi::channel_message_handled(
            port,
            channel,
            message,
            synths_before,
            synths_after,
            midi_before,
            midi_after,
            event,
        ),
        synths_before.synths@.contains_key(id),
    ensures
        ({
            let before = synths_before.synths@[id];
            let after = synths_after.synths@[id];
            let learned = midi_after.program(other_port, other_channel);
            let known = midi_before.program(other_port, other_channel);
            &&& synths_after.synths@.contains_key(id)
            &&& after == (Synth { volume: after.volume, ..before })
            &&& match (port, message) {
                (None, _) => {
                    &&& after == before
                    &&& learned == known
                    &&& event == (InputEvent::Dropped { channel })
                },
                (Some(at), Message::Volume(value)) => value <= 127 ==> {
                    &&& learned == known
                    &&& event matches InputEvent::Volume(told)
                    &&& told.port == at
                    &&& told.channel == channel
                    &&& -127 < 2 * (127 * told.volume - 100 * value) < 127
                    &&& after.volume == (if before.midi_port == at && before.channel == channel {
                        told.volume
                    } else {
                        before.volume
                    })
                },
                (Some(at), _) => {
                    &&& after == before
                    &&& learned == (if other_port == at && other_channel == channel {
                        Some(midi::learned_sound(known, message))
                    } else {
                        known
                    })
                    &&& event == InputEvent::Program(
                        ProgramEvent {
                            port: at,
                            channel,
                            program: midi::learned_sound(midi_before.program(at, channel), message),
                        },
                    )
                },
            }
        }),
{
}

/// A learned sound is known of its channel from then on, and of no other;
/// channels are told apart by port and number.
pub proof fn sounds_are_known_of_their_channel(
    before: MidiState,
    after: MidiState,
    port: usize,
    channel: u8,
    sound: ProgramState,
    other_port: usize,
    other_channel: u8,
)
    requires
        after.learned(before, port, channel, sound),
    ensures
        after.program(other_port, other_channel) == (if other_port == port && other_channel
            == channel {
            Some(sound)
        } else {
            before.program(other_port, other_channel)
        }),
        midi::slot_number(port, channel) == midi::slot_number(other_port, other_channel) <==> (port
            == other_port && channel == other_channel),
{
}

/// The list of known programs has an entry for each channel of which a sound
/// is known, with that sound, and no channel twice.
pub proof fn known_programs_are_listed_once(
    list: Seq<KnownProgram>,
    state: MidiState,
    port: usize,
    channel: u8,
    i: int,
    j: int,
)
    requires
        midi::lists_every_program(list, state),
    ensures
        state.program(port, channel) is Some <==> exists|k: int|
            0 <= k < list.len() && (#[trigger] list[k]).port == port && list[k].channel == channel,
        0 <= i < list.len() ==> state.program(list[i].port, list[i].channel) == Some(
            list[i].program,
        ),
        0 <= i < j < list.len() ==> list[i].port != list[j].port || list[i].channel
            != list[j].channel,
{
}

/// The entries of a list of ports are its ports, one for one.
pub proof fn entries_are_the_ports(
    outputs: Seq<MidiPortInfo>,
    inputs: Seq<MidiInputPortInfo>,
    i: int,
)
    ensures
        midi::port_entries(outputs).len() == outputs.len(),
        midi::input_entries(inputs).len() == inputs.len(),
        0 <= i < outputs.len() ==> midi::port_entries(outputs)[i] == (
            outputs[i].index,
            outputs[i].name@,
            outputs[i].is_virtual,
        ),
        0 <= i < inputs.len() ==> midi::input_entries(inputs)[i] == (
            inputs[i].name@,
            inputs[i].is_virtual,
        ),
{
}

proof fn lemma_more_inputs(names: Seq<String>, more: Seq<String>, count: int, virtual_ports: bool)
    requires
        0 <= count <= more.len(),
    ensures
        midi::physical_inputs(names + more, names.len() + count, virtual_ports)
            == midi::physical_inputs(names, names.len() as int, virtual_ports)
            + midi::physical_inputs(more, count, virtual_ports),
    decreases count,
{
    let first = midi::physical_inputs(names, names.len() as int, virtual_ports);
    if count == 0 {
        lemma_same_inputs(names, names + more, names.len() as int, virtual_ports);
        assert(first + Seq::<midi::InputEntry>::empty() =~= first);
    } else {
        lemma_more_inputs(names, more, count - 1, virtual_ports);
        assert((names + more)[names.len() + count - 1] == more[count - 1]);
        assert(midi::physical_inputs(names + more, names.len() + count, virtual_ports) =~= first
            + midi::physical_inputs(more, count, virtual_ports));
    }
}

proof fn lemma_same_inputs(a: Seq<String>, b: Seq<String>, count: int, virtual_ports: bool)
    requires
        0 <= count <= a.len() <= b.len(),
        forall|i: int| 0 <= i < a.len() ==> a[i] == b[i],
    ensures
        midi::physical_inputs(a, count, virtual_ports) == midi::physical_inputs(
            b,
            count,
            virtual_ports,
        ),
    decreases count,
{
    if count > 0 {
        lemma_same_inputs(a, b, count - 1, virtual_ports);
    }
}

/// Inputs are listed in the order in which the system tells them.
pub proof fn inputs_are_listed_in_their_order(names: Seq<String>, more: Seq<String>)
    ensures
        midi::input_list(names + more, false) == midi::input_list(names, false) + midi::input_list(
            more,
            false,
        ),
{
    lemma_more_inputs(names, more, more.len() as int, false);
    assert(midi::input_list(names + more, false) =~= midi::input_list(names, false)
        + midi::input_list(more, false));
}

} // verus!
