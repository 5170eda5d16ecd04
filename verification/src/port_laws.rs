//! What holds of the ports that are found for a device.

use vstd::prelude::*;

use crate::devices::DeviceType;
use crate::ports::FoundPorts;
use crate::ports::Node;
use crate::ports::PipeWireNodeType;
use crate::ports::PipeWirePortType;
use crate::ports::Port;
use crate::ports;
use crate::text;

verus! {

/// Whether a port is the one that is played back: an input with the name `AUX2`.
pub open spec fn is_playback(port: Port) -> bool {
    port.name@ == "AUX2"@ && port.port_type == PipeWirePortType::Input
}

/// Whether a node is the output of a device: a sink with the number of channels that the model has.
pub open spec fn is_output(node: Node, device_type: DeviceType) -> bool {
    &&& !node.is_split_child
    &&& node.node_type == PipeWireNodeType::Sink
    &&& device_type == DeviceType::BeacnMic ==> node.channels@.len() == 3
    &&& device_type == DeviceType::BeacnStudio ==> node.channels@.len() == 11
}

/// Whether a node is the microphone of a device: a source with the number of channels that the
/// model has.
pub open spec fn is_input(node: Node, device_type: DeviceType) -> bool {
    &&& !node.is_split_child
    &&& node.node_type == PipeWireNodeType::Source
    &&& device_type == DeviceType::BeacnMic ==> node.channels@.len() == 4
    &&& device_type == DeviceType::BeacnStudio ==> node.channels@.len() == 12
}

/// The port for playback is the last input with its name, and there is one just if there is such an
/// input.
pub proof fn playback_port_is_the_last(all: Seq<Port>, upto: int)
    requires
        0 <= upto <= all.len(),
    ensures
        match ports::loopback_port(all, upto) {
            Some(id) => exists|i: int|
                0 <= i < upto && is_playback(#[trigger] all[i]) && all[i].id == id && forall|k: int|
                    i < k < upto ==> !is_playback(#[trigger] all[k]),
            None => forall|k: int| 0 <= k < upto ==> !is_playback(#[trigger] all[k]),
        },
    decreases upto,
{
    if upto > 0 {
        if is_playback(all[upto - 1]) {
            assert(all[upto - 1].id == ports::loopback_port(all, upto)->0);
        } else {
            playback_port_is_the_last(all, upto - 1);
            if let Some(id) = ports::loopback_port(all, upto - 1) {
                let i = choose|i: int|
                    0 <= i < upto - 1 && is_playback(#[trigger] all[i]) && all[i].id == id
                        && forall|k: int| i < k < upto - 1 ==> !is_playback(#[trigger] all[k]);
                assert(is_playback(all[i]) && all[i].id == id);
            }
        }
    }
}

/// The port of a channel is that of the first with its name, and there is one just if there is such
/// a channel.
pub proof fn channel_port_has_the_name(all: Seq<(String, u32)>, name: Seq<char>, from: int)
    requires
        0 <= from,
    ensures
        match ports::channel_port(all, name, from) {
            Some(id) => exists|i: int|
                from <= i < all.len() && (#[trigger] all[i]).0@ == name && all[i].1 == id
                    && forall|k: int| from <= k < i ==> (#[trigger] all[k]).0@ != name,
            None => forall|k: int| from <= k < all.len() ==> (#[trigger] all[k]).0@ != name,
        },
    decreases all.len() - from,
{
    if from < all.len() {
        if all[from].0@ == name {
            assert(all[from].1 == ports::channel_port(all, name, from)->0);
        } else {
            channel_port_has_the_name(all, name, from + 1);
            if let Some(id) = ports::channel_port(all, name, from + 1) {
                let i = choose|i: int|
                    from + 1 <= i < all.len() && (#[trigger] all[i]).0@ == name && all[i].1 == id
                        && forall|k: int| from + 1 <= k < i ==> (#[trigger] all[k]).0@ != name;
                assert(all[i].0@ == name && all[i].1 == id);
            }
        }
    }
}

/// One more node changes the port for playback if it is the output of the device and has one, the
/// dry mix if it is the microphone and has the channel `AUX2`, and the spectrum if it is and has
/// the channel `AUX3`; everything else stays as it was found before.
pub proof fn last_node_counts(nodes: Seq<Node>, node: Node, device_type: DeviceType)
    requires
        device_type == DeviceType::BeacnMic || device_type == DeviceType::BeacnStudio,
    ensures
        ({
            let n = nodes.len() as int;
            let before = ports::ports_before(nodes, device_type, n);
            let after = ports::ports_before(nodes.push(node), device_type, n + 1);
            let playback = ports::loopback_port(node.ports@, node.ports@.len() as int);
            let dry = ports::channel_port(node.channels@, "AUX2"@, 0);
            let wet = ports::channel_port(node.channels@, "AUX3"@, 0);
            &&& after.loopback == (if is_output(node, device_type) && playback is Some {
                playback
            } else {
                before.loopback
            })
            &&& after.dry_mix == (if is_input(node, device_type) && dry is Some {
                dry
            } else {
                before.dry_mix
            })
            &&& after.spectrum == (if is_input(node, device_type) && wet is Some {
                wet
            } else {
                before.spectrum
            })
        }),
        ports::ports_before(nodes, device_type, 0) == (FoundPorts {
            spectrum: None,
            dry_mix: None,
            loopback: None,
        }),
{
    let n = nodes.len() as int;
    let all = nodes.push(node);
    assert(all[n] == node);
    same_before(nodes, all, device_type, n);
}

proof fn same_before(a: Seq<Node>, b: Seq<Node>, device_type: DeviceType, upto: int)
    requires
        upto <= a.len() <= b.len(),
        forall|i: int| 0 <= i < a.len() ==> #[trigger] a[i] == b[i],
    ensures
        ports::ports_before(a, device_type, upto) == ports::ports_before(b, device_type, upto),
    decreases upto,
{
    if upto > 0 {
        assert(a[upto - 1] == b[upto - 1]);
        same_before(a, b, device_type, upto - 1);
    }
}

/// The numerals of numbers up to 255 stand for these, and those of larger numbers for none.
pub proof fn small_numbers_are_read(n: nat)
    ensures
        n <= 255 ==> text::small_number(text::decimal(n)) == Some(n as u8),
        n > 255 ==> text::small_number(text::decimal(n)) is None,
{
    crate::number::decimal_stands_for(n);
    assert(text::is_digit(text::decimal(n)[0]));
}

} // verus!
