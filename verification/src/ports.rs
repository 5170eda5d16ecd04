//! The ports of an audio device among those that the sound server has.

use vstd::prelude::*;

use crate::devices::DeviceType;
use crate::text::chars_of;
use crate::text::read_small_number;
use crate::text::same_text;
use crate::text;

verus! {

/// Whether a node takes sound or gives it.
#[derive(Clone, Copy, Debug, PartialEq, Eq, Structural)]
pub enum PipeWireNodeType {
    Sink,
    Source,
}

/// Whether a port takes sound or gives it.
#[derive(Clone, Copy, Debug, PartialEq, Eq, Structural)]
pub enum PipeWirePortType {
    Input,
    Output,
}

/// A port of a node.
#[derive(Debug)]
pub struct Port {
    pub id: u32,
    pub name: String,
    pub port_type: PipeWirePortType,
}

/// A node of the sound server.
#[derive(Debug)]
pub struct Node {
    /// Whether the node is a part that was split off another.
    pub is_split_child: bool,
    pub node_type: PipeWireNodeType,
    /// The channels by name, each with the identifier of its port. No two have the same name.
    pub channels: Vec<(String, u32)>,
    pub ports: Vec<Port>,
}

/// The ports that are of use.
#[derive(Clone, Copy, Debug, PartialEq, Eq, Structural)]
pub struct FoundPorts {
    /// What the microphone gives after the expander.
    pub spectrum: Option<u32>,
    /// What the microphone gives before any effect.
    pub dry_mix: Option<u32>,
    /// What is played back to the user.
    pub loopback: Option<u32>,
}

/// How many channels the microphone of a device has.
pub open spec fn source_channels(device_type: DeviceType) -> nat {
    match device_type {
        DeviceType::BeacnMic => 4,
        _ => 12,
    }
}

/// How many channels the output of a device has.
pub open spec fn sink_channels(device_type: DeviceType) -> nat {
    match device_type {
        DeviceType::BeacnMic => 3,
        _ => 11,
    }
}

/// Whether a device has a microphone.
pub open spec fn has_microphone(device_type: DeviceType) -> bool {
    device_type == DeviceType::BeacnMic || device_type == DeviceType::BeacnStudio
}

/// The identifier of the last input port before the place `upto` with the name `AUX2`.
pub open spec fn loopback_port(ports: Seq<Port>, upto: int) -> Option<u32>
    decreases upto,
{
    if upto <= 0 {
        None
    } else if ports[upto - 1].name@ == "AUX2"@ && ports[upto - 1].port_type
        == PipeWirePortType::Input {
        Some(ports[upto - 1].id)
    } else {
        loopback_port(ports, upto - 1)
    }
}

/// The identifier of the first channel from the place `from` on with the name `name`.
pub open spec fn channel_port(channels: Seq<(String, u32)>, name: Seq<char>, from: int) -> Option<
    u32,
>
    decreases channels.len() - from,
{
    if from < 0 || from >= channels.len() {
        None
    } else if channels[from].0@ == name {
        Some(channels[from].1)
    } else {
        channel_port(channels, name, from + 1)
    }
}

/// `later` if it is there, `earlier` if not.
pub open spec fn or_earlier(later: Option<u32>, earlier: Option<u32>) -> Option<u32> {
    if later is Some {
        later
    } else {
        earlier
    }
}

/// What a node adds to the ports that were found before.
pub open spec fn ports_with(found: FoundPorts, node: Node, device_type: DeviceType) -> FoundPorts {
    if node.is_split_child {
        found
    } else if node.node_type == PipeWireNodeType::Sink {
        if node.channels@.len() == sink_channels(device_type) {
            FoundPorts {
                loopback: or_earlier(
                    loopback_port(node.ports@, node.ports@.len() as int),
                    found.loopback,
                ),
                ..found
            }
        } else {
            found
        }
    } else if node.channels@.len() == source_channels(device_type) {
        FoundPorts {
            dry_mix: or_earlier(channel_port(node.channels@, "AUX2"@, 0), found.dry_mix),
            spectrum: or_earlier(channel_port(node.channels@, "AUX3"@, 0), found.spectrum),
            ..found
        }
    } else {
        found
    }
}

/// The ports that the nodes before the place `upto` have. Of several that would do, the last is
/// taken.
pub open spec fn ports_before(nodes: Seq<Node>, device_type: DeviceType, upto: int) -> FoundPorts
    decreases upto,
{
    if upto <= 0 {
        FoundPorts { spectrum: None, dry_mix: None, loopback: None }
    } else {
        ports_with(ports_before(nodes, device_type, upto - 1), nodes[upto - 1], device_type)
    }
}

fn find_loopback(ports: &[Port]) -> (r: Option<u32>)
    ensures
        r == loopback_port(ports@, ports@.len() as int),
{
    let mut r: Option<u32> = None;
    let mut i: usize = 0;
    while i < ports.len()
        invariant
            i <= ports@.len(),
            r == loopback_port(ports@, i as int),
        decreases ports@.len() - i,
    {
        if same_text(ports[i].name.as_str(), "AUX2") && ports[i].port_type
            == PipeWirePortType::Input {
            r = Some(ports[i].id);
        }
        i = i + 1;
    }
    r
}

fn find_channel(channels: &[(String, u32)], name: &str) -> (r: Option<u32>)
    ensures
        r == channel_port(channels@, name@, 0),
{
    let mut i: usize = 0;
    while i < channels.len()
        invariant
            i <= channels@.len(),
            channel_port(channels@, name@, 0) == channel_port(channels@, name@, i as int),
        decreases channels@.len() - i,
    {
        if same_text(channels[i].0.as_str(), name) {
            return Some(channels[i].1);
        }
        i = i + 1;
    }
    None
}

/// The ports of a device with a microphone among those of `nodes`.
pub fn find_ports(nodes: &[Node], device_type: DeviceType) -> (r: FoundPorts)
    requires
        has_microphone(device_type),
    ensures
        r == ports_before(nodes@, device_type, nodes@.len() as int),
{
    let (sources, sinks): (usize, usize) = match device_type {
        DeviceType::BeacnMic => (4, 3),
        _ => (12, 11),
    };
    let mut found = FoundPorts { spectrum: None, dry_mix: None, loopback: None };
    let mut i: usize = 0;
    while i < nodes.len()
        invariant
            i <= nodes@.len(),
            sources == source_channels(device_type),
            sinks == sink_channels(device_type),
            found == ports_before(nodes@, device_type, i as int),
        decreases nodes@.len() - i,
    {
        let node = &nodes[i];
        if !node.is_split_child {
            if node.node_type == PipeWireNodeType::Sink {
                if node.channels.len() == sinks {
                    if let Some(port) = find_loopback(node.ports.as_slice()) {
                        found.loopback = Some(port);
                    }
                }
            } else if node.channels.len() == sources {
                if let Some(port) = find_channel(node.channels.as_slice(), "AUX2") {
                    found.dry_mix = Some(port);
                }
                if let Some(port) = find_channel(node.channels.as_slice(), "AUX3") {
                    found.spectrum = Some(port);
                }
            }
        }
        i = i + 1;
    }
    found
}

/// The number of the bus that `bus_id` names, or zero if it names none.
pub fn bus_address(bus_id: &str) -> (r: u8)
    ensures
        r == (match text::small_number(bus_id@) {
            Some(bus) => bus,
            None => 0,
        }),
{
    match read_small_number(chars_of(bus_id).as_slice()) {
        Some(bus) => bus,
        None => 0,
    }
}

/// A port that was found is one of a node that was not split off another.
pub proof fn found_ports_are_there(nodes: Seq<Node>, device_type: DeviceType, upto: int)
    requires
        0 <= upto <= nodes.len(),
    ensures
        ports_before(nodes, device_type, upto).loopback matches Some(id) ==> exists|i: int|
            0 <= i < upto && !(#[trigger] nodes[i]).is_split_child && nodes[i].node_type
                == PipeWireNodeType::Sink && loopback_port(
                nodes[i].ports@,
                nodes[i].ports@.len() as int,
            ) == Some(id),
        ports_before(nodes, device_type, upto).spectrum matches Some(id) ==> exists|i: int|
            0 <= i < upto && !(#[trigger] nodes[i]).is_split_child && nodes[i].node_type
                == PipeWireNodeType::Source && channel_port(nodes[i].channels@, "AUX3"@, 0) == Some(
                id,
            ),
    decreases upto,
{
    if upto > 0 {
        found_ports_are_there(nodes, device_type, upto - 1);
        let node = nodes[upto - 1];
        let before = ports_before(nodes, device_type, upto - 1);
        let found = ports_before(nodes, device_type, upto);
        if found.loopback is Some && found.loopback == before.loopback {
            let i = choose|i: int|
                0 <= i < upto - 1 && !(#[trigger] nodes[i]).is_split_child && nodes[i].node_type
                    == PipeWireNodeType::Sink && loopback_port(
                    nodes[i].ports@,
                    nodes[i].ports@.len() as int,
                ) == found.loopback;
            assert(!nodes[i].is_split_child);
        }
        if found.spectrum is Some && found.spectrum == before.spectrum {
            let i = choose|i: int|
                0 <= i < upto - 1 && !(#[trigger] nodes[i]).is_split_child && nodes[i].node_type
                    == PipeWireNodeType::Source && channel_port(nodes[i].channels@, "AUX3"@, 0)
                    == found.spectrum;
            assert(!nodes[i].is_split_child);
        }
    }
}

} // verus!
