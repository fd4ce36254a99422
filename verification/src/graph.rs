//! Choosing among the nodes of the PipeWire graph: the hardware output that
//! master audio falls back to.

use vstd::prelude::*;
use crate::text::{contains_seq, starts_with_spec, str_contains, str_starts_with};

verus! {

/// What the choice of an output reads of a graph node.
#[derive(Debug, Clone)]
pub struct GraphNode {
    /// The node's id.
    pub id: u32,
    /// The node's `node.name`.
    pub name: String,
    /// Whether the node's media class is `Audio/Sink`.
    pub is_audio_sink: bool,
}

/// A sink of this program's own is never chosen, nor an excluded one.
pub open spec fn eligible_sink(n: GraphNode, exclude_ids: Seq<u32>) -> bool {
    &&& n.is_audio_sink
    &&& !exclude_ids.contains(n.id)
    &&& !starts_with_spec(n.name@, "sootmix."@)
}

/// A sink whose name shows an ALSA, Bluetooth, PCI or USB device.
pub open spec fn hardware_sink(n: GraphNode, exclude_ids: Seq<u32>) -> bool {
    &&& eligible_sink(n, exclude_ids)
    &&& (starts_with_spec(n.name@, "alsa_output"@) || starts_with_spec(n.name@, "bluez_output"@)
        || contains_seq(n.name@, "pci-"@) || contains_seq(n.name@, "usb-"@))
}

/// A sink whose name does not look like a virtual or loopback sink.
pub open spec fn device_like_sink(n: GraphNode, exclude_ids: Seq<u32>) -> bool {
    &&& eligible_sink(n, exclude_ids)
    &&& !contains_seq(n.name@, "Virtual Sink"@)
    &&& !contains_seq(n.name@, "virtual"@)
    &&& !starts_with_spec(n.name@, "LB-"@)
}

/// `nodes[i]` is the first node that `p` accepts.
pub open spec fn first_accepted(nodes: Seq<GraphNode>, i: int, p: spec_fn(GraphNode) -> bool) -> bool {
    &&& 0 <= i < nodes.len()
    &&& p(nodes[i])
    &&& forall|k: int| 0 <= k < i ==> !p(#[trigger] nodes[k])
}

fn contains_id(ids: &[u32], id: u32) -> (r: bool)
    ensures
        r == ids@.contains(id),
{
    let mut i: usize = 0;
    while i < ids.len()
        invariant
            i <= ids.len(),
            forall|k: int| 0 <= k < i ==> ids@[k] != id,
        decreases ids.len() - i,
    {
        if ids[i] == id {
            proof {
                assert(ids@[i as int] == id);
            }
            return true;
        }
        i += 1;
    }
    false
}

fn is_eligible(n: &GraphNode, exclude_ids: &[u32]) -> (r: bool)
    ensures
        r == eligible_sink(*n, exclude_ids@),
{
    n.is_audio_sink && !contains_id(exclude_ids, n.id) && !str_starts_with(n.name.as_str(), "sootmix.")
}

fn is_hardware(n: &GraphNode, exclude_ids: &[u32]) -> (r: bool)
    ensures
        r == hardware_sink(*n, exclude_ids@),
{
    is_eligible(n, exclude_ids) && (str_starts_with(n.name.as_str(), "alsa_output")
        || str_starts_with(n.name.as_str(), "bluez_output") || str_contains(n.name.as_str(), "pci-")
        || str_contains(n.name.as_str(), "usb-"))
}

fn is_device_like(n: &GraphNode, exclude_ids: &[u32]) -> (r: bool)
    ensures
        r == device_like_sink(*n, exclude_ids@),
{
    is_eligible(n, exclude_ids) && !str_contains(n.name.as_str(), "Virtual Sink") && !str_contains(
        n.name.as_str(),
        "virtual",
    ) && !str_starts_with(n.name.as_str(), "LB-")
}

/// Finds the output that master audio falls back to: the first hardware
/// sink in the order given, or else the first device-like sink.
pub fn find_hardware_sink(nodes: &Vec<GraphNode>, exclude_ids: &[u32]) -> (r: Option<u32>)
    ensures
        ({
            let hw = |n: GraphNode| hardware_sink(n, exclude_ids@);
            let dev = |n: GraphNode| device_like_sink(n, exclude_ids@);
            &&& r is None <==> forall|k: int| 0 <= k < nodes@.len() ==> !hw(#[trigger] nodes@[k]) && !dev(nodes@[k])
            &&& (exists|k: int| 0 <= k < nodes@.len() && hw(#[trigger] nodes@[k])) ==> exists|i: int|
                first_accepted(nodes@, i, hw) && r == Some(nodes@[i].id)
            &&& (forall|k: int| 0 <= k < nodes@.len() ==> !hw(#[trigger] nodes@[k])) && r is Some ==> exists|i: int|
                first_accepted(nodes@, i, dev) && r == Some(nodes@[i].id)
        }),
{
    let ghost hw = |n: GraphNode| hardware_sink(n, exclude_ids@);
    let ghost dev = |n: GraphNode| device_like_sink(n, exclude_ids@);
    let mut i: usize = 0;
    while i < nodes.len()
        invariant
            i <= nodes.len(),
            hw == (|n: GraphNode| hardware_sink(n, exclude_ids@)),
            forall|k: int| 0 <= k < i ==> !hw(#[trigger] nodes@[k]),
        decreases nodes.len() - i,
    {
        if is_hardware(&nodes[i], exclude_ids) {
            proof {
                assert(first_accepted(nodes@, i as int, hw));
            }
            return Some(nodes[i].id);
        }
        i += 1;
    }
    let mut j: usize = 0;
    while j < nodes.len()
        invariant
            j <= nodes.len(),
            hw == (|n: GraphNode| hardware_sink(n, exclude_ids@)),
            dev == (|n: GraphNode| device_like_sink(n, exclude_ids@)),
            forall|k: int| 0 <= k < nodes@.len() ==> !hw(#[trigger] nodes@[k]),
            forall|k: int| 0 <= k < j ==> !dev(#[trigger] nodes@[k]),
        decreases nodes.len() - j,
    {
        if is_device_like(&nodes[j], exclude_ids) {
            proof {
                assert(first_accepted(nodes@, j as int, dev));
            }
            return Some(nodes[j].id);
        }
        j += 1;
    }
    None
}

} // verus!
