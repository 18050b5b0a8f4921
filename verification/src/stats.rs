//! Aggregate figures over a set of nodes, and which flattened document
//! keys count as index tags rather than plain fields.

use vstd::prelude::*;

verus! {

/// Totals over one pass of the node population.
#[derive(Debug, Clone)]
pub struct Stats {
    pub clients: i64,
    pub total_rx_bytes: i64,
    pub total_tx_bytes: i64,
    pub total_rx_packets: i64,
    pub total_tx_packets: i64,
    pub total_forwarded: i64,
    pub rx_tx_delta: i64,
    pub nodes_online: i64,
    pub nodes_uplink: i64,
    pub nodes: i64,
}

impl Stats {
    /// Every figure at zero.
    pub open spec fn spec_zero(self) -> bool {
        &&& self.clients == 0
        &&& self.total_rx_bytes == 0
        &&& self.total_tx_bytes == 0
        &&& self.total_rx_packets == 0
        &&& self.total_tx_packets == 0
        &&& self.total_forwarded == 0
        &&& self.rx_tx_delta == 0
        &&& self.nodes_online == 0
        &&& self.nodes_uplink == 0
        &&& self.nodes == 0
    }

    /// Totals with nothing counted yet.
    pub fn new_empty() -> (r: Self)
        ensures
            r.spec_zero(),
    {
        Self::default()
    }
}

impl Default for Stats {
    /// Totals with nothing counted yet.
    fn default() -> (r: Self)
        ensures
            r.spec_zero(),
    {
        Stats {
            clients: 0,
            total_rx_bytes: 0,
            total_tx_bytes: 0,
            total_rx_packets: 0,
            total_tx_packets: 0,
            total_forwarded: 0,
            rx_tx_delta: 0,
            nodes_online: 0,
            nodes_uplink: 0,
            nodes: 0,
        }
    }
}

/// Whether a flattened document key is written as an index tag.
pub open spec fn spec_is_tag(k: Seq<char>) -> bool {
    ||| k == "nodeinfo.software.firmware.base"@
    ||| k == "nodeinfo.software.fastd.version"@
    ||| k == "nodeinfo.software.autoupdater.enabled"@
    ||| k == "nodeinfo.software.autoupdater.branch"@
    ||| k == "nodeinfo.node_id"@
    ||| k == "nodeinfo.hardware.model"@
    ||| k == "flags.uplink"@
    ||| k == "flags.online"@
}

/// Whether a flattened document key is written as an index tag.
pub fn is_tag(key: &String) -> (r: bool)
    ensures
        r == spec_is_tag(key@),
{
    let owned = key.clone();
    owned == "nodeinfo.software.firmware.base".to_owned() || owned
        == "nodeinfo.software.fastd.version".to_owned() || owned
        == "nodeinfo.software.autoupdater.enabled".to_owned() || owned
        == "nodeinfo.software.autoupdater.branch".to_owned() || owned
        == "nodeinfo.node_id".to_owned() || owned == "nodeinfo.hardware.model".to_owned() || owned
        == "flags.uplink".to_owned() || owned == "flags.online".to_owned()
}

} // verus!
