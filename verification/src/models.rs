//! The typed shape of a respondd document, for consumers that want the
//! telemetry fields by name rather than as a raw tree.

use vstd::prelude::*;

verus! {

/// The self-updater's state.
#[derive(Debug, Clone, PartialEq)]
pub struct Autoupdater {
    pub branch: String,
    pub enabled: bool,
}

/// The mesh routing daemon's version and compatibility level.
#[derive(Debug, Clone, PartialEq)]
pub struct BatmanAdv {
    pub version: String,
    pub compat: i64,
}

/// The tunnelling daemon's state.
#[derive(Debug, Clone, PartialEq)]
pub struct Fastd {
    pub version: String,
    pub enabled: bool,
}

/// The firmware a node runs.
#[derive(Debug, Clone, PartialEq)]
pub struct Firmware {
    pub base: String,
    pub release: String,
}

/// The node's own status page, when it serves one.
#[derive(Debug, Clone, PartialEq)]
pub struct StatusPage {
    pub api: i64,
}

/// The software a node reports.
#[derive(Debug, Clone, PartialEq)]
pub struct Software {
    pub autoupdater: Autoupdater,
    pub batman_adv: BatmanAdv,
    pub fastd: Fastd,
    pub firmware: Firmware,
    pub status_page: Option<StatusPage>,
}

/// The interfaces a node meshes on, by kind.
#[derive(Debug, Clone, PartialEq)]
pub struct Interfaces {
    pub wireless: Vec<String>,
    pub tunnel: Vec<String>,
    pub other: Vec<String>,
}

/// The primary mesh bridge.
#[derive(Debug, Clone, PartialEq)]
pub struct Bat0 {
    pub interfaces: Interfaces,
}

/// How a node hangs in the mesh.
#[derive(Debug, Clone, PartialEq)]
pub struct Mesh {
    pub bat0: Bat0,
}

/// Who runs the node.
#[derive(Debug, Clone, PartialEq)]
pub struct Owner {
    pub contact: String,
}

/// Which site and domain a node belongs to.
#[derive(Debug, Clone, PartialEq)]
pub struct System {
    pub site_code: String,
    pub domain_code: Option<String>,
}

/// What hardware a node runs on.
#[derive(Debug, Clone, PartialEq)]
pub struct Hardware {
    pub model: Option<String>,
    pub nproc: i64,
}

/// Whether a node counts as online and as an uplink.
#[derive(Debug, Clone, PartialEq)]
pub struct Flags {
    pub online: bool,
    pub uplink: bool,
}

/// Client counts, by radio band and in total.
#[derive(Debug, Clone, PartialEq)]
pub struct Clients {
    pub owe: i64,
    pub owe24: i64,
    pub owe5: i64,
    pub total: i64,
    pub wifi: i64,
    pub wifi24: i64,
    pub wifi5: i64,
}

/// Client counts as an older statistics record reports them.
#[derive(Debug, Clone, PartialEq)]
pub struct ClientsDetailed {
    pub total: i64,
    pub wifi: i64,
    pub wifi24: i64,
    pub wifi5: i64,
}

/// A node's memory figures, in bytes.
#[derive(Debug, Clone, PartialEq)]
pub struct Memory {
    pub available: i64,
    pub buffers: i64,
    pub cached: i64,
    pub free: i64,
    pub total: i64,
}

/// Process counts on the node.
#[derive(Debug, Clone, PartialEq)]
pub struct Processes {
    pub running: i64,
    pub total: i64,
}

/// Time spent per processor state.
#[derive(Debug, Clone, PartialEq)]
pub struct Cpu {
    pub idle: i64,
    pub iowait: i64,
    pub irq: i64,
    pub nice: i64,
    pub softirq: i64,
    pub system: i64,
    pub user: i64,
}

/// Kernel counters of the node.
#[derive(Debug, Clone, PartialEq)]
pub struct Stat {
    pub cpu: Cpu,
    pub ctxt: i64,
    pub intr: i64,
    pub processes: i64,
    pub softirq: i64,
}

/// One direction's byte and packet counters.
#[derive(Debug, Clone, PartialEq)]
pub struct Forward {
    pub bytes: i64,
    pub packets: i64,
}

/// Transmit counters, with drops.
#[derive(Debug, Clone, PartialEq)]
pub struct Tx {
    pub bytes: i64,
    pub dropped: i64,
    pub packets: i64,
}

/// One direction's counters, with drops where the firmware reports them.
#[derive(Debug, Clone, Copy, PartialEq)]
pub struct TrafficIO {
    pub bytes: i64,
    pub packets: i64,
    pub dropped: Option<i64>,
}

/// A node's traffic counters, by direction.
#[derive(Debug, Clone, Copy, PartialEq)]
pub struct Traffic {
    pub forward: TrafficIO,
    pub mgmt_rx: TrafficIO,
    pub mgmt_tx: TrafficIO,
    pub rx: TrafficIO,
    pub tx: TrafficIO,
}

/// The wireless neighbour table; its fields vary by firmware and are
/// consumed from the raw tree instead.
#[derive(Debug, Clone, PartialEq)]
pub struct Wifi {}

/// The counted part of an option, zero when absent.
pub open spec fn spec_opt_i64(v: Option<i64>) -> int {
    match v {
        Some(n) => n as int,
        None => 0,
    }
}

impl Default for TrafficIO {
    /// Counters with nothing counted, drops included.
    fn default() -> (r: Self)
        ensures
            r.bytes == 0,
            r.packets == 0,
            r.dropped == Some(0i64),
    {
        TrafficIO { bytes: 0, packets: 0, dropped: Some(0) }
    }
}

impl TrafficIO {
    /// The sum of two counters, fieldwise; absent drop counts read as
    /// zero.
    pub fn add(self, other: Self) -> (r: Self)
        requires
            i64::MIN <= self.bytes + other.bytes <= i64::MAX,
            i64::MIN <= self.packets + other.packets <= i64::MAX,
            i64::MIN <= spec_opt_i64(self.dropped) + spec_opt_i64(other.dropped) <= i64::MAX,
        ensures
            r.bytes == self.bytes + other.bytes,
            r.packets == self.packets + other.packets,
            r.dropped == Some(
                (spec_opt_i64(self.dropped) + spec_opt_i64(other.dropped)) as i64,
            ),
    {
        TrafficIO {
            bytes: self.bytes + other.bytes,
            packets: self.packets + other.packets,
            dropped: Some(opt_or_zero(self.dropped) + opt_or_zero(other.dropped)),
        }
    }

    /// Adds another counter into this one, fieldwise.
    pub fn add_assign(&mut self, other: Self)
        requires
            i64::MIN <= old(self).bytes + other.bytes <= i64::MAX,
            i64::MIN <= old(self).packets + other.packets <= i64::MAX,
            i64::MIN <= spec_opt_i64(old(self).dropped) + spec_opt_i64(other.dropped) <= i64::MAX,
        ensures
            final(self).bytes == old(self).bytes + other.bytes,
            final(self).packets == old(self).packets + other.packets,
            final(self).dropped == Some(
                (spec_opt_i64(old(self).dropped) + spec_opt_i64(other.dropped)) as i64,
            ),
    {
        let a = *self;
        *self = a.add(other);
    }
}

/// The count inside an option, zero when absent.
fn opt_or_zero(v: Option<i64>) -> (r: i64)
    ensures
        r == spec_opt_i64(v),
{
    match v {
        Some(n) => n,
        None => 0,
    }
}

/// Whether two traffic tables can be summed without overflow.
pub open spec fn spec_traffic_fits(a: Traffic, b: Traffic) -> bool {
    &&& i64::MIN <= a.forward.bytes + b.forward.bytes <= i64::MAX
    &&& i64::MIN <= a.forward.packets + b.forward.packets <= i64::MAX
    &&& i64::MIN <= spec_opt_i64(a.forward.dropped) + spec_opt_i64(b.forward.dropped) <= i64::MAX
    &&& i64::MIN <= a.mgmt_rx.bytes + b.mgmt_rx.bytes <= i64::MAX
    &&& i64::MIN <= a.mgmt_rx.packets + b.mgmt_rx.packets <= i64::MAX
    &&& i64::MIN <= spec_opt_i64(a.mgmt_rx.dropped) + spec_opt_i64(b.mgmt_rx.dropped) <= i64::MAX
    &&& i64::MIN <= a.mgmt_tx.bytes + b.mgmt_tx.bytes <= i64::MAX
    &&& i64::MIN <= a.mgmt_tx.packets + b.mgmt_tx.packets <= i64::MAX
    &&& i64::MIN <= spec_opt_i64(a.mgmt_tx.dropped) + spec_opt_i64(b.mgmt_tx.dropped) <= i64::MAX
    &&& i64::MIN <= a.rx.bytes + b.rx.bytes <= i64::MAX
    &&& i64::MIN <= a.rx.packets + b.rx.packets <= i64::MAX
    &&& i64::MIN <= spec_opt_i64(a.rx.dropped) + spec_opt_i64(b.rx.dropped) <= i64::MAX
    &&& i64::MIN <= a.tx.bytes + b.tx.bytes <= i64::MAX
    &&& i64::MIN <= a.tx.packets + b.tx.packets <= i64::MAX
    &&& i64::MIN <= spec_opt_i64(a.tx.dropped) + spec_opt_i64(b.tx.dropped) <= i64::MAX
}

impl Traffic {
    /// The sum of two traffic tables, direction by direction.
    pub fn add(self, other: Self) -> (r: Self)
        requires
            spec_traffic_fits(self, other),
        ensures
            r.forward.bytes == self.forward.bytes + other.forward.bytes,
            r.mgmt_rx.bytes == self.mgmt_rx.bytes + other.mgmt_rx.bytes,
            r.mgmt_tx.bytes == self.mgmt_tx.bytes + other.mgmt_tx.bytes,
            r.rx.bytes == self.rx.bytes + other.rx.bytes,
            r.tx.bytes == self.tx.bytes + other.tx.bytes,
            r.forward.packets == self.forward.packets + other.forward.packets,
            r.mgmt_rx.packets == self.mgmt_rx.packets + other.mgmt_rx.packets,
            r.mgmt_tx.packets == self.mgmt_tx.packets + other.mgmt_tx.packets,
            r.rx.packets == self.rx.packets + other.rx.packets,
            r.tx.packets == self.tx.packets + other.tx.packets,
    {
        Traffic {
            forward: self.forward.add(other.forward),
            mgmt_rx: self.mgmt_rx.add(other.mgmt_rx),
            mgmt_tx: self.mgmt_tx.add(other.mgmt_tx),
            rx: self.rx.add(other.rx),
            tx: self.tx.add(other.tx),
        }
    }

    /// Adds another traffic table into this one, direction by direction.
    pub fn add_assign(&mut self, other: Self)
        requires
            spec_traffic_fits(*old(self), other),
        ensures
            final(self).forward.bytes == old(self).forward.bytes + other.forward.bytes,
            final(self).rx.bytes == old(self).rx.bytes + other.rx.bytes,
            final(self).tx.bytes == old(self).tx.bytes + other.tx.bytes,
    {
        let a = *self;
        *self = a.add(other);
    }
}

} // verus!
