//! Liveness and event engine for a mesh-network telemetry collector.
//!
//! Nodes on a mesh segment answer multicast `GET` requests with
//! DEFLATE-compressed JSON. This library holds the verified core of the
//! collector around that protocol: the node store with its upsert and
//! time-threshold state machine, the bounded event log, the hook dispatch
//! queue, and the codecs at the wire. Sockets, processes and timers live
//! outside, in a thin shell that hands the library plain values.

use vstd::prelude::*;

mod clock;
pub mod collector;
pub mod config;
pub mod hooks;
pub mod json;
pub mod models;
pub mod multicast;
pub mod stats;

pub use json::JsonValue;

verus! {

/// Opaque identifier of a node, its unique key in the store.
pub type NodeId = String;

/// A UTC instant, in whole seconds since the epoch.
pub type Timestamp = i64;

/// How many events a history read hands out by default.
pub const DEFAULT_EVENT_HISTORY_LIMIT: usize = 50;

/// A decoded telemetry record, after node identity was extracted:
/// what the ingestion path feeds the store.
#[derive(Debug)]
pub struct NodeResponse {
    pub nodeid: NodeId,
    pub remote: String,
    pub timestamp: Timestamp,
    pub data: JsonValue,
}

/// Mathematical model of a telemetry record.
pub ghost struct NodeResponseModel {
    pub nodeid: Seq<char>,
    pub remote: Seq<char>,
    pub timestamp: int,
    pub data: json::JsonData,
}

impl View for NodeResponse {
    type V = NodeResponseModel;

    open spec fn view(&self) -> NodeResponseModel {
        NodeResponseModel {
            nodeid: self.nodeid@,
            remote: self.remote@,
            timestamp: self.timestamp as int,
            data: self.data@,
        }
    }
}

impl NodeResponse {
    /// How old the record is at the given instant, in seconds.
    pub fn age(&self, now: Timestamp) -> (r: i128)
        ensures
            r == now - self@.timestamp,
    {
        (now as i128) - (self.timestamp as i128)
    }
}

} // verus!
