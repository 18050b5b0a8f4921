//! The typed configuration the engine consumes.
//!
//! Loading and validating a configuration file belongs to the shell around
//! the library; the engine only reads the resulting values, which are
//! constructed once at startup and passed into every component.

use vstd::prelude::*;

verus! {

/// One hook definition: an executable, and the variables handed to it,
/// each drawn from the event payload by a field-path query.
#[derive(Debug)]
pub struct Event {
    pub exec_path: String,
    /// Ordered mapping from environment-variable name to query string.
    pub vars: Vec<(String, String)>,
}

/// Mathematical model of a hook definition.
pub ghost struct HookData {
    pub exec_path: Seq<char>,
    pub vars: Seq<(Seq<char>, Seq<char>)>,
}

impl View for Event {
    type V = HookData;

    open spec fn view(&self) -> HookData {
        HookData {
            exec_path: self.exec_path@,
            vars: self.vars@.map_values(|p: (String, String)| (p.0@, p.1@)),
        }
    }
}

impl Clone for Event {
    /// A clone carries the same model.
    fn clone(&self) -> (res: Self)
        ensures
            res@ == self@,
    {
        let mut vars: Vec<(String, String)> = Vec::new();
        let mut i: usize = 0;
        while i < self.vars.len()
            invariant
                i <= self.vars.len(),
                vars@.len() == i,
                forall|j: int| 0 <= j < i ==> (#[trigger] vars@[j]).0@ == self.vars@[j].0@
                    && vars@[j].1@ == self.vars@[j].1@,
            decreases self.vars.len() - i,
        {
            vars.push((self.vars[i].0.clone(), self.vars[i].1.clone()));
            i = i + 1;
        }
        let res = Event { exec_path: self.exec_path.clone(), vars };
        proof {
            assert(res@.vars =~= self@.vars);
        }
        res
    }
}

/// The hook definitions, one list per event kind.
#[derive(Debug)]
pub struct Events {
    pub new_node: Vec<Event>,
    pub node_offline: Vec<Event>,
    pub online_after_offline: Vec<Event>,
    pub node_update: Vec<Event>,
    pub remove_node: Vec<Event>,
}

/// The views of a list of hook definitions.
pub open spec fn hooks_view(v: Seq<Event>) -> Seq<HookData> {
    v.map_values(|e: Event| e@)
}

/// Mathematical model of the per-kind hook configuration.
pub ghost struct EventsData {
    pub new_node: Seq<HookData>,
    pub node_offline: Seq<HookData>,
    pub online_after_offline: Seq<HookData>,
    pub node_update: Seq<HookData>,
    pub remove_node: Seq<HookData>,
}

impl View for Events {
    type V = EventsData;

    open spec fn view(&self) -> EventsData {
        EventsData {
            new_node: hooks_view(self.new_node@),
            node_offline: hooks_view(self.node_offline@),
            online_after_offline: hooks_view(self.online_after_offline@),
            node_update: hooks_view(self.node_update@),
            remove_node: hooks_view(self.remove_node@),
        }
    }
}

/// Settings of the telemetry requester and its receive path.
#[derive(Debug)]
pub struct Requestd {
    pub interface: String,
    /// Seconds between two bulk multicast requests.
    pub interval: u64,
    pub multicast_address: String,
    pub categories: Vec<String>,
    pub clean_interval: u64,
    pub retention: u64,
}

/// Time thresholds of the liveness sweep, in seconds of silence.
#[derive(Debug)]
pub struct Database {
    /// Silence before a node counts as offline.
    pub offline_after: u64,
    /// Silence before a node is purged; greater than `offline_after`.
    pub remove_after: u64,
    /// Seconds between two sweeps.
    pub evaluate_every: u64,
}

/// Address of the read-only web endpoint, when one is served.
#[derive(Debug)]
pub struct WebEndpoint {
    pub listen: String,
}

/// Connection of the message-bus bridge, when one runs.
#[derive(Debug)]
pub struct MqttEndpoint {
    pub broker: String,
    pub topic: String,
}

/// Bind address of the publish socket, when one runs.
#[derive(Debug)]
pub struct ZmqEndpoint {
    pub bind_to: String,
}

/// Everything the engine is configured with, built once at startup.
#[derive(Debug)]
pub struct Config {
    pub requestd: Requestd,
    pub database: Database,
    pub events: Events,
    /// Size of the hook worker pool.
    pub concurrent_hooks: usize,
    pub web: Option<WebEndpoint>,
    pub mqtt: Option<MqttEndpoint>,
    pub zmq: Option<ZmqEndpoint>,
}

impl Default for Requestd {
    /// The stock settings: poll every minute on the mesh interface.
    fn default() -> (r: Self)
        ensures
            r.interface@ == "bat0"@,
            r.interval == 60,
            r.multicast_address@ == "ff05::2:1001"@,
            r.categories@.len() == 3,
            r.categories@[0]@ == "nodeinfo"@,
            r.categories@[1]@ == "statistics"@,
            r.categories@[2]@ == "neighbours"@,
            r.clean_interval == 10,
            r.retention == 10,
    {
        Requestd {
            interface: "bat0".to_owned(),
            interval: 60,
            multicast_address: "ff05::2:1001".to_owned(),
            categories: vec![
                "nodeinfo".to_owned(),
                "statistics".to_owned(),
                "neighbours".to_owned(),
            ],
            clean_interval: 10,
            retention: 10,
        }
    }
}

impl Default for Database {
    /// The stock thresholds: offline after two minutes, purged after a day.
    fn default() -> (r: Self)
        ensures
            r.offline_after == 120,
            r.remove_after == 86400,
            r.evaluate_every == 10,
    {
        Database { offline_after: 120, remove_after: 86400, evaluate_every: 10 }
    }
}

impl Default for Events {
    /// No hooks are configured out of the box.
    fn default() -> (r: Self)
        ensures
            r.new_node@.len() == 0,
            r.node_offline@.len() == 0,
            r.online_after_offline@.len() == 0,
            r.node_update@.len() == 0,
            r.remove_node@.len() == 0,
    {
        Events {
            new_node: Vec::new(),
            node_offline: Vec::new(),
            online_after_offline: Vec::new(),
            node_update: Vec::new(),
            remove_node: Vec::new(),
        }
    }
}

impl Default for WebEndpoint {
    /// Listen on every address, on the stock port.
    fn default() -> (r: Self)
        ensures
            r.listen@ == "[::]:21001"@,
    {
        WebEndpoint { listen: "[::]:21001".to_owned() }
    }
}

impl Default for MqttEndpoint {
    /// A broker on this host, and the stock topic.
    fn default() -> (r: Self)
        ensures
            r.broker@ == "localhost:1883"@,
            r.topic@ == "requestd/responses"@,
    {
        MqttEndpoint { broker: "localhost:1883".to_owned(), topic: "requestd/responses".to_owned() }
    }
}

impl Default for ZmqEndpoint {
    /// Publish on the stock port.
    fn default() -> (r: Self)
        ensures
            r.bind_to@ == "tcp://*:21002"@,
    {
        ZmqEndpoint { bind_to: "tcp://*:21002".to_owned() }
    }
}

impl Default for Config {
    /// Stock settings throughout, a web endpoint, and no bridges.
    fn default() -> (r: Self)
        ensures
            r.concurrent_hooks == 4,
            r.web is Some,
            r.mqtt is None,
            r.zmq is None,
    {
        Config {
            requestd: Requestd::default(),
            database: Database::default(),
            events: Events::default(),
            concurrent_hooks: 4,
            web: Some(WebEndpoint::default()),
            mqtt: None,
            zmq: None,
        }
    }
}

} // verus!
