use requestd::collector::nodedb::{NodeDb, NodeStatus};
use requestd::collector::{Collector, EventEvent};
use requestd::config::{Config, Database, Events, Requestd};
use requestd::{JsonValue, NodeResponse};

fn test_config(offline_after: u64, remove_after: u64, interval: u64) -> Config {
    Config {
        requestd: Requestd {
            interface: "bat0".to_string(),
            interval,
            multicast_address: "ff05::2:1001".to_string(),
            categories: vec!["nodeinfo".to_string()],
            clean_interval: 10,
            retention: 10,
        },
        database: Database { offline_after, remove_after, evaluate_every: 10 },
        events: Events {
            new_node: Vec::new(),
            node_offline: Vec::new(),
            online_after_offline: Vec::new(),
            node_update: Vec::new(),
            remove_node: Vec::new(),
        },
        concurrent_hooks: 4,
        web: None,
        mqtt: None,
        zmq: None,
    }
}

fn response(id: &str, t: i64) -> NodeResponse {
    NodeResponse {
        nodeid: id.to_string(),
        remote: "fe80::1".to_string(),
        timestamp: t,
        data: JsonValue::Obj(vec![(
            "nodeinfo".to_string(),
            JsonValue::Obj(vec![("node_id".to_string(), JsonValue::Str(id.to_string()))]),
        )]),
    }
}

#[test]
fn new_node_emits_new_and_update() {
    let mut c = Collector::new(NodeDb::new(64), test_config(120, 100000, 60));
    let out = c.receive(response("A", 0));
    assert_eq!(out.len(), 2);
    assert_eq!(out[0].event, EventEvent::NewNode);
    assert_eq!(out[0].nodeid, "A");
    assert_eq!(out[1].event, EventEvent::NodeUpdate);
    assert_eq!(c.get_num_received(), 1);

    let out = c.receive(response("A", 10));
    assert_eq!(out.len(), 1);
    assert_eq!(out[0].event, EventEvent::NodeUpdate);
    assert_eq!(c.get_num_received(), 2);
}

#[test]
fn sweep_marks_offline_once() {
    // Insert node "A" at t=0, sweep at t=130 with offline_after=120 and a
    // large remove_after: the node goes down and exactly one NodeOffline
    // event for "A" is produced.
    let mut c = Collector::new(NodeDb::new(64), test_config(120, 100000, 60));
    c.receive(response("A", 0));

    let (events, repolls) = c.evaluate_database(130);
    let offline: Vec<_> =
        events.iter().filter(|e| e.event == EventEvent::NodeOffline && e.nodeid == "A").collect();
    assert_eq!(offline.len(), 1);
    assert_eq!(events.len(), 1);
    assert_eq!(repolls.len(), 0);

    let history = c.get_event_history();
    let down = history.iter().filter(|e| e.event == EventEvent::NodeOffline).count();
    assert_eq!(down, 1);
}

#[test]
fn sweep_removes_dead_without_offline() {
    let mut c = Collector::new(NodeDb::new(64), test_config(120, 1000, 60));
    c.receive(response("A", 0));

    let (events, _) = c.evaluate_database(2000);
    assert_eq!(events.len(), 1);
    assert_eq!(events[0].event, EventEvent::RemoveNode);
    assert_eq!(events[0].nodeid, "A");
    assert!(!events.iter().any(|e| e.event == EventEvent::NodeOffline));
}

#[test]
fn online_after_offline_fires_iff_down() {
    let mut c = Collector::new(NodeDb::new(64), test_config(120, 100000, 60));
    c.receive(response("A", 0));
    c.evaluate_database(130);

    // The stored status is now Down: the next response brings the node
    // back and says so.
    let out = c.receive(response("A", 140));
    assert_eq!(out.len(), 2);
    assert_eq!(out[0].event, EventEvent::NodeOnlineAfterOffline);
    assert_eq!(out[1].event, EventEvent::NodeUpdate);

    // Up again: no further NodeOnlineAfterOffline.
    let out = c.receive(response("A", 150));
    assert!(!out.iter().any(|e| e.event == EventEvent::NodeOnlineAfterOffline));
}

#[test]
fn overdue_node_is_repolled() {
    let mut c = Collector::new(NodeDb::new(64), test_config(1000, 100000, 10));
    c.receive(response("A", 0));

    // Silent for more than two poll intervals but still online by
    // threshold: the sweep names its address for a targeted re-poll.
    let (events, repolls) = c.evaluate_database(25);
    assert_eq!(events.len(), 0);
    assert_eq!(repolls, vec!["fe80::1".to_string()]);

    // Recently seen: nothing to do.
    let (_, repolls) = c.evaluate_database(5);
    assert_eq!(repolls.len(), 0);
}

#[test]
fn history_is_capped_and_ordered() {
    let mut c = Collector::new(NodeDb::new(3), test_config(120, 100000, 60));
    c.receive(response("A", 0));
    c.receive(response("B", 1));
    let history = c.get_event_history();
    // Four events were emitted into a log of three: the oldest left.
    assert_eq!(history.len(), 3);
    assert_eq!(history[0].event, EventEvent::NodeUpdate);
    assert_eq!(history[0].nodeid, "A");
    assert_eq!(history[1].event, EventEvent::NewNode);
    assert_eq!(history[1].nodeid, "B");
    assert_eq!(history[2].event, EventEvent::NodeUpdate);
    assert_eq!(history[2].nodeid, "B");
}

#[test]
fn dead_node_is_gone_from_store() {
    let mut c = Collector::new(NodeDb::new(64), test_config(120, 1000, 60));
    c.receive(response("A", 0));
    c.receive(response("B", 1500));
    let (events, _) = c.evaluate_database(2000);
    // A is purged; B, silent for 500 seconds, merely goes offline.
    assert_eq!(events.len(), 2);
    assert_eq!(events[0].event, EventEvent::RemoveNode);
    assert_eq!(events[0].nodeid, "A");
    assert_eq!(events[1].event, EventEvent::NodeOffline);
    assert_eq!(events[1].nodeid, "B");
    assert!(!events.iter().any(|e| e.event == EventEvent::NodeOffline && e.nodeid == "A"));
}
