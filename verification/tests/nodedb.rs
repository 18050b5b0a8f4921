use requestd::collector::nodedb::{Node, NodeDb, NodeStatus};
use requestd::collector::{Event, EventEvent};
use requestd::{JsonValue, NodeResponse};

fn sample_payload() -> JsonValue {
    JsonValue::Obj(vec![("test".to_string(), JsonValue::Str("data".to_string()))])
}

#[test]
fn test_nodestatus_parsing() {
    assert_eq!(NodeStatus::from_str("up").unwrap(), NodeStatus::Up);
    assert_eq!(NodeStatus::Up.to_string(), "up");
}

#[test]
fn test_node_insert() {
    let mut db = NodeDb::new(64);

    let nodeid: String = "deadbeef".to_string();
    let first_seen: i64 = 1577836800;
    let update: i64 = 1577836980;

    let node_response = NodeResponse {
        timestamp: first_seen,
        nodeid: nodeid.clone(),
        data: sample_payload(),
        remote: "fdef:ffc0:3dd7:0:fa1a:67ff:fed8:e008".to_string(),
    };

    db.insert_node(&node_response);
    let saved_node: Node = db.get_node(&nodeid.clone()).unwrap();

    assert_eq!(first_seen, saved_node.first_seen);
    assert_eq!(first_seen, saved_node.last_seen);

    let node_response = NodeResponse {
        timestamp: update,
        nodeid: nodeid.clone(),
        data: sample_payload(),
        remote: "fdef:ffc0:3dd7:0:fa1a:67ff:fed8:e008".to_string(),
    };
    db.insert_node(&node_response);

    let saved_node: Node = db.get_node(&nodeid.clone()).unwrap();
    assert_eq!(NodeStatus::Up, saved_node.status);
    assert_eq!(first_seen, saved_node.first_seen);
    assert_eq!(update, saved_node.last_seen);
}

#[test]
fn event_without_node() {
    let mut db = NodeDb::new(64);

    let nodeid: String = "deadbeef".to_string();

    db.insert_event(&Event::new(EventEvent::NewNode, &nodeid));
}

#[test]
fn event_create_and_read() {
    let mut db = NodeDb::new(64);

    const NODEID: &str = "deadbeef";

    let e = Event::new(EventEvent::NewNode, &NODEID.to_string());
    db.insert_event(&e);

    let events = db.get_all_events(50);
    assert_eq!(events.len(), 1);
    assert_eq!(events[0], e);
}

#[test]
fn upsert_monotonic_either_order() {
    let t1: i64 = 100;
    let t2: i64 = 200;
    let make = |t: i64| NodeResponse {
        timestamp: t,
        nodeid: "a".to_string(),
        data: sample_payload(),
        remote: "fe80::1".to_string(),
    };

    let mut early_first = NodeDb::new(8);
    assert_eq!(early_first.insert_node(&make(t1)), None);
    assert_eq!(early_first.insert_node(&make(t2)), Some(NodeStatus::Up));
    let n = early_first.get_node(&"a".to_string()).unwrap();
    assert_eq!(n.first_seen, t1);
    assert_eq!(n.last_seen, t2);

    let mut late_first = NodeDb::new(8);
    assert_eq!(late_first.insert_node(&make(t2)), None);
    assert_eq!(late_first.insert_node(&make(t1)), Some(NodeStatus::Up));
    let n = late_first.get_node(&"a".to_string()).unwrap();
    assert_eq!(n.first_seen, t1);
    assert_eq!(n.last_seen, t2);
}

#[test]
fn stale_upsert_keeps_newest_payload() {
    let mut db = NodeDb::new(8);
    let fresh = NodeResponse {
        timestamp: 200,
        nodeid: "a".to_string(),
        data: JsonValue::Str("new".to_string()),
        remote: "addr-new".to_string(),
    };
    let stale = NodeResponse {
        timestamp: 100,
        nodeid: "a".to_string(),
        data: JsonValue::Str("old".to_string()),
        remote: "addr-old".to_string(),
    };
    db.insert_node(&fresh);
    db.insert_node(&stale);
    let n = db.get_node(&"a".to_string()).unwrap();
    assert_eq!(n.last_address, "addr-new");
    assert_eq!(n.last_response, JsonValue::Str("new".to_string()));
    assert_eq!(n.first_seen, 100);
    assert_eq!(n.last_seen, 200);
}

#[test]
fn set_status_and_listing() {
    let mut db = NodeDb::new(8);
    for (id, t) in [("a", 10i64), ("b", 20), ("c", 30)] {
        db.insert_node(&NodeResponse {
            timestamp: t,
            nodeid: id.to_string(),
            data: sample_payload(),
            remote: "fe80::1".to_string(),
        });
    }
    assert_eq!(db.set_status(&"b".to_string(), NodeStatus::Down), 1);
    assert_eq!(db.set_status(&"nope".to_string(), NodeStatus::Down), 0);

    let all = db.get_all_nodes();
    assert_eq!(all.len(), 3);
    assert_eq!(all[1].status, NodeStatus::Down);

    let down = db.get_all_nodes_with_status(NodeStatus::Down);
    assert_eq!(down.len(), 1);
    assert_eq!(down[0].nodeid, "b");

    assert!(db.is_known(&"a".to_string()));
    db.delete_node(&"a".to_string());
    assert!(!db.is_known(&"a".to_string()));
    assert_eq!(db.get_all_nodes().len(), 2);
}

#[test]
fn event_log_evicts_oldest() {
    let mut db = NodeDb::new(2);
    let a = Event::new(EventEvent::NewNode, &"a".to_string());
    let b = Event::new(EventEvent::NodeUpdate, &"b".to_string());
    let c = Event::new(EventEvent::NodeOffline, &"c".to_string());
    db.insert_event(&a);
    db.insert_event(&b);
    db.insert_event(&c);
    let events = db.get_all_events(50);
    assert_eq!(events.len(), 2);
    assert_eq!(events[0].nodeid, "b");
    assert_eq!(events[1].nodeid, "c");

    let tail = db.get_all_events(1);
    assert_eq!(tail.len(), 1);
    assert_eq!(tail[0].nodeid, "c");
}

#[test]
fn event_retention_sweep() {
    let mut db = NodeDb::new(16);
    db.insert_event(&requestd::collector::Event {
        event: EventEvent::NewNode,
        nodeid: "a".to_string(),
        trigger: String::new(),
        timestamp: 100,
    });
    db.insert_event(&requestd::collector::Event {
        event: EventEvent::NodeUpdate,
        nodeid: "a".to_string(),
        trigger: String::new(),
        timestamp: 300,
    });
    let removed = db.clean_events_history(200);
    assert_eq!(removed, 1);
    let events = db.get_all_events(50);
    assert_eq!(events.len(), 1);
    assert_eq!(events[0].timestamp, 300);
}

#[test]
fn eventevent_names_round_trip() {
    for kind in [
        EventEvent::NewNode,
        EventEvent::NodeOffline,
        EventEvent::NodeOnlineAfterOffline,
        EventEvent::NodeUpdate,
        EventEvent::RemoveNode,
    ] {
        assert_eq!(EventEvent::from_str(&kind.to_string()).unwrap(), kind);
    }
    assert!(EventEvent::from_str("something else").is_err());
    assert!(NodeStatus::from_str("sideways").is_err());
}
