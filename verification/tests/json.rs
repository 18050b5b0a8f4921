use requestd::collector::triggerdb::{Trigger, TriggerDb};
use requestd::config::{Config, Requestd};
use requestd::json::JsonValue;
use requestd::models::TrafficIO;
use requestd::stats::{is_tag, Stats};

#[test]
fn json_text_is_exact() {
    let doc = JsonValue::Obj(vec![
        ("name".to_string(), JsonValue::Str("a \"b\"\\c".to_string())),
        ("count".to_string(), JsonValue::Num("42".to_string())),
        ("ok".to_string(), JsonValue::Bool(true)),
        ("gone".to_string(), JsonValue::Null),
        (
            "list".to_string(),
            JsonValue::Arr(vec![JsonValue::Bool(false), JsonValue::Num("1.5".to_string())]),
        ),
    ]);
    assert_eq!(
        doc.to_json_string(),
        "{\"name\":\"a \\\"b\\\"\\\\c\",\"count\":42,\"ok\":true,\"gone\":null,\"list\":[false,1.5]}"
    );
    assert_eq!(JsonValue::Obj(Vec::new()).to_json_string(), "{}");
    assert_eq!(JsonValue::Arr(Vec::new()).to_json_string(), "[]");
    assert_eq!(
        JsonValue::Str("\u{1}".to_string()).to_json_string(),
        "\"\\u0001\""
    );
}

#[test]
fn lookup_takes_first_member() {
    let doc = JsonValue::Obj(vec![
        ("k".to_string(), JsonValue::Str("first".to_string())),
        ("k".to_string(), JsonValue::Str("second".to_string())),
    ]);
    match doc.get(&"k".to_string()) {
        Some(JsonValue::Str(s)) => assert_eq!(s, "first"),
        other => panic!("unexpected lookup result: {:?}", other),
    }
    assert!(doc.get(&"missing".to_string()).is_none());
    assert!(doc.is_object());
    assert!(!JsonValue::Null.is_object());
}

#[test]
fn clone_preserves_documents() {
    let doc = JsonValue::Obj(vec![(
        "list".to_string(),
        JsonValue::Arr(vec![JsonValue::Str("x".to_string()), JsonValue::Null]),
    )]);
    assert_eq!(doc.clone(), doc);
}

#[test]
fn trigger_table_remembers_once() {
    let mut db = TriggerDb::new();
    let id = "deadbeef".to_string();
    assert!(!db.trigger_is_present(&id));
    assert_eq!(db.set_trigger(&id, Trigger::NodeOffline), 1);
    assert_eq!(db.set_trigger(&id, Trigger::NodeOffline), 0);
    assert_eq!(db.set_trigger(&id, Trigger::NodeOnline), 1);
    assert!(db.trigger_is_present(&id));
    assert_eq!(db.get_status(&id).len(), 2);
    assert_eq!(db.get_status(&"other".to_string()).len(), 0);
    assert_eq!(Trigger::from_str("NodeOnline").unwrap(), Trigger::NodeOnline);
    assert_eq!(Trigger::NodeOffline.to_string(), "NodeOffline");
    assert!(Trigger::from_str("nope").is_err());
}

#[test]
fn stats_and_tags() {
    let s = Stats::new_empty();
    assert_eq!(s.clients, 0);
    assert_eq!(s.nodes, 0);
    assert!(is_tag(&"flags.online".to_string()));
    assert!(is_tag(&"nodeinfo.node_id".to_string()));
    assert!(!is_tag(&"statistics.uptime".to_string()));
}

#[test]
fn traffic_addition() {
    let a = TrafficIO { bytes: 10, packets: 2, dropped: Some(1) };
    let b = TrafficIO { bytes: 5, packets: 3, dropped: None };
    let sum = a.add(b);
    assert_eq!(sum.bytes, 15);
    assert_eq!(sum.packets, 5);
    assert_eq!(sum.dropped, Some(1));
    let mut acc = TrafficIO::default();
    acc.add_assign(a);
    assert_eq!(acc.bytes, 10);
    assert_eq!(acc.dropped, Some(1));
}

#[test]
fn stock_configuration() {
    let c = Config::default();
    assert_eq!(c.requestd.interval, 60);
    assert_eq!(c.requestd.multicast_address, "ff05::2:1001");
    assert_eq!(c.database.offline_after, 120);
    assert_eq!(c.concurrent_hooks, 4);
    assert!(c.web.is_some());
    assert!(c.mqtt.is_none());
    let r = Requestd::default();
    assert_eq!(r.categories, vec!["nodeinfo", "statistics", "neighbours"]);
}
