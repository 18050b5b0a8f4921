use requestd::collector::nodedb::NodeDb;
use requestd::collector::{Collector, EventEvent};
use requestd::config::{Config, Database, Events, Requestd};
use requestd::hooks::{compute_hook_env, hook_var_value, parse_query};
use requestd::{JsonValue, NodeResponse};

fn flags_payload(online: bool) -> JsonValue {
    JsonValue::Obj(vec![(
        "flags".to_string(),
        JsonValue::Obj(vec![("online".to_string(), JsonValue::Bool(online))]),
    )])
}

fn true_hook() -> requestd::config::Event {
    requestd::config::Event {
        exec_path: "/bin/true".to_string(),
        vars: vec![("x".to_string(), ".flags.online".to_string())],
    }
}

#[test]
fn boolean_vars_use_inverted_encoding() {
    // `true` reads as the empty string and `false` as "1", so a shell
    // script can treat a present, non-empty variable as "false".
    let env = compute_hook_env(&true_hook(), &flags_payload(true)).unwrap();
    assert_eq!(env, vec![("x".to_string(), "".to_string())]);

    let env = compute_hook_env(&true_hook(), &flags_payload(false)).unwrap();
    assert_eq!(env, vec![("x".to_string(), "1".to_string())]);
}

#[test]
fn string_and_missing_vars() {
    let payload = JsonValue::Obj(vec![(
        "nodeinfo".to_string(),
        JsonValue::Obj(vec![("hostname".to_string(), JsonValue::Str("node-1".to_string()))]),
    )]);
    let path = parse_query(".nodeinfo.hostname").unwrap();
    assert_eq!(hook_var_value(&payload, &path), "node-1");

    let path = parse_query(".nodeinfo.owner").unwrap();
    assert_eq!(hook_var_value(&payload, &path), "null");

    let path = parse_query(".").unwrap();
    assert_eq!(path.len(), 0);
    assert_eq!(
        hook_var_value(&payload, &path),
        "{\"nodeinfo\":{\"hostname\":\"node-1\"}}"
    );
}

#[test]
fn malformed_queries_are_refused() {
    assert!(parse_query("").is_none());
    assert!(parse_query("flags.online").is_none());
    assert!(parse_query(".flags.").is_none());
    assert!(parse_query(".flags..online").is_none());
    assert!(parse_query("..").is_none());
    let segs = parse_query(".flags.online").unwrap();
    assert_eq!(segs, vec!["flags".to_string(), "online".to_string()]);

    let bad_hook = requestd::config::Event {
        exec_path: "/bin/true".to_string(),
        vars: vec![("x".to_string(), "no-dot".to_string())],
    };
    assert!(compute_hook_env(&bad_hook, &flags_payload(true)).is_none());
}

fn hooked_config() -> Config {
    Config {
        requestd: Requestd {
            interface: "bat0".to_string(),
            interval: 60,
            multicast_address: "ff05::2:1001".to_string(),
            categories: vec!["nodeinfo".to_string()],
            clean_interval: 10,
            retention: 10,
        },
        database: Database { offline_after: 120, remove_after: 100000, evaluate_every: 10 },
        events: Events {
            new_node: vec![true_hook()],
            node_offline: vec![true_hook(), true_hook()],
            online_after_offline: Vec::new(),
            node_update: Vec::new(),
            remove_node: Vec::new(),
        },
        concurrent_hooks: 4,
        web: None,
        mqtt: None,
        zmq: None,
    }
}

#[test]
fn queue_depth_counts_undispatched_pairs() {
    let mut c = Collector::new(NodeDb::new(64), hooked_config());
    assert_eq!(c.hooks_waiting(), 0);

    // A new node fires one NewNode hook; the update has none configured.
    c.receive(NodeResponse {
        nodeid: "A".to_string(),
        remote: "fe80::1".to_string(),
        timestamp: 0,
        data: flags_payload(true),
    });
    assert_eq!(c.hooks_waiting(), 1);

    // The sweep marks the node offline: two NodeOffline hooks join.
    c.evaluate_database(130);
    assert_eq!(c.hooks_waiting(), 3);

    // Draining the queue brings the gauge back to zero, oldest first.
    let job = c.next_hook_job().unwrap();
    assert_eq!(job.event.event, EventEvent::NewNode);
    assert_eq!(c.hooks_waiting(), 2);
    let job = c.next_hook_job().unwrap();
    assert_eq!(job.event.event, EventEvent::NodeOffline);
    let _ = c.next_hook_job().unwrap();
    assert_eq!(c.hooks_waiting(), 0);
    assert!(c.next_hook_job().is_none());
}

#[test]
fn hook_jobs_carry_the_payload() {
    let mut c = Collector::new(NodeDb::new(64), hooked_config());
    c.receive(NodeResponse {
        nodeid: "A".to_string(),
        remote: "fe80::1".to_string(),
        timestamp: 0,
        data: flags_payload(true),
    });
    let job = c.next_hook_job().unwrap();
    assert_eq!(job.hook.exec_path, "/bin/true");
    assert_eq!(job.payload, flags_payload(true));
    let env = compute_hook_env(&job.hook, &job.payload).unwrap();
    assert_eq!(env, vec![("x".to_string(), "".to_string())]);
}
