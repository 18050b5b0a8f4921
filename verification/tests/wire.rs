use std::io::Write;

use requestd::json::JsonValue;
use requestd::multicast::{
    build_response, decode_datagram, format_request, get_nodeid_from_response_data,
    separate_records, to_node_response, RecordType, RequestType, ResponddResponse,
};

fn nodeinfo_payload(id: &str) -> JsonValue {
    JsonValue::Obj(vec![(
        "nodeinfo".to_string(),
        JsonValue::Obj(vec![("node_id".to_string(), JsonValue::Str(id.to_string()))]),
    )])
}

#[test]
fn request_datagram_text() {
    let cats = vec!["nodeinfo".to_string(), "statistics".to_string(), "neighbours".to_string()];
    assert_eq!(format_request(&cats), "GET nodeinfo statistics neighbours");
    assert_eq!(format_request(&vec!["nodeinfo".to_string()]), "GET nodeinfo");
    assert_eq!(format_request(&Vec::new()), "GET ");
}

#[test]
fn record_type_names() {
    assert_eq!(RecordType::Nodeinfo.to_string(), "nodeinfo");
    assert_eq!(RecordType::Statisitcs.to_string(), "statistics");
    assert_eq!(RecordType::Neighbours.to_string(), "neighbours");
    assert_eq!(RequestType::Neighbors.to_string(), "neighbours");
}

#[test]
fn deflate_round_trip() {
    let text = b"{\"nodeinfo\":{\"node_id\":\"deadbeef\"}}";
    let mut enc =
        flate2::write::DeflateEncoder::new(Vec::new(), flate2::Compression::default());
    enc.write_all(text).unwrap();
    let compressed = enc.finish().unwrap();

    let decoded = decode_datagram(&compressed).unwrap();
    assert_eq!(decoded, text.to_vec());
}

#[test]
fn malformed_packet_is_dropped() {
    // A packet that is no DEFLATE stream decodes to nothing, and a
    // payload that is no JSON object never becomes a response: the
    // receive loop drops both and carries on.
    let garbage: Vec<u8> = vec![0xff, 0x00, 0xab, 0x13, 0x37];
    assert!(decode_datagram(&garbage).is_none());

    assert!(build_response(JsonValue::Str("x".to_string()), "fe80::1".to_string()).is_none());
    assert!(build_response(JsonValue::Null, "fe80::1".to_string()).is_none());

    let ok = build_response(nodeinfo_payload("deadbeef"), "fe80::1".to_string()).unwrap();
    assert_eq!(ok.remote, "fe80::1");
}

#[test]
fn nodeid_extraction() {
    assert_eq!(
        get_nodeid_from_response_data(&nodeinfo_payload("deadbeef")),
        Some("deadbeef".to_string())
    );
    assert_eq!(get_nodeid_from_response_data(&JsonValue::Obj(Vec::new())), None);
    assert_eq!(get_nodeid_from_response_data(&JsonValue::Null), None);
    // A first record without a node_id member yields nothing.
    let anon = JsonValue::Obj(vec![("statistics".to_string(), JsonValue::Obj(Vec::new()))]);
    assert_eq!(get_nodeid_from_response_data(&anon), None);
}

#[test]
fn response_to_record() {
    let resp = ResponddResponse {
        timestamp: 42,
        remote: "fe80::1".to_string(),
        response: nodeinfo_payload("deadbeef"),
    };
    let rec = to_node_response(resp).unwrap();
    assert_eq!(rec.nodeid, "deadbeef");
    assert_eq!(rec.timestamp, 42);
    assert_eq!(rec.remote, "fe80::1");

    let resp = ResponddResponse {
        timestamp: 42,
        remote: "fe80::1".to_string(),
        response: JsonValue::Obj(Vec::new()),
    };
    assert!(to_node_response(resp).is_none());
}

#[test]
fn records_are_separated_per_category() {
    let doc = JsonValue::Obj(vec![
        ("nodeinfo".to_string(), JsonValue::Str("a".to_string())),
        ("statistics".to_string(), JsonValue::Str("b".to_string())),
    ]);
    let records = separate_records(doc).unwrap();
    assert_eq!(records.len(), 2);
    assert_eq!(
        records[0],
        JsonValue::Obj(vec![("nodeinfo".to_string(), JsonValue::Str("a".to_string()))])
    );
    assert_eq!(
        records[1],
        JsonValue::Obj(vec![("statistics".to_string(), JsonValue::Str("b".to_string()))])
    );
    assert!(separate_records(JsonValue::Null).is_none());
}
