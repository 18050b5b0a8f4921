//! The wire side of the telemetry protocol.
//!
//! A request is one ASCII datagram, `GET` followed by category names. A
//! response is a DEFLATE-compressed JSON document whose top-level keys
//! are category names, with the node's identifier at
//! `<first category>.node_id`. The socket work stays outside; this
//! module holds the codecs, and drops a malformed packet rather than
//! letting it pass or stall anything.

use std::io::Read;

use vstd::prelude::*;

use crate::clock;
use crate::json::{
    obj_lookup, string_from_chars, views_of, write_raw, write_str, JsonData, JsonValue,
};
use crate::NodeId;
use crate::NodeResponse;
use crate::Timestamp;

verus! {

/// The categories a request may name.
#[derive(Debug, Clone, PartialEq, Eq, Structural)]
pub enum RecordType {
    Nodeinfo,
    Statisitcs,
    Neighbours,
}

impl RecordType {
    /// The category's name on the wire.
    pub fn to_string(&self) -> (r: String)
        ensures
            r@ == self.spec_name(),
    {
        match self {
            Self::Nodeinfo => "nodeinfo".to_owned(),
            Self::Statisitcs => "statistics".to_owned(),
            Self::Neighbours => "neighbours".to_owned(),
        }
    }

    /// The wire name of each category.
    pub open spec fn spec_name(self) -> Seq<char> {
        match self {
            Self::Nodeinfo => "nodeinfo"@,
            Self::Statisitcs => "statistics"@,
            Self::Neighbours => "neighbours"@,
        }
    }
}

/// The categories a request may name, as an older requester wrote them.
#[derive(Debug, Clone, PartialEq, Eq, Structural)]
pub enum RequestType {
    Nodeinfo,
    Statisitcs,
    Neighbors,
}

impl RequestType {
    /// The category's name on the wire.
    pub fn to_string(&self) -> (r: String)
        ensures
            r@ == self.spec_name(),
    {
        match self {
            Self::Nodeinfo => "nodeinfo".to_owned(),
            Self::Statisitcs => "statistics".to_owned(),
            Self::Neighbors => "neighbours".to_owned(),
        }
    }

    /// The wire name of each category.
    pub open spec fn spec_name(self) -> Seq<char> {
        match self {
            Self::Nodeinfo => "nodeinfo"@,
            Self::Statisitcs => "statistics"@,
            Self::Neighbors => "neighbours"@,
        }
    }
}

/// Category names joined by single spaces.
pub open spec fn joined_categories(cats: Seq<Seq<char>>) -> Seq<char>
    decreases cats.len(),
{
    if cats.len() == 0 {
        Seq::empty()
    } else if cats.len() == 1 {
        cats.last()
    } else {
        joined_categories(cats.drop_last()) + seq![' '] + cats.last()
    }
}

/// The text of one request datagram.
pub open spec fn request_text(cats: Seq<Seq<char>>) -> Seq<char> {
    "GET "@ + joined_categories(cats)
}

/// Writes the request datagram for these categories: `GET`, then each
/// category name, space-separated.
#[verifier::loop_isolation(false)]
pub fn format_request(categories: &Vec<String>) -> (r: String)
    ensures
        r@ == request_text(views_of(categories@)),
{
    let mut out: Vec<char> = Vec::new();
    write_str("GET ", &mut out);
    let ghost head = out@;
    let ghost cats = views_of(categories@);
    let mut i: usize = 0;
    proof {
        assert(out@ =~= head + joined_categories(cats.take(0)));
    }
    while i < categories.len()
        invariant
            i <= categories.len(),
            out@ == head + joined_categories(cats.take(i as int)),
        decreases categories.len() - i,
    {
        proof {
            assert(cats.take(i + 1).drop_last() =~= cats.take(i as int));
            assert(cats.take(i + 1).last() == categories@[i as int]@);
        }
        if i > 0 {
            out.push(' ');
        }
        write_raw(&categories[i], &mut out);
        proof {
            assert(out@ =~= head + joined_categories(cats.take(i + 1)));
        }
        i = i + 1;
    }
    proof {
        assert(cats.take(categories@.len() as int) =~= cats);
        assert(out@ =~= "GET "@ + joined_categories(cats));
    }
    string_from_chars(&out)
}

/// What raw DEFLATE decompression makes of a byte string, when it is a
/// well-formed stream at all: a function of the bytes alone.
pub uninterp spec fn inflate_of(data: Seq<u8>) -> Option<Seq<u8>>;

/// Relies on `flate2::read::DeflateDecoder`: raw DEFLATE decompression,
/// a function of the input bytes alone; a malformed stream is refused.
#[verifier::external_body]
fn inflate_bytes(data: &[u8]) -> (r: Option<Vec<u8>>)
    ensures
        r matches Some(v) ==> inflate_of(data@) == Some(v@),
        r is None ==> inflate_of(data@) is None,
{
    let mut out: Vec<u8> = Vec::new();
    match flate2::read::DeflateDecoder::new(data).read_to_end(&mut out) {
        Ok(_) => Some(out),
        Err(_) => None,
    }
}

/// Decompresses one received datagram. A payload that is no DEFLATE
/// stream comes back as nothing, to be dropped with a log line: it must
/// never stall the receive loop or reach the store.
pub fn decode_datagram(data: &Vec<u8>) -> (r: Option<Vec<u8>>)
    ensures
        inflate_of(data@) matches Some(b) ==> r matches Some(v) && v@ == b,
        inflate_of(data@) is None ==> r is None,
{
    inflate_bytes(data.as_slice())
}

/// A decoded but unvalidated telemetry packet, before node identity is
/// extracted.
#[derive(Debug)]
pub struct ResponddResponse {
    pub timestamp: Timestamp,
    /// The sender's address, as text.
    pub remote: String,
    pub response: JsonValue,
}

/// Stamps a decoded payload as a received response. Anything but a JSON
/// object is refused, exactly as the receive loop drops it.
pub fn build_response(payload: JsonValue, remote: String) -> (r: Option<ResponddResponse>)
    ensures
        r matches Some(resp) ==> payload@ is Obj && resp.response@ == payload@ && resp.remote@
            == remote@,
        r is None <==> !(payload@ is Obj),
{
    if payload.is_object() {
        Some(ResponddResponse { timestamp: clock::now_seconds(), remote, response: payload })
    } else {
        None
    }
}

/// Splits a response document into one single-member document per
/// top-level record, in order. Anything but an object is refused.
#[verifier::loop_isolation(false)]
pub fn separate_records(json: JsonValue) -> (r: Option<Vec<JsonValue>>)
    ensures
        r is None <==> !(json@ is Obj),
        r matches Some(records) ==> json@ is Obj && records@.len() == json@->Obj_0.len()
            && forall|i: int| 0 <= i < records@.len() ==> (#[trigger] records@[i])@
            == JsonData::Obj(seq![json@->Obj_0[i]]),
{
    match json {
        JsonValue::Obj(members) => {
            proof {
                JsonValue::lemma_obj_model(&members);
            }
            let mut records: Vec<JsonValue> = Vec::new();
            let mut i: usize = 0;
            while i < members.len()
                invariant
                    i <= members.len(),
                    records@.len() == i,
                    forall|j: int| 0 <= j < i ==> (#[trigger] records@[j])@ == JsonData::Obj(
                        seq![(members@[j].0@, members@[j].1@)],
                    ),
                decreases members.len() - i,
            {
                let pair = (members[i].0.clone(), members[i].1.clone());
                let ghost key_model = members@[i as int].0@;
                let ghost val_model = members@[i as int].1@;
                let mut inner: Vec<(String, JsonValue)> = Vec::new();
                inner.push(pair);
                proof {
                    JsonValue::lemma_obj_model(&inner);
                    assert(inner@.len() == 1);
                    assert(inner@[0].0@ == key_model && inner@[0].1@ == val_model);
                    assert((JsonValue::Obj(inner))@->Obj_0[0] == (key_model, val_model));
                    assert((JsonValue::Obj(inner))@->Obj_0 =~= seq![(key_model, val_model)]);
                }
                records.push(JsonValue::Obj(inner));
                i = i + 1;
            }
            proof {
                JsonValue::lemma_obj_model(&members);
            }
            Some(records)
        },
        _ => {
            proof {
                JsonValue::lemma_model_cases(&json);
            }
            None
        },
    }
}

/// Where a response carries its node's identity: the member `node_id` of
/// the first record, when it is a string.
pub open spec fn spec_nodeid_of(doc: JsonData) -> Option<Seq<char>> {
    match doc {
        JsonData::Obj(members) => if members.len() == 0 {
            None
        } else {
            match members[0].1 {
                JsonData::Obj(inner) => match obj_lookup(inner, "node_id"@) {
                    Some(JsonData::Str(s)) => Some(s),
                    _ => None,
                },
                _ => None,
            }
        },
        _ => None,
    }
}

/// The node identity a response carries, if any.
pub fn get_nodeid_from_response_data(data: &JsonValue) -> (r: Option<NodeId>)
    ensures
        r matches Some(id) ==> spec_nodeid_of(data@) == Some(id@),
        r is None ==> spec_nodeid_of(data@) is None,
{
    match data {
        JsonValue::Obj(members) => {
            proof {
                JsonValue::lemma_obj_model(members);
            }
            if members.len() == 0 {
                return None;
            }
            match members[0].1.get(&"node_id".to_owned()) {
                Some(v) => {
                    proof {
                        JsonValue::lemma_model_cases(&members[0].1);
                        JsonValue::lemma_model_cases(v);
                    }
                    match v.as_str() {
                        Some(s) => Some(s.clone()),
                        None => None,
                    }
                },
                None => {
                    proof {
                        JsonValue::lemma_model_cases(&members[0].1);
                    }
                    None
                },
            }
        },
        _ => {
            proof {
                JsonValue::lemma_model_cases(data);
            }
            None
        },
    }
}

/// Turns a stamped response into the record the store ingests, when the
/// response names its node; one that does not is dropped with a log line.
pub fn to_node_response(resp: ResponddResponse) -> (r: Option<NodeResponse>)
    ensures
        r matches Some(n) ==> spec_nodeid_of(resp.response@) == Some(n@.nodeid) && n@.remote
            == resp.remote@ && n@.timestamp == resp.timestamp as int && n@.data == resp.response@,
        r is None <==> spec_nodeid_of(resp.response@) is None,
{
    match get_nodeid_from_response_data(&resp.response) {
        Some(nodeid) => Some(
            NodeResponse {
                nodeid,
                remote: resp.remote,
                timestamp: resp.timestamp,
                data: resp.response,
            },
        ),
        None => None,
    }
}

} // verus!
