//! The node store and the bounded event log.
//!
//! A keyed table of node records with upsert, query and delete, and an
//! append-only, size-bounded log of lifecycle events. All mutation goes
//! through one owner, so the store's order of writes is authoritative.

use vstd::prelude::*;

use crate::collector::{events_view, Event, EventData};
use crate::json::{JsonData, JsonValue};
use crate::NodeId;
use crate::NodeResponse;
use crate::NodeResponseModel;
use crate::Timestamp;

verus! {

/// The stored liveness state of a node. A third condition, dead, is
/// derived from time alone and never stored: a dead node is deleted.
#[derive(Clone, Debug, Copy, PartialEq, Eq, Structural)]
pub enum NodeStatus {
    Up,
    Down,
}

impl NodeStatus {
    /// The status's written name.
    pub fn to_string(&self) -> (r: String)
        ensures
            r@ == self.spec_name(),
    {
        match self {
            Self::Up => "up".to_owned(),
            Self::Down => "down".to_owned(),
        }
    }

    /// The written name of each status.
    pub open spec fn spec_name(self) -> Seq<char> {
        match self {
            Self::Up => "up"@,
            Self::Down => "down"@,
        }
    }

    /// The status whose written name this is, if any.
    pub fn from_str(s: &str) -> (r: Result<Self, String>)
        ensures
            r matches Ok(st) ==> s@ == st.spec_name(),
            s@ == "up"@ ==> r == Ok::<NodeStatus, String>(NodeStatus::Up),
            s@ == "down"@ ==> r == Ok::<NodeStatus, String>(NodeStatus::Down),
            r is Err <==> s@ != "up"@ && s@ != "down"@,
    {
        proof {
            reveal_strlit("up");
            reveal_strlit("down");
            assert("up"@.len() == 2);
            assert("down"@.len() == 4);
        }
        let owned = s.to_owned();
        if owned == "up".to_owned() {
            Ok(Self::Up)
        } else if owned == "down".to_owned() {
            Ok(Self::Down)
        } else {
            Err("Unknown Status".to_owned())
        }
    }
}

/// The stored per-node liveness and telemetry snapshot.
#[derive(Debug)]
pub struct Node {
    pub nodeid: NodeId,
    pub last_seen: Timestamp,
    pub first_seen: Timestamp,
    pub last_address: String,
    pub last_response: JsonValue,
    pub status: NodeStatus,
}

/// Mathematical model of a stored node record.
pub ghost struct NodeModel {
    pub nodeid: Seq<char>,
    pub last_seen: int,
    pub first_seen: int,
    pub last_address: Seq<char>,
    pub last_response: JsonData,
    pub status: NodeStatus,
}

impl View for Node {
    type V = NodeModel;

    open spec fn view(&self) -> NodeModel {
        NodeModel {
            nodeid: self.nodeid@,
            last_seen: self.last_seen as int,
            first_seen: self.first_seen as int,
            last_address: self.last_address@,
            last_response: self.last_response@,
            status: self.status,
        }
    }
}

impl Clone for Node {
    /// A clone carries the same model.
    fn clone(&self) -> (res: Self)
        ensures
            res@ == self@,
    {
        Node {
            nodeid: self.nodeid.clone(),
            last_seen: self.last_seen,
            first_seen: self.first_seen,
            last_address: self.last_address.clone(),
            last_response: self.last_response.clone(),
            status: self.status,
        }
    }
}

impl NodeModel {
    /// A node is online when it was seen within the last `offline_after`
    /// seconds.
    pub open spec fn spec_is_online(self, now: int, offline_after: int) -> bool {
        now - self.last_seen < offline_after
    }

    /// A node is dead when it was silent for more than `remove_after`
    /// seconds; it is then forgotten, not flagged.
    pub open spec fn spec_is_dead(self, now: int, remove_after: int) -> bool {
        now - self.last_seen > remove_after
    }

    /// A node is offline when it is neither online nor dead.
    pub open spec fn spec_is_offline(self, now: int, offline_after: int, remove_after: int) -> bool {
        !self.spec_is_online(now, offline_after) && !self.spec_is_dead(now, remove_after)
    }
}

impl Node {
    /// Seconds of silence since the node was last seen, at the given instant.
    pub fn since_last_seen(&self, now: Timestamp) -> (r: i128)
        ensures
            r == now - self@.last_seen,
    {
        (now as i128) - (self.last_seen as i128)
    }

    /// A node is online when it was seen recently; how long recently is,
    /// the `offline_after` threshold says.
    pub fn is_online(&self, now: Timestamp, offline_after: u64) -> (r: bool)
        ensures
            r == self@.spec_is_online(now as int, offline_after as int),
    {
        self.since_last_seen(now) < offline_after as i128
    }

    /// A node is dead when it was silent for longer than `remove_after`.
    pub fn is_dead(&self, now: Timestamp, remove_after: u64) -> (r: bool)
        ensures
            r == self@.spec_is_dead(now as int, remove_after as int),
    {
        self.since_last_seen(now) > remove_after as i128
    }

    /// A node is offline when it is neither online nor dead.
    pub fn is_offline(&self, now: Timestamp, offline_after: u64, remove_after: u64) -> (r: bool)
        ensures
            r == self@.spec_is_offline(now as int, offline_after as int, remove_after as int),
    {
        !self.is_online(now, offline_after) && !self.is_dead(now, remove_after)
    }
}

/// The views of a list of node records.
pub open spec fn nodes_view(s: Seq<Node>) -> Seq<NodeModel> {
    s.map_values(|n: Node| n@)
}

/// Whether some record in the list carries this id.
pub open spec fn has_id(s: Seq<NodeModel>, id: Seq<char>) -> bool {
    exists|i: int| 0 <= i < s.len() && s[i].nodeid == id
}

/// The position of the record carrying this id.
pub open spec fn idx_of(s: Seq<NodeModel>, id: Seq<char>) -> int {
    choose|i: int| 0 <= i < s.len() && s[i].nodeid == id
}

/// Every id in the list occurs once.
pub open spec fn distinct_ids(s: Seq<NodeModel>) -> bool {
    forall|i: int, j: int| 0 <= i < j < s.len() ==> (#[trigger] s[i]).nodeid != (
    #[trigger] s[j]).nodeid
}

/// In a list of distinct ids, the record an id is found at is the one
/// `idx_of` names.
pub proof fn lemma_idx_of_unique(s: Seq<NodeModel>, i: int, id: Seq<char>)
    requires
        distinct_ids(s),
        0 <= i < s.len(),
        s[i].nodeid == id,
    ensures
        has_id(s, id),
        idx_of(s, id) == i,
{
    assert(has_id(s, id));
    let c = idx_of(s, id);
    assert(0 <= c < s.len() && s[c].nodeid == id);
    if c < i {
        assert(s[c].nodeid != s[i].nodeid);
    } else if i < c {
        assert(s[i].nodeid != s[c].nodeid);
    }
}

/// The record a fresh telemetry response makes: both seen marks at the
/// response's time, and the node up.
pub open spec fn fresh_node(r: NodeResponseModel) -> NodeModel {
    NodeModel {
        nodeid: r.nodeid,
        last_seen: r.timestamp,
        first_seen: r.timestamp,
        last_address: r.remote,
        last_response: r.data,
        status: NodeStatus::Up,
    }
}

/// What an upsert makes of a known record: the seen marks spread outward
/// (`last_seen` never decreases), the newest response keeps the address
/// and payload, and the node is up either way.
pub open spec fn merged_node(n: NodeModel, r: NodeResponseModel) -> NodeModel {
    NodeModel {
        nodeid: n.nodeid,
        last_seen: if r.timestamp >= n.last_seen { r.timestamp } else { n.last_seen },
        first_seen: if r.timestamp < n.first_seen { r.timestamp } else { n.first_seen },
        last_address: if r.timestamp >= n.last_seen { r.remote } else { n.last_address },
        last_response: if r.timestamp >= n.last_seen { r.data } else { n.last_response },
        status: NodeStatus::Up,
    }
}

/// What an upsert makes of a whole store: a known id is merged in place,
/// an unknown one appended fresh.
pub open spec fn upsert_nodes(s: Seq<NodeModel>, r: NodeResponseModel) -> Seq<NodeModel> {
    if has_id(s, r.nodeid) {
        s.update(idx_of(s, r.nodeid), merged_node(s[idx_of(s, r.nodeid)], r))
    } else {
        s.push(fresh_node(r))
    }
}

/// Upsert monotonicity: ingesting one id at two instants leaves
/// `first_seen` at the earlier and `last_seen` at the later of the two,
/// whichever response arrived first.
pub proof fn lemma_upsert_monotonic(
    s: Seq<NodeModel>,
    a: NodeResponseModel,
    b: NodeResponseModel,
)
    requires
        distinct_ids(s),
        !has_id(s, a.nodeid),
        a.nodeid == b.nodeid,
        a.timestamp < b.timestamp,
    ensures
        ({
            let early_first = upsert_nodes(upsert_nodes(s, a), b);
            let late_first = upsert_nodes(upsert_nodes(s, b), a);
            &&& has_id(early_first, a.nodeid)
            &&& early_first[idx_of(early_first, a.nodeid)].first_seen == a.timestamp
            &&& early_first[idx_of(early_first, a.nodeid)].last_seen == b.timestamp
            &&& has_id(late_first, a.nodeid)
            &&& late_first[idx_of(late_first, a.nodeid)].first_seen == a.timestamp
            &&& late_first[idx_of(late_first, a.nodeid)].last_seen == b.timestamp
        }),
{
    let id = a.nodeid;
    let pos = s.len() as int;

    let s_a = upsert_nodes(s, a);
    assert(s_a == s.push(fresh_node(a)));
    lemma_idx_of_unique(s_a, pos, id);
    assert(has_id(s_a, id) && idx_of(s_a, id) == pos);
    let early_first = upsert_nodes(s_a, b);
    assert(early_first == s_a.update(pos, merged_node(fresh_node(a), b)));
    assert(distinct_ids(early_first)) by {
        assert(forall|i: int| 0 <= i < early_first.len() ==> (#[trigger] early_first[i]).nodeid
            == s_a[i].nodeid);
    }
    lemma_idx_of_unique(early_first, pos, id);
    assert(early_first[pos].first_seen == a.timestamp);
    assert(early_first[pos].last_seen == b.timestamp);

    let s_b = upsert_nodes(s, b);
    assert(s_b == s.push(fresh_node(b)));
    lemma_idx_of_unique(s_b, pos, id);
    let late_first = upsert_nodes(s_b, a);
    assert(late_first == s_b.update(pos, merged_node(fresh_node(b), a)));
    assert(distinct_ids(late_first)) by {
        assert(forall|i: int| 0 <= i < late_first.len() ==> (#[trigger] late_first[i]).nodeid
            == s_b[i].nodeid);
    }
    lemma_idx_of_unique(late_first, pos, id);
    assert(late_first[pos].first_seen == a.timestamp);
    assert(late_first[pos].last_seen == b.timestamp);
}

/// The durable table of node records, and the bounded event log beside it.
pub struct NodeDb {
    nodes: Vec<Node>,
    events: Vec<Event>,
    event_capacity: usize,
}

impl NodeDb {
    /// The stored records, in store order.
    pub closed spec fn nodes(self) -> Seq<NodeModel> {
        nodes_view(self.nodes@)
    }

    /// The logged events, oldest first.
    pub closed spec fn events(self) -> Seq<EventData> {
        events_view(self.events@)
    }

    /// How many events the log holds at most.
    pub closed spec fn capacity(self) -> int {
        self.event_capacity as int
    }

    /// Every stored id occurs once.
    pub open spec fn wf(self) -> bool {
        distinct_ids(self.nodes())
    }

    /// An empty store whose event log holds at most `event_capacity`
    /// entries before it evicts the oldest.
    pub fn new(event_capacity: usize) -> (r: Self)
        ensures
            r.wf(),
            r.nodes() == Seq::<NodeModel>::empty(),
            r.events() == Seq::<EventData>::empty(),
            r.capacity() == event_capacity as int,
    {
        let r = NodeDb { nodes: Vec::new(), events: Vec::new(), event_capacity };
        proof {
            assert(r.nodes() =~= Seq::<NodeModel>::empty());
            assert(r.events() =~= Seq::<EventData>::empty());
        }
        r
    }

    /// The position of the record carrying this id, if any.
    #[verifier::loop_isolation(false)]
    fn find(&self, nodeid: &NodeId) -> (r: Option<usize>)
        ensures
            match r {
                Some(i) => i < self.nodes().len() && self.nodes()[i as int].nodeid == nodeid@,
                None => !has_id(self.nodes(), nodeid@),
            },
    {
        let mut i: usize = 0;
        while i < self.nodes.len()
            invariant
                i <= self.nodes.len(),
                forall|j: int| 0 <= j < i ==> (#[trigger] self.nodes()[j]).nodeid != nodeid@,
            decreases self.nodes.len() - i,
        {
            if self.nodes[i].nodeid == *nodeid {
                return Some(i);
            }
            i = i + 1;
        }
        None
    }

    /// In a well-formed store, the record this id is found at is the one
    /// `idx_of` names.
    proof fn lemma_found_is_idx(self, i: int, id: Seq<char>)
        requires
            self.wf(),
            0 <= i < self.nodes().len(),
            self.nodes()[i].nodeid == id,
        ensures
            idx_of(self.nodes(), id) == i,
            has_id(self.nodes(), id),
    {
        lemma_idx_of_unique(self.nodes(), i, id);
    }

    /// A copy of the record stored under this id, when the id is known.
    pub fn get_node(&self, nodeid: &NodeId) -> (r: Option<Node>)
        requires
            self.wf(),
        ensures
            match r {
                Some(n) => has_id(self.nodes(), nodeid@)
                    && n@ == self.nodes()[idx_of(self.nodes(), nodeid@)],
                None => !has_id(self.nodes(), nodeid@),
            },
    {
        match self.find(nodeid) {
            Some(i) => {
                proof {
                    self.lemma_found_is_idx(i as int, nodeid@);
                }
                Some(self.nodes[i].clone())
            },
            None => None,
        }
    }

    /// Whether a record is stored under this id.
    pub fn is_known(&self, nodeid: &NodeId) -> (r: bool)
        ensures
            r == has_id(self.nodes(), nodeid@),
    {
        match self.find(nodeid) {
            Some(_) => true,
            None => false,
        }
    }

    /// The upsert at the heart of ingestion. An unknown id is inserted
    /// fresh and `None` says it was new; a known id is merged as
    /// `merged_node` says, and the status the record had just before the
    /// write comes back, captured in the same step.
    pub fn insert_node(&mut self, n: &NodeResponse) -> (r: Option<NodeStatus>)
        requires
            old(self).wf(),
        ensures
            final(self).wf(),
            final(self).events() == old(self).events(),
            final(self).capacity() == old(self).capacity(),
            match r {
                None => !has_id(old(self).nodes(), n@.nodeid)
                    && final(self).nodes() == old(self).nodes().push(fresh_node(n@)),
                Some(prev) => {
                    let i = idx_of(old(self).nodes(), n@.nodeid);
                    has_id(old(self).nodes(), n@.nodeid)
                        && prev == old(self).nodes()[i].status
                        && final(self).nodes() == old(self).nodes().update(
                        i,
                        merged_node(old(self).nodes()[i], n@),
                    )
                },
            },
    {
        match self.find(&n.nodeid) {
            Some(i) => {
                proof {
                    self.lemma_found_is_idx(i as int, n@.nodeid);
                }
                let prev = self.nodes[i].status;
                let node = &self.nodes[i];
                let updated = if n.timestamp >= node.last_seen {
                    Node {
                        nodeid: node.nodeid.clone(),
                        last_seen: n.timestamp,
                        first_seen: if n.timestamp < node.first_seen {
                            n.timestamp
                        } else {
                            node.first_seen
                        },
                        last_address: n.remote.clone(),
                        last_response: n.data.clone(),
                        status: NodeStatus::Up,
                    }
                } else {
                    Node {
                        nodeid: node.nodeid.clone(),
                        last_seen: node.last_seen,
                        first_seen: if n.timestamp < node.first_seen {
                            n.timestamp
                        } else {
                            node.first_seen
                        },
                        last_address: node.last_address.clone(),
                        last_response: node.last_response.clone(),
                        status: NodeStatus::Up,
                    }
                };
                proof {
                    assert(updated@ == merged_node(self.nodes()[i as int], n@));
                }
                self.nodes[i] = updated;
                proof {
                    assert(final(self).nodes() =~= old(self).nodes().update(
                        i as int,
                        merged_node(old(self).nodes()[i as int], n@),
                    ));
                }
                Some(prev)
            },
            None => {
                self.nodes.push(Node {
                    nodeid: n.nodeid.clone(),
                    last_seen: n.timestamp,
                    first_seen: n.timestamp,
                    last_address: n.remote.clone(),
                    last_response: n.data.clone(),
                    status: NodeStatus::Up,
                });
                proof {
                    assert(final(self).nodes() =~= old(self).nodes().push(fresh_node(n@)));
                }
                None
            },
        }
    }

    /// Replaces the stored status of this id; says how many records that
    /// touched.
    pub fn set_status(&mut self, id: &NodeId, status: NodeStatus) -> (r: usize)
        requires
            old(self).wf(),
        ensures
            final(self).wf(),
            final(self).events() == old(self).events(),
            final(self).capacity() == old(self).capacity(),
            has_id(old(self).nodes(), id@) ==> {
                let i = idx_of(old(self).nodes(), id@);
                r == 1 && final(self).nodes() == old(self).nodes().update(
                    i,
                    NodeModel { status, ..old(self).nodes()[i] },
                )
            },
            !has_id(old(self).nodes(), id@) ==> r == 0 && final(self).nodes() == old(
                self,
            ).nodes(),
    {
        match self.find(id) {
            Some(i) => {
                proof {
                    self.lemma_found_is_idx(i as int, id@);
                }
                let node = &self.nodes[i];
                let updated = Node {
                    nodeid: node.nodeid.clone(),
                    last_seen: node.last_seen,
                    first_seen: node.first_seen,
                    last_address: node.last_address.clone(),
                    last_response: node.last_response.clone(),
                    status,
                };
                self.nodes[i] = updated;
                proof {
                    assert(final(self).nodes() =~= old(self).nodes().update(
                        idx_of(old(self).nodes(), id@),
                        NodeModel { status, ..old(self).nodes()[idx_of(old(self).nodes(), id@)] },
                    ));
                }
                1
            },
            None => 0,
        }
    }

    /// Removes the record stored under this id, if any; the others keep
    /// their order.
    pub fn delete_node(&mut self, nodeid: &NodeId)
        requires
            old(self).wf(),
        ensures
            final(self).wf(),
            final(self).events() == old(self).events(),
            final(self).capacity() == old(self).capacity(),
            !has_id(final(self).nodes(), nodeid@),
            has_id(old(self).nodes(), nodeid@) ==> {
                let i = idx_of(old(self).nodes(), nodeid@);
                final(self).nodes() == old(self).nodes().remove(i)
            },
            !has_id(old(self).nodes(), nodeid@) ==> final(self).nodes() == old(self).nodes(),
    {
        match self.find(nodeid) {
            Some(i) => {
                proof {
                    self.lemma_found_is_idx(i as int, nodeid@);
                }
                self.nodes.remove(i);
                proof {
                    assert(final(self).nodes() =~= old(self).nodes().remove(i as int));
                    assert forall|j: int| 0 <= j < final(self).nodes().len()
                        implies (#[trigger] final(self).nodes()[j]).nodeid != nodeid@ by {
                        if j < i {
                            assert(final(self).nodes()[j] == old(self).nodes()[j]);
                        } else {
                            assert(final(self).nodes()[j] == old(self).nodes()[j + 1]);
                        }
                    }
                }
            },
            None => {},
        }
    }

    /// Copies of every stored record, in store order.
    pub fn get_all_nodes(&self) -> (r: Vec<Node>)
        ensures
            nodes_view(r@) == self.nodes(),
    {
        let mut out: Vec<Node> = Vec::new();
        let mut i: usize = 0;
        while i < self.nodes.len()
            invariant
                i <= self.nodes.len(),
                out@.len() == i,
                forall|j: int| 0 <= j < i ==> (#[trigger] out@[j])@ == self.nodes()[j],
            decreases self.nodes.len() - i,
        {
            out.push(self.nodes[i].clone());
            i = i + 1;
        }
        proof {
            assert(nodes_view(out@) =~= self.nodes());
        }
        out
    }

    /// Copies of the records that carry this status, in store order.
    pub fn get_all_nodes_with_status(&mut self, status: NodeStatus) -> (r: Vec<Node>)
        ensures
            *final(self) == *old(self),
            nodes_view(r@) == old(self).nodes().filter(|n: NodeModel| n.status == status),
    {
        let mut out: Vec<Node> = Vec::new();
        let mut i: usize = 0;
        proof {
            assert(self.nodes().take(0) =~= Seq::<NodeModel>::empty());
            reveal(Seq::filter);
        }
        while i < self.nodes.len()
            invariant
                i <= self.nodes.len(),
                self.nodes().len() == self.nodes@.len(),
                nodes_view(out@) == self.nodes().take(i as int).filter(
                    |n: NodeModel| n.status == status,
                ),
            decreases self.nodes.len() - i,
        {
            let ghost prefix = self.nodes().take(i as int);
            let ghost longer = self.nodes().take(i + 1);
            proof {
                reveal(Seq::filter);
                assert(longer.drop_last() =~= prefix);
                assert(longer.last() == self.nodes()[i as int]);
            }
            if self.nodes[i].status == status {
                out.push(self.nodes[i].clone());
                proof {
                    assert(nodes_view(out@) =~= longer.filter(|n: NodeModel| n.status == status));
                }
            } else {
                proof {
                    assert(nodes_view(out@) =~= longer.filter(|n: NodeModel| n.status == status));
                }
            }
            i = i + 1;
        }
        proof {
            assert(self.nodes().take(self.nodes@.len() as int) =~= self.nodes());
        }
        out
    }

    /// Appends an event to the log; once the log is at capacity, the
    /// oldest entry leaves first.
    pub fn insert_event(&mut self, e: &Event) -> (r: Option<()>)
        ensures
            r == Some(()),
            final(self).wf() == old(self).wf(),
            final(self).nodes() == old(self).nodes(),
            final(self).capacity() == old(self).capacity(),
            old(self).events().len() < old(self).capacity() || old(self).events().len() == 0
                ==> final(self).events() == old(self).events().push(e@),
            old(self).events().len() >= old(self).capacity() && old(self).events().len() > 0
                ==> final(self).events() == old(self).events().skip(1).push(e@),
    {
        if self.events.len() >= self.event_capacity && self.events.len() > 0 {
            self.events.remove(0);
            proof {
                assert(self.events@ =~= old(self).events@.skip(1));
            }
        }
        self.events.push(e.clone());
        proof {
            if old(self).events().len() < old(self).capacity() || old(self).events().len() == 0 {
                assert(final(self).events() =~= old(self).events().push(e@));
            } else {
                let oldv = old(self).events@;
                let target = old(self).events().skip(1).push(e@);
                assert forall|j: int| 0 <= j < final(self).events().len()
                    implies final(self).events()[j] == target[j] by {
                    if j < oldv.len() - 1 {
                        assert(final(self).events@[j] == oldv.skip(1)[j]);
                        assert(oldv.skip(1)[j] == oldv[j + 1]);
                        assert(old(self).events()[j + 1] == oldv[j + 1]@);
                    }
                }
                assert(final(self).events() =~= target);
            }
        }
        Some(())
    }

    /// Drops every logged event from before the cutoff; says how many
    /// were dropped.
    pub fn clean_events_history(&mut self, time: Timestamp) -> (r: usize)
        ensures
            final(self).wf() == old(self).wf(),
            final(self).nodes() == old(self).nodes(),
            final(self).capacity() == old(self).capacity(),
            final(self).events() == old(self).events().filter(
                |e: EventData| e.timestamp >= time as int,
            ),
            r == old(self).events().len() - final(self).events().len(),
    {
        let mut kept: Vec<Event> = Vec::new();
        let mut i: usize = 0;
        proof {
            assert(self.events().take(0) =~= Seq::<EventData>::empty());
            reveal(Seq::filter);
        }
        while i < self.events.len()
            invariant
                i <= self.events.len(),
                self.events().len() == self.events@.len(),
                events_view(kept@) == self.events().take(i as int).filter(
                    |e: EventData| e.timestamp >= time as int,
                ),
                kept@.len() <= i,
            decreases self.events.len() - i,
        {
            let ghost prefix = self.events().take(i as int);
            let ghost longer = self.events().take(i + 1);
            proof {
                reveal(Seq::filter);
                assert(longer.drop_last() =~= prefix);
                assert(longer.last() == self.events()[i as int]);
            }
            if self.events[i].timestamp >= time {
                kept.push(self.events[i].clone());
                proof {
                    assert(events_view(kept@) =~= longer.filter(
                        |e: EventData| e.timestamp >= time as int,
                    ));
                }
            } else {
                proof {
                    assert(events_view(kept@) =~= longer.filter(
                        |e: EventData| e.timestamp >= time as int,
                    ));
                }
            }
            i = i + 1;
        }
        proof {
            assert(self.events().take(self.events@.len() as int) =~= self.events());
        }
        let removed = self.events.len() - kept.len();
        self.events = kept;
        removed
    }

    /// The most recent `limit` events, oldest to newest.
    pub fn get_all_events(&self, limit: usize) -> (r: Vec<Event>)
        ensures
            events_view(r@) == self.events().skip(
                if self.events().len() <= limit as int {
                    0
                } else {
                    self.events().len() - limit as int
                },
            ),
    {
        let start: usize = if self.events.len() <= limit {
            0
        } else {
            self.events.len() - limit
        };
        let mut out: Vec<Event> = Vec::new();
        let mut i: usize = start;
        while i < self.events.len()
            invariant
                start <= i <= self.events.len(),
                self.events().len() == self.events@.len(),
                out@.len() == i - start,
                forall|j: int| 0 <= j < out@.len() ==> (#[trigger] out@[j])@ == self.events()[start
                    + j],
            decreases self.events.len() - i,
        {
            out.push(self.events[i].clone());
            i = i + 1;
        }
        proof {
            assert(events_view(out@) =~= self.events().skip(start as int));
        }
        out
    }
}

} // verus!
