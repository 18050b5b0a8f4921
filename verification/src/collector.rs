//! The collector core: lifecycle events and the engine around the store.

pub mod nodedb;
pub mod triggerdb;

use vstd::prelude::*;

use crate::config;
use crate::NodeId;
use crate::NodeResponse;
use crate::Timestamp;

verus! {

/// The kinds of lifecycle event a node can go through.
#[derive(Copy, Clone, Debug, PartialEq, Eq, Structural)]
pub enum EventEvent {
    NewNode,
    NodeOffline,
    NodeOnlineAfterOffline,
    NodeUpdate,
    RemoveNode,
}

impl EventEvent {
    /// The hook definitions configured for this kind of event.
    pub fn get_configured_hooks(self, events: &config::Events) -> (r: Vec<config::Event>)
        ensures
            config::hooks_view(r@) == kind_hooks(events@, self),
    {
        match self {
            Self::NewNode => clone_hooks(&events.new_node),
            Self::NodeOffline => clone_hooks(&events.node_offline),
            Self::NodeUpdate => clone_hooks(&events.node_update),
            Self::NodeOnlineAfterOffline => clone_hooks(&events.online_after_offline),
            Self::RemoveNode => clone_hooks(&events.remove_node),
        }
    }

    /// The kind's name, as it is written in an event log or a configuration.
    pub fn to_string(&self) -> (r: String)
        ensures
            r@ == self.spec_name(),
    {
        match self {
            Self::NewNode => "NewNode".to_owned(),
            Self::NodeOffline => "NodeOffline".to_owned(),
            Self::NodeOnlineAfterOffline => "NodeOnlineAfterOffline".to_owned(),
            Self::NodeUpdate => "NodeUpdate".to_owned(),
            Self::RemoveNode => "RemoveNode".to_owned(),
        }
    }

    /// The written name of each kind.
    pub open spec fn spec_name(self) -> Seq<char> {
        match self {
            Self::NewNode => "NewNode"@,
            Self::NodeOffline => "NodeOffline"@,
            Self::NodeOnlineAfterOffline => "NodeOnlineAfterOffline"@,
            Self::NodeUpdate => "NodeUpdate"@,
            Self::RemoveNode => "RemoveNode"@,
        }
    }

    /// The kind whose written name this is, if any.
    pub fn from_str(s: &str) -> (r: Result<Self, String>)
        ensures
            r matches Ok(k) ==> s@ == k.spec_name(),
            s@ == "NewNode"@ ==> r == Ok::<EventEvent, String>(EventEvent::NewNode),
            s@ == "NodeOffline"@ ==> r == Ok::<EventEvent, String>(EventEvent::NodeOffline),
            s@ == "NodeOnlineAfterOffline"@ ==> r == Ok::<EventEvent, String>(
                EventEvent::NodeOnlineAfterOffline,
            ),
            s@ == "NodeUpdate"@ ==> r == Ok::<EventEvent, String>(EventEvent::NodeUpdate),
            s@ == "RemoveNode"@ ==> r == Ok::<EventEvent, String>(EventEvent::RemoveNode),
            r is Err <==> s@ != "NewNode"@ && s@ != "NodeOffline"@ && s@
                != "NodeOnlineAfterOffline"@ && s@ != "NodeUpdate"@ && s@ != "RemoveNode"@,
    {
        proof {
            reveal_strlit("NewNode");
            reveal_strlit("NodeOffline");
            reveal_strlit("NodeOnlineAfterOffline");
            reveal_strlit("NodeUpdate");
            reveal_strlit("RemoveNode");
            assert("NewNode"@.len() == 7);
            assert("NodeOffline"@.len() == 11);
            assert("NodeOnlineAfterOffline"@.len() == 22);
            assert("NodeUpdate"@.len() == 10);
            assert("RemoveNode"@.len() == 10);
            assert("NodeUpdate"@[0] == 'N' && "RemoveNode"@[0] == 'R');
        }
        let owned = s.to_owned();
        if owned == "NewNode".to_owned() {
            Ok(Self::NewNode)
        } else if owned == "NodeOffline".to_owned() {
            Ok(Self::NodeOffline)
        } else if owned == "NodeOnlineAfterOffline".to_owned() {
            Ok(Self::NodeOnlineAfterOffline)
        } else if owned == "NodeUpdate".to_owned() {
            Ok(Self::NodeUpdate)
        } else if owned == "RemoveNode".to_owned() {
            Ok(Self::RemoveNode)
        } else {
            Err("can't parse event".to_owned())
        }
    }
}

/// Clones a list of hook definitions, model for model.
fn clone_hooks(hooks: &Vec<config::Event>) -> (r: Vec<config::Event>)
    ensures
        config::hooks_view(r@) == config::hooks_view(hooks@),
{
    let mut out: Vec<config::Event> = Vec::new();
    let mut i: usize = 0;
    while i < hooks.len()
        invariant
            i <= hooks.len(),
            out@.len() == i,
            forall|j: int| 0 <= j < i ==> (#[trigger] out@[j])@ == hooks@[j]@,
        decreases hooks.len() - i,
    {
        out.push(hooks[i].clone());
        i = i + 1;
    }
    proof {
        assert(config::hooks_view(out@) =~= config::hooks_view(hooks@));
    }
    out
}

/// One lifecycle event, immutable once appended to the log.
#[derive(Debug, PartialEq, Eq)]
pub struct Event {
    pub event: EventEvent,
    pub nodeid: NodeId,
    /// Free-text label of what set the event off; may be empty.
    pub trigger: String,
    pub timestamp: Timestamp,
}

/// Mathematical model of a lifecycle event.
pub ghost struct EventData {
    pub event: EventEvent,
    pub nodeid: Seq<char>,
    pub trigger: Seq<char>,
    pub timestamp: int,
}

impl View for Event {
    type V = EventData;

    open spec fn view(&self) -> EventData {
        EventData {
            event: self.event,
            nodeid: self.nodeid@,
            trigger: self.trigger@,
            timestamp: self.timestamp as int,
        }
    }
}

impl Clone for Event {
    /// A clone carries the same model.
    fn clone(&self) -> (res: Self)
        ensures
            res@ == self@,
    {
        Event {
            event: self.event,
            nodeid: self.nodeid.clone(),
            trigger: self.trigger.clone(),
            timestamp: self.timestamp,
        }
    }
}

impl Event {
    /// A fresh event of the given kind for a node, stamped with the
    /// current time; nothing is promised of the stamp, which the wall
    /// clock gives.
    pub fn new(eevent: EventEvent, node: &NodeId) -> (r: Self)
        ensures
            r@.event == eevent,
            r@.nodeid == node@,
            r@.trigger == Seq::<char>::empty(),
    {
        Event::new_at(eevent, node, crate::clock::now_seconds())
    }

    /// A fresh event of the given kind for a node, stamped by the caller.
    pub fn new_at(eevent: EventEvent, node: &NodeId, timestamp: Timestamp) -> (r: Self)
        ensures
            r@ == (EventData {
                event: eevent,
                nodeid: node@,
                trigger: Seq::<char>::empty(),
                timestamp: timestamp as int,
            }),
    {
        Event { event: eevent, nodeid: node.clone(), trigger: String::new(), timestamp }
    }
}

/// The views of a list of events.
pub open spec fn events_view(v: Seq<Event>) -> Seq<EventData> {
    v.map_values(|e: Event| e@)
}

/// Which list of the configuration a kind of event draws its hooks from.
pub open spec fn kind_hooks(cfg: config::EventsData, kind: EventEvent) -> Seq<config::HookData> {
    match kind {
        EventEvent::NewNode => cfg.new_node,
        EventEvent::NodeOffline => cfg.node_offline,
        EventEvent::NodeUpdate => cfg.node_update,
        EventEvent::NodeOnlineAfterOffline => cfg.online_after_offline,
        EventEvent::RemoveNode => cfg.remove_node,
    }
}

/// One undispatched piece of work: run this hook for this event, against
/// this payload.
#[derive(Debug)]
pub struct HookJob {
    pub hook: config::Event,
    pub event: Event,
    pub payload: crate::JsonValue,
}

/// Mathematical model of an undispatched (hook, event) pair.
pub ghost struct HookJobData {
    pub hook: config::HookData,
    pub event: EventData,
    pub payload: crate::json::JsonData,
}

impl View for HookJob {
    type V = HookJobData;

    open spec fn view(&self) -> HookJobData {
        HookJobData { hook: self.hook@, event: self.event@, payload: self.payload@ }
    }
}

/// The jobs one event makes: one per hook configured for its kind, in
/// configuration order, all against the same payload.
pub open spec fn jobs_for(
    hooks: Seq<config::HookData>,
    ev: EventData,
    payload: crate::json::JsonData,
) -> Seq<HookJobData> {
    hooks.map_values(|h: config::HookData| HookJobData { hook: h, event: ev, payload })
}

/// The views of a list of jobs.
pub open spec fn jobs_view(v: Seq<HookJob>) -> Seq<HookJobData> {
    v.map_values(|j: HookJob| j@)
}

/// The dispatch queue in front of the hook workers. Fan-out pushes one
/// job per configured hook; workers drain it oldest first; its depth is
/// the observable gauge of undispatched work. The queue grows without
/// bound, so admission never blocks the emitting path and never drops a
/// job: a slow hook costs memory, not ingestion.
pub struct EventRunner {
    queue: Vec<HookJob>,
    events: config::Events,
}

impl EventRunner {
    /// The undispatched jobs, oldest first.
    pub closed spec fn jobs(self) -> Seq<HookJobData> {
        jobs_view(self.queue@)
    }

    /// The hook configuration the fan-out draws from.
    pub closed spec fn hooks(self) -> config::EventsData {
        self.events@
    }

    /// An empty queue in front of the given hook configuration.
    pub fn new(events: config::Events) -> (r: Self)
        ensures
            r.jobs() == Seq::<HookJobData>::empty(),
            r.hooks() == events@,
    {
        let r = EventRunner { queue: Vec::new(), events };
        proof {
            assert(r.jobs() =~= Seq::<HookJobData>::empty());
        }
        r
    }

    /// Queues one job per hook configured for the event's kind, all
    /// against the event's payload.
    pub fn push_event(&mut self, e: (Event, crate::JsonValue))
        ensures
            final(self).hooks() == old(self).hooks(),
            final(self).jobs() == old(self).jobs() + jobs_for(
                kind_hooks(old(self).hooks(), e.0@.event),
                e.0@,
                e.1@,
            ),
    {
        let (event, payload) = e;
        let hooks = event.event.get_configured_hooks(&self.events);
        let ghost expected = jobs_for(kind_hooks(self.hooks(), event@.event), event@, payload@);
        let mut i: usize = 0;
        while i < hooks.len()
            invariant
                i <= hooks.len(),
                config::hooks_view(hooks@) == kind_hooks(old(self).hooks(), event@.event),
                expected == jobs_for(kind_hooks(old(self).hooks(), event@.event), event@, payload@),
                self.events == old(self).events,
                self.jobs().len() == old(self).jobs().len() + i,
                forall|j: int| 0 <= j < old(self).jobs().len()
                    ==> self.jobs()[j] == old(self).jobs()[j],
                forall|j: int| 0 <= j < i ==> self.jobs()[old(self).jobs().len() + j]
                    == expected[j],
            decreases hooks.len() - i,
        {
            self.queue.push(HookJob {
                hook: hooks[i].clone(),
                event: event.clone(),
                payload: payload.clone(),
            });
            i = i + 1;
        }
        proof {
            assert(final(self).jobs() =~= old(self).jobs() + expected);
        }
    }

    /// The oldest undispatched job, handed out for a worker to run.
    pub fn pop_job(&mut self) -> (r: Option<HookJob>)
        ensures
            final(self).hooks() == old(self).hooks(),
            match r {
                Some(job) => old(self).jobs().len() > 0 && job@ == old(self).jobs()[0]
                    && final(self).jobs() == old(self).jobs().skip(1),
                None => old(self).jobs().len() == 0 && final(self).jobs() == old(self).jobs(),
            },
    {
        if self.queue.len() == 0 {
            None
        } else {
            let job = self.queue.remove(0);
            proof {
                assert(final(self).jobs() =~= old(self).jobs().skip(1));
            }
            Some(job)
        }
    }

    /// How many (hook, event) pairs wait undispatched: the queue-depth
    /// gauge. It is zero exactly when the queue is drained.
    pub fn depth(&self) -> (r: usize)
        ensures
            r == self.jobs().len(),
    {
        self.queue.len()
    }
}

/// One emission: an event, and the payload its hooks are run against.
pub type Emission = (EventData, crate::json::JsonData);

/// The events of a list of emissions.
pub open spec fn emission_events(ems: Seq<Emission>) -> Seq<EventData> {
    ems.map_values(|p: Emission| p.0)
}

/// One append to the bounded log: once the log is at capacity the oldest
/// entry leaves first.
pub open spec fn log_append(log: Seq<EventData>, cap: int, e: EventData) -> Seq<EventData> {
    if log.len() < cap || log.len() == 0 {
        log.push(e)
    } else {
        log.skip(1).push(e)
    }
}

/// The appends of a whole list of events, oldest first.
pub open spec fn log_append_seq(log: Seq<EventData>, cap: int, evs: Seq<EventData>) -> Seq<
    EventData,
>
    decreases evs.len(),
{
    if evs.len() == 0 {
        log
    } else {
        log_append(log_append_seq(log, cap, evs.drop_last()), cap, evs.last())
    }
}

/// The jobs a list of emissions queues, emission by emission.
pub open spec fn jobs_for_emissions(cfg: config::EventsData, ems: Seq<Emission>) -> Seq<HookJobData>
    decreases ems.len(),
{
    if ems.len() == 0 {
        Seq::empty()
    } else {
        jobs_for_emissions(cfg, ems.drop_last()) + jobs_for(
            kind_hooks(cfg, ems.last().0.event),
            ems.last().0,
            ems.last().1,
        )
    }
}

/// Appending one event to a list of appends is one more append.
pub proof fn lemma_log_append_seq_push(
    log: Seq<EventData>,
    cap: int,
    evs: Seq<EventData>,
    e: EventData,
)
    ensures
        log_append_seq(log, cap, evs.push(e)) == log_append(log_append_seq(log, cap, evs), cap, e),
{
    assert(evs.push(e).drop_last() =~= evs);
    assert(evs.push(e).last() == e);
}

/// One more emission queues its own jobs after the earlier ones.
pub proof fn lemma_jobs_for_emissions_push(cfg: config::EventsData, ems: Seq<Emission>, em: Emission)
    ensures
        jobs_for_emissions(cfg, ems.push(em)) == jobs_for_emissions(cfg, ems) + jobs_for(
            kind_hooks(cfg, em.0.event),
            em.0,
            em.1,
        ),
{
    assert(ems.push(em).drop_last() =~= ems);
    assert(ems.push(em).last() == em);
}

/// The status stored for an id just before an upsert, if the id is known.
pub open spec fn ingest_status(s: Seq<nodedb::NodeModel>, id: Seq<char>) -> Option<
    nodedb::NodeStatus,
> {
    if nodedb::has_id(s, id) {
        Some(s[nodedb::idx_of(s, id)].status)
    } else {
        None
    }
}

/// The payload the store holds for an id right after an upsert.
pub open spec fn stored_response(
    s: Seq<nodedb::NodeModel>,
    r: crate::NodeResponseModel,
) -> crate::json::JsonData {
    if nodedb::has_id(s, r.nodeid) {
        nodedb::merged_node(s[nodedb::idx_of(s, r.nodeid)], r).last_response
    } else {
        r.data
    }
}

/// An event of the given kind for this node at this instant, with an
/// empty trigger.
pub open spec fn plain_event(kind: EventEvent, id: Seq<char>, ts: int) -> EventData {
    EventData { event: kind, nodeid: id, trigger: Seq::empty(), timestamp: ts }
}

/// What one ingested response emits: NewNode for an unknown id,
/// NodeOnlineAfterOffline exactly when the status just before the upsert
/// was Down, and NodeUpdate always, in that order.
pub open spec fn ingest_emissions(
    prev: Option<nodedb::NodeStatus>,
    r: crate::NodeResponseModel,
    payload: crate::json::JsonData,
) -> Seq<Emission> {
    let upd = (plain_event(EventEvent::NodeUpdate, r.nodeid, r.timestamp), payload);
    match prev {
        None => seq![(plain_event(EventEvent::NewNode, r.nodeid, r.timestamp), payload), upd],
        Some(nodedb::NodeStatus::Down) => seq![
            (plain_event(EventEvent::NodeOnlineAfterOffline, r.nodeid, r.timestamp), payload),
            upd,
        ],
        Some(nodedb::NodeStatus::Up) => seq![upd],
    }
}

/// A node is due a targeted re-poll when it is still up by status yet
/// overdue by more than two poll intervals.
pub open spec fn repoll_due(n: nodedb::NodeModel, now: int, interval: int) -> bool {
    n.status == NodeStatus::Up && now - n.last_seen > 2 * interval
}

use nodedb::NodeDb;
use nodedb::NodeModel;
use nodedb::NodeStatus;

/// What the sweep makes of one record: a dead node leaves, a silent node
/// that was up goes down, anything else stands.
pub open spec fn sweep_node(n: NodeModel, now: int, oa: int, ra: int) -> Option<NodeModel> {
    if n.spec_is_dead(now, ra) {
        None
    } else if n.spec_is_offline(now, oa, ra) && n.status == NodeStatus::Up {
        Some(NodeModel { status: NodeStatus::Down, ..n })
    } else {
        Some(n)
    }
}

/// The store after a sweep pass, record by record, in store order.
pub open spec fn sweep_nodes(s: Seq<NodeModel>, now: int, oa: int, ra: int) -> Seq<NodeModel>
    decreases s.len(),
{
    if s.len() == 0 {
        Seq::empty()
    } else {
        sweep_nodes(s.drop_last(), now, oa, ra) + (match sweep_node(s.last(), now, oa, ra) {
            None => Seq::empty(),
            Some(m) => seq![m],
        })
    }
}

/// What the sweep emits for one record: RemoveNode for a dead node,
/// NodeOffline for a silent node that was up, nothing else; a dead node
/// never also emits NodeOffline.
pub open spec fn sweep_node_emissions(n: NodeModel, now: int, oa: int, ra: int) -> Seq<Emission> {
    if n.spec_is_dead(now, ra) {
        seq![(plain_event(EventEvent::RemoveNode, n.nodeid, now), n.last_response)]
    } else if n.spec_is_offline(now, oa, ra) && n.status == NodeStatus::Up {
        seq![(plain_event(EventEvent::NodeOffline, n.nodeid, now), n.last_response)]
    } else {
        Seq::empty()
    }
}

/// Everything one sweep pass emits, in store order.
pub open spec fn sweep_emissions(s: Seq<NodeModel>, now: int, oa: int, ra: int) -> Seq<Emission>
    decreases s.len(),
{
    if s.len() == 0 {
        Seq::empty()
    } else {
        sweep_emissions(s.drop_last(), now, oa, ra) + sweep_node_emissions(s.last(), now, oa, ra)
    }
}

/// The addresses one sweep pass asks to re-poll: those of nodes the
/// sweep left untouched that are up yet overdue.
pub open spec fn sweep_repolls(s: Seq<NodeModel>, now: int, oa: int, ra: int, interval: int) -> Seq<
    Seq<char>,
>
    decreases s.len(),
{
    if s.len() == 0 {
        Seq::empty()
    } else {
        sweep_repolls(s.drop_last(), now, oa, ra, interval) + (if !s.last().spec_is_dead(now, ra)
            && !(s.last().spec_is_offline(now, oa, ra) && s.last().status == NodeStatus::Up)
            && repoll_due(s.last(), now, interval) {
            seq![s.last().last_address]
        } else {
            Seq::empty()
        })
    }
}

/// After a sweep the store still keeps one record per id, every id it
/// keeps was there before, and each kept record is exactly what the
/// sweep made of the record that id had.
pub proof fn lemma_sweep_lookup(s: Seq<NodeModel>, now: int, oa: int, ra: int, id: Seq<char>)
    requires
        nodedb::distinct_ids(s),
    ensures
        nodedb::distinct_ids(sweep_nodes(s, now, oa, ra)),
        nodedb::has_id(sweep_nodes(s, now, oa, ra), id) <==> (nodedb::has_id(s, id)
            && sweep_node(s[nodedb::idx_of(s, id)], now, oa, ra) is Some),
        nodedb::has_id(sweep_nodes(s, now, oa, ra), id) ==> sweep_nodes(s, now, oa, ra)[nodedb::idx_of(
            sweep_nodes(s, now, oa, ra),
            id,
        )] == sweep_node(s[nodedb::idx_of(s, id)], now, oa, ra)->Some_0,
    decreases s.len(),
{
    let out = sweep_nodes(s, now, oa, ra);
    if s.len() == 0 {
        assert(!nodedb::has_id(out, id));
        assert(!nodedb::has_id(s, id));
    } else {
        let dl = s.drop_last();
        let x = s.last();
        let prefix = sweep_nodes(dl, now, oa, ra);
        assert(nodedb::distinct_ids(dl)) by {
            assert(forall|i: int| 0 <= i < dl.len() ==> dl[i] == s[i]);
        }
        lemma_sweep_lookup(dl, now, oa, ra, id);
        lemma_sweep_lookup(dl, now, oa, ra, x.nodeid);
        assert(!nodedb::has_id(dl, x.nodeid)) by {
            assert forall|i: int| 0 <= i < dl.len() implies (#[trigger] dl[i]).nodeid != x.nodeid
            by {
                assert(s[i].nodeid != s[s.len() - 1].nodeid);
            }
        }
        assert(!nodedb::has_id(prefix, x.nodeid));
        assert(forall|j: int| 0 <= j < prefix.len() ==> out[j] == prefix[j]);
        match sweep_node(x, now, oa, ra) {
            None => {
                assert(out =~= prefix);
                if id == x.nodeid {
                    assert(!nodedb::has_id(out, id));
                    nodedb::lemma_idx_of_unique(s, s.len() - 1, id);
                } else {
                    lemma_same_lookup_under_last(s, id);
                    assert(nodedb::has_id(out, id) == nodedb::has_id(prefix, id));
                }
            },
            Some(m) => {
                assert(m.nodeid == x.nodeid);
                assert(out.len() == prefix.len() + 1);
                assert(out[prefix.len() as int] == m);
                assert(nodedb::distinct_ids(out)) by {
                    assert forall|i: int, j: int| 0 <= i < j < out.len() implies (
                    #[trigger] out[i]).nodeid != (#[trigger] out[j]).nodeid by {
                        if j < prefix.len() {
                        } else {
                            assert(out[j] == m);
                            if nodedb::has_id(prefix, out[i].nodeid) {
                                lemma_sweep_lookup(dl, now, oa, ra, out[i].nodeid);
                            }
                            assert(nodedb::has_id(prefix, out[i].nodeid)) by {
                                assert(prefix[i].nodeid == out[i].nodeid);
                            }
                        }
                    }
                }
                if id == x.nodeid {
                    nodedb::lemma_idx_of_unique(s, s.len() - 1, id);
                    nodedb::lemma_idx_of_unique(out, prefix.len() as int, id);
                } else {
                    lemma_same_lookup_under_last(s, id);
                    if nodedb::has_id(prefix, id) {
                        let k = nodedb::idx_of(prefix, id);
                        nodedb::lemma_idx_of_unique(out, k, id);
                    } else {
                        assert(!nodedb::has_id(out, id)) by {
                            if nodedb::has_id(out, id) {
                                let k = nodedb::idx_of(out, id);
                                assert(0 <= k < out.len() && out[k].nodeid == id);
                                assert(k == prefix.len());
                            }
                        }
                    }
                }
            },
        }
    }
}

/// Dropping the last record leaves every other id's lookup in place.
proof fn lemma_same_lookup_under_last(s: Seq<NodeModel>, id: Seq<char>)
    requires
        nodedb::distinct_ids(s),
        s.len() > 0,
        id != s.last().nodeid,
    ensures
        nodedb::has_id(s, id) == nodedb::has_id(s.drop_last(), id),
        nodedb::has_id(s, id) ==> nodedb::idx_of(s, id) == nodedb::idx_of(s.drop_last(), id)
            && s[nodedb::idx_of(s, id)] == s.drop_last()[nodedb::idx_of(s.drop_last(), id)],
{
    let dl = s.drop_last();
    assert(nodedb::distinct_ids(dl)) by {
        assert(forall|i: int| 0 <= i < dl.len() ==> dl[i] == s[i]);
    }
    if nodedb::has_id(s, id) {
        let k = nodedb::idx_of(s, id);
        assert(0 <= k < s.len() && s[k].nodeid == id);
        assert(k < s.len() - 1);
        assert(dl[k] == s[k]);
        nodedb::lemma_idx_of_unique(dl, k, id);
    } else {
        if nodedb::has_id(dl, id) {
            let k = nodedb::idx_of(dl, id);
            assert(s[k].nodeid == id);
            assert(nodedb::has_id(s, id));
        }
    }
}

/// Every event a sweep emits names an id the store held, and is exactly
/// what the sweep emits for that id's record.
pub proof fn lemma_sweep_emission_source(
    s: Seq<NodeModel>,
    now: int,
    oa: int,
    ra: int,
    k: int,
)
    requires
        nodedb::distinct_ids(s),
        0 <= k < sweep_emissions(s, now, oa, ra).len(),
    ensures
        ({
            let em = sweep_emissions(s, now, oa, ra)[k];
            &&& nodedb::has_id(s, em.0.nodeid)
            &&& sweep_node_emissions(s[nodedb::idx_of(s, em.0.nodeid)], now, oa, ra) == seq![em]
        }),
    decreases s.len(),
{
    let ems = sweep_emissions(s, now, oa, ra);
    let em = ems[k];
    let dl = s.drop_last();
    let x = s.last();
    let pre = sweep_emissions(dl, now, oa, ra);
    assert(nodedb::distinct_ids(dl)) by {
        assert(forall|i: int| 0 <= i < dl.len() ==> dl[i] == s[i]);
    }
    if k < pre.len() {
        lemma_sweep_emission_source(dl, now, oa, ra, k);
        assert(em == pre[k]);
        lemma_same_lookup_under_last(s, em.0.nodeid);
        assert(em.0.nodeid != x.nodeid) by {
            let j = nodedb::idx_of(dl, em.0.nodeid);
            assert(s[j].nodeid != s[s.len() - 1].nodeid);
        }
    } else {
        assert(em == sweep_node_emissions(x, now, oa, ra)[k - pre.len()]);
        assert(sweep_node_emissions(x, now, oa, ra).len() == 1);
        assert(em.0.nodeid == x.nodeid);
        nodedb::lemma_idx_of_unique(s, s.len() - 1, x.nodeid);
        assert(sweep_node_emissions(x, now, oa, ra) =~= seq![em]);
    }
}

/// Whatever a sweep emits for one of the store's records, it emits.
pub proof fn lemma_sweep_emits(s: Seq<NodeModel>, now: int, oa: int, ra: int, i: int, k: int)
    requires
        0 <= i < s.len(),
        0 <= k < sweep_node_emissions(s[i], now, oa, ra).len(),
    ensures
        sweep_emissions(s, now, oa, ra).contains(sweep_node_emissions(s[i], now, oa, ra)[k]),
    decreases s.len(),
{
    let dl = s.drop_last();
    let pre = sweep_emissions(dl, now, oa, ra);
    if i < s.len() - 1 {
        assert(dl[i] == s[i]);
        lemma_sweep_emits(dl, now, oa, ra, i, k);
        let j = choose|j: int| 0 <= j < pre.len() && pre[j] == sweep_node_emissions(
            s[i],
            now,
            oa,
            ra,
        )[k];
        assert(sweep_emissions(s, now, oa, ra)[j] == pre[j]);
    } else {
        assert(s[i] == s.last());
        assert(sweep_emissions(s, now, oa, ra)[pre.len() + k] == sweep_node_emissions(
            s[i],
            now,
            oa,
            ra,
        )[k]);
    }
}

/// What a NodeOffline event vouches for: at emission the node had been
/// silent for at least `offline_after` seconds, and its stored status
/// after the sweep is Down.
pub proof fn lemma_node_offline_sound(s: Seq<NodeModel>, now: int, oa: int, ra: int, k: int)
    requires
        nodedb::distinct_ids(s),
        0 <= k < sweep_emissions(s, now, oa, ra).len(),
        sweep_emissions(s, now, oa, ra)[k].0.event == EventEvent::NodeOffline,
    ensures
        ({
            let id = sweep_emissions(s, now, oa, ra)[k].0.nodeid;
            let swept = sweep_nodes(s, now, oa, ra);
            &&& nodedb::has_id(s, id)
            &&& now - s[nodedb::idx_of(s, id)].last_seen >= oa
            &&& nodedb::has_id(swept, id)
            &&& swept[nodedb::idx_of(swept, id)].status == NodeStatus::Down
        }),
{
    let em = sweep_emissions(s, now, oa, ra)[k];
    let id = em.0.nodeid;
    lemma_sweep_emission_source(s, now, oa, ra, k);
    let n = s[nodedb::idx_of(s, id)];
    assert(!n.spec_is_dead(now, ra) && n.spec_is_offline(now, oa, ra) && n.status
        == NodeStatus::Up) by {
        if n.spec_is_dead(now, ra) {
            assert(sweep_node_emissions(n, now, oa, ra)[0].0.event == EventEvent::RemoveNode);
        } else if !(n.spec_is_offline(now, oa, ra) && n.status == NodeStatus::Up) {
            assert(sweep_node_emissions(n, now, oa, ra).len() == 0);
        }
    }
    lemma_sweep_lookup(s, now, oa, ra, id);
}

/// What a RemoveNode event vouches for: at emission the node had been
/// silent for at least `remove_after` seconds, and the store no longer
/// holds it.
pub proof fn lemma_remove_node_sound(s: Seq<NodeModel>, now: int, oa: int, ra: int, k: int)
    requires
        nodedb::distinct_ids(s),
        0 <= k < sweep_emissions(s, now, oa, ra).len(),
        sweep_emissions(s, now, oa, ra)[k].0.event == EventEvent::RemoveNode,
    ensures
        ({
            let id = sweep_emissions(s, now, oa, ra)[k].0.nodeid;
            &&& nodedb::has_id(s, id)
            &&& now - s[nodedb::idx_of(s, id)].last_seen >= ra
            &&& !nodedb::has_id(sweep_nodes(s, now, oa, ra), id)
        }),
{
    let em = sweep_emissions(s, now, oa, ra)[k];
    let id = em.0.nodeid;
    lemma_sweep_emission_source(s, now, oa, ra, k);
    let n = s[nodedb::idx_of(s, id)];
    assert(n.spec_is_dead(now, ra)) by {
        if !n.spec_is_dead(now, ra) {
            if n.spec_is_offline(now, oa, ra) && n.status == NodeStatus::Up {
                assert(sweep_node_emissions(n, now, oa, ra)[0].0.event
                    == EventEvent::NodeOffline);
            } else {
                assert(sweep_node_emissions(n, now, oa, ra).len() == 0);
            }
        }
    }
    lemma_sweep_lookup(s, now, oa, ra, id);
}

/// Dead dominates offline: a record silent for more than `remove_after`
/// makes the sweep emit RemoveNode for it, and never NodeOffline.
pub proof fn lemma_dead_dominates_offline(s: Seq<NodeModel>, now: int, oa: int, ra: int, i: int)
    requires
        nodedb::distinct_ids(s),
        0 <= i < s.len(),
        now - s[i].last_seen > ra,
    ensures
        ({
            let ems = sweep_emissions(s, now, oa, ra);
            &&& exists|k: int| 0 <= k < ems.len() && (#[trigger] ems[k]).0.event
                == EventEvent::RemoveNode && ems[k].0.nodeid == s[i].nodeid
            &&& forall|k: int| 0 <= k < ems.len() && (#[trigger] ems[k]).0.nodeid == s[i].nodeid
                ==> ems[k].0.event != EventEvent::NodeOffline
        }),
{
    let ems = sweep_emissions(s, now, oa, ra);
    let n = s[i];
    assert(n.spec_is_dead(now, ra));
    assert(sweep_node_emissions(n, now, oa, ra)[0].0.event == EventEvent::RemoveNode);
    assert(sweep_node_emissions(n, now, oa, ra)[0].0.nodeid == n.nodeid);
    lemma_sweep_emits(s, now, oa, ra, i, 0);
    let w = choose|w: int| 0 <= w < ems.len() && ems[w] == sweep_node_emissions(n, now, oa, ra)[0];
    assert(0 <= w < ems.len() && ems[w].0.event == EventEvent::RemoveNode && ems[w].0.nodeid
        == n.nodeid);
    assert forall|k: int| 0 <= k < ems.len() && (#[trigger] ems[k]).0.nodeid == n.nodeid implies
        ems[k].0.event != EventEvent::NodeOffline by {
        lemma_sweep_emission_source(s, now, oa, ra, k);
        nodedb::lemma_idx_of_unique(s, i, n.nodeid);
        assert(sweep_node_emissions(n, now, oa, ra)[0] == ems[k]);
    }
}

/// NodeOnlineAfterOffline fires on ingestion exactly when the stored
/// status just before the triggering upsert was Down.
pub proof fn lemma_online_after_offline_iff(
    prev: Option<NodeStatus>,
    r: crate::NodeResponseModel,
    payload: crate::json::JsonData,
)
    ensures
        (exists|k: int| 0 <= k < ingest_emissions(prev, r, payload).len() && (
        #[trigger] ingest_emissions(prev, r, payload)[k]).0.event
            == EventEvent::NodeOnlineAfterOffline) <==> prev == Some(NodeStatus::Down),
{
    let ems = ingest_emissions(prev, r, payload);
    if prev == Some(NodeStatus::Down) {
        assert(ems[0].0.event == EventEvent::NodeOnlineAfterOffline);
    }
}


/// Concatenation of sequences is associative.
proof fn lemma_concat_assoc<T>(a: Seq<T>, b: Seq<T>, c: Seq<T>)
    ensures
        (a + b) + c == a + (b + c),
{
    assert((a + b) + c =~= a + (b + c));
}

/// Removing the head of the suffix from a concatenation.
proof fn lemma_concat_remove_head(pre: Seq<NodeModel>, suf: Seq<NodeModel>)
    requires
        suf.len() > 0,
    ensures
        (pre + suf).remove(pre.len() as int) == pre + suf.skip(1),
{
    assert((pre + suf).remove(pre.len() as int) =~= pre + suf.skip(1));
}

/// Replacing the head of the suffix in a concatenation.
proof fn lemma_concat_update_head(pre: Seq<NodeModel>, suf: Seq<NodeModel>, m: NodeModel)
    requires
        suf.len() > 0,
    ensures
        (pre + suf).update(pre.len() as int, m) == pre.push(m) + suf.skip(1),
{
    assert((pre + suf).update(pre.len() as int, m) =~= pre.push(m) + suf.skip(1));
}

/// Moving the head of the suffix over to the prefix.
proof fn lemma_concat_keep_head(pre: Seq<NodeModel>, suf: Seq<NodeModel>)
    requires
        suf.len() > 0,
    ensures
        pre + suf == pre.push(suf[0]) + suf.skip(1),
{
    assert(pre + suf =~= pre.push(suf[0]) + suf.skip(1));
}

/// Skipping one more element.
proof fn lemma_skip_one(s: Seq<NodeModel>, i: int)
    requires
        0 <= i < s.len(),
    ensures
        s.skip(i).skip(1) == s.skip(i + 1),
{
    assert(s.skip(i).skip(1) =~= s.skip(i + 1));
}

/// The views of a list of events, after one more event.
proof fn lemma_events_view_push(out0: Seq<Event>, out1: Seq<Event>, ev: EventData)
    requires
        out1.len() == out0.len() + 1,
        forall|j: int| 0 <= j < out0.len() ==> out1[j] == out0[j],
        out1.last()@ == ev,
    ensures
        events_view(out1) == events_view(out0).push(ev),
{
    assert forall|j: int| 0 <= j < out1.len() implies events_view(out1)[j] == events_view(
        out0,
    ).push(ev)[j] by {
        assert(events_view(out1)[j] == out1[j]@);
        if j < out0.len() {
            assert(events_view(out0)[j] == out0[j]@);
        }
    }
    assert(events_view(out1) =~= events_view(out0).push(ev));
}

/// The views of a list of addresses, after one more address.
proof fn lemma_views_of_push(out0: Seq<String>, out1: Seq<String>, v: Seq<char>)
    requires
        out1.len() == out0.len() + 1,
        forall|j: int| 0 <= j < out0.len() ==> out1[j] == out0[j],
        out1.last()@ == v,
    ensures
        crate::json::views_of(out1) == crate::json::views_of(out0).push(v),
{
    assert forall|j: int| 0 <= j < out1.len() implies crate::json::views_of(out1)[j]
        == crate::json::views_of(out0).push(v)[j] by {
        assert(crate::json::views_of(out1)[j] == out1[j]@);
        if j < out0.len() {
            assert(crate::json::views_of(out0)[j] == out0[j]@);
        }
    }
    assert(crate::json::views_of(out1) =~= crate::json::views_of(out0).push(v));
}

/// The events of a list of emissions, after one more emission.
proof fn lemma_emission_events_push(ems: Seq<Emission>, em: Emission)
    ensures
        emission_events(ems.push(em)) == emission_events(ems).push(em.0),
{
    assert(emission_events(ems.push(em)) =~= emission_events(ems).push(em.0));
}

/// One sweep step: what taking in one more record does to the swept
/// store, the emissions and the re-poll list.
proof fn lemma_sweep_step(nodes0: Seq<NodeModel>, i: int, now: int, oa: int, ra: int, iv: int)
    requires
        0 <= i < nodes0.len(),
    ensures
        ({
            let m = nodes0[i];
            let pre_nodes = sweep_nodes(nodes0.take(i), now, oa, ra);
            let pre_ems = sweep_emissions(nodes0.take(i), now, oa, ra);
            let pre_rep = sweep_repolls(nodes0.take(i), now, oa, ra, iv);
            &&& sweep_nodes(nodes0.take(i + 1), now, oa, ra) == (match sweep_node(m, now, oa, ra) {
                None => pre_nodes,
                Some(sm) => pre_nodes.push(sm),
            })
            &&& sweep_emissions(nodes0.take(i + 1), now, oa, ra) == (
            if m.spec_is_dead(now, ra) {
                pre_ems.push((plain_event(EventEvent::RemoveNode, m.nodeid, now), m.last_response))
            } else if m.spec_is_offline(now, oa, ra) && m.status == NodeStatus::Up {
                pre_ems.push((plain_event(EventEvent::NodeOffline, m.nodeid, now), m.last_response))
            } else {
                pre_ems
            })
            &&& sweep_repolls(nodes0.take(i + 1), now, oa, ra, iv) == (
            if !m.spec_is_dead(now, ra) && !(m.spec_is_offline(now, oa, ra) && m.status
                == NodeStatus::Up) && repoll_due(m, now, iv) {
                pre_rep.push(m.last_address)
            } else {
                pre_rep
            })
        }),
{
    let m = nodes0[i];
    assert(nodes0.take(i + 1).drop_last() =~= nodes0.take(i));
    assert(nodes0.take(i + 1).last() == m);
    let pre_nodes = sweep_nodes(nodes0.take(i), now, oa, ra);
    let pre_ems = sweep_emissions(nodes0.take(i), now, oa, ra);
    let pre_rep = sweep_repolls(nodes0.take(i), now, oa, ra, iv);
    match sweep_node(m, now, oa, ra) {
        None => {
            assert(sweep_nodes(nodes0.take(i + 1), now, oa, ra) =~= pre_nodes);
        },
        Some(sm) => {
            assert(sweep_nodes(nodes0.take(i + 1), now, oa, ra) =~= pre_nodes.push(sm));
        },
    }
    if m.spec_is_dead(now, ra) {
        let em = (plain_event(EventEvent::RemoveNode, m.nodeid, now), m.last_response);
        assert(sweep_node_emissions(m, now, oa, ra) =~= seq![em]);
        assert(sweep_emissions(nodes0.take(i + 1), now, oa, ra) =~= pre_ems.push(em));
    } else if m.spec_is_offline(now, oa, ra) && m.status == NodeStatus::Up {
        let em = (plain_event(EventEvent::NodeOffline, m.nodeid, now), m.last_response);
        assert(sweep_node_emissions(m, now, oa, ra) =~= seq![em]);
        assert(sweep_emissions(nodes0.take(i + 1), now, oa, ra) =~= pre_ems.push(em));
    } else {
        assert(sweep_emissions(nodes0.take(i + 1), now, oa, ra) =~= pre_ems);
    }
    if !m.spec_is_dead(now, ra) && !(m.spec_is_offline(now, oa, ra) && m.status == NodeStatus::Up)
        && repoll_due(m, now, iv) {
        assert(sweep_repolls(nodes0.take(i + 1), now, oa, ra, iv) =~= pre_rep.push(m.last_address));
    } else {
        assert(sweep_repolls(nodes0.take(i + 1), now, oa, ra, iv) =~= pre_rep);
    }
}

/// The engine: it ingests telemetry records into the store, runs the
/// periodic liveness sweep, and publishes the events both make to the
/// bounded log, to the hook dispatch queue, and to its caller.
pub struct Collector {
    nodedb: NodeDb,
    er: EventRunner,
    received_counter: usize,
    offline_after: u64,
    remove_after: u64,
    interval: u64,
}

impl Collector {
    /// The stored records, in store order.
    pub closed spec fn nodes(self) -> Seq<NodeModel> {
        self.nodedb.nodes()
    }

    /// The logged events, oldest first.
    pub closed spec fn logged(self) -> Seq<EventData> {
        self.nodedb.events()
    }

    /// How many events the log holds at most.
    pub closed spec fn log_capacity(self) -> int {
        self.nodedb.capacity()
    }

    /// The undispatched hook jobs, oldest first.
    pub closed spec fn jobs(self) -> Seq<HookJobData> {
        self.er.jobs()
    }

    /// The hook configuration.
    pub closed spec fn hooks(self) -> config::EventsData {
        self.er.hooks()
    }

    /// How many responses were ingested.
    pub closed spec fn received(self) -> int {
        self.received_counter as int
    }

    /// Seconds of silence before a node counts as offline.
    pub closed spec fn offline_after(self) -> int {
        self.offline_after as int
    }

    /// Seconds of silence before a node is purged.
    pub closed spec fn remove_after(self) -> int {
        self.remove_after as int
    }

    /// Seconds between two bulk requests.
    pub closed spec fn interval(self) -> int {
        self.interval as int
    }

    /// The store keeps one record per id.
    pub open spec fn wf(self) -> bool {
        nodedb::distinct_ids(self.nodes())
    }

    /// The settings the engine was built with, which no call changes.
    pub open spec fn same_setup(self, other: Collector) -> bool {
        &&& self.hooks() == other.hooks()
        &&& self.log_capacity() == other.log_capacity()
        &&& self.offline_after() == other.offline_after()
        &&& self.remove_after() == other.remove_after()
        &&& self.interval() == other.interval()
    }

    /// An engine over the given store, set up as the configuration says.
    pub fn new(nodedb: NodeDb, config: config::Config) -> (r: Self)
        ensures
            r.nodes() == nodedb.nodes(),
            r.logged() == nodedb.events(),
            r.log_capacity() == nodedb.capacity(),
            r.jobs() == Seq::<HookJobData>::empty(),
            r.hooks() == config.events@,
            r.received() == 0,
            r.offline_after() == config.database.offline_after as int,
            r.remove_after() == config.database.remove_after as int,
            r.interval() == config.requestd.interval as int,
            nodedb.wf() ==> r.wf(),
    {
        Collector {
            nodedb,
            er: EventRunner::new(config.events),
            received_counter: 0,
            offline_after: config.database.offline_after,
            remove_after: config.database.remove_after,
            interval: config.requestd.interval,
        }
    }

    /// How many responses this engine has ingested.
    pub fn get_num_received(&self) -> (r: usize)
        ensures
            r == self.received(),
    {
        self.received_counter
    }

    /// The most recent events, oldest to newest.
    pub fn get_event_history(&self) -> (r: Vec<Event>)
        ensures
            events_view(r@) == self.logged().skip(
                if self.logged().len() <= crate::DEFAULT_EVENT_HISTORY_LIMIT as int {
                    0
                } else {
                    self.logged().len() - crate::DEFAULT_EVENT_HISTORY_LIMIT as int
                },
            ),
    {
        self.nodedb.get_all_events(crate::DEFAULT_EVENT_HISTORY_LIMIT)
    }

    /// The oldest undispatched hook job, for a worker to run.
    pub fn next_hook_job(&mut self) -> (r: Option<HookJob>)
        ensures
            final(self).same_setup(*old(self)),
            final(self).nodes() == old(self).nodes(),
            final(self).logged() == old(self).logged(),
            final(self).received() == old(self).received(),
            final(self).wf() == old(self).wf(),
            match r {
                Some(job) => old(self).jobs().len() > 0 && job@ == old(self).jobs()[0]
                    && final(self).jobs() == old(self).jobs().skip(1),
                None => old(self).jobs().len() == 0 && final(self).jobs() == old(self).jobs(),
            },
    {
        self.er.pop_job()
    }

    /// The queue-depth gauge: how many hook jobs wait undispatched.
    pub fn hooks_waiting(&self) -> (r: usize)
        ensures
            r == self.jobs().len(),
    {
        self.er.depth()
    }

    /// Logs one event and queues its hook jobs.
    fn emit_event(&mut self, event: Event, payload: &crate::JsonValue)
        ensures
            final(self).same_setup(*old(self)),
            final(self).nodes() == old(self).nodes(),
            final(self).received() == old(self).received(),
            final(self).wf() == old(self).wf(),
            final(self).logged() == log_append(old(self).logged(), old(self).log_capacity(), event@),
            final(self).jobs() == old(self).jobs() + jobs_for(
                kind_hooks(old(self).hooks(), event@.event),
                event@,
                payload@,
            ),
    {
        self.nodedb.insert_event(&event);
        self.er.push_event((event, payload.clone()));
    }

    /// Ingests one telemetry record: the store takes the upsert, the
    /// counter moves, and what that emits — NewNode for an unknown id,
    /// NodeOnlineAfterOffline exactly when the stored status just before
    /// the upsert was Down, and NodeUpdate always — is logged, queued for
    /// the hooks, and handed back for the subscriber fan-out.
    pub fn receive(&mut self, nodedata: NodeResponse) -> (out: Vec<Event>)
        requires
            old(self).wf(),
        ensures
            final(self).wf(),
            final(self).same_setup(*old(self)),
            final(self).received() == if old(self).received() < usize::MAX {
                old(self).received() + 1
            } else {
                old(self).received()
            },
            !nodedb::has_id(old(self).nodes(), nodedata@.nodeid) ==> final(self).nodes() == old(
                self,
            ).nodes().push(nodedb::fresh_node(nodedata@)),
            nodedb::has_id(old(self).nodes(), nodedata@.nodeid) ==> {
                let i = nodedb::idx_of(old(self).nodes(), nodedata@.nodeid);
                final(self).nodes() == old(self).nodes().update(
                    i,
                    nodedb::merged_node(old(self).nodes()[i], nodedata@),
                )
            },
            events_view(out@) == emission_events(
                ingest_emissions(
                    ingest_status(old(self).nodes(), nodedata@.nodeid),
                    nodedata@,
                    stored_response(old(self).nodes(), nodedata@),
                ),
            ),
            final(self).logged() == log_append_seq(
                old(self).logged(),
                old(self).log_capacity(),
                events_view(out@),
            ),
            final(self).jobs() == old(self).jobs() + jobs_for_emissions(
                old(self).hooks(),
                ingest_emissions(
                    ingest_status(old(self).nodes(), nodedata@.nodeid),
                    nodedata@,
                    stored_response(old(self).nodes(), nodedata@),
                ),
            ),
    {
        if self.received_counter < usize::MAX {
            self.received_counter = self.received_counter + 1;
        }
        let ghost nodes0 = self.nodes();
        let ghost prev_status = ingest_status(nodes0, nodedata@.nodeid);
        let ghost payload_model = stored_response(nodes0, nodedata@);
        let ghost ems = ingest_emissions(prev_status, nodedata@, payload_model);

        let prev = self.nodedb.insert_node(&nodedata);
        proof {
            match prev {
                None => {
                    nodedb::lemma_idx_of_unique(
                        self.nodes(),
                        nodes0.len() as int,
                        nodedata@.nodeid,
                    );
                },
                Some(_) => {
                    let i = nodedb::idx_of(nodes0, nodedata@.nodeid);
                    nodedb::lemma_idx_of_unique(self.nodes(), i, nodedata@.nodeid);
                },
            }
        }
        let payload = match self.nodedb.get_node(&nodedata.nodeid) {
            Some(node) => node.last_response,
            None => nodedata.data,
        };
        proof {
            assert(payload@ == payload_model);
        }

        let ts = nodedata.timestamp;
        let mut out: Vec<Event> = Vec::new();
        match prev {
            None => {
                let e = Event::new_at(EventEvent::NewNode, &nodedata.nodeid, ts);
                out.push(e.clone());
                self.emit_event(e, &payload);
            },
            Some(NodeStatus::Down) => {
                let e = Event::new_at(EventEvent::NodeOnlineAfterOffline, &nodedata.nodeid, ts);
                out.push(e.clone());
                self.emit_event(e, &payload);
            },
            Some(NodeStatus::Up) => {},
        }
        let e = Event::new_at(EventEvent::NodeUpdate, &nodedata.nodeid, ts);
        out.push(e.clone());
        self.emit_event(e, &payload);

        proof {
            let cap = old(self).log_capacity();
            let cfg = old(self).hooks();
            let log0 = old(self).logged();
            let evs = events_view(out@);
            assert(evs =~= emission_events(ems));
            assert(jobs_for_emissions(cfg, Seq::<Emission>::empty()) =~= Seq::<
                HookJobData,
            >::empty());
            if ems.len() == 2 {
                assert(evs =~= Seq::<EventData>::empty().push(evs[0]).push(evs[1]));
                lemma_log_append_seq_push(log0, cap, Seq::<EventData>::empty().push(evs[0]), evs[1]);
                lemma_log_append_seq_push(log0, cap, Seq::<EventData>::empty(), evs[0]);
                assert(log_append_seq(log0, cap, Seq::<EventData>::empty()) == log0);
                assert(ems =~= Seq::<Emission>::empty().push(ems[0]).push(ems[1]));
                lemma_jobs_for_emissions_push(cfg, Seq::<Emission>::empty().push(ems[0]), ems[1]);
                lemma_jobs_for_emissions_push(cfg, Seq::<Emission>::empty(), ems[0]);
                assert(final(self).jobs() =~= old(self).jobs() + jobs_for_emissions(cfg, ems));
            } else {
                assert(evs =~= Seq::<EventData>::empty().push(evs[0]));
                lemma_log_append_seq_push(log0, cap, Seq::<EventData>::empty(), evs[0]);
                assert(log_append_seq(log0, cap, Seq::<EventData>::empty()) == log0);
                assert(ems =~= Seq::<Emission>::empty().push(ems[0]));
                lemma_jobs_for_emissions_push(cfg, Seq::<Emission>::empty(), ems[0]);
                assert(final(self).jobs() =~= old(self).jobs() + jobs_for_emissions(cfg, ems));
            }
        }
        out
    }


    /// One step of the sweep: applies the time-threshold transition for
    /// one snapshotted record and carries every running total one record
    /// further.
    #[verifier::spinoff_prover]
    fn sweep_step(
        &mut self,
        n: &nodedb::Node,
        now: Timestamp,
        out_events: &mut Vec<Event>,
        repolls: &mut Vec<String>,
        Ghost(nodes0): Ghost<Seq<NodeModel>>,
        Ghost(i): Ghost<int>,
        Ghost(log0): Ghost<Seq<EventData>>,
        Ghost(jobs0): Ghost<Seq<HookJobData>>,
    )
        requires
            old(self).wf(),
            0 <= i < nodes0.len(),
            n@ == nodes0[i],
            old(self).nodes() == sweep_nodes(
                nodes0.take(i),
                now as int,
                old(self).offline_after(),
                old(self).remove_after(),
            ) + nodes0.skip(i),
            events_view(old(out_events)@) == emission_events(
                sweep_emissions(
                    nodes0.take(i),
                    now as int,
                    old(self).offline_after(),
                    old(self).remove_after(),
                ),
            ),
            crate::json::views_of(old(repolls)@) == sweep_repolls(
                nodes0.take(i),
                now as int,
                old(self).offline_after(),
                old(self).remove_after(),
                old(self).interval(),
            ),
            old(self).logged() == log_append_seq(
                log0,
                old(self).log_capacity(),
                emission_events(
                    sweep_emissions(
                        nodes0.take(i),
                        now as int,
                        old(self).offline_after(),
                        old(self).remove_after(),
                    ),
                ),
            ),
            old(self).jobs() == jobs0 + jobs_for_emissions(
                old(self).hooks(),
                sweep_emissions(
                    nodes0.take(i),
                    now as int,
                    old(self).offline_after(),
                    old(self).remove_after(),
                ),
            ),
        ensures
            final(self).wf(),
            final(self).same_setup(*old(self)),
            final(self).received() == old(self).received(),
            final(self).nodes() == sweep_nodes(
                nodes0.take(i + 1),
                now as int,
                old(self).offline_after(),
                old(self).remove_after(),
            ) + nodes0.skip(i + 1),
            events_view(final(out_events)@) == emission_events(
                sweep_emissions(
                    nodes0.take(i + 1),
                    now as int,
                    old(self).offline_after(),
                    old(self).remove_after(),
                ),
            ),
            crate::json::views_of(final(repolls)@) == sweep_repolls(
                nodes0.take(i + 1),
                now as int,
                old(self).offline_after(),
                old(self).remove_after(),
                old(self).interval(),
            ),
            final(self).logged() == log_append_seq(
                log0,
                old(self).log_capacity(),
                emission_events(
                    sweep_emissions(
                        nodes0.take(i + 1),
                        now as int,
                        old(self).offline_after(),
                        old(self).remove_after(),
                    ),
                ),
            ),
            final(self).jobs() == jobs0 + jobs_for_emissions(
                old(self).hooks(),
                sweep_emissions(
                    nodes0.take(i + 1),
                    now as int,
                    old(self).offline_after(),
                    old(self).remove_after(),
                ),
            ),
    {
        let ghost oa = old(self).offline_after();
        let ghost ra = old(self).remove_after();
        let ghost iv = old(self).interval();
        let ghost cap = old(self).log_capacity();
        let ghost cfg = old(self).hooks();
        let ghost pre = sweep_nodes(nodes0.take(i), now as int, oa, ra);
        let ghost suf = nodes0.skip(i);
        let ghost cur = old(self).nodes();
        let ghost m = nodes0[i];
        let ghost pre_ems = sweep_emissions(nodes0.take(i), now as int, oa, ra);
        proof {
            assert(suf[0] == nodes0[i]);
            assert(cur[pre.len() as int] == suf[0]);
            lemma_sweep_step(nodes0, i, now as int, oa, ra, iv);
            lemma_skip_one(nodes0, i);
        }
        if n.is_dead(now, self.remove_after) {
            proof {
                nodedb::lemma_idx_of_unique(cur, pre.len() as int, m.nodeid);
            }
            self.nodedb.delete_node(&n.nodeid);
            proof {
                lemma_concat_remove_head(pre, suf);
            }
            let e = Event::new_at(EventEvent::RemoveNode, &n.nodeid, now);
            let ghost out0 = out_events@;
            out_events.push(e.clone());
            self.emit_event(e, &n.last_response);
            proof {
                let em = (plain_event(EventEvent::RemoveNode, m.nodeid, now as int),
                    m.last_response);
                lemma_events_view_push(out0, out_events@, em.0);
                lemma_emission_events_push(pre_ems, em);
                lemma_log_append_seq_push(log0, cap, emission_events(pre_ems), em.0);
                lemma_jobs_for_emissions_push(cfg, pre_ems, em);
                lemma_concat_assoc(
                    jobs0,
                    jobs_for_emissions(cfg, pre_ems),
                    jobs_for(kind_hooks(cfg, em.0.event), em.0, em.1),
                );
            }
        } else if n.is_offline(now, self.offline_after, self.remove_after) && n.status
            == NodeStatus::Up {
            proof {
                nodedb::lemma_idx_of_unique(cur, pre.len() as int, m.nodeid);
            }
            self.nodedb.set_status(&n.nodeid, NodeStatus::Down);
            proof {
                lemma_concat_update_head(pre, suf, NodeModel { status: NodeStatus::Down, ..m });
            }
            let e = Event::new_at(EventEvent::NodeOffline, &n.nodeid, now);
            let ghost out0 = out_events@;
            out_events.push(e.clone());
            self.emit_event(e, &n.last_response);
            proof {
                let em = (plain_event(EventEvent::NodeOffline, m.nodeid, now as int),
                    m.last_response);
                lemma_events_view_push(out0, out_events@, em.0);
                lemma_emission_events_push(pre_ems, em);
                lemma_log_append_seq_push(log0, cap, emission_events(pre_ems), em.0);
                lemma_jobs_for_emissions_push(cfg, pre_ems, em);
                lemma_concat_assoc(
                    jobs0,
                    jobs_for_emissions(cfg, pre_ems),
                    jobs_for(kind_hooks(cfg, em.0.event), em.0, em.1),
                );
            }
        } else {
            proof {
                lemma_concat_keep_head(pre, suf);
            }
            if n.status == NodeStatus::Up && n.since_last_seen(now) > 2 * (
            self.interval as i128) {
                let ghost rep0 = repolls@;
                repolls.push(n.last_address.clone());
                proof {
                    lemma_views_of_push(rep0, repolls@, m.last_address);
                }
            }
        }
    }

    /// The liveness sweep, run on a timer over every stored record: a
    /// dead node is deleted and emits RemoveNode — never also NodeOffline;
    /// a silent node that was up goes down and emits NodeOffline; an up
    /// node overdue by more than two poll intervals is named for a
    /// targeted re-poll. What it emits is logged, queued for the hooks,
    /// and handed back beside the re-poll addresses.
    #[verifier::loop_isolation(false)]
    pub fn evaluate_database(&mut self, now: Timestamp) -> (r: (Vec<Event>, Vec<String>))
        requires
            old(self).wf(),
        ensures
            final(self).wf(),
            final(self).same_setup(*old(self)),
            final(self).received() == old(self).received(),
            final(self).nodes() == sweep_nodes(
                old(self).nodes(),
                now as int,
                old(self).offline_after(),
                old(self).remove_after(),
            ),
            events_view(r.0@) == emission_events(
                sweep_emissions(
                    old(self).nodes(),
                    now as int,
                    old(self).offline_after(),
                    old(self).remove_after(),
                ),
            ),
            crate::json::views_of(r.1@) == sweep_repolls(
                old(self).nodes(),
                now as int,
                old(self).offline_after(),
                old(self).remove_after(),
                old(self).interval(),
            ),
            final(self).logged() == log_append_seq(
                old(self).logged(),
                old(self).log_capacity(),
                emission_events(
                    sweep_emissions(
                        old(self).nodes(),
                        now as int,
                        old(self).offline_after(),
                        old(self).remove_after(),
                    ),
                ),
            ),
            final(self).jobs() == old(self).jobs() + jobs_for_emissions(
                old(self).hooks(),
                sweep_emissions(
                    old(self).nodes(),
                    now as int,
                    old(self).offline_after(),
                    old(self).remove_after(),
                ),
            ),
    {
        let ghost nodes0 = old(self).nodes();
        let ghost oa = old(self).offline_after();
        let ghost ra = old(self).remove_after();
        let ghost iv = old(self).interval();
        let ghost cap = old(self).log_capacity();
        let ghost cfg = old(self).hooks();
        let ghost log0 = old(self).logged();
        let ghost jobs0 = old(self).jobs();

        let snapshot = self.nodedb.get_all_nodes();
        let mut out_events: Vec<Event> = Vec::new();
        let mut repolls: Vec<String> = Vec::new();
        proof {
            assert(nodes0.take(0) =~= Seq::<NodeModel>::empty());
            assert(nodes0.skip(0) =~= nodes0);
            assert(self.nodes() =~= sweep_nodes(nodes0.take(0), now as int, oa, ra) + nodes0.skip(
                0,
            ));
            assert(events_view(out_events@) =~= emission_events(
                sweep_emissions(nodes0.take(0), now as int, oa, ra),
            ));
            assert(crate::json::views_of(repolls@) =~= sweep_repolls(
                nodes0.take(0),
                now as int,
                oa,
                ra,
                iv,
            ));
            assert(self.jobs() =~= jobs0 + jobs_for_emissions(
                cfg,
                sweep_emissions(nodes0.take(0), now as int, oa, ra),
            ));
        }
        let mut i: usize = 0;
        while i < snapshot.len()
            invariant
                i <= snapshot.len(),
                self.wf(),
                self.same_setup(*old(self)),
                self.received() == old(self).received(),
                self.nodes() == sweep_nodes(nodes0.take(i as int), now as int, oa, ra)
                    + nodes0.skip(i as int),
                events_view(out_events@) == emission_events(
                    sweep_emissions(nodes0.take(i as int), now as int, oa, ra),
                ),
                crate::json::views_of(repolls@) == sweep_repolls(
                    nodes0.take(i as int),
                    now as int,
                    oa,
                    ra,
                    iv,
                ),
                self.logged() == log_append_seq(
                    log0,
                    cap,
                    emission_events(sweep_emissions(nodes0.take(i as int), now as int, oa, ra)),
                ),
                self.jobs() == jobs0 + jobs_for_emissions(
                    cfg,
                    sweep_emissions(nodes0.take(i as int), now as int, oa, ra),
                ),
            decreases snapshot.len() - i,
        {
            proof {
                assert(nodedb::nodes_view(snapshot@)[i as int] == snapshot@[i as int]@);
            }
            self.sweep_step(
                &snapshot[i],
                now,
                &mut out_events,
                &mut repolls,
                Ghost(nodes0),
                Ghost(i as int),
                Ghost(log0),
                Ghost(jobs0),
            );
            i = i + 1;
        }
        proof {
            assert(nodes0.take(snapshot@.len() as int) =~= nodes0);
        }
        (out_events, repolls)
    }
}

} // verus!
