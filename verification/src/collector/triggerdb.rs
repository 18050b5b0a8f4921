//! A small table remembering which trigger last fired per node, so the
//! same transition is not acted on twice.

use vstd::prelude::*;

use crate::NodeId;

verus! {

/// The transitions a trigger can remember.
#[derive(Clone, Debug, Copy, PartialEq, Eq, Structural)]
pub enum Trigger {
    NodeOffline,
    NodeOnline,
}

impl Trigger {
    /// The trigger's written name.
    pub fn to_string(&self) -> (r: String)
        ensures
            r@ == self.spec_name(),
    {
        match self {
            Self::NodeOffline => "NodeOffline".to_owned(),
            Self::NodeOnline => "NodeOnline".to_owned(),
        }
    }

    /// The written name of each trigger.
    pub open spec fn spec_name(self) -> Seq<char> {
        match self {
            Self::NodeOffline => "NodeOffline"@,
            Self::NodeOnline => "NodeOnline"@,
        }
    }

    /// The trigger whose written name this is, if any.
    pub fn from_str(s: &str) -> (r: Result<Self, String>)
        ensures
            r matches Ok(t) ==> s@ == t.spec_name(),
            s@ == "NodeOffline"@ ==> r == Ok::<Trigger, String>(Trigger::NodeOffline),
            s@ == "NodeOnline"@ ==> r == Ok::<Trigger, String>(Trigger::NodeOnline),
            r is Err <==> s@ != "NodeOffline"@ && s@ != "NodeOnline"@,
    {
        proof {
            reveal_strlit("NodeOffline");
            reveal_strlit("NodeOnline");
            assert("NodeOffline"@.len() == 11);
            assert("NodeOnline"@.len() == 10);
        }
        let owned = s.to_owned();
        if owned == "NodeOffline".to_owned() {
            Ok(Self::NodeOffline)
        } else if owned == "NodeOnline".to_owned() {
            Ok(Self::NodeOnline)
        } else {
            Err("Unknown Trigger".to_owned())
        }
    }
}

/// One remembered trigger for one node.
#[derive(Debug)]
pub struct TriggerStatus {
    pub nodeid: NodeId,
    pub status: Trigger,
}

/// Mathematical model of a remembered trigger.
pub ghost struct TriggerStatusData {
    pub nodeid: Seq<char>,
    pub status: Trigger,
}

impl View for TriggerStatus {
    type V = TriggerStatusData;

    open spec fn view(&self) -> TriggerStatusData {
        TriggerStatusData { nodeid: self.nodeid@, status: self.status }
    }
}

impl Clone for TriggerStatus {
    /// A clone carries the same model.
    fn clone(&self) -> (res: Self)
        ensures
            res@ == self@,
    {
        TriggerStatus { nodeid: self.nodeid.clone(), status: self.status }
    }
}

/// The views of a list of remembered triggers.
pub open spec fn triggers_view(s: Seq<TriggerStatus>) -> Seq<TriggerStatusData> {
    s.map_values(|t: TriggerStatus| t@)
}

/// The table of remembered triggers, one entry per (node, trigger) pair.
pub struct TriggerDb {
    entries: Vec<TriggerStatus>,
}

impl TriggerDb {
    /// The remembered entries, in insertion order.
    pub closed spec fn entries(self) -> Seq<TriggerStatusData> {
        triggers_view(self.entries@)
    }

    /// An empty table.
    pub fn new() -> (r: Self)
        ensures
            r.entries() == Seq::<TriggerStatusData>::empty(),
    {
        let r = TriggerDb { entries: Vec::new() };
        proof {
            assert(r.entries() =~= Seq::<TriggerStatusData>::empty());
        }
        r
    }

    /// The entries remembered for one node, in insertion order.
    pub fn get_status(&self, nodeid: &NodeId) -> (r: Vec<TriggerStatus>)
        ensures
            triggers_view(r@) == self.entries().filter(
                |t: TriggerStatusData| t.nodeid == nodeid@,
            ),
    {
        let mut out: Vec<TriggerStatus> = Vec::new();
        let mut i: usize = 0;
        proof {
            assert(self.entries().take(0) =~= Seq::<TriggerStatusData>::empty());
            reveal(Seq::filter);
        }
        while i < self.entries.len()
            invariant
                i <= self.entries.len(),
                self.entries().len() == self.entries@.len(),
                triggers_view(out@) == self.entries().take(i as int).filter(
                    |t: TriggerStatusData| t.nodeid == nodeid@,
                ),
            decreases self.entries.len() - i,
        {
            let ghost prefix = self.entries().take(i as int);
            let ghost longer = self.entries().take(i + 1);
            proof {
                reveal(Seq::filter);
                assert(longer.drop_last() =~= prefix);
                assert(longer.last() == self.entries()[i as int]);
            }
            if self.entries[i].nodeid == *nodeid {
                out.push(self.entries[i].clone());
                proof {
                    assert(triggers_view(out@) =~= longer.filter(
                        |t: TriggerStatusData| t.nodeid == nodeid@,
                    ));
                }
            } else {
                proof {
                    assert(triggers_view(out@) =~= longer.filter(
                        |t: TriggerStatusData| t.nodeid == nodeid@,
                    ));
                }
            }
            i = i + 1;
        }
        proof {
            assert(self.entries().take(self.entries@.len() as int) =~= self.entries());
        }
        out
    }

    /// Whether any trigger is remembered for this node.
    pub fn trigger_is_present(&self, nodeid: &NodeId) -> (r: bool)
        ensures
            r == exists|i: int| 0 <= i < self.entries().len() && (#[trigger] self.entries()[i]).nodeid
                == nodeid@,
    {
        let mut i: usize = 0;
        while i < self.entries.len()
            invariant
                i <= self.entries.len(),
                self.entries().len() == self.entries@.len(),
                forall|j: int| 0 <= j < i ==> (#[trigger] self.entries()[j]).nodeid != nodeid@,
            decreases self.entries.len() - i,
        {
            if self.entries[i].nodeid == *nodeid {
                proof {
                    assert(self.entries()[i as int].nodeid == nodeid@);
                }
                return true;
            }
            i = i + 1;
        }
        false
    }

    /// Remembers a trigger for a node; a pair that is already there is
    /// left alone. Says how many entries that added.
    pub fn set_trigger(&mut self, n: &NodeId, t: Trigger) -> (r: usize)
        ensures
            (exists|i: int|
                0 <= i < old(self).entries().len()
                    && (#[trigger] old(self).entries()[i]).nodeid == n@
                    && old(self).entries()[i].status == t) ==> r == 0
                && final(self).entries() == old(self).entries(),
            !(exists|i: int|
                0 <= i < old(self).entries().len()
                    && (#[trigger] old(self).entries()[i]).nodeid == n@
                    && old(self).entries()[i].status == t) ==> r == 1
                && final(self).entries() == old(self).entries().push(
                (TriggerStatusData { nodeid: n@, status: t }),
            ),
    {
        let mut i: usize = 0;
        while i < self.entries.len()
            invariant
                i <= self.entries.len(),
                self.entries().len() == self.entries@.len(),
                forall|j: int| 0 <= j < i ==> !((#[trigger] self.entries()[j]).nodeid == n@
                    && self.entries()[j].status == t),
            decreases self.entries.len() - i,
        {
            if self.entries[i].nodeid == *n && self.entries[i].status == t {
                proof {
                    assert(self.entries()[i as int].nodeid == n@ && self.entries()[i as int].status
                        == t);
                }
                return 0;
            }
            i = i + 1;
        }
        self.entries.push(TriggerStatus { nodeid: n.clone(), status: t });
        proof {
            assert(final(self).entries() =~= old(self).entries().push(
                TriggerStatusData { nodeid: n@, status: t },
            ));
        }
        1
    }
}

} // verus!
