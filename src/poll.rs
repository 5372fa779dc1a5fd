use vstd::prelude::*;

use crate::summary::{snapshot_view, snapshots_equal, SummaryView, TaskSummary};

verus! {

/// What follows a cycle.
#[derive(Clone, Copy, Debug, PartialEq, Eq, Structural)]
pub enum Next {
    /// Wait, then fetch again.
    SleepThenFetch,
    /// The watch is over.
    Stop,
}

/// The decision taken on a fetched snapshot.
#[derive(Clone, Copy, Debug, PartialEq, Eq, Structural)]
pub struct Decision {
    /// Whether the snapshot is to be rendered.
    pub render: bool,
    pub next: Next,
}

/// The poll loop's state: its mode and the snapshot it rendered last.
pub struct Watcher {
    one_shot: bool,
    last: Option<Vec<TaskSummary>>,
}

impl Watcher {
    /// The snapshot rendered last, if any.
    pub closed spec fn last_view(&self) -> Option<Seq<SummaryView>> {
        match self.last {
            Some(v) => Some(snapshot_view(v@)),
            None => None,
        }
    }

    pub closed spec fn spec_one_shot(&self) -> bool {
        self.one_shot
    }

    /// A watcher that has rendered nothing yet.
    pub fn new(one_shot: bool) -> (r: Watcher)
        ensures
            r.spec_one_shot() == one_shot,
            r.last_view() is None,
    {
        Watcher { one_shot, last: None }
    }

    pub fn one_shot(&self) -> (r: bool)
        ensures
            r == self.spec_one_shot(),
    {
        self.one_shot
    }

    /// Takes the snapshot of a cycle. It is rendered on the first cycle and
    /// whenever it differs from the one rendered last, which it then replaces.
    /// A one-shot watcher stops after its cycle; another goes on.
    pub fn on_snapshot(&mut self, snapshot: Vec<TaskSummary>) -> (d: Decision)
        ensures
            d.render == match old(self).last_view() {
                None => true,
                Some(prev) => prev != snapshot_view(snapshot@),
            },
            final(self).last_view() == if d.render {
                Some(snapshot_view(snapshot@))
            } else {
                old(self).last_view()
            },
            final(self).spec_one_shot() == old(self).spec_one_shot(),
            d.next == if old(self).spec_one_shot() {
                Next::Stop
            } else {
                Next::SleepThenFetch
            },
    {
        let render = match &self.last {
            None => true,
            Some(prev) => !snapshots_equal(prev, &snapshot),
        };
        if render {
            self.last = Some(snapshot);
        }
        let next = if self.one_shot {
            Next::Stop
        } else {
            Next::SleepThenFetch
        };
        Decision { render, next }
    }

    /// The snapshot rendered last, if any.
    pub fn rendered(&self) -> (r: Option<&Vec<TaskSummary>>)
        ensures
            match r {
                Some(v) => self.last_view() == Some(snapshot_view(v@)),
                None => self.last_view() is None,
            },
    {
        match &self.last {
            Some(v) => Some(v),
            None => None,
        }
    }
}

} // verus!
