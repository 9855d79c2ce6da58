//! The visibility tracker: derives "the current workspace has at least one
//! visible window" from a fresh client listing on every relevant event.
//!
//! The tracker keeps no per-window state — only the last published boolean.
//! When a control query or a parse fails, the reconciliation step is
//! abandoned silently and the previous value stays authoritative.

use vstd::prelude::*;
use crate::model::Client;
use crate::model::WorkspaceInfo;
use crate::events::EventKind;
use crate::events::classify;
use crate::events::parse_id_name;
use crate::events::spec_classify;
use crate::events::spec_event_name;
use crate::events::spec_event_payload;
use crate::events::spec_id_name;
use crate::events::split_event;

verus! {

/// What an event line asks of the visibility tracker.
#[derive(Debug, PartialEq, Eq)]
pub enum VisAction {
    /// Re-derive visibility; the event itself named the current workspace,
    /// so no active-workspace query is needed.
    ResyncWith(WorkspaceInfo),
    /// Re-derive visibility; the current workspace must be queried.
    Resync,
    /// Nothing to do, or a malformed payload: the step is skipped and the
    /// previous value stays.
    Ignore,
}

/// Decides what a raw event line asks of the visibility tracker: the
/// relevant events are `workspacev2` (which may carry the new current
/// workspace in its payload) and the three window events.
pub fn vis_dispatch(line: &Vec<u8>) -> (a: VisAction)
    ensures
        ({
            let name = spec_event_name(line@);
            let payload = spec_event_payload(line@);
            match spec_classify(name) {
                EventKind::WorkspaceChanged => match payload {
                    Some(p) => match spec_id_name(p) {
                        Some(k) => a matches VisAction::ResyncWith(w) && w.id as int == k.0
                            && w.name@ == k.1,
                        None => a is Ignore,
                    },
                    None => a is Resync,
                },
                EventKind::WindowOpened => a is Resync,
                EventKind::WindowClosed => a is Resync,
                EventKind::FloatingChanged => a is Resync,
                _ => a is Ignore,
            }
        }),
{
    let (name, payload) = split_event(line);
    match classify(&name) {
        EventKind::WorkspaceChanged => match payload {
            Some(p) => match parse_id_name(&p) {
                Some(w) => VisAction::ResyncWith(w),
                None => VisAction::Ignore,
            },
            None => VisAction::Resync,
        },
        EventKind::WindowOpened => VisAction::Resync,
        EventKind::WindowClosed => VisAction::Resync,
        EventKind::FloatingChanged => VisAction::Resync,
        _ => VisAction::Ignore,
    }
}

/// Whether one client counts towards the current workspace's visibility:
/// it sits on that workspace and is neither hidden nor floating.
pub open spec fn spec_counts(c: Client, cur: WorkspaceInfo) -> bool {
    c.workspace.key_eq(cur) && !c.hidden && !c.floating
}

/// How many clients count towards the current workspace's visibility.
pub open spec fn spec_visible_count(clients: Seq<Client>, cur: WorkspaceInfo) -> int
    decreases clients.len(),
{
    if clients.len() == 0 {
        0
    } else {
        spec_visible_count(clients.drop_last(), cur) + if spec_counts(clients.last(), cur) {
            1int
        } else {
            0int
        }
    }
}

proof fn lemma_visible_count_bounds(clients: Seq<Client>, cur: WorkspaceInfo)
    ensures
        0 <= spec_visible_count(clients, cur) <= clients.len(),
    decreases clients.len(),
{
    if clients.len() > 0 {
        lemma_visible_count_bounds(clients.drop_last(), cur);
    }
}

/// Counts the clients on `cur` that are neither hidden nor floating.
pub fn visible_count(clients: &Vec<Client>, cur: &WorkspaceInfo) -> (n: usize)
    ensures
        n as int == spec_visible_count(clients@, *cur),
{
    proof {
        lemma_visible_count_bounds(clients@, *cur);
    }
    let mut n: usize = 0;
    let mut i: usize = 0;
    while i < clients.len()
        invariant
            0 <= i <= clients@.len(),
            n as int == spec_visible_count(clients@.subrange(0, i as int), *cur),
            n <= i,
        decreases clients@.len() - i,
    {
        let c = &clients[i];
        let counts = c.workspace.same(cur) && !c.hidden && !c.floating;
        proof {
            assert(clients@.subrange(0, i + 1).drop_last() =~= clients@.subrange(0, i as int));
            assert(clients@.subrange(0, i + 1).last() == clients@[i as int]);
        }
        if counts {
            n = n + 1;
        }
        i = i + 1;
    }
    proof {
        assert(clients@.subrange(0, clients@.len() as int) =~= clients@);
    }
    n
}

/// The visibility tracker's whole state: the last published signal, if any
/// was published yet.
#[derive(Debug)]
pub struct Visibility {
    pub last: Option<bool>,
}

impl Visibility {
    /// A tracker that has published nothing yet.
    pub fn new() -> (r: Visibility)
        ensures
            r.last is None,
    {
        Visibility { last: None }
    }

    /// One reconciliation step.  `clients` is the parsed client listing and
    /// `current` the current workspace, each `None` when its query or parse
    /// failed.  On failure of either, nothing is published and the previous
    /// value stays authoritative; otherwise the freshly derived signal —
    /// the current workspace has at least one visible window — is recorded
    /// and returned for publication.
    pub fn apply(&mut self, clients: Option<Vec<Client>>, current: Option<WorkspaceInfo>) -> (r:
        Option<bool>)
        ensures
            match (clients, current) {
                (Some(cs), Some(cur)) => {
                    let v = spec_visible_count(cs@, cur) > 0;
                    &&& final(self).last == Some(v)
                    &&& r == Some(v)
                },
                _ => final(self).last == old(self).last && r is None,
            },
    {
        match (clients, current) {
            (Some(cs), Some(cur)) => {
                let v = visible_count(&cs, &cur) > 0;
                self.last = Some(v);
                Some(v)
            },
            _ => None,
        }
    }
}

} // verus!
