//! The ordered workspace view-model and its reconciliation state machine.
//!
//! The reconciler owns the tracked workspace collection.  Entries are kept in
//! presentation order: special workspaces (negative ids) first, then normal
//! workspaces in ascending id order.  Every transition returns the commands
//! the presentation layer must perform — ordered widget insertion and
//! removal, the two-stage reveal choreography, and expansion toggles — so
//! that all timing-sensitive work happens outside, while the collection
//! itself is reconciled here, synchronously, one event at a time.

use vstd::prelude::*;
use crate::model::WorkspaceInfo;
use crate::events::EventKind;
use crate::events::classify;
use crate::events::first_field;
use crate::events::parse_id_name;
use crate::events::spec_classify;
use crate::events::spec_event_name;
use crate::events::spec_event_payload;
use crate::events::spec_id_name;
use crate::events::split_event;
use crate::wire::find_from;

verus! {

/// Pause between starting the slide-in and starting the crossfade of an
/// entrance, in milliseconds.
pub const REVEAL_STAGE_MS: u64 = 100;

/// Pause between starting the crossfade-out and starting the slide-out of an
/// exit, in milliseconds.
pub const EXIT_STAGE_MS: u64 = 250;

/// Extra settling time after the exit choreography before the widget is
/// detached, in milliseconds.
pub const EXIT_SETTLE_MS: u64 = 150;

/// Animation and presentation state of one tracked workspace entity.
///
/// `handle` identifies the entity's presentation widget; handles are never
/// reused, so a recreated workspace is a fresh, independent entity.
#[derive(Clone, Copy, Debug, PartialEq, Eq, Structural)]
pub struct Workspace {
    pub handle: u64,
    pub special: bool,
    pub slide: bool,
    pub crossfade: bool,
    pub expanded: bool,
}

impl Workspace {
    /// An entity is revealed while either stage of its reveal choreography
    /// is switched on.
    pub open spec fn spec_revealed(self) -> bool {
        self.slide || self.crossfade
    }

    /// Exec counterpart of [`Self::spec_revealed`].
    pub fn revealed(&self) -> (r: bool)
        ensures
            r == self.spec_revealed(),
    {
        self.slide || self.crossfade
    }
}

/// One instruction to the presentation layer.  `Delay` separates the timed
/// stages of a choreography; all other commands act on the widget named by
/// their handle.
#[derive(Clone, Copy, Debug, PartialEq, Eq, Structural)]
pub enum Command {
    InsertFront { handle: u64 },
    InsertAfter { handle: u64, sibling: u64 },
    Detach { handle: u64 },
    SetSlide { handle: u64, on: bool },
    SetCrossfade { handle: u64, on: bool },
    SetExpand { handle: u64, on: bool },
    Delay { ms: u64 },
}

/// The reconciled workspace collection: `infos[i]` is the record tracked at
/// presentation position `i`, `states[i]` its entity.  `next_handle` is the
/// next presentation handle to hand out.
#[derive(Debug)]
pub struct Reconciler {
    pub infos: Vec<WorkspaceInfo>,
    pub states: Vec<Workspace>,
    pub next_handle: u64,
}

impl Reconciler {
    /// Well-formedness: both vectors describe the same entries; the special
    /// flag mirrors the id's sign; specials form a prefix; normal entries
    /// are ordered by ascending id; keys are distinct; handles are distinct
    /// and below `next_handle`.
    pub open spec fn wf(self) -> bool {
        &&& self.infos@.len() == self.states@.len()
        &&& forall|i: int|
            0 <= i < self.states@.len() ==> (#[trigger] self.states@[i]).special == (
            self.infos@[i].id < 0)
        &&& forall|i: int, j: int|
            0 <= i < j < self.states@.len() && (#[trigger] self.states@[j]).special ==> (
            #[trigger] self.states@[i]).special
        &&& forall|i: int, j: int|
            0 <= i < j < self.states@.len() && !(#[trigger] self.states@[i]).special && !(
            #[trigger] self.states@[j]).special ==> self.infos@[i].id <= self.infos@[j].id
        &&& forall|i: int|
            0 <= i < self.states@.len() ==> (#[trigger] self.states@[i]).handle
                < self.next_handle
        &&& forall|i: int, j: int|
            0 <= i < j < self.states@.len() ==> (#[trigger] self.states@[i]).handle != (
            #[trigger] self.states@[j]).handle
        &&& forall|i: int, j: int|
            0 <= i < j < self.infos@.len() ==> !(#[trigger] self.infos@[i]).key_eq(
                #[trigger] self.infos@[j],
            )
    }

    /// An empty collection.
    pub fn new() -> (r: Reconciler)
        ensures
            r.wf(),
            r.infos@.len() == 0,
            r.states@.len() == 0,
            r.next_handle == 1,
    {
        Reconciler { infos: Vec::new(), states: Vec::new(), next_handle: 1 }
    }
}

/// First position holding the given key.
pub open spec fn find_key_from(infos: Seq<WorkspaceInfo>, key: WorkspaceInfo, i: int) -> Option<
    int,
>
    decreases infos.len() - i,
{
    if i < 0 || i >= infos.len() {
        None
    } else if infos[i].key_eq(key) {
        Some(i)
    } else {
        find_key_from(infos, key, i + 1)
    }
}

pub open spec fn spec_find_key(infos: Seq<WorkspaceInfo>, key: WorkspaceInfo) -> Option<int> {
    find_key_from(infos, key, 0)
}

pub proof fn lemma_find_key_in_range(infos: Seq<WorkspaceInfo>, key: WorkspaceInfo, i: int)
    requires
        i >= 0,
    ensures
        find_key_from(infos, key, i) matches Some(k) ==> i <= k < infos.len() && infos[k].key_eq(
            key,
        ),
        find_key_from(infos, key, i) is None ==> forall|j: int|
            i <= j < infos.len() ==> !(#[trigger] infos[j]).key_eq(key),
    decreases infos.len() - i,
{
    if !(i < 0 || i >= infos.len()) && !infos[i].key_eq(key) {
        lemma_find_key_in_range(infos, key, i + 1);
        if find_key_from(infos, key, i) is None {
            assert forall|j: int| i <= j < infos.len() implies !(#[trigger] infos[j]).key_eq(
                key,
            ) by {
                if j == i {
                    assert(!infos[i].key_eq(key));
                }
            }
        }
    }
}

/// The states after a `workspacev2` event naming `cur`: every normal entry
/// is expanded exactly when its record equals the new current workspace;
/// special entries are left untouched.
pub open spec fn spec_set_current(
    infos: Seq<WorkspaceInfo>,
    states: Seq<Workspace>,
    cur: WorkspaceInfo,
) -> Seq<Workspace> {
    Seq::new(
        states.len(),
        |i: int|
            if states[i].special {
                states[i]
            } else {
                Workspace { expanded: infos[i].key_eq(cur), ..states[i] }
            },
    )
}

/// The expansion commands a `workspacev2` event produces, one per normal
/// entry in presentation order.
pub open spec fn spec_expand_cmds(
    infos: Seq<WorkspaceInfo>,
    states: Seq<Workspace>,
    cur: WorkspaceInfo,
) -> Seq<Command>
    decreases states.len(),
{
    if states.len() == 0 || infos.len() != states.len() {
        Seq::empty()
    } else {
        spec_expand_cmds(infos.drop_last(), states.drop_last(), cur) + (if states.last().special {
            Seq::empty()
        } else {
            seq![
                Command::SetExpand {
                    handle: states.last().handle,
                    on: infos.last().key_eq(cur),
                },
            ]
        })
    }
}

/// The states after an `activespecial` event: every special entry expands
/// when a special workspace became active and collapses when none is;
/// normal entries are left untouched.
pub open spec fn spec_set_special(states: Seq<Workspace>, active: bool) -> Seq<Workspace> {
    Seq::new(
        states.len(),
        |i: int|
            if states[i].special {
                Workspace { expanded: active, ..states[i] }
            } else {
                states[i]
            },
    )
}

/// The expansion commands an `activespecial` event produces, one per
/// special entry in presentation order.
pub open spec fn spec_special_cmds(states: Seq<Workspace>, active: bool) -> Seq<Command>
    decreases states.len(),
{
    if states.len() == 0 {
        Seq::empty()
    } else {
        spec_special_cmds(states.drop_last(), active) + (if states.last().special {
            seq![Command::SetExpand { handle: states.last().handle, on: active }]
        } else {
            Seq::empty()
        })
    }
}

/// Presentation position a new normal workspace with the given id takes:
/// the first position whose entry is normal with an id not below the new
/// one — equivalently, immediately after the rightmost entry that is
/// special or has a strictly smaller id — or the end when there is none.
/// The scan is over the currently tracked set, so the rule is stable under
/// non-contiguous ids.
pub open spec fn insert_pos_from(
    infos: Seq<WorkspaceInfo>,
    states: Seq<Workspace>,
    id: int,
    i: int,
) -> int
    decreases infos.len() - i,
{
    if i < 0 || i >= infos.len() {
        infos.len() as int
    } else if !states[i].special && infos[i].id >= id {
        i
    } else {
        insert_pos_from(infos, states, id, i + 1)
    }
}

pub open spec fn spec_insert_pos(infos: Seq<WorkspaceInfo>, states: Seq<Workspace>, id: int) -> int {
    insert_pos_from(infos, states, id, 0)
}

pub proof fn lemma_insert_pos_range(
    infos: Seq<WorkspaceInfo>,
    states: Seq<Workspace>,
    id: int,
    i: int,
)
    requires
        0 <= i <= infos.len(),
        infos.len() == states.len(),
    ensures
        i <= insert_pos_from(infos, states, id, i) <= infos.len(),
        forall|k: int|
            i <= k < insert_pos_from(infos, states, id, i) ==> ((#[trigger] states[k]).special
                || infos[k].id < id),
        insert_pos_from(infos, states, id, i) < infos.len() ==> !states[insert_pos_from(
            infos,
            states,
            id,
            i,
        )].special && infos[insert_pos_from(infos, states, id, i)].id >= id,
    decreases infos.len() - i,
{
    if !(i < 0 || i >= infos.len()) && !(!states[i].special && infos[i].id >= id) {
        lemma_insert_pos_range(infos, states, id, i + 1);
    }
}

/// A sequence with the entry at `d` dropped, or unchanged when there is
/// none to drop.
pub open spec fn spec_remove_at<T>(s: Seq<T>, d: Option<int>) -> Seq<T> {
    match d {
        Some(k) => s.remove(k),
        None => s,
    }
}

/// The commands that put a new entity on screen: insertion at its position,
/// then the two-stage entrance choreography (slide in, wait, crossfade in).
/// `states` is the collection the entity is inserted into.
pub open spec fn spec_entrance_cmds(states: Seq<Workspace>, pos: int, h: u64) -> Seq<Command> {
    (if pos == 0 {
        seq![Command::InsertFront { handle: h }]
    } else {
        seq![Command::InsertAfter { handle: h, sibling: states[pos - 1].handle }]
    }) + seq![
        Command::SetSlide { handle: h, on: true },
        Command::Delay { ms: REVEAL_STAGE_MS },
        Command::SetCrossfade { handle: h, on: true },
    ]
}

/// The commands that take a destroyed entity off screen.  While it is
/// revealed the full exit choreography runs first — crossfade out, wait,
/// slide out, settle — and only then is the widget detached; an entity
/// that was never revealed is detached at once.
pub open spec fn spec_exit_cmds(ws: Workspace) -> Seq<Command> {
    if ws.spec_revealed() {
        seq![
            Command::SetCrossfade { handle: ws.handle, on: false },
            Command::Delay { ms: EXIT_STAGE_MS },
            Command::SetSlide { handle: ws.handle, on: false },
            Command::Delay { ms: EXIT_SETTLE_MS },
            Command::Detach { handle: ws.handle },
        ]
    } else {
        seq![Command::Detach { handle: ws.handle }]
    }
}

proof fn lemma_wf_after_remove(pre: Reconciler, post: Reconciler, d: int)
    requires
        pre.wf(),
        0 <= d < pre.infos@.len(),
        post.infos@ == pre.infos@.remove(d),
        post.states@ == pre.states@.remove(d),
        post.next_handle == pre.next_handle,
    ensures
        post.wf(),
{
    pre.infos@.remove_ensures(d);
    pre.states@.remove_ensures(d);
    assert forall|i: int| 0 <= i < post.states@.len() implies {
        &&& (#[trigger] post.states@[i]).special == (post.infos@[i].id < 0)
        &&& post.states@[i].handle < post.next_handle
    } by {
        if i < d {
            assert(post.states@[i] == pre.states@[i]);
            assert(post.infos@[i] == pre.infos@[i]);
        } else {
            assert(post.states@[i] == pre.states@[i + 1]);
            assert(post.infos@[i] == pre.infos@[i + 1]);
        }
    }
    assert forall|i: int, j: int| 0 <= i < j < post.states@.len() implies {
        &&& ((#[trigger] post.states@[j]).special ==> (#[trigger] post.states@[i]).special)
        &&& (!post.states@[i].special && !post.states@[j].special ==> post.infos@[i].id
            <= post.infos@[j].id)
        &&& post.states@[i].handle != post.states@[j].handle
        &&& !post.infos@[i].key_eq(post.infos@[j])
    } by {
        let i0 = if i < d {
            i
        } else {
            i + 1
        };
        let j0 = if j < d {
            j
        } else {
            j + 1
        };
        assert(post.states@[i] == pre.states@[i0]);
        assert(post.states@[j] == pre.states@[j0]);
        assert(post.infos@[i] == pre.infos@[i0]);
        assert(post.infos@[j] == pre.infos@[j0]);
    }
}

proof fn lemma_wf_after_insert(
    mid: Reconciler,
    post: Reconciler,
    info: WorkspaceInfo,
    ws: Workspace,
    pos: int,
)
    requires
        mid.wf(),
        spec_find_key(mid.infos@, info) is None,
        ws.special == (info.id < 0),
        ws.handle == mid.next_handle,
        mid.next_handle < u64::MAX,
        post.next_handle == mid.next_handle + 1,
        pos == if info.id < 0 {
            0int
        } else {
            spec_insert_pos(mid.infos@, mid.states@, info.id as int)
        },
        post.infos@ == mid.infos@.insert(pos, info),
        post.states@ == mid.states@.insert(pos, ws),
    ensures
        post.wf(),
{
    let n = mid.infos@.len() as int;
    lemma_find_key_in_range(mid.infos@, info, 0);
    if info.id >= 0 {
        lemma_insert_pos_range(mid.infos@, mid.states@, info.id as int, 0);
    }
    assert(0 <= pos <= n);
    mid.infos@.insert_ensures(pos, info);
    mid.states@.insert_ensures(pos, ws);
    // no special entry sits at or after the insertion point of a normal entry
    assert forall|k: int| pos <= k < n && info.id >= 0 implies !(#[trigger] mid.states@[k]).special
    by {
        if mid.states@[k].special {
            if pos < n {
                if k > pos {
                    assert(mid.states@[pos].special);
                }
                assert(false);
            }
        }
    }
    assert forall|i: int| 0 <= i < post.states@.len() implies {
        &&& (#[trigger] post.states@[i]).special == (post.infos@[i].id < 0)
        &&& post.states@[i].handle < post.next_handle
    } by {
        if i < pos {
            assert(post.states@[i] == mid.states@[i]);
            assert(post.infos@[i] == mid.infos@[i]);
        } else if i == pos {
            assert(post.states@[i] == ws);
            assert(post.infos@[i] == info);
        } else {
            assert(post.states@[i] == mid.states@[i - 1]);
            assert(post.infos@[i] == mid.infos@[i - 1]);
        }
    }
    assert forall|i: int, j: int| 0 <= i < j < post.states@.len() implies {
        &&& ((#[trigger] post.states@[j]).special ==> (#[trigger] post.states@[i]).special)
        &&& (!post.states@[i].special && !post.states@[j].special ==> post.infos@[i].id
            <= post.infos@[j].id)
        &&& post.states@[i].handle != post.states@[j].handle
        &&& !post.infos@[i].key_eq(post.infos@[j])
    } by {
        if i < pos {
            assert(post.states@[i] == mid.states@[i] && post.infos@[i] == mid.infos@[i]);
        } else if i == pos {
            assert(post.states@[i] == ws && post.infos@[i] == info);
        } else {
            assert(post.states@[i] == mid.states@[i - 1] && post.infos@[i] == mid.infos@[i - 1]);
        }
        if j < pos {
            assert(post.states@[j] == mid.states@[j] && post.infos@[j] == mid.infos@[j]);
        } else if j == pos {
            assert(post.states@[j] == ws && post.infos@[j] == info);
        } else {
            assert(post.states@[j] == mid.states@[j - 1] && post.infos@[j] == mid.infos@[j - 1]);
        }
    }
}

impl Reconciler {
    /// Index of the entry with the given key, if tracked.
    fn find_key(&self, key: &WorkspaceInfo) -> (r: Option<usize>)
        ensures
            match r {
                Some(k) => k < self.infos@.len() && spec_find_key(self.infos@, *key) == Some(
                    k as int,
                ),
                None => spec_find_key(self.infos@, *key) is None,
            },
    {
        let mut i: usize = 0;
        while i < self.infos.len()
            invariant
                0 <= i <= self.infos@.len(),
                spec_find_key(self.infos@, *key) == find_key_from(self.infos@, *key, i as int),
            decreases self.infos@.len() - i,
        {
            if self.infos[i].same(key) {
                return Some(i);
            }
            i = i + 1;
        }
        None
    }

    /// Applies a `workspacev2` event: `cur` became the current workspace, so
    /// every normal entry is expanded exactly when it equals `cur`.  Special
    /// entries never take part.  Returns one expansion command per normal
    /// entry, in presentation order.
    pub fn on_workspace_changed(&mut self, current: &WorkspaceInfo) -> (cmds: Vec<Command>)
        requires
            old(self).wf(),
        ensures
            final(self).wf(),
            final(self).infos@ == old(self).infos@,
            final(self).next_handle == old(self).next_handle,
            final(self).states@ == spec_set_current(
                old(self).infos@,
                old(self).states@,
                *current,
            ),
            cmds@ == spec_expand_cmds(old(self).infos@, old(self).states@, *current),
    {
        let ghost n = old(self).states@.len() as int;
        let mut cmds: Vec<Command> = Vec::new();
        let mut i: usize = 0;
        while i < self.states.len()
            invariant
                0 <= i <= n,
                old(self).wf(),
                n == old(self).states@.len(),
                self.infos@ == old(self).infos@,
                self.next_handle == old(self).next_handle,
                self.states@.len() == n,
                forall|k: int| i <= k < n ==> self.states@[k] == old(self).states@[k],
                forall|k: int|
                    0 <= k < i ==> self.states@[k] == spec_set_current(
                        old(self).infos@,
                        old(self).states@,
                        *current,
                    )[k],
                cmds@ == spec_expand_cmds(
                    old(self).infos@.subrange(0, i as int),
                    old(self).states@.subrange(0, i as int),
                    *current,
                ),
            decreases n - i,
        {
            let st = self.states[i];
            if !st.special {
                let on = self.infos[i].same(current);
                self.states.set(i, Workspace { expanded: on, ..st });
                cmds.push(Command::SetExpand { handle: st.handle, on });
            }
            proof {
                assert(old(self).infos@.subrange(0, i + 1).drop_last() =~= old(
                    self,
                ).infos@.subrange(0, i as int));
                assert(old(self).states@.subrange(0, i + 1).drop_last() =~= old(
                    self,
                ).states@.subrange(0, i as int));
                assert(old(self).states@.subrange(0, i + 1).last() == old(self).states@[i as int]);
                assert(old(self).infos@.subrange(0, i + 1).last() == old(self).infos@[i as int]);
            }
            i = i + 1;
        }
        proof {
            assert(old(self).infos@.subrange(0, n) =~= old(self).infos@);
            assert(old(self).states@.subrange(0, n) =~= old(self).states@);
            assert(self.states@ =~= spec_set_current(
                old(self).infos@,
                old(self).states@,
                *current,
            ));
        }
        cmds
    }

    /// Applies an `activespecial` event: a special workspace became active
    /// (`active` true) or none is any more (`active` false); every special
    /// entry follows, normal entries are untouched.  Returns one expansion
    /// command per special entry, in presentation order.
    pub fn on_active_special(&mut self, active: bool) -> (cmds: Vec<Command>)
        requires
            old(self).wf(),
        ensures
            final(self).wf(),
            final(self).infos@ == old(self).infos@,
            final(self).next_handle == old(self).next_handle,
            final(self).states@ == spec_set_special(old(self).states@, active),
            cmds@ == spec_special_cmds(old(self).states@, active),
    {
        let ghost n = old(self).states@.len() as int;
        let mut cmds: Vec<Command> = Vec::new();
        let mut i: usize = 0;
        while i < self.states.len()
            invariant
                0 <= i <= n,
                old(self).wf(),
                n == old(self).states@.len(),
                self.infos@ == old(self).infos@,
                self.next_handle == old(self).next_handle,
                self.states@.len() == n,
                forall|k: int| i <= k < n ==> self.states@[k] == old(self).states@[k],
                forall|k: int|
                    0 <= k < i ==> self.states@[k] == spec_set_special(
                        old(self).states@,
                        active,
                    )[k],
                cmds@ == spec_special_cmds(old(self).states@.subrange(0, i as int), active),
            decreases n - i,
        {
            let st = self.states[i];
            if st.special {
                self.states.set(i, Workspace { expanded: active, ..st });
                cmds.push(Command::SetExpand { handle: st.handle, on: active });
            }
            proof {
                assert(old(self).states@.subrange(0, i + 1).drop_last() =~= old(
                    self,
                ).states@.subrange(0, i as int));
                assert(old(self).states@.subrange(0, i + 1).last() == old(self).states@[i as int]);
            }
            i = i + 1;
        }
        proof {
            assert(old(self).states@.subrange(0, n) =~= old(self).states@);
            assert(self.states@ =~= spec_set_special(old(self).states@, active));
        }
        cmds
    }

    /// Exec scan for [`spec_insert_pos`].
    fn insert_pos(&self, id: i32) -> (r: usize)
        requires
            self.wf(),
        ensures
            r as int == spec_insert_pos(self.infos@, self.states@, id as int),
            r <= self.infos@.len(),
    {
        let mut i: usize = 0;
        while i < self.infos.len()
            invariant
                0 <= i <= self.infos@.len(),
                self.infos@.len() == self.states@.len(),
                spec_insert_pos(self.infos@, self.states@, id as int) == insert_pos_from(
                    self.infos@,
                    self.states@,
                    id as int,
                    i as int,
                ),
            decreases self.infos@.len() - i,
        {
            if !self.states[i].special && self.infos[i].id >= id {
                return i;
            }
            i = i + 1;
        }
        i
    }

    /// Applies a `createworkspacev2` event.  A fresh entity is allocated —
    /// handles are never reused — and inserted at its ordered position:
    /// special workspaces go to the front, independent of the id order;
    /// normal ones go after the rightmost tracked entry with a smaller id.
    /// An entry already tracked under the same key is dropped first, so the
    /// new entity is independent of any predecessor.  Returns the insertion
    /// command followed by the entrance choreography.
    pub fn on_create(&mut self, info: WorkspaceInfo) -> (cmds: Vec<Command>)
        requires
            old(self).wf(),
            old(self).next_handle < u64::MAX,
        ensures
            final(self).wf(),
            final(self).next_handle == old(self).next_handle + 1,
            ({
                let ri = spec_remove_at(old(self).infos@, spec_find_key(old(self).infos@, info));
                let rs = spec_remove_at(old(self).states@, spec_find_key(old(self).infos@, info));
                let pos = if info.id < 0 {
                    0int
                } else {
                    spec_insert_pos(ri, rs, info.id as int)
                };
                let ws = Workspace {
                    handle: old(self).next_handle,
                    special: info.id < 0,
                    slide: true,
                    crossfade: true,
                    expanded: false,
                };
                &&& final(self).infos@ == ri.insert(pos, info)
                &&& final(self).states@ == rs.insert(pos, ws)
                &&& cmds@ == spec_entrance_cmds(rs, pos, old(self).next_handle)
            }),
    {
        proof {
            lemma_find_key_in_range(old(self).infos@, info, 0);
        }
        match self.find_key(&info) {
            Some(d) => {
                self.infos.remove(d);
                self.states.remove(d);
                proof {
                    lemma_wf_after_remove(*old(self), *self, d as int);
                    lemma_find_key_in_range(self.infos@, info, 0);
                    if spec_find_key(self.infos@, info) is Some {
                        let k = spec_find_key(self.infos@, info)->Some_0;
                        let k0 = if k < d {
                            k
                        } else {
                            k + 1
                        };
                        old(self).infos@.remove_ensures(d as int);
                        assert(self.infos@[k] == old(self).infos@[k0]);
                        assert(old(self).infos@[k0].key_eq(old(self).infos@[d as int]));
                        assert(false);
                    }
                }
            },
            None => {},
        }
        let ghost mid = *self;
        let h = self.next_handle;
        let special = info.id < 0;
        let ws = Workspace { handle: h, special, slide: true, crossfade: true, expanded: false };
        let pos: usize = if special {
            0
        } else {
            self.insert_pos(info.id)
        };
        let mut cmds: Vec<Command> = Vec::new();
        if pos == 0 {
            cmds.push(Command::InsertFront { handle: h });
        } else {
            cmds.push(Command::InsertAfter { handle: h, sibling: self.states[pos - 1].handle });
        }
        cmds.push(Command::SetSlide { handle: h, on: true });
        cmds.push(Command::Delay { ms: REVEAL_STAGE_MS });
        cmds.push(Command::SetCrossfade { handle: h, on: true });
        proof {
            if !special {
                lemma_insert_pos_range(mid.infos@, mid.states@, info.id as int, 0);
            }
            assert(cmds@ =~= spec_entrance_cmds(mid.states@, pos as int, h));
        }
        self.infos.insert(pos, info);
        self.states.insert(pos, ws);
        self.next_handle = h + 1;
        proof {
            lemma_wf_after_insert(mid, *self, info, ws, pos as int);
        }
        cmds
    }

    /// Applies a `destroyworkspacev2` event.  The entry leaves the tracked
    /// collection immediately — later lookups treat it as gone, and a later
    /// `createworkspacev2` with the same key builds a fresh entity — while
    /// the returned commands defer the widget's detachment until the full
    /// exit choreography has run.
    pub fn on_destroy(&mut self, key: &WorkspaceInfo) -> (cmds: Vec<Command>)
        requires
            old(self).wf(),
        ensures
            final(self).wf(),
            final(self).next_handle == old(self).next_handle,
            match spec_find_key(old(self).infos@, *key) {
                Some(d) => {
                    &&& final(self).infos@ == old(self).infos@.remove(d)
                    &&& final(self).states@ == old(self).states@.remove(d)
                    &&& cmds@ == spec_exit_cmds(old(self).states@[d])
                },
                None => {
                    &&& final(self).infos@ == old(self).infos@
                    &&& final(self).states@ == old(self).states@
                    &&& cmds@ == Seq::<Command>::empty()
                },
            },
    {
        let mut cmds: Vec<Command> = Vec::new();
        match self.find_key(key) {
            Some(d) => {
                let st = self.states[d];
                self.infos.remove(d);
                self.states.remove(d);
                if st.revealed() {
                    cmds.push(Command::SetCrossfade { handle: st.handle, on: false });
                    cmds.push(Command::Delay { ms: EXIT_STAGE_MS });
                    cmds.push(Command::SetSlide { handle: st.handle, on: false });
                    cmds.push(Command::Delay { ms: EXIT_SETTLE_MS });
                    cmds.push(Command::Detach { handle: st.handle });
                } else {
                    cmds.push(Command::Detach { handle: st.handle });
                }
                proof {
                    lemma_wf_after_remove(*old(self), *self, d as int);
                    assert(cmds@ =~= spec_exit_cmds(old(self).states@[d as int]));
                }
            },
            None => {},
        }
        cmds
    }

    /// Expands the entry holding the startup-reported active workspace, if
    /// it is tracked.  Used once after the initial listing was seeded.
    pub fn expand_initial(&mut self, active: &WorkspaceInfo) -> (cmds: Vec<Command>)
        requires
            old(self).wf(),
        ensures
            final(self).wf(),
            final(self).infos@ == old(self).infos@,
            final(self).next_handle == old(self).next_handle,
            match spec_find_key(old(self).infos@, *active) {
                Some(d) => {
                    &&& final(self).states@ == old(self).states@.update(
                        d,
                        Workspace { expanded: true, ..old(self).states@[d] },
                    )
                    &&& cmds@ == seq![
                        Command::SetExpand { handle: old(self).states@[d].handle, on: true },
                    ]
                },
                None => final(self).states@ == old(self).states@ && cmds@ == Seq::<
                    Command,
                >::empty(),
            },
    {
        let mut cmds: Vec<Command> = Vec::new();
        match self.find_key(active) {
            Some(d) => {
                let st = self.states[d];
                self.states.set(d, Workspace { expanded: true, ..st });
                cmds.push(Command::SetExpand { handle: st.handle, on: true });
            },
            None => {},
        }
        cmds
    }
}

/// The collection, handle counter and commands that seeding an initial
/// workspace listing produces, record by record in listing order, each one
/// placed by the same rule `createworkspacev2` uses.
pub open spec fn spec_seed(list: Seq<WorkspaceInfo>) -> (
    Seq<WorkspaceInfo>,
    Seq<Workspace>,
    int,
    Seq<Command>,
)
    decreases list.len(),
{
    if list.len() == 0 {
        (Seq::<WorkspaceInfo>::empty(), Seq::<Workspace>::empty(), 1int, Seq::<Command>::empty())
    } else {
        let (fi, fs, h, cs) = spec_seed(list.drop_last());
        let info = list.last();
        let fk = spec_find_key(fi, info);
        let ri = spec_remove_at(fi, fk);
        let rs = spec_remove_at(fs, fk);
        let pos = if info.id < 0 {
            0int
        } else {
            spec_insert_pos(ri, rs, info.id as int)
        };
        let ws = Workspace {
            handle: h as u64,
            special: info.id < 0,
            slide: true,
            crossfade: true,
            expanded: false,
        };
        (ri.insert(pos, info), rs.insert(pos, ws), h + 1, cs + spec_entrance_cmds(rs, pos, h as u64))
    }
}

impl Reconciler {
    /// Seeds the collection from the startup listing of all workspaces, in
    /// listing order, revealing each one as it is inserted at its ordered
    /// position.  The caller expands the active workspace afterwards with
    /// [`Self::expand_initial`].
    pub fn init(list: Vec<WorkspaceInfo>) -> (r: (Reconciler, Vec<Command>))
        requires
            list@.len() < u64::MAX,
        ensures
            r.0.wf(),
            r.0.infos@ == spec_seed(list@).0,
            r.0.states@ == spec_seed(list@).1,
            r.0.next_handle as int == spec_seed(list@).2,
            r.1@ == spec_seed(list@).3,
    {
        let ghost orig = list@;
        let mut list = list;
        let mut rec = Reconciler::new();
        let mut cmds: Vec<Command> = Vec::new();
        let ghost total = orig.len() as int;
        let n0: usize = list.len();
        proof {
            assert(total == n0 as int);
        }
        let mut k: usize = 0;
        proof {
            assert(orig.subrange(0, 0) =~= Seq::<WorkspaceInfo>::empty());
        }
        while list.len() > 0
            invariant
                0 <= k <= total,
                total == orig.len(),
                total < u64::MAX,
                total <= usize::MAX,
                list@ == orig.subrange(k as int, total),
                rec.wf(),
                rec.infos@ == spec_seed(orig.subrange(0, k as int)).0,
                rec.states@ == spec_seed(orig.subrange(0, k as int)).1,
                rec.next_handle as int == spec_seed(orig.subrange(0, k as int)).2,
                cmds@ == spec_seed(orig.subrange(0, k as int)).3,
                rec.next_handle as int <= 1 + k,
            decreases list@.len(),
        {
            let info = list.remove(0);
            proof {
                assert(info == orig[k as int]);
                assert(list@ =~= orig.subrange(k + 1, total));
                assert(orig.subrange(0, k + 1).drop_last() =~= orig.subrange(0, k as int));
                assert(orig.subrange(0, k + 1).last() == orig[k as int]);
            }
            let mut c = rec.on_create(info);
            cmds.append(&mut c);
            k = k + 1;
        }
        proof {
            assert(orig.subrange(0, total) =~= orig);
        }
        (rec, cmds)
    }
}

/// However creations and destructions were interleaved, a well-formed
/// collection whose normal entries carry pairwise distinct ids shows those
/// ids strictly ascending in presentation order.  Every transition of the
/// reconciler preserves well-formedness, so this holds of the final
/// collection for any arrival order.
pub proof fn lemma_ascending_when_distinct(r: Reconciler)
    requires
        r.wf(),
        forall|i: int, j: int|
            0 <= i < j < r.infos@.len() && !(#[trigger] r.states@[i]).special && !(
            #[trigger] r.states@[j]).special ==> r.infos@[i].id != r.infos@[j].id,
    ensures
        forall|i: int, j: int|
            0 <= i < j < r.infos@.len() && !(#[trigger] r.states@[i]).special && !(
            #[trigger] r.states@[j]).special ==> r.infos@[i].id < r.infos@[j].id,
{
}

/// Replaying the same `workspacev2` event twice leaves the expanded set
/// unchanged: deriving every entry's expansion from the same current
/// workspace is idempotent.
pub proof fn lemma_set_current_idempotent(
    infos: Seq<WorkspaceInfo>,
    states: Seq<Workspace>,
    cur: WorkspaceInfo,
)
    ensures
        spec_set_current(infos, spec_set_current(infos, states, cur), cur) == spec_set_current(
            infos,
            states,
            cur,
        ),
{
    let once = spec_set_current(infos, states, cur);
    let twice = spec_set_current(infos, once, cur);
    assert forall|i: int| 0 <= i < states.len() implies twice[i] == once[i] by {
        assert(once[i].special == states[i].special);
    }
    assert(twice =~= once);
}

/// `workspacev2` handling never expands nor collapses a special workspace:
/// the event leaves every special entry exactly as it was.
pub proof fn lemma_set_current_skips_specials(
    infos: Seq<WorkspaceInfo>,
    states: Seq<Workspace>,
    cur: WorkspaceInfo,
    i: int,
)
    requires
        0 <= i < states.len(),
        states[i].special,
    ensures
        spec_set_current(infos, states, cur)[i] == states[i],
{
}

/// Every expansion command a `workspacev2` event emits addresses a normal
/// entry: none carries the handle of a special one.  Together with the
/// handle distinctness of `wf`, special widgets are never touched.
pub proof fn lemma_expand_cmds_from_normals(
    infos: Seq<WorkspaceInfo>,
    states: Seq<Workspace>,
    cur: WorkspaceInfo,
)
    requires
        infos.len() == states.len(),
    ensures
        forall|k: int|
            0 <= k < spec_expand_cmds(infos, states, cur).len() ==> exists|i: int|
                0 <= i < states.len() && !(#[trigger] states[i]).special && #[trigger] spec_expand_cmds(
                    infos,
                    states,
                    cur,
                )[k] == (Command::SetExpand {
                    handle: states[i].handle,
                    on: infos[i].key_eq(cur),
                }),
    decreases states.len(),
{
    if states.len() > 0 {
        lemma_expand_cmds_from_normals(infos.drop_last(), states.drop_last(), cur);
        let pre = spec_expand_cmds(infos.drop_last(), states.drop_last(), cur);
        let all = spec_expand_cmds(infos, states, cur);
        assert forall|k: int| 0 <= k < all.len() implies exists|i: int|
            0 <= i < states.len() && !(#[trigger] states[i]).special && #[trigger] all[k]
                == (Command::SetExpand {
                handle: states[i].handle,
                on: infos[i].key_eq(cur),
            }) by {
            if k < pre.len() {
                let i0 = choose|i: int|
                    0 <= i < states.drop_last().len() && !(#[trigger] states.drop_last()[i]).special
                        && pre[k] == (Command::SetExpand {
                        handle: states.drop_last()[i].handle,
                        on: infos.drop_last()[i].key_eq(cur),
                    });
                assert(states[i0] == states.drop_last()[i0]);
                assert(infos[i0] == infos.drop_last()[i0]);
                assert(all[k] == pre[k]);
            } else {
                let last = states.len() - 1;
                assert(!states[last].special);
                assert(all[k] == (Command::SetExpand {
                    handle: states[last].handle,
                    on: infos[last].key_eq(cur),
                }));
            }
        }
    }
}

/// Destroying a tracked workspace and recreating the same key before the
/// exit choreography has settled yields a fresh, independent entity: the
/// recreated entry's handle (the `next_handle` that `on_create` assigns)
/// can never equal the destroyed entity's handle, and by `on_create`'s
/// contract the new entity starts in the entrance state, not in whatever
/// animation state the old one was left in.
pub proof fn lemma_recreate_is_fresh(r: Reconciler, key: WorkspaceInfo, d: int)
    requires
        r.wf(),
        spec_find_key(r.infos@, key) == Some(d),
    ensures
        0 <= d < r.states@.len(),
        r.states@[d].handle != r.next_handle,
{
    lemma_find_key_in_range(r.infos@, key, 0);
}

/// What an event line asks of the workspace reconciler.
#[derive(Debug, PartialEq, Eq)]
pub enum Action {
    /// `workspacev2` with a parsed payload: this became the current
    /// workspace; re-derive every entry's expansion.
    SetCurrent(WorkspaceInfo),
    /// `workspacev2` without a payload: query the control channel for the
    /// active workspace, then proceed as for `SetCurrent`.
    QueryCurrent,
    /// `createworkspacev2`: track and reveal a new workspace.
    Create(WorkspaceInfo),
    /// `destroyworkspacev2`: untrack a workspace and play its exit.
    Destroy(WorkspaceInfo),
    /// `activespecial`: a special workspace was shown (`true`) or hidden
    /// (`false`).
    SpecialShown(bool),
    /// A window came, went or changed floating mode: the visibility signal
    /// must be re-derived; the collection itself is untouched.
    Resync,
    /// Unrecognized or malformed: skipped without error.
    Ignore,
}

/// Decides what a raw event line asks of the reconciler.  Malformed
/// payloads are mapped to [`Action::Ignore`]: a parse failure never stops
/// the loop, it only skips the event.
pub fn dispatch(line: &Vec<u8>) -> (a: Action)
    ensures
        ({
            let name = spec_event_name(line@);
            let payload = spec_event_payload(line@);
            match spec_classify(name) {
                EventKind::WorkspaceChanged => match payload {
                    Some(p) => match spec_id_name(p) {
                        Some(k) => a matches Action::SetCurrent(w) && w.id as int == k.0 && w.name@
                            == k.1,
                        None => a is Ignore,
                    },
                    None => a is QueryCurrent,
                },
                EventKind::WorkspaceCreated => match payload {
                    Some(p) => match spec_id_name(p) {
                        Some(k) => a matches Action::Create(w) && w.id as int == k.0 && w.name@
                            == k.1,
                        None => a is Ignore,
                    },
                    None => a is Ignore,
                },
                EventKind::WorkspaceDestroyed => match payload {
                    Some(p) => match spec_id_name(p) {
                        Some(k) => a matches Action::Destroy(w) && w.id as int == k.0 && w.name@
                            == k.1,
                        None => a is Ignore,
                    },
                    None => a is Ignore,
                },
                EventKind::ActiveSpecial => match payload {
                    Some(p) => {
                        let f0 = match find_from(p, 0, ',' as u8) {
                            Some(c) => p.subrange(0, c),
                            None => p,
                        };
                        a matches Action::SpecialShown(shown) && shown == (f0.len() != 0)
                    },
                    None => a is Ignore,
                },
                EventKind::WindowOpened => a is Resync,
                EventKind::WindowClosed => a is Resync,
                EventKind::FloatingChanged => a is Resync,
                EventKind::Other => a is Ignore,
            }
        }),
{
    let (name, payload) = split_event(line);
    let kind = classify(&name);
    match kind {
        EventKind::WorkspaceChanged => match payload {
            Some(p) => match parse_id_name(&p) {
                Some(w) => Action::SetCurrent(w),
                None => Action::Ignore,
            },
            None => Action::QueryCurrent,
        },
        EventKind::WorkspaceCreated => match payload {
            Some(p) => match parse_id_name(&p) {
                Some(w) => Action::Create(w),
                None => Action::Ignore,
            },
            None => Action::Ignore,
        },
        EventKind::WorkspaceDestroyed => match payload {
            Some(p) => match parse_id_name(&p) {
                Some(w) => Action::Destroy(w),
                None => Action::Ignore,
            },
            None => Action::Ignore,
        },
        EventKind::ActiveSpecial => match payload {
            Some(p) => {
                let f0 = first_field(&p);
                Action::SpecialShown(f0.len() != 0)
            },
            None => Action::Ignore,
        },
        EventKind::WindowOpened => Action::Resync,
        EventKind::WindowClosed => Action::Resync,
        EventKind::FloatingChanged => Action::Resync,
        EventKind::Other => Action::Ignore,
    }
}

} // verus!
