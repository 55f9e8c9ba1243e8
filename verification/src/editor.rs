//! The session reducer: the pane tree, the focused pane, the id counters
//! that mint fresh pane and split ids, and the key-binding table.  Every
//! incoming event funnels through [`Editor::update`]: pane-shaped events
//! are handled by the layout itself; every other event is delivered to the
//! focused pane's registry, or broadcast to every pane in leaf order when
//! no pane is focused.

use vstd::prelude::*;

use crate::editor_core::{no_effects, step, lemma_step_preserves_inv, CoreV};
use crate::event::{Axis, DragEvent, Effect, EffectV, Event};
use crate::key_bindings::{
    insert_binding, table_inv, table_resolve, BindingTable, BindingV, BucketV, KeyBinding,
};
use crate::pane_tree::{
    clamp_ratio_exec, close_tree, count_leaves, distinct_leaves, distinct_splits, duplicate_tree,
    find_pane, has_pane, has_pane_exec, has_split, lemma_close_props, lemma_pane_of_props,
    lemma_resize_props, lemma_split_props, lemma_swap_props, lemma_toggle_props, pane_of,
    pane_pinned, resize_tree, spec_close, spec_dropped, spec_resize, spec_split, spec_swap_inner,
    spec_toggle_pin, split_tree, swap_tree, toggle_pin_tree, wf_tree, Pane, PaneTree, PaneV, TreeV,
};

verus! {

/// Mathematical image of an [`Editor`].
#[verifier::ext_equal]
pub struct EditorV {
    pub panes: TreeV,
    pub focus: Option<usize>,
    pub next_pane_id: usize,
    pub next_split_id: usize,
    pub bindings: Seq<BucketV>,
}

impl EditorV {
    /// Session invariant: the tree is well-formed with distinct pane and
    /// split ids, every id lies below its counter so fresh ids never
    /// collide, a focused pane exists, and the binding table is
    /// well-formed.
    pub open spec fn inv(self) -> bool {
        &&& wf_tree(self.panes)
        &&& distinct_leaves(self.panes)
        &&& distinct_splits(self.panes)
        &&& forall|x: usize| has_pane(self.panes, x) ==> x < self.next_pane_id
        &&& forall|x: usize| has_split(self.panes, x) ==> x < self.next_split_id
        &&& (self.focus matches Some(f) ==> has_pane(self.panes, f))
        &&& table_inv(self.bindings)
    }

    /// The initial session: one pane, automatically focused, unpinned.
    pub open spec fn init() -> EditorV {
        EditorV {
            panes: TreeV::Leaf(PaneV { id: 0, core: CoreV::init(), is_pinned: false }),
            focus: Some(0),
            next_pane_id: 1,
            next_split_id: 0,
            bindings: Seq::empty(),
        }
    }
}

/// The tree and the effects after the registry of pane `id` reduces `ev`;
/// every other pane is untouched.
pub open spec fn route_step(t: TreeV, id: usize, ev: Event) -> (TreeV, Seq<EffectV>)
    decreases t,
{
    match t {
        TreeV::Leaf(p) => {
            if p.id == id {
                let r = step(p.core, ev);
                (TreeV::Leaf(PaneV { id: p.id, core: r.0, is_pinned: p.is_pinned }), r.1)
            } else {
                (t, Seq::empty())
            }
        },
        TreeV::Split { id: nid, axis, ratio, left, right } => {
            let l = route_step(*left, id, ev);
            let r = route_step(*right, id, ev);
            (
            TreeV::Split { id: nid, axis, ratio, left: Box::new(l.0), right: Box::new(r.0) },
            l.1 + r.1,
            )
        },
    }
}

/// The tree and the effects after every pane's registry reduces `ev`, in
/// leaf-traversal order; the follow-up effects are sequenced in the same
/// order, never interleaved.
pub open spec fn broadcast_step(t: TreeV, ev: Event) -> (TreeV, Seq<EffectV>)
    decreases t,
{
    match t {
        TreeV::Leaf(p) => {
            let r = step(p.core, ev);
            (TreeV::Leaf(PaneV { id: p.id, core: r.0, is_pinned: p.is_pinned }), r.1)
        },
        TreeV::Split { id: nid, axis, ratio, left, right } => {
            let l = broadcast_step(*left, ev);
            let r = broadcast_step(*right, ev);
            (
            TreeV::Split { id: nid, axis, ratio, left: Box::new(l.0), right: Box::new(r.0) },
            l.1 + r.1,
            )
        },
    }
}

/// One reduction step of the whole session: the state after `ev` and the
/// effects it asks for.  Pane-shaped events are intercepted here and never
/// reach a registry; everything else goes to the focused pane, or to every
/// pane when none is focused.
pub open spec fn session_step(pre: EditorV, ev: Event) -> (EditorV, Seq<EffectV>) {
    match ev {
        Event::PaneDragged(d) => {
            match d {
                DragEvent::Dropped { pane, target } => (
                    EditorV {
                        panes: spec_dropped(pre.panes, pane, target),
                        focus: pre.focus,
                        next_pane_id: pre.next_pane_id,
                        next_split_id: pre.next_split_id,
                        bindings: pre.bindings,
                    },
                    Seq::empty(),
                ),
                _ => (pre, Seq::empty()),
            }
        },
        Event::TogglePin(id) => (
            EditorV {
                panes: spec_toggle_pin(pre.panes, id),
                focus: pre.focus,
                next_pane_id: pre.next_pane_id,
                next_split_id: pre.next_split_id,
                bindings: pre.bindings,
            },
            Seq::empty(),
        ),
        Event::Split(axis, id) => {
            if pre.next_pane_id < usize::MAX && pre.next_split_id < usize::MAX {
                let fresh = PaneV { id: pre.next_pane_id, core: CoreV::init(), is_pinned: false };
                match spec_split(pre.panes, axis, id, fresh, pre.next_split_id) {
                    Some(t2) => (
                        EditorV {
                            panes: t2,
                            focus: Some(pre.next_pane_id),
                            next_pane_id: (pre.next_pane_id + 1) as usize,
                            next_split_id: (pre.next_split_id + 1) as usize,
                            bindings: pre.bindings,
                        },
                        Seq::empty(),
                    ),
                    None => (pre, Seq::empty()),
                }
            } else {
                (pre, Seq::empty())
            }
        },
        Event::PaneClicked(id) => {
            if has_pane(pre.panes, id) {
                (
                EditorV {
                    panes: pre.panes,
                    focus: Some(id),
                    next_pane_id: pre.next_pane_id,
                    next_split_id: pre.next_split_id,
                    bindings: pre.bindings,
                },
                Seq::empty(),
                )
            } else {
                (pre, Seq::empty())
            }
        },
        Event::PaneResized(sid, ratio) => (
            EditorV {
                panes: spec_resize(pre.panes, sid, ratio),
                focus: pre.focus,
                next_pane_id: pre.next_pane_id,
                next_split_id: pre.next_split_id,
                bindings: pre.bindings,
            },
            Seq::empty(),
        ),
        Event::Close(id) => {
            match pane_of(pre.panes, id) {
                Some(p) => {
                    if p.is_pinned {
                        (pre, Seq::empty())
                    } else {
                        match spec_close(pre.panes, id) {
                            Some((t2, f)) => (
                                EditorV {
                                    panes: t2,
                                    focus: Some(f),
                                    next_pane_id: pre.next_pane_id,
                                    next_split_id: pre.next_split_id,
                                    bindings: pre.bindings,
                                },
                                Seq::empty(),
                            ),
                            None => (pre, Seq::empty()),
                        }
                    }
                },
                None => (pre, Seq::empty()),
            }
        },
        _ => {
            match pre.focus {
                Some(f) => {
                    let r = route_step(pre.panes, f, ev);
                    (
                    EditorV {
                        panes: r.0,
                        focus: pre.focus,
                        next_pane_id: pre.next_pane_id,
                        next_split_id: pre.next_split_id,
                        bindings: pre.bindings,
                    },
                    r.1,
                    )
                },
                None => {
                    let r = broadcast_step(pre.panes, ev);
                    (
                    EditorV {
                        panes: r.0,
                        focus: pre.focus,
                        next_pane_id: pre.next_pane_id,
                        next_split_id: pre.next_split_id,
                        bindings: pre.bindings,
                    },
                    r.1,
                    )
                },
            }
        },
    }
}

/// Routing an event to one pane keeps every structural fact about the
/// tree: ids, distinctness, ratios, the leaf count; only that pane's
/// registry steps, and its invariant is preserved.
pub proof fn lemma_route_preserves(t: TreeV, id: usize, ev: Event)
    requires
        wf_tree(t),
        distinct_leaves(t),
        distinct_splits(t),
    ensures
        ({
            let t2 = route_step(t, id, ev).0;
            &&& forall|x: usize| has_pane(t2, x) == has_pane(t, x)
            &&& forall|x: usize| has_split(t2, x) == has_split(t, x)
            &&& distinct_leaves(t2)
            &&& distinct_splits(t2)
            &&& wf_tree(t2)
            &&& count_leaves(t2) == count_leaves(t)
        }),
    decreases t,
{
    let t2 = route_step(t, id, ev).0;
    match t {
        TreeV::Leaf(p) => {
            lemma_step_preserves_inv(p.core, ev);
        },
        TreeV::Split { id: nid, left, right, .. } => {
            lemma_route_preserves(*left, id, ev);
            lemma_route_preserves(*right, id, ev);
            let l2 = route_step(*left, id, ev).0;
            let r2 = route_step(*right, id, ev).0;
            assert forall|x: usize| has_pane(t2, x) == has_pane(t, x) by {
                assert(has_pane(t2, x) == (has_pane(l2, x) || has_pane(r2, x)));
                assert(has_pane(t, x) == (has_pane(*left, x) || has_pane(*right, x)));
            }
            assert forall|x: usize| has_split(t2, x) == has_split(t, x) by {
                assert(has_split(t2, x) == (nid == x || has_split(l2, x) || has_split(r2, x)));
            }
            assert(distinct_leaves(t2));
            assert(distinct_splits(t2));
            assert(wf_tree(t2));
        },
    }
}

/// Broadcasting an event to every pane keeps the same structural facts as
/// routing does, and every registry's invariant.
pub proof fn lemma_broadcast_preserves(t: TreeV, ev: Event)
    requires
        wf_tree(t),
        distinct_leaves(t),
        distinct_splits(t),
    ensures
        ({
            let t2 = broadcast_step(t, ev).0;
            &&& forall|x: usize| has_pane(t2, x) == has_pane(t, x)
            &&& forall|x: usize| has_split(t2, x) == has_split(t, x)
            &&& distinct_leaves(t2)
            &&& distinct_splits(t2)
            &&& wf_tree(t2)
            &&& count_leaves(t2) == count_leaves(t)
        }),
    decreases t,
{
    let t2 = broadcast_step(t, ev).0;
    match t {
        TreeV::Leaf(p) => {
            lemma_step_preserves_inv(p.core, ev);
        },
        TreeV::Split { id: nid, left, right, .. } => {
            lemma_broadcast_preserves(*left, ev);
            lemma_broadcast_preserves(*right, ev);
            let l2 = broadcast_step(*left, ev).0;
            let r2 = broadcast_step(*right, ev).0;
            assert forall|x: usize| has_pane(t2, x) == has_pane(t, x) by {
                assert(has_pane(t2, x) == (has_pane(l2, x) || has_pane(r2, x)));
                assert(has_pane(t, x) == (has_pane(*left, x) || has_pane(*right, x)));
            }
            assert forall|x: usize| has_split(t2, x) == has_split(t, x) by {
                assert(has_split(t2, x) == (nid == x || has_split(l2, x) || has_split(r2, x)));
            }
            assert(distinct_leaves(t2));
            assert(distinct_splits(t2));
            assert(wf_tree(t2));
        },
    }
}

/// Every session reduction step preserves the session invariant: the tree
/// stays well-formed with distinct ids below the counters, and focus
/// always rests on an existing pane.
pub proof fn lemma_session_step_preserves_inv(pre: EditorV, ev: Event)
    requires
        pre.inv(),
    ensures
        session_step(pre, ev).0.inv(),
{
    let post = session_step(pre, ev).0;
    match ev {
        Event::PaneDragged(d) => {
            match d {
                DragEvent::Dropped { pane, target } => {
                    lemma_pane_of_props(pre.panes, pane);
                    lemma_pane_of_props(pre.panes, target);
                    if pane != target && pane_of(pre.panes, pane) is Some && pane_of(
                        pre.panes,
                        target,
                    ) is Some {
                        lemma_swap_props(
                            pre.panes,
                            pane,
                            target,
                            pane_of(pre.panes, pane).unwrap(),
                            pane_of(pre.panes, target).unwrap(),
                        );
                    }
                },
                _ => {},
            }
        },
        Event::TogglePin(id) => {
            lemma_toggle_props(pre.panes, id);
        },
        Event::Split(axis, id) => {
            if pre.next_pane_id < usize::MAX && pre.next_split_id < usize::MAX {
                let fresh = PaneV { id: pre.next_pane_id, core: CoreV::init(), is_pinned: false };
                if spec_split(pre.panes, axis, id, fresh, pre.next_split_id) is Some {
                    assert(!has_pane(pre.panes, fresh.id));
                    assert(!has_split(pre.panes, pre.next_split_id));
                    lemma_split_props(pre.panes, axis, id, fresh, pre.next_split_id);
                }
            }
        },
        Event::PaneClicked(_) => {},
        Event::PaneResized(sid, ratio) => {
            lemma_resize_props(pre.panes, sid, ratio);
        },
        Event::Close(id) => {
            lemma_pane_of_props(pre.panes, id);
            match pane_of(pre.panes, id) {
                Some(p) => {
                    if !p.is_pinned && spec_close(pre.panes, id) is Some {
                        lemma_close_props(pre.panes, id);
                    }
                },
                None => {},
            }
        },
        _ => {
            match pre.focus {
                Some(f) => {
                    lemma_route_preserves(pre.panes, f, ev);
                },
                None => {
                    lemma_broadcast_preserves(pre.panes, ev);
                },
            }
        },
    }
}

/// Splitting a pane and then closing the pane the split created restores
/// the session's layout and focus exactly: the tree is the one before the
/// split, focus returns to the pane that was split, and the binding table
/// is untouched; only the id counters advance, since ids are never reused.
pub proof fn lemma_session_split_close_round_trip(pre: EditorV, axis: Axis, target: usize)
    requires
        pre.inv(),
        has_pane(pre.panes, target),
        pre.next_pane_id < usize::MAX,
        pre.next_split_id < usize::MAX,
    ensures
        ({
            let mid = session_step(pre, Event::Split(axis, target)).0;
            let post = session_step(mid, Event::Close(pre.next_pane_id)).0;
            &&& mid.focus == Some(pre.next_pane_id)
            &&& post.panes == pre.panes
            &&& post.focus == Some(target)
            &&& post.bindings == pre.bindings
            &&& post.next_pane_id == pre.next_pane_id + 1
            &&& post.next_split_id == pre.next_split_id + 1
        }),
{
    let fresh = PaneV { id: pre.next_pane_id, core: CoreV::init(), is_pinned: false };
    crate::pane_tree::lemma_split_some_iff(pre.panes, axis, target, fresh, pre.next_split_id);
    assert(!has_pane(pre.panes, fresh.id));
    assert(!has_split(pre.panes, pre.next_split_id));
    lemma_split_props(pre.panes, axis, target, fresh, pre.next_split_id);
    crate::pane_tree::lemma_split_close_round_trip(
        pre.panes,
        axis,
        target,
        fresh,
        pre.next_split_id,
    );
}

/// The session reducer.
#[derive(Debug)]
pub struct Editor {
    pub panes: PaneTree,
    pub focus: Option<usize>,
    pub next_pane_id: usize,
    pub next_split_id: usize,
    pub bindings: BindingTable,
}

impl View for Editor {
    type V = EditorV;

    open spec fn view(&self) -> EditorV {
        EditorV {
            panes: self.panes@,
            focus: self.focus,
            next_pane_id: self.next_pane_id,
            next_split_id: self.next_split_id,
            bindings: self.bindings@,
        }
    }
}

/// Move the tree out of its slot, leaving a placeholder the caller must
/// overwrite.
fn take_tree(slot: &mut PaneTree) -> (t: PaneTree)
    ensures
        t@ == old(slot)@,
{
    let mut t = PaneTree::Leaf(Pane::new(0));
    core::mem::swap(slot, &mut t);
    t
}

/// Route `event` to the pane `id`, handing back the transformed tree and
/// the effects of that pane's step.
fn route_tree(t: PaneTree, id: usize, event: &Event) -> (res: (PaneTree, Vec<Effect>))
    requires
        wf_tree(t@),
    ensures
        res.0@ == route_step(t@, id, *event).0,
        res.1.deep_view() == route_step(t@, id, *event).1,
    decreases t,
{
    match t {
        PaneTree::Leaf(mut p) => {
            if p.id == id {
                let effs = p.core.update(event);
                (PaneTree::Leaf(p), effs)
            } else {
                (PaneTree::Leaf(p), no_effects())
            }
        },
        PaneTree::Split { id: nid, axis, ratio, left, right } => {
            let (l2, mut e1) = route_tree(*left, id, event);
            let (r2, mut e2) = route_tree(*right, id, event);
            let ghost e1v = e1.deep_view();
            let ghost e2v = e2.deep_view();
            e1.append(&mut e2);
            proof {
                assert(e1.deep_view() =~= e1v + e2v);
            }
            (
                PaneTree::Split {
                    id: nid,
                    axis,
                    ratio,
                    left: Box::new(l2),
                    right: Box::new(r2),
                },
                e1,
            )
        },
    }
}

/// Deliver `event` to every pane in leaf order, chaining the effects in
/// that order.
fn broadcast_tree(t: PaneTree, event: &Event) -> (res: (PaneTree, Vec<Effect>))
    requires
        wf_tree(t@),
    ensures
        res.0@ == broadcast_step(t@, *event).0,
        res.1.deep_view() == broadcast_step(t@, *event).1,
    decreases t,
{
    match t {
        PaneTree::Leaf(mut p) => {
            let effs = p.core.update(event);
            (PaneTree::Leaf(p), effs)
        },
        PaneTree::Split { id: nid, axis, ratio, left, right } => {
            let (l2, mut e1) = broadcast_tree(*left, event);
            let (r2, mut e2) = broadcast_tree(*right, event);
            let ghost e1v = e1.deep_view();
            let ghost e2v = e2.deep_view();
            e1.append(&mut e2);
            proof {
                assert(e1.deep_view() =~= e1v + e2v);
            }
            (
                PaneTree::Split {
                    id: nid,
                    axis,
                    ratio,
                    left: Box::new(l2),
                    right: Box::new(r2),
                },
                e1,
            )
        },
    }
}

impl Editor {
    /// Session invariant, stated over the view.
    pub open spec fn wf(&self) -> bool {
        self@.inv()
    }

    /// A session with a single focused pane and an empty binding table.
    pub fn new() -> (r: Editor)
        ensures
            r@ == EditorV::init(),
            r.wf(),
    {
        Editor {
            panes: PaneTree::Leaf(Pane::new(0)),
            focus: Some(0),
            next_pane_id: 1,
            next_split_id: 0,
            bindings: BindingTable::new(),
        }
    }

    /// A session equal to `t`, pane by pane and chord by chord.
    pub fn new_from(t: &Editor) -> (r: Editor)
        ensures
            r@ == t@,
    {
        Editor {
            panes: duplicate_tree(&t.panes),
            focus: t.focus,
            next_pane_id: t.next_pane_id,
            next_split_id: t.next_split_id,
            bindings: t.bindings.duplicate(),
        }
    }

    /// A copy of the whole binding table.
    pub fn get_key_bindings_map(&self) -> (r: BindingTable)
        ensures
            r@ == self@.bindings,
    {
        self.bindings.duplicate()
    }

    /// Register one chord.
    pub fn add_key_binding(&mut self, kb: KeyBinding)
        requires
            old(self).wf(),
        ensures
            final(self).wf(),
            final(self)@ == (EditorV {
                bindings: insert_binding(old(self)@.bindings, kb@),
                ..old(self)@
            }),
    {
        self.bindings.insert(kb);
    }

    /// Build a chord from its parts and register it.
    pub fn make_key_binding(
        &mut self,
        key: char,
        ctrl: bool,
        shift: bool,
        alt: bool,
        event: Event,
    )
        requires
            old(self).wf(),
        ensures
            final(self).wf(),
            final(self)@ == (EditorV {
                bindings: insert_binding(
                    old(self)@.bindings,
                    BindingV { key, ctrl, shift, alt, event: event@ },
                ),
                ..old(self)@
            }),
    {
        let kb = KeyBinding::new(key, ctrl, shift, alt, event);
        self.bindings.insert(kb);
    }

    /// Register a whole list of chords, in order.
    pub fn add_keys_bindings(&mut self, bindings: Vec<KeyBinding>)
        requires
            old(self).wf(),
        ensures
            final(self).wf(),
            final(self)@ == (EditorV {
                bindings: insert_all_from(old(self)@.bindings, bindings.deep_view(), 0),
                ..old(self)@
            }),
    {
        let ghost kv = bindings.deep_view();
        let ghost table0 = self@.bindings;
        let mut i: usize = 0;
        while i < bindings.len()
            invariant
                old(self).wf(),
                i <= bindings.len(),
                kv == bindings.deep_view(),
                self.wf(),
                insert_all_from(table0, kv, 0) == insert_all_from(self@.bindings, kv, i as int),
                self@.panes == old(self)@.panes,
                self@.focus == old(self)@.focus,
                self@.next_pane_id == old(self)@.next_pane_id,
                self@.next_split_id == old(self)@.next_split_id,
            decreases bindings.len() - i,
        {
            proof {
                assert(kv[i as int] == bindings@[i as int]@);
            }
            self.add_key_binding(bindings[i].duplicate());
            i += 1;
        }
        proof {
            assert(insert_all_from(self@.bindings, kv, i as int) == self@.bindings);
        }
    }

    /// Resolve a raw key release against the session's binding table; the
    /// platform's control or command modifier both count as ctrl.
    pub fn resolve_key_release(
        &self,
        key: char,
        control: bool,
        command: bool,
        shift: bool,
        alt: bool,
    ) -> (r: Option<Event>)
        ensures
            r.deep_view() == table_resolve(self@.bindings, key, control || command, shift, alt),
    {
        self.bindings.resolve_key_release(key, control, command, shift, alt)
    }

    /// One reduction step of the session: apply `event` and hand back the
    /// effects for the shell to run.
    pub fn update(&mut self, event: &Event) -> (effs: Vec<Effect>)
        requires
            old(self).wf(),
        ensures
            final(self).wf(),
            final(self)@ == session_step(old(self)@, *event).0,
            effs.deep_view() == session_step(old(self)@, *event).1,
    {
        proof {
            lemma_session_step_preserves_inv(self@, *event);
        }
        match event {
            Event::PaneDragged(d) => {
                match d {
                    DragEvent::Dropped { pane, target } => {
                        let a = *pane;
                        let b = *target;
                        proof {
                            lemma_pane_of_props(self@.panes, a);
                            lemma_pane_of_props(self@.panes, b);
                        }
                        if a != b {
                            let pa_opt = find_pane(&self.panes, a);
                            let pb_opt = find_pane(&self.panes, b);
                            match (pa_opt, pb_opt) {
                                (Some(pa), Some(pb)) => {
                                    let t = take_tree(&mut self.panes);
                                    self.panes = swap_tree(t, a, b, &pa, &pb);
                                },
                                _ => {},
                            }
                        }
                        no_effects()
                    },
                    _ => no_effects(),
                }
            },
            Event::TogglePin(id) => {
                let t = take_tree(&mut self.panes);
                self.panes = toggle_pin_tree(t, *id);
                no_effects()
            },
            Event::Split(axis, id) => {
                if self.next_pane_id < usize::MAX && self.next_split_id < usize::MAX {
                    let fresh = Pane::new(self.next_pane_id);
                    let t = take_tree(&mut self.panes);
                    let (t2, back) = split_tree(t, *axis, *id, fresh, self.next_split_id);
                    self.panes = t2;
                    match back {
                        None => {
                            self.focus = Some(self.next_pane_id);
                            self.next_pane_id = self.next_pane_id + 1;
                            self.next_split_id = self.next_split_id + 1;
                        },
                        Some(_) => {},
                    }
                }
                no_effects()
            },
            Event::PaneClicked(id) => {
                if has_pane_exec(&self.panes, *id) {
                    self.focus = Some(*id);
                }
                no_effects()
            },
            Event::PaneResized(sid, ratio) => {
                let t = take_tree(&mut self.panes);
                self.panes = resize_tree(t, *sid, *ratio);
                no_effects()
            },
            Event::Close(id) => {
                match pane_pinned(&self.panes, *id) {
                    Some(pinned) => {
                        if !pinned {
                            let t = take_tree(&mut self.panes);
                            let (t2, fo) = close_tree(t, *id);
                            self.panes = t2;
                            match fo {
                                Some(f) => {
                                    self.focus = Some(f);
                                },
                                None => {},
                            }
                        }
                    },
                    None => {},
                }
                no_effects()
            },
            _ => {
                match self.focus {
                    Some(f) => {
                        let t = take_tree(&mut self.panes);
                        let (t2, effs) = route_tree(t, f, event);
                        self.panes = t2;
                        effs
                    },
                    None => {
                        let t = take_tree(&mut self.panes);
                        let (t2, effs) = broadcast_tree(t, event);
                        self.panes = t2;
                        effs
                    },
                }
            },
        }
    }
}

/// The binding table after registering, in order, every chord of `kbs`
/// from index `i` on.
pub open spec fn insert_all_from(table: Seq<BucketV>, kbs: Seq<BindingV>, i: int) -> Seq<BucketV>
    decreases kbs.len() - i,
{
    if i < 0 || i >= kbs.len() {
        table
    } else {
        insert_all_from(insert_binding(table, kbs[i]), kbs, i + 1)
    }
}

} // verus!
