use vstd::prelude::*;

use crate::node::{
    action_of, replacement_of, replacement_taken, IOEvent, IOEventData, NodeActions, NodeData,
    NodeType,
};
use crate::world::{emptied, lemma_contains_concat, subtree, GlobalData};

verus! {

/// A lifecycle hook that the scene stack asks to run on a node, in order.
#[derive(Debug, PartialEq, Eq, Structural, Clone, Copy)]
pub enum LifecycleEvent {
    StartExitTransition(usize),
    Exit(usize),
    Enter(usize),
    EndEnterTransition(usize),
}

/// Whether `id` stands for no node: id 0 or a registered node of type `Nil`.
pub open spec fn nil_in(m: Map<usize, NodeData>, id: usize) -> bool {
    id == 0 || (m.contains_key(id) && m[id].node.n_type == NodeType::Nil)
}

/// Whether `id` is a registered scene-transition node.
pub open spec fn transition_in(m: Map<usize, NodeData>, id: usize) -> bool {
    m.contains_key(id) && m[id].node.n_type == NodeType::SceneTransition
}

/// The hooks that committing `next` in place of `running` runs: the running
/// node leaves the stage unless the newcomer is a transition node, and the
/// newcomer enters unless it is one itself (or is nil).
pub open spec fn commit_events(m: Map<usize, NodeData>, running: usize, next: usize) -> Seq<
    LifecycleEvent,
> {
    (if !transition_in(m, next) && !nil_in(m, running) {
        seq![LifecycleEvent::StartExitTransition(running), LifecycleEvent::Exit(running)]
    } else {
        Seq::empty()
    }) + (if !transition_in(m, next) && !nil_in(m, next) {
        seq![LifecycleEvent::Enter(next), LifecycleEvent::EndEnterTransition(next)]
    } else {
        Seq::empty()
    })
}

/// `s` without any occurrence of `x`, the rest in order.
pub open spec fn removed(s: Seq<usize>, x: usize) -> Seq<usize>
    decreases s.len(),
{
    if s.len() == 0 {
        s
    } else {
        removed(s.drop_last(), x) + if s.last() == x {
            Seq::empty()
        } else {
            seq![s.last()]
        }
    }
}

/// `s` without any occurrence of the ids in `xs`.
pub open spec fn removed_all(s: Seq<usize>, xs: Seq<usize>) -> Seq<usize>
    decreases xs.len(),
{
    if xs.len() == 0 {
        s
    } else {
        removed(removed_all(s, xs.drop_last()), xs.last())
    }
}

/// The ids of `s` that are registered nodes able to be timing targets, in order.
pub open spec fn timing_candidates(m: Map<usize, NodeData>, s: Seq<usize>) -> Seq<usize>
    decreases s.len(),
{
    if s.len() == 0 {
        s
    } else {
        timing_candidates(m, s.drop_last()) + if m.contains_key(s.last())
            && m[s.last()].node.canbe_timing_target {
            seq![s.last()]
        } else {
            Seq::empty()
        }
    }
}

/// The timing targets of `targets` that get an update: registered and not
/// paused, in order.
pub open spec fn due(m: Map<usize, NodeData>, targets: Seq<usize>) -> Seq<usize>
    decreases targets.len(),
{
    if targets.len() == 0 {
        targets
    } else {
        due(m, targets.drop_last()) + if m.contains_key(targets.last())
            && !m[targets.last()].timing.paused {
            seq![targets.last()]
        } else {
            Seq::empty()
        }
    }
}

/// A node that is not registered as a timing target never receives an
/// update, whether or not it is paused and wherever it stands in the tree.
pub proof fn law_only_timing_targets_update(
    m: Map<usize, NodeData>,
    targets: Seq<usize>,
    id: usize,
)
    requires
        !targets.contains(id),
    ensures
        !due(m, targets).contains(id),
    decreases targets.len(),
{
    if targets.len() > 0 {
        let rest = targets.drop_last();
        assert(!rest.contains(id)) by {
            if rest.contains(id) {
                let w = choose|w: int| 0 <= w < rest.len() && rest[w] == id;
                assert(targets[w] == id);
            }
        }
        law_only_timing_targets_update(m, rest, id);
        let last = targets.last();
        let tail = if m.contains_key(last) && !m[last].timing.paused {
            seq![last]
        } else {
            Seq::empty()
        };
        lemma_contains_concat(due(m, rest), tail, id);
        assert(last != id) by {
            assert(targets[targets.len() - 1] == last);
        }
        if tail.contains(id) {
            let w = choose|w: int| 0 <= w < tail.len() && tail[w] == id;
        }
    }
}

/// `removed(s, x)` keeps only elements of `s`, and never `x`.
pub proof fn lemma_removed(s: Seq<usize>, x: usize, y: usize)
    ensures
        !removed(s, x).contains(x),
        removed(s, x).contains(y) ==> s.contains(y),
    decreases s.len(),
{
    if s.len() > 0 {
        let rest = s.drop_last();
        lemma_removed(rest, x, y);
        let tail = if s.last() == x {
            Seq::<usize>::empty()
        } else {
            seq![s.last()]
        };
        lemma_contains_concat(removed(rest, x), tail, x);
        lemma_contains_concat(removed(rest, x), tail, y);
        if tail.contains(x) {
            let w = choose|w: int| 0 <= w < tail.len() && tail[w] == x;
        }
        if removed(s, x).contains(y) {
            if rest.contains(y) {
                let w = choose|w: int| 0 <= w < rest.len() && rest[w] == y;
                assert(s[w] == y);
            } else {
                let w = choose|w: int| 0 <= w < tail.len() && tail[w] == y;
                assert(s[s.len() - 1] == y);
            }
        }
    }
}

/// `removed_all(s, xs)` keeps only elements of `s`, and none of `xs`.
pub proof fn lemma_removed_all(s: Seq<usize>, xs: Seq<usize>, y: usize)
    ensures
        xs.contains(y) ==> !removed_all(s, xs).contains(y),
        removed_all(s, xs).contains(y) ==> s.contains(y),
    decreases xs.len(),
{
    if xs.len() > 0 {
        let rest = xs.drop_last();
        lemma_removed_all(s, rest, y);
        lemma_removed(removed_all(s, rest), xs.last(), y);
        if xs.contains(y) && y != xs.last() {
            let w = choose|w: int| 0 <= w < xs.len() && xs[w] == y;
            assert(rest[w] == y);
        }
    }
}

/// Unregistering the timing targets of a tree walks the same nodes as
/// registering them did, so registering a tree and then unregistering it
/// leaves none of its targets behind, and adds no id that was not there.
pub proof fn law_unregister_leaves_no_target_behind(
    m: Map<usize, NodeData>,
    r: spec_fn(usize) -> nat,
    targets: Seq<usize>,
    root: usize,
    k: usize,
)
    ensures
        ({
            let cands = timing_candidates(m, subtree(m, r, root));
            let after = removed_all(targets + cands, cands);
            &&& cands.contains(k) ==> !after.contains(k)
            &&& after.contains(k) ==> targets.contains(k)
        }),
{
    let cands = timing_candidates(m, subtree(m, r, root));
    lemma_removed_all(targets + cands, cands, k);
    lemma_contains_concat(targets, cands, k);
}

/// `m1` is `m0` once the node `p` has been flushed and then dropped from it.
pub open spec fn evicted(
    m0: Map<usize, NodeData>,
    m1: Map<usize, NodeData>,
    r: spec_fn(usize) -> nat,
    p: usize,
) -> bool {
    &&& m1.dom() == m0.dom().remove(p)
    &&& forall|k: usize|
        #[trigger] m1.contains_key(k) ==> if subtree(m0, r, p).contains(k) {
            emptied(m0[k], m1[k])
        } else {
            m1[k] == m0[k]
        }
}

/// `m` once the node `r` has handed out its replacement.
pub open spec fn replacement_handed(m: Map<usize, NodeData>, r: usize) -> Map<usize, NodeData> {
    m.insert(r, NodeData { transition: replacement_taken(m[r].transition), ..m[r] })
}

/// What carrying out a transition did.
pub struct TransitionOutcome {
    /// The node taken off the stack (0 when none).
    pub popped: usize,
    /// The hooks to run, in order.
    pub events: Vec<LifecycleEvent>,
}

// --------------------------------------------------------------------------
// Internal node stack
// --------------------------------------------------------------------------
struct NodeStack {
    nodes: Vec<usize>,
    /// Set when a node leaves the stack so that the running scene can release
    /// what it holds.
    signal_node_to_flush: bool,
    next_node: usize,
    running_node: usize,
}

/// The scene stack: which node runs, which one is staged to run next, and the
/// nodes that receive fixed-step updates.
pub struct NodeManager {
    stack: NodeStack,
    timing_targets: Vec<usize>,
}

impl NodeManager {
    /// The stacked node ids, bottom first.
    pub closed spec fn stacked(&self) -> Seq<usize> {
        self.stack.nodes@
    }

    /// The node staged to run from the next commit (0 when none).
    pub closed spec fn next(&self) -> usize {
        self.stack.next_node
    }

    /// The running node (0 when none).
    pub closed spec fn running(&self) -> usize {
        self.stack.running_node
    }

    pub closed spec fn flush_signal(&self) -> bool {
        self.stack.signal_node_to_flush
    }

    /// The registered timing targets, in registration order.
    pub closed spec fn targets(&self) -> Seq<usize> {
        self.timing_targets@
    }

    pub fn new() -> (man: Self)
        ensures
            man.stacked() == Seq::<usize>::empty(),
            man.next() == 0,
            man.running() == 0,
            !man.flush_signal(),
            man.targets() == Seq::<usize>::empty(),
    {
        NodeManager {
            stack: NodeStack {
                nodes: Vec::new(),
                signal_node_to_flush: false,
                next_node: 0,
                running_node: 0,
            },
            timing_targets: Vec::new(),
        }
    }

    pub fn is_empty(&self) -> (r: bool)
        ensures
            r == (self.stacked().len() == 0),
    {
        self.stack.nodes.len() == 0
    }

    pub fn running_node(&self) -> (r: usize)
        ensures
            r == self.running(),
    {
        self.stack.running_node
    }

    pub fn next_node(&self) -> (r: usize)
        ensures
            r == self.next(),
    {
        self.stack.next_node
    }

    /// Stages `id` to run from the next commit and stacks it.
    pub fn push_node(&mut self, id: usize)
        ensures
            final(self).stacked() == old(self).stacked().push(id),
            final(self).next() == id,
            final(self).running() == old(self).running(),
            !final(self).flush_signal(),
            final(self).targets() == old(self).targets(),
    {
        self.stack.signal_node_to_flush = false;
        self.stack.next_node = id;
        self.stack.nodes.push(id);
    }

    /// Unstacks the top node and stages it; nothing when the stack is empty.
    pub fn pop_node(&mut self)
        ensures
            old(self).stacked().len() == 0 ==> {
                &&& final(self).stacked() == old(self).stacked()
                &&& final(self).next() == old(self).next()
                &&& final(self).flush_signal() == old(self).flush_signal()
            },
            old(self).stacked().len() > 0 ==> {
                &&& final(self).stacked() == old(self).stacked().drop_last()
                &&& final(self).next() == old(self).stacked().last()
                &&& final(self).flush_signal()
            },
            final(self).running() == old(self).running(),
            final(self).targets() == old(self).targets(),
    {
        match self.stack.nodes.pop() {
            Some(id) => {
                self.stack.next_node = id;
                self.stack.signal_node_to_flush = true;
            },
            None => {},
        }
    }

    /// Commits the staged node: the running node exits (unless the newcomer
    /// is a transition node), the staged node runs, the staging slot empties,
    /// and the newcomer enters (unless it is a transition node or nil). The
    /// hooks to run are returned in order.
    pub fn set_next_node(&mut self, gdata: &GlobalData) -> (events: Vec<LifecycleEvent>)
        ensures
            events@ == commit_events(gdata.pool(), old(self).running(), old(self).next()),
            final(self).running() == old(self).next(),
            final(self).next() == 0,
            final(self).stacked() == old(self).stacked(),
            final(self).flush_signal() == old(self).flush_signal(),
            final(self).targets() == old(self).targets(),
    {
        let mut events: Vec<LifecycleEvent> = Vec::new();
        let next = self.stack.next_node;
        let running = self.stack.running_node;
        let next_is_transition = gdata.is_node_type(next, NodeType::SceneTransition);
        if !next_is_transition {
            if !gdata.is_nil(running) {
                events.push(LifecycleEvent::StartExitTransition(running));
                events.push(LifecycleEvent::Exit(running));
            }
        }
        self.stack.running_node = next;
        self.stack.next_node = 0;
        if !next_is_transition && !gdata.is_nil(next) {
            events.push(LifecycleEvent::Enter(next));
            events.push(LifecycleEvent::EndEnterTransition(next));
        }
        assert(events@ =~= commit_events(gdata.pool(), running, next));
        events
    }

    /// Opens a frame. `None` once the stack is empty: nothing is left to
    /// draw. Otherwise commits the staged node, when one is staged (see
    /// `set_next_node`), and returns the hooks to run before the running
    /// node's transition is carried out (`resolve_transition`) and the node
    /// is rendered.
    pub fn visit(&mut self, gdata: &GlobalData) -> (r: Option<Vec<LifecycleEvent>>)
        ensures
            old(self).stacked().len() == 0 ==> r is None,
            old(self).stacked().len() > 0 ==> r is Some,
            (old(self).stacked().len() == 0 || nil_in(gdata.pool(), old(self).next())) ==> {
                &&& r is Some ==> r->0@ == Seq::<LifecycleEvent>::empty()
                &&& final(self).running() == old(self).running()
                &&& final(self).next() == old(self).next()
            },
            (old(self).stacked().len() > 0 && !nil_in(gdata.pool(), old(self).next())) ==> {
                &&& r->0@ == commit_events(gdata.pool(), old(self).running(), old(self).next())
                &&& final(self).running() == old(self).next()
                &&& final(self).next() == 0
            },
            final(self).stacked() == old(self).stacked(),
            final(self).flush_signal() == old(self).flush_signal(),
            final(self).targets() == old(self).targets(),
    {
        if self.stack.nodes.len() == 0 {
            return None;
        }
        if gdata.is_nil(self.stack.next_node) {
            return Some(Vec::new());
        }
        Some(self.set_next_node(gdata))
    }

    /// Replaces the top of the stack by the registered node `id`: the top is
    /// unstacked, flushed and dropped from the registry, then `id` is stacked
    /// and staged (when it is registered). Returns the id that was unstacked
    /// (0 when the stack was empty), whose timing targets the caller drops.
    pub fn replace_by_id(&mut self, id: usize, gdata: &mut GlobalData) -> (popped: usize)
        requires
            old(gdata).wf(),
        ensures
            final(gdata).wf(),
            ({
                let m0 = old(gdata).pool();
                let s0 = old(self).stacked();
                let s1 = if s0.len() > 0 {
                    s0.drop_last()
                } else {
                    s0
                };
                let in_pool = m0.contains_key(popped) && s0.len() > 0;
                let m1 = final(gdata).pool();
                &&& popped == if s0.len() > 0 {
                    s0.last()
                } else {
                    0
                }
                &&& in_pool ==> evicted(m0, m1, old(gdata).ranks(), popped)
                &&& !in_pool ==> m1 == m0
                &&& m1.contains_key(id) ==> final(self).stacked() == s1.push(id)
                    && final(self).next() == id
                &&& !m1.contains_key(id) ==> final(self).stacked() == s1 && final(self).next()
                    == old(self).next()
            }),
            final(self).running() == old(self).running(),
            final(self).flush_signal(),
            final(self).targets() == old(self).targets(),
            final(gdata).same_but_pool(old(gdata)),
    {
        let ghost m0 = gdata.pool();
        let ghost r0 = gdata.ranks();
        let mut popped: usize = 0;
        match self.stack.nodes.pop() {
            Some(p) => {
                popped = p;
                if gdata.find_node(&p).is_some() {
                    gdata.flush(p);
                    let ghost m_f = gdata.pool();
                    let _ = gdata.take_node(&p);
                    proof {
                        let m1 = gdata.pool();
                        assert(m1.dom() =~= m0.dom().remove(p));
                        assert forall|k: usize| #[trigger] m1.contains_key(k) implies if subtree(
                            m0,
                            r0,
                            p,
                        ).contains(k) {
                            emptied(m0[k], m1[k])
                        } else {
                            m1[k] == m0[k]
                        } by {
                            assert(m0.contains_key(k));
                            assert(m1[k] == m_f[k]);
                        }
                    }
                }
            },
            None => {},
        }
        if gdata.find_node(&id).is_some() {
            self.stack.next_node = id;
            self.stack.nodes.push(id);
        }
        self.stack.signal_node_to_flush = true;
        popped
    }

    /// Carries out what the running node asks of the stack. On
    /// `SceneReplaceTake` the node hands out its replacement, the top of the
    /// stack is replaced by it (see `replace_by_id`), the unstacked node
    /// stops being a timing target, and the replacement is committed at once
    /// (see `set_next_node`): the outcome holds the unstacked id and the
    /// hooks to run, the running node's exit then the replacement's entry.
    /// On any other action nothing changes.
    pub fn resolve_transition(&mut self, gdata: &mut GlobalData) -> (out: TransitionOutcome)
        requires
            old(gdata).wf(),
        ensures
            final(gdata).wf(),
            ({
                let m0 = old(gdata).pool();
                let r = old(self).running();
                let acts = m0.contains_key(r) && action_of(m0[r].transition)
                    == NodeActions::SceneReplaceTake;
                let m_h = replacement_handed(m0, r);
                let repl = replacement_of(m0[r].transition);
                let s0 = old(self).stacked();
                let s1 = if s0.len() > 0 {
                    s0.drop_last()
                } else {
                    s0
                };
                let m1 = final(gdata).pool();
                let staged = if m1.contains_key(repl) {
                    repl
                } else {
                    old(self).next()
                };
                &&& !acts ==> {
                    &&& out.popped == 0
                    &&& out.events@ == Seq::<LifecycleEvent>::empty()
                    &&& m1 == m0
                    &&& *final(self) == *old(self)
                }
                &&& acts ==> {
                    &&& out.popped == if s0.len() > 0 {
                        s0.last()
                    } else {
                        0
                    }
                    &&& (m_h.contains_key(out.popped) && s0.len() > 0) ==> evicted(
                        m_h,
                        m1,
                        old(gdata).ranks(),
                        out.popped,
                    )
                    &&& !(m_h.contains_key(out.popped) && s0.len() > 0) ==> m1 == m_h
                    &&& final(self).stacked() == if m1.contains_key(repl) {
                        s1.push(repl)
                    } else {
                        s1
                    }
                    &&& final(self).targets() == removed(old(self).targets(), out.popped)
                    &&& !nil_in(m1, staged) ==> {
                        &&& out.events@ == commit_events(m1, r, staged)
                        &&& final(self).running() == staged
                        &&& final(self).next() == 0
                    }
                    &&& nil_in(m1, staged) ==> {
                        &&& out.events@ == Seq::<LifecycleEvent>::empty()
                        &&& final(self).running() == r
                        &&& final(self).next() == staged
                    }
                }
            }),
            final(gdata).same_but_pool(old(gdata)),
    {
        let running = self.stack.running_node;
        let action = gdata.transition(running);
        match action {
            NodeActions::SceneReplaceTake => {
                let id = gdata.take_transition_node(running);
                let popped = self.replace_by_id(id, gdata);
                self.unschedule_timing_target_by_id(popped);
                let events = if gdata.is_nil(self.stack.next_node) {
                    Vec::new()
                } else {
                    self.set_next_node(gdata)
                };
                TransitionOutcome { popped, events }
            },
            _ => TransitionOutcome { popped: 0, events: Vec::new() },
        }
    }

    /// The nodes that receive `io_event`, in order: for a mouse event, the
    /// running node and then the nodes below it, depth first (none when the
    /// running node is nil); none for any other event. A mouse event also
    /// records the mouse position.
    pub fn io_event(&self, io_event: IOEventData, gdata: &mut GlobalData) -> (targets: Vec<usize>)
        requires
            old(gdata).wf(),
        ensures
            io_event.event == IOEvent::Mouse ==> {
                &&& final(gdata).mouse_at() == io_event.coord
                &&& final(gdata).mouse_moved()
                &&& targets@ == if nil_in(old(gdata).pool(), self.running()) {
                    Seq::<usize>::empty()
                } else {
                    subtree(old(gdata).pool(), old(gdata).ranks(), self.running())
                }
            },
            io_event.event != IOEvent::Mouse ==> targets@ == Seq::<usize>::empty() && *final(gdata)
                == *old(gdata),
            final(gdata).pool() == old(gdata).pool(),
            final(gdata).ranks() == old(gdata).ranks(),
            final(gdata).last_id() == old(gdata).last_id(),
            final(gdata).io_targets() == old(gdata).io_targets(),
    {
        match io_event.event {
            IOEvent::Mouse => {
                gdata.set_mouse(io_event.coord.0, io_event.coord.1);
                let running = self.stack.running_node;
                if gdata.is_nil(running) {
                    Vec::new()
                } else {
                    gdata.subtree_ids(running)
                }
            },
            _ => Vec::new(),
        }
    }

    // --------------------------------------------------------------------------
    // Timing
    // --------------------------------------------------------------------------
    pub fn register_timing_target(&mut self, id: usize)
        ensures
            final(self).targets() == old(self).targets().push(id),
            final(self).stacked() == old(self).stacked(),
            final(self).next() == old(self).next(),
            final(self).running() == old(self).running(),
            final(self).flush_signal() == old(self).flush_signal(),
    {
        self.timing_targets.push(id);
    }

    /// Drops every registration of the node `id` as a timing target.
    pub fn unschedule_timing_target_by_id(&mut self, id: usize)
        ensures
            final(self).targets() == removed(old(self).targets(), id),
            final(self).stacked() == old(self).stacked(),
            final(self).next() == old(self).next(),
            final(self).running() == old(self).running(),
            final(self).flush_signal() == old(self).flush_signal(),
    {
        let ghost t0 = self.timing_targets@;
        let mut kept: Vec<usize> = Vec::new();
        let mut i: usize = 0;
        while i < self.timing_targets.len()
            invariant
                0 <= i <= t0.len(),
                self.timing_targets@ == t0,
                kept@ == removed(t0.subrange(0, i as int), id),
            decreases t0.len() - i,
        {
            let t = self.timing_targets[i];
            if t != id {
                kept.push(t);
            }
            assert(t0.subrange(0, i + 1).drop_last() =~= t0.subrange(0, i as int));
            i = i + 1;
        }
        assert(t0.subrange(0, t0.len() as int) =~= t0);
        self.timing_targets = kept;
    }

    /// Same as `unschedule_timing_target_by_id`: targets are told apart by id.
    pub fn unschedule_timing_target(&mut self, id: usize)
        ensures
            final(self).targets() == removed(old(self).targets(), id),
            final(self).stacked() == old(self).stacked(),
            final(self).next() == old(self).next(),
            final(self).running() == old(self).running(),
            final(self).flush_signal() == old(self).flush_signal(),
    {
        self.unschedule_timing_target_by_id(id);
    }

    /// The timing targets that receive this tick's update, in order: those
    /// still registered and not paused.
    pub fn update(&self, gdata: &GlobalData) -> (ids: Vec<usize>)
        requires
            gdata.wf(),
        ensures
            ids@ == due(gdata.pool(), self.targets()),
    {
        let ghost t0 = self.timing_targets@;
        let ghost m = gdata.pool();
        let mut ids: Vec<usize> = Vec::new();
        let mut i: usize = 0;
        while i < self.timing_targets.len()
            invariant
                0 <= i <= t0.len(),
                self.timing_targets@ == t0,
                m == gdata.pool(),
                gdata.wf(),
                ids@ == due(m, t0.subrange(0, i as int)),
            decreases t0.len() - i,
        {
            let t = self.timing_targets[i];
            match gdata.find_node(&t) {
                Some(n) => {
                    if !n.timing.paused {
                        ids.push(t);
                    }
                },
                None => {},
            }
            assert(t0.subrange(0, i + 1).drop_last() =~= t0.subrange(0, i as int));
            i = i + 1;
        }
        assert(t0.subrange(0, t0.len() as int) =~= t0);
        ids
    }
}

} // verus!
