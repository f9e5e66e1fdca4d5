use std::collections::HashMap;
use vstd::prelude::*;

use crate::node::{
    action_of, replacement_of, replacement_taken, NodeActions, NodeData, NodeProperties, NodeRole,
    NodeType, TimingProperties, TransitionRule,
};

verus! {

broadcast use vstd::std_specs::hash::group_hash_axioms;

/// The nodes that `id` holds as children, in order (empty for a node that is
/// not registered or cannot hold children).
pub open spec fn kids(m: Map<usize, NodeData>, id: usize) -> Seq<usize> {
    if m.contains_key(id) && m[id].children is Some {
        m[id].children->0@
    } else {
        Seq::empty()
    }
}

/// Whether the `i`-th child of `k` is a registered node.
pub open spec fn linked(m: Map<usize, NodeData>, k: usize, i: int) -> bool {
    m.contains_key(k) && 0 <= i < kids(m, k).len() && m.contains_key(kids(m, k)[i])
}

/// The registry is well formed under the rank `r`: no node is registered
/// under the nil id 0, there are finitely many nodes, and every registered
/// child ranks below its parent. The last point means that following child
/// links never comes back to a node: the graph has no cycle.
pub open spec fn ranked(m: Map<usize, NodeData>, r: spec_fn(usize) -> nat) -> bool {
    &&& !m.contains_key(0)
    &&& m.dom().finite()
    &&& forall|k: usize, i: int| #[trigger] linked(m, k, i) ==> r(kids(m, k)[i]) < r(k)
}

/// The registered nodes of the tree rooted at `id`, depth first, each parent
/// before its children. In a ranked registry every registered child ranks
/// below its parent, so the rank test only bounds the recursion.
pub open spec fn subtree(m: Map<usize, NodeData>, r: spec_fn(usize) -> nat, id: usize) -> Seq<
    usize,
>
    decreases r(id), 1int, 0int,
{
    if m.contains_key(id) {
        seq![id] + descendants(m, r, id, kids(m, id).len() as int)
    } else {
        Seq::empty()
    }
}

/// The subtrees of the first `n` children of `id`, one after the other.
pub open spec fn descendants(
    m: Map<usize, NodeData>,
    r: spec_fn(usize) -> nat,
    id: usize,
    n: int,
) -> Seq<usize>
    decreases r(id), 0int, n,
{
    if n <= 0 || n > kids(m, id).len() {
        Seq::empty()
    } else {
        let c = kids(m, id)[n - 1];
        descendants(m, r, id, n - 1) + if m.contains_key(c) && r(c) < r(id) {
            subtree(m, r, c)
        } else {
            Seq::empty()
        }
    }
}

/// All the descendants of `id`, without `id` itself.
pub open spec fn all_descendants(m: Map<usize, NodeData>, r: spec_fn(usize) -> nat, id: usize) -> Seq<
    usize,
> {
    descendants(m, r, id, kids(m, id).len() as int)
}

/// `n` with its dirty flag set to `dirty`.
pub open spec fn with_dirty(n: NodeData, dirty: bool) -> NodeData {
    NodeData { node: NodeProperties { dirty, ..n.node }, ..n }
}

/// `n` with its pause flag set to `paused`.
pub open spec fn with_paused(n: NodeData, paused: bool) -> NodeData {
    NodeData { timing: TimingProperties { paused }, ..n }
}

/// The registry after the dirty flag of every node of the tree rooted at `id`
/// was set to `dirty`.
pub open spec fn dirty_rippled(
    m: Map<usize, NodeData>,
    r: spec_fn(usize) -> nat,
    id: usize,
    dirty: bool,
) -> Map<usize, NodeData> {
    Map::new(
        |k: usize| m.contains_key(k),
        |k: usize|
            if subtree(m, r, id).contains(k) {
                with_dirty(m[k], dirty)
            } else {
                m[k]
            },
    )
}

/// The registry after the pause flag of every node of the tree rooted at
/// `id`, `id` included, was set to `paused`.
pub open spec fn pause_rippled(
    m: Map<usize, NodeData>,
    r: spec_fn(usize) -> nat,
    id: usize,
    paused: bool,
) -> Map<usize, NodeData> {
    Map::new(
        |k: usize| m.contains_key(k),
        |k: usize|
            if subtree(m, r, id).contains(k) {
                with_paused(m[k], paused)
            } else {
                m[k]
            },
    )
}

/// `after` is `before` with its child list, if it has one, emptied.
pub open spec fn emptied(before: NodeData, after: NodeData) -> bool {
    &&& after.node == before.node
    &&& after.timing == before.timing
    &&& after.parent == before.parent
    &&& after.role == before.role
    &&& after.transition == before.transition
    &&& (after.children is Some <==> before.children is Some)
    &&& after.children is Some ==> after.children->0@ == Seq::<usize>::empty()
}

/// `m1` is `m0` with the child lists of the tree rooted at `id` emptied.
pub open spec fn flushed(
    m0: Map<usize, NodeData>,
    m1: Map<usize, NodeData>,
    r: spec_fn(usize) -> nat,
    id: usize,
) -> bool {
    &&& m1.dom() == m0.dom()
    &&& forall|k: usize|
        m0.contains_key(k) ==> if #[trigger] subtree(m0, r, id).contains(k) {
            emptied(m0[k], m1[k])
        } else {
            m1[k] == m0[k]
        }
}

/// The nodes whose local transforms make up the world transform of `id`, from
/// `id` itself up to its root, each one's parent after it: the world transform
/// is the product `[id] x [parent] x [grandparent] ...`. At most `fuel` nodes
/// are climbed. `None` when a node on the way is not registered, or when the
/// climb needs more than `fuel` nodes.
pub open spec fn world_chain(m: Map<usize, NodeData>, id: usize, fuel: nat) -> Option<Seq<usize>>
    decreases fuel,
{
    if fuel == 0 || !m.contains_key(id) {
        None
    } else if m[id].parent == 0 {
        Some(seq![id])
    } else {
        match world_chain(m, m[id].parent, (fuel - 1) as nat) {
            Some(s) => Some(seq![id] + s),
            None => None,
        }
    }
}

/// The world chain of `id` in `m`, climbing at most as many nodes as `m`
/// holds: a longer climb would visit some node twice, so its parent links
/// would form a cycle.
pub open spec fn chain_of(m: Map<usize, NodeData>, id: usize) -> Option<Seq<usize>> {
    world_chain(m, id, m.dom().len())
}

/// `chain` with `prefix` put before it.
pub open spec fn prefixed(prefix: Seq<usize>, chain: Option<Seq<usize>>) -> Option<Seq<usize>> {
    match chain {
        Some(s) => Some(prefix + s),
        None => None,
    }
}

/// `after` is `before` with `child` appended to its child list.
pub open spec fn child_appended(before: NodeData, after: NodeData, child: usize) -> bool {
    &&& after.node == before.node
    &&& after.timing == before.timing
    &&& after.parent == before.parent
    &&& after.role == before.role
    &&& after.transition == before.transition
    &&& before.children is Some
    &&& after.children is Some
    &&& after.children->0@ == before.children->0@.push(child)
}

/// Whether `child` can be appended to the child list of `parent`: the parent
/// is registered and can hold children, and it is not in the tree rooted at
/// `child`, which would close a cycle.
pub open spec fn can_attach(
    m: Map<usize, NodeData>,
    r: spec_fn(usize) -> nat,
    parent: usize,
    child: usize,
) -> bool {
    m.contains_key(parent) && m[parent].children is Some && !subtree(m, r, child).contains(parent)
}

/// Whether `node` can be registered: it has a proper id and no children yet.
pub open spec fn registrable(node: NodeData) -> bool {
    node.node.id != 0 && (node.children is Some ==> node.children->0@.len() == 0)
}

/// `node` as registered under `id`.
pub open spec fn placed(node: NodeData, id: usize) -> NodeData {
    NodeData { node: NodeProperties { id, ..node.node }, ..node }
}

/// `m1` is `m0` once `node` was registered under the fresh `id` and, when
/// `attach` asks for it and its parent is a registered node that holds
/// children and is not `id` itself, appended to that parent's child list.
pub open spec fn created(
    m0: Map<usize, NodeData>,
    m1: Map<usize, NodeData>,
    node: NodeData,
    attach: bool,
    id: usize,
) -> bool {
    let m = m0.insert(id, placed(node, id));
    let p = node.parent;
    if attach && m.contains_key(p) && m[p].children is Some && p != id {
        &&& m1 == m.insert(p, m1[p])
        &&& child_appended(m[p], m1[p], id)
    } else {
        m1 == m
    }
}

/// `x` is in `a + b` exactly when it is in `a` or in `b`.
pub proof fn lemma_contains_concat<T>(a: Seq<T>, b: Seq<T>, x: T)
    ensures
        (a + b).contains(x) <==> (a.contains(x) || b.contains(x)),
{
    if (a + b).contains(x) {
        let w = choose|w: int| 0 <= w < (a + b).len() && (a + b)[w] == x;
        if w < a.len() {
            assert(a[w] == x);
        } else {
            assert(b[w - a.len()] == x);
        }
    }
    if a.contains(x) {
        let w = choose|w: int| 0 <= w < a.len() && a[w] == x;
        assert((a + b)[w] == x);
    }
    if b.contains(x) {
        let w = choose|w: int| 0 <= w < b.len() && b[w] == x;
        assert((a + b)[w + a.len()] == x);
    }
}

/// A node found below the first `n` children of `id` lies in the subtree of
/// one of them.
pub proof fn lemma_in_descendants(
    m: Map<usize, NodeData>,
    r: spec_fn(usize) -> nat,
    id: usize,
    n: int,
    k: usize,
) -> (j: int)
    requires
        descendants(m, r, id, n).contains(k),
    ensures
        0 <= j < n,
        j < kids(m, id).len(),
        m.contains_key(kids(m, id)[j]),
        r(kids(m, id)[j]) < r(id),
        subtree(m, r, kids(m, id)[j]).contains(k),
    decreases n,
{
    let c = kids(m, id)[n - 1];
    let tail = if m.contains_key(c) && r(c) < r(id) {
        subtree(m, r, c)
    } else {
        Seq::empty()
    };
    lemma_contains_concat(descendants(m, r, id, n - 1), tail, k);
    if descendants(m, r, id, n - 1).contains(k) {
        lemma_in_descendants(m, r, id, n - 1, k)
    } else {
        if !(m.contains_key(c) && r(c) < r(id)) {
            assert(!tail.contains(k));
        }
        n - 1
    }
}

/// Every node of a subtree is registered and ranks no higher than its root.
pub proof fn lemma_subtree_registered(
    m: Map<usize, NodeData>,
    r: spec_fn(usize) -> nat,
    id: usize,
    k: usize,
)
    requires
        subtree(m, r, id).contains(k),
    ensures
        m.contains_key(k),
        r(k) <= r(id),
    decreases r(id),
{
    assert(m.contains_key(id));
    if k != id {
        let d = descendants(m, r, id, kids(m, id).len() as int);
        lemma_contains_concat(seq![id], d, k);
        if seq![id].contains(k) {
            let w = choose|w: int| 0 <= w < 1 && seq![id][w] == k;
        }
        let j = lemma_in_descendants(m, r, id, kids(m, id).len() as int, k);
        lemma_subtree_registered(m, r, kids(m, id)[j], k);
    }
}

/// The subtree of the `j`-th child of `id` lies within the subtrees of the
/// first `n` children, for `j < n`.
pub proof fn lemma_child_subtree_within(
    m: Map<usize, NodeData>,
    r: spec_fn(usize) -> nat,
    id: usize,
    n: int,
    j: int,
    k: usize,
)
    requires
        0 <= j < n <= kids(m, id).len(),
        m.contains_key(kids(m, id)[j]),
        r(kids(m, id)[j]) < r(id),
        subtree(m, r, kids(m, id)[j]).contains(k),
    ensures
        descendants(m, r, id, n).contains(k),
    decreases n,
{
    let c = kids(m, id)[n - 1];
    let tail = if m.contains_key(c) && r(c) < r(id) {
        subtree(m, r, c)
    } else {
        Seq::empty()
    };
    lemma_contains_concat(descendants(m, r, id, n - 1), tail, k);
    if j < n - 1 {
        lemma_child_subtree_within(m, r, id, n - 1, j, k);
    }
}

/// A registered node belongs to its own subtree.
pub proof fn lemma_root_in_subtree(m: Map<usize, NodeData>, r: spec_fn(usize) -> nat, id: usize)
    requires
        m.contains_key(id),
    ensures
        subtree(m, r, id).contains(id),
{
    let d = descendants(m, r, id, kids(m, id).len() as int);
    assert((seq![id] + d)[0] == id);
}

/// In a ranked registry a subtree holds every registered child of each of
/// its nodes.
pub proof fn lemma_subtree_closed(
    m: Map<usize, NodeData>,
    r: spec_fn(usize) -> nat,
    id: usize,
    k: usize,
    i: int,
)
    requires
        ranked(m, r),
        subtree(m, r, id).contains(k),
        linked(m, k, i),
    ensures
        subtree(m, r, id).contains(kids(m, k)[i]),
    decreases r(id),
{
    assert(m.contains_key(id));
    let len = kids(m, id).len() as int;
    let d = descendants(m, r, id, len);
    let c = kids(m, k)[i];
    if k == id {
        lemma_root_in_subtree(m, r, c);
        lemma_child_subtree_within(m, r, id, len, i, c);
    } else {
        lemma_contains_concat(seq![id], d, k);
        if seq![id].contains(k) {
            let w = choose|w: int| 0 <= w < 1 && seq![id][w] == k;
        }
        let j = lemma_in_descendants(m, r, id, len, k);
        lemma_subtree_closed(m, r, kids(m, id)[j], k, i);
        lemma_child_subtree_within(m, r, id, len, j, c);
    }
    lemma_contains_concat(seq![id], d, c);
}

/// Replacing a node by one with the same child list keeps a registry
/// ranked.
pub proof fn lemma_ranked_update(
    m: Map<usize, NodeData>,
    r: spec_fn(usize) -> nat,
    id: usize,
    n: NodeData,
)
    requires
        ranked(m, r),
        m.contains_key(id),
        n.children == m[id].children,
    ensures
        ranked(m.insert(id, n), r),
{
    let m2 = m.insert(id, n);
    assert(m2.dom() =~= m.dom());
    assert forall|k: usize, i: int| #[trigger] linked(m2, k, i) implies r(kids(m2, k)[i]) < r(k) by {
        assert(kids(m2, k) == kids(m, k));
        assert(linked(m, k, i));
    }
}

/// A registry that keeps the nodes and child lists of a ranked one, or
/// empties some lists, or drops some nodes, is ranked the same way.
pub proof fn lemma_ranked_kept(
    m: Map<usize, NodeData>,
    m2: Map<usize, NodeData>,
    r: spec_fn(usize) -> nat,
)
    requires
        ranked(m, r),
        m2.dom().subset_of(m.dom()),
        forall|k: usize|
            #[trigger] m2.contains_key(k) ==> kids(m2, k) == kids(m, k) || kids(m2, k).len() == 0,
    ensures
        ranked(m2, r),
{
    vstd::set_lib::lemma_len_subset(m2.dom(), m.dom());
    assert forall|k: usize, i: int| #[trigger] linked(m2, k, i) implies r(kids(m2, k)[i]) < r(k) by {
        assert(linked(m, k, i));
    }
}

/// Registering a node and then looking its id up finds that very node;
/// taking the id out afterwards leaves it unregistered, so a later lookup
/// finds nothing, and one node fewer is registered.
pub proof fn law_register_then_find_then_take(m: Map<usize, NodeData>, node: NodeData)
    requires
        m.dom().finite(),
    ensures
        m.insert(node.node.id, node).contains_key(node.node.id),
        m.insert(node.node.id, node)[node.node.id] == node,
        !m.insert(node.node.id, node).remove(node.node.id).contains_key(node.node.id),
        m.insert(node.node.id, node).remove(node.node.id).len() + 1 == m.insert(
            node.node.id,
            node,
        ).len(),
{
}

/// Rippling a dirty flag from a node reaches every node below it at any
/// depth: for each registered child, the whole subtree of that child carries
/// the flag, as does the node itself.
pub proof fn law_ripple_reaches_all_descendants(
    m: Map<usize, NodeData>,
    r: spec_fn(usize) -> nat,
    id: usize,
    dirty: bool,
    j: int,
    k: usize,
)
    requires
        ranked(m, r),
        linked(m, id, j),
        subtree(m, r, kids(m, id)[j]).contains(k),
    ensures
        dirty_rippled(m, r, id, dirty).contains_key(k),
        dirty_rippled(m, r, id, dirty)[k].node.dirty == dirty,
        dirty_rippled(m, r, id, dirty)[id].node.dirty == dirty,
{
    let n = kids(m, id).len() as int;
    lemma_child_subtree_within(m, r, id, n, j, k);
    lemma_contains_concat(seq![id], descendants(m, r, id, n), k);
    lemma_root_in_subtree(m, r, id);
    lemma_subtree_registered(m, r, kids(m, id)[j], k);
}

/// The world transform of a node with a parent is its own local transform
/// followed by the world transform of the parent; for a chain A -> B -> C ->
/// root of registered nodes this gives A's transform first, then B's, then
/// C's, whatever their ids. The chain is a function of the registry alone,
/// so computing it again gives the same.
pub proof fn law_world_chain_order(m: Map<usize, NodeData>, a: usize, b: usize, c: usize)
    requires
        m.dom().finite(),
        m.contains_key(a),
        m.contains_key(b),
        m.contains_key(c),
        m[a].parent == b,
        m[b].parent == c,
        m[c].parent == 0,
        a != b,
        b != c,
        a != c,
        b != 0,
        c != 0,
    ensures
        chain_of(m, a) == Some(seq![a, b, c]),
{
    let abc = set![a, b, c];
    assert(abc.subset_of(m.dom()));
    vstd::set_lib::lemma_len_subset(abc, m.dom());
    assert(abc.len() == 3) by {
        assert(set![a].len() == 1);
        assert(set![a].insert(b).len() == 2);
    }
    let n = m.dom().len();
    assert(n >= 3);
    assert(world_chain(m, c, (n - 2) as nat) == Some(seq![c]));
    assert(world_chain(m, b, (n - 1) as nat) == Some(seq![b] + seq![c]));
    assert(seq![b] + seq![c] =~= seq![b, c]);
    assert(world_chain(m, a, n) == Some(seq![a] + seq![b, c]));
    assert(seq![a] + seq![b, c] =~= seq![a, b, c]);
}

/// Shared state of a running world: the mouse, and the registry that maps
/// each live node id to its node.
pub struct GlobalData {
    /// Mouse-space is synonymous with window/device space.
    mouse: (i32, i32),
    mouse_changed: bool,
    io_event_targets: Vec<usize>,
    node_pool: HashMap<usize, NodeData>,
    last_id: usize,
    /// A rank under which the registry is well formed (see `ranked`).
    ranks: Ghost<spec_fn(usize) -> nat>,
}

impl GlobalData {
    /// `self` and `other` differ at most in their registry.
    pub open spec fn same_but_pool(&self, other: &GlobalData) -> bool {
        &&& self.last_id() == other.last_id()
        &&& self.io_targets() == other.io_targets()
        &&& self.mouse_at() == other.mouse_at()
        &&& self.mouse_moved() == other.mouse_moved()
        &&& self.ranks() == other.ranks()
    }

    /// The registry: each registered id and its node.
    pub closed spec fn pool(&self) -> Map<usize, NodeData> {
        self.node_pool@
    }

    /// The rank that shows the registry acyclic.
    pub closed spec fn ranks(&self) -> spec_fn(usize) -> nat {
        self.ranks@
    }

    /// The registry is well formed: see `ranked`.
    pub open spec fn wf(&self) -> bool {
        ranked(self.pool(), self.ranks())
    }

    /// The last id handed out (0 before the first).
    pub closed spec fn last_id(&self) -> usize {
        self.last_id
    }

    /// The last mouse position reported, in device space.
    pub closed spec fn mouse_at(&self) -> (i32, i32) {
        self.mouse
    }

    /// Whether the mouse moved since the view coordinates were last updated.
    pub closed spec fn mouse_moved(&self) -> bool {
        self.mouse_changed
    }

    /// The nodes registered for io events, in order.
    pub closed spec fn io_targets(&self) -> Seq<usize> {
        self.io_event_targets@
    }

    pub fn new() -> (g: Self)
        ensures
            g.wf(),
            g.pool() == Map::<usize, NodeData>::empty(),
            g.last_id() == 0,
            g.io_targets() == Seq::<usize>::empty(),
            g.mouse_at() == (0i32, 0i32),
            !g.mouse_moved(),
    {
        let g = GlobalData {
            mouse: (0, 0),
            mouse_changed: false,
            io_event_targets: Vec::new(),
            node_pool: HashMap::new(),
            last_id: 0,
            ranks: Ghost(|k: usize| 0nat),
        };
        assert forall|k: usize, i: int| #[trigger] linked(g.pool(), k, i) implies false by {}
        g
    }

    pub fn set_mouse(&mut self, x: i32, y: i32)
        ensures
            final(self).mouse_at() == (x, y),
            final(self).mouse_moved(),
            final(self).pool() == old(self).pool(),
            final(self).ranks() == old(self).ranks(),
            final(self).last_id() == old(self).last_id(),
            final(self).io_targets() == old(self).io_targets(),
    {
        self.mouse = (x, y);
        self.mouse_changed = true;
    }

    pub fn mouse(&self) -> (r: (i32, i32))
        ensures
            r == self.mouse_at(),
    {
        self.mouse
    }

    /// The mouse position if it moved since the last call, which clears the
    /// change; `None` otherwise. The caller maps the position to view space.
    pub fn take_mouse_change(&mut self) -> (r: Option<(i32, i32)>)
        ensures
            r == (if old(self).mouse_moved() {
                Some(old(self).mouse_at())
            } else {
                None
            }),
            !final(self).mouse_moved(),
            final(self).mouse_at() == old(self).mouse_at(),
            final(self).pool() == old(self).pool(),
            final(self).ranks() == old(self).ranks(),
            final(self).last_id() == old(self).last_id(),
            final(self).io_targets() == old(self).io_targets(),
    {
        if self.mouse_changed {
            self.mouse_changed = false;
            Some(self.mouse)
        } else {
            None
        }
    }

    /// The last id handed out (0 before the first).
    pub fn last_issued_id(&self) -> (r: usize)
        ensures
            r == self.last_id(),
    {
        self.last_id
    }

    /// A fresh id: one more than the last one handed out.
    pub fn gen_id(&mut self) -> (id: usize)
        requires
            old(self).last_id() < usize::MAX,
        ensures
            id == old(self).last_id() + 1,
            final(self).last_id() == id,
            final(self).pool() == old(self).pool(),
            final(self).ranks() == old(self).ranks(),
            final(self).io_targets() == old(self).io_targets(),
            final(self).mouse_at() == old(self).mouse_at(),
            final(self).mouse_moved() == old(self).mouse_moved(),
    {
        self.last_id = self.last_id + 1;
        self.last_id
    }

    /// Registers `node` under its own id, replacing any node held there. The
    /// id must not be the nil id 0, and the node must not hold children yet:
    /// children are attached to registered nodes (see `add_child`).
    pub fn add_node(&mut self, node: NodeData)
        requires
            old(self).wf(),
            registrable(node),
        ensures
            final(self).wf(),
            final(self).pool() == old(self).pool().insert(node.node.id, node),
            final(self).last_id() == old(self).last_id(),
            final(self).io_targets() == old(self).io_targets(),
            final(self).mouse_at() == old(self).mouse_at(),
            final(self).mouse_moved() == old(self).mouse_moved(),
    {
        let id = node.node.id;
        let ghost m0 = self.pool();
        let ghost r0 = self.ranks();
        self.node_pool.insert(id, node);
        let ghost r1 = |k: usize| if k == id { 0nat } else { r0(k) + 1 };
        self.ranks = Ghost(r1);
        proof {
            let m1 = self.pool();
            assert forall|k: usize, i: int| #[trigger] linked(m1, k, i) implies r1(kids(m1, k)[i])
                < r1(k) by {
                assert(k != id);
                assert(kids(m1, k) == kids(m0, k));
                if kids(m1, k)[i] != id {
                    assert(linked(m0, k, i));
                }
            }
        }
    }

    /// The node registered under `id`; nothing for the nil id 0 or an id that
    /// is not registered.
    pub fn find_node(&self, id: &usize) -> (r: Option<&NodeData>)
        ensures
            r is Some <==> (*id != 0 && self.pool().contains_key(*id)),
            r is Some ==> *r->0 == self.pool()[*id],
    {
        if *id == 0 {
            return None;
        }
        self.node_pool.get(id)
    }

    /// Removes the node registered under `id` and hands it back.
    pub fn take_node(&mut self, id: &usize) -> (r: Option<NodeData>)
        requires
            old(self).wf(),
        ensures
            final(self).wf(),
            r is Some <==> old(self).pool().contains_key(*id),
            r is Some ==> r->0 == old(self).pool()[*id],
            final(self).pool() == old(self).pool().remove(*id),
            final(self).same_but_pool(old(self)),
    {
        let r = self.node_pool.remove(id);
        proof {
            lemma_ranked_kept(old(self).pool(), self.pool(), self.ranks());
        }
        r
    }

    pub fn node_count(&self) -> (n: usize)
        ensures
            n == self.pool().len(),
    {
        self.node_pool.len()
    }

    pub fn register_io_event_targets(&mut self, id: usize)
        ensures
            final(self).io_targets() == old(self).io_targets().push(id),
            final(self).pool() == old(self).pool(),
            final(self).ranks() == old(self).ranks(),
            final(self).last_id() == old(self).last_id(),
            final(self).mouse_at() == old(self).mouse_at(),
            final(self).mouse_moved() == old(self).mouse_moved(),
    {
        self.io_event_targets.push(id);
    }

    pub fn io_event_targets_count(&self) -> (n: usize)
        ensures
            n == self.io_targets().len(),
    {
        self.io_event_targets.len()
    }

    fn collect_subtree(&self, id: usize, out: &mut Vec<usize>)
        requires
            self.wf(),
        ensures
            final(out)@ == old(out)@ + subtree(self.pool(), self.ranks(), id),
        decreases self.ranks()(id),
    {
        let ghost m = self.pool();
        let ghost r = self.ranks();
        match self.node_pool.get(&id) {
            None => {
                assert(final(out)@ =~= old(out)@ + subtree(m, r, id));
            },
            Some(n) => {
                out.push(id);
                match &n.children {
                    None => {
                        assert(descendants(m, r, id, 0) == Seq::<usize>::empty());
                        assert(out@ =~= old(out)@ + subtree(m, r, id));
                    },
                    Some(ks) => {
                        assert(ks@ == kids(m, id));
                        let mut i: usize = 0;
                        while i < ks.len()
                            invariant
                                0 <= i <= ks.len(),
                                ks@ == kids(m, id),
                                m == self.pool(),
                                r == self.ranks(),
                                self.wf(),
                                m.contains_key(id),
                                out@ == old(out)@ + seq![id] + descendants(m, r, id, i as int),
                            decreases ks.len() - i,
                        {
                            let c = ks[i];
                            let registered = self.node_pool.get(&c).is_some();
                            if registered {
                                assert(linked(m, id, i as int));
                                self.collect_subtree(c, out);
                            }
                            proof {
                                assert(descendants(m, r, id, i + 1) == descendants(m, r, id, i as int)
                                    + if m.contains_key(c) && r(c) < r(id) {
                                    subtree(m, r, c)
                                } else {
                                    Seq::<usize>::empty()
                                });
                            }
                            assert(out@ =~= old(out)@ + seq![id] + descendants(m, r, id, i + 1));
                            i = i + 1;
                        }
                        assert(out@ =~= old(out)@ + subtree(m, r, id));
                    },
                }
            },
        }
    }

    /// The ids of the tree rooted at `id`, depth first.
    pub fn subtree_ids(&self, id: usize) -> (r: Vec<usize>)
        requires
            self.wf(),
        ensures
            r@ == subtree(self.pool(), self.ranks(), id),
    {
        let mut out: Vec<usize> = Vec::new();
        self.collect_subtree(id, &mut out);
        assert(out@ =~= subtree(self.pool(), self.ranks(), id));
        out
    }

    /// The ids whose local transforms compose the world transform of `id`, in
    /// multiplication order: `id`, its parent, and so on up to the root.
    /// `None` when the climb meets a parent that is missing from the registry,
    /// or climbs more nodes than are registered (its parent links form a
    /// cycle): the composition must then be abandoned.
    pub fn node_to_world(&self, id: usize) -> (r: Option<Vec<usize>>)
        ensures
            match r {
                Some(v) => chain_of(self.pool(), id) == Some(v@),
                None => chain_of(self.pool(), id) is None,
            },
    {
        let ghost m = self.pool();
        let mut out: Vec<usize> = Vec::new();
        let mut cur = id;
        let mut fuel: usize = self.node_pool.len();
        loop
            invariant
                m == self.pool(),
                chain_of(m, id) == prefixed(out@, world_chain(m, cur, fuel as nat)),
            decreases fuel,
        {
            if fuel == 0 {
                return None;
            }
            match self.node_pool.get(&cur) {
                None => {
                    return None;
                },
                Some(n) => {
                    let p = n.parent;
                    let ghost before = out@;
                    out.push(cur);
                    if p == 0 {
                        assert(chain_of(m, id) == Some(out@)) by {
                            assert(before + seq![cur] =~= out@);
                        }
                        return Some(out);
                    }
                    assert(world_chain(m, cur, fuel as nat) == prefixed(
                        seq![cur],
                        world_chain(m, p, (fuel - 1) as nat),
                    ));
                    assert(chain_of(m, id) == prefixed(out@, world_chain(m, p, (fuel - 1) as nat)))
                        by {
                        match world_chain(m, p, (fuel - 1) as nat) {
                            Some(s) => {
                                assert(out@ + s =~= before + (seq![cur] + s));
                            },
                            None => {},
                        }
                    }
                    cur = p;
                    fuel = fuel - 1;
                },
            }
        }
    }

    /// The descendants of `id`, depth first, each parent before its
    /// children: the nodes that entering or leaving `id` reaches.
    pub fn descendants_of(&self, id: usize) -> (r: Vec<usize>)
        requires
            self.wf(),
        ensures
            r@ == all_descendants(self.pool(), self.ranks(), id),
    {
        let ghost m = self.pool();
        let ghost rk = self.ranks();
        let ids = self.subtree_ids(id);
        let mut out: Vec<usize> = Vec::new();
        if ids.len() == 0 {
            assert(all_descendants(m, rk, id) =~= Seq::<usize>::empty());
            return out;
        }
        let mut i: usize = 1;
        while i < ids.len()
            invariant
                1 <= i <= ids.len(),
                ids@ == subtree(m, rk, id),
                m.contains_key(id),
                out@ == ids@.subrange(1, i as int),
            decreases ids.len() - i,
        {
            out.push(ids[i]);
            assert(out@ =~= ids@.subrange(1, i + 1));
            i = i + 1;
        }
        assert(out@ =~= all_descendants(m, rk, id));
        out
    }

    /// Appends `child` to the child list of `parent` when the parent is
    /// registered, holds children, and is not in the tree rooted at `child`
    /// (see `can_attach`); says whether it did.
    pub fn add_child(&mut self, parent: usize, child: usize) -> (done: bool)
        requires
            old(self).wf(),
        ensures
            final(self).wf(),
            done == can_attach(old(self).pool(), old(self).ranks(), parent, child),
            done ==> final(self).pool() == old(self).pool().insert(
                parent,
                final(self).pool()[parent],
            ),
            done ==> child_appended(old(self).pool()[parent], final(self).pool()[parent], child),
            !done ==> final(self).pool() == old(self).pool(),
            !done ==> final(self).ranks() == old(self).ranks(),
            final(self).last_id() == old(self).last_id(),
            final(self).io_targets() == old(self).io_targets(),
            final(self).mouse_at() == old(self).mouse_at(),
            final(self).mouse_moved() == old(self).mouse_moved(),
    {
        let ghost m0 = self.pool();
        let ghost r0 = self.ranks();
        let below = self.subtree_ids(child);
        let mut i: usize = 0;
        while i < below.len()
            invariant
                0 <= i <= below.len(),
                below@ == subtree(m0, r0, child),
                forall|j: int| 0 <= j < i ==> below@[j] != parent,
                self.pool() == m0,
                m0 == old(self).pool(),
                r0 == old(self).ranks(),
                self.same_but_pool(old(self)),
                self.wf(),
            decreases below.len() - i,
        {
            if below[i] == parent {
                assert(below@[i as int] == parent);
                return false;
            }
            i = i + 1;
        }
        assert(!below@.contains(parent));
        match self.node_pool.get(&parent) {
            None => {
                return false;
            },
            Some(n) => {
                if n.children.is_none() {
                    return false;
                }
            },
        }
        let ghost sub = below@;
        let mut n = self.node_pool.remove(&parent).unwrap();
        match n.children {
            Some(ref mut ks) => {
                ks.push(child);
            },
            None => {},
        }
        let ghost n1 = n;
        assert(kids(m0, parent).push(child) == n1.children->0@);
        self.node_pool.insert(parent, n);
        assert(self.node_pool@ =~= m0.insert(parent, self.node_pool@[parent]));
        assert(self.node_pool@.dom() =~= m0.dom());
        let ghost r1 = |k: usize| if sub.contains(k) { r0(k) } else { r0(k) + r0(child) + 1 };
        self.ranks = Ghost(r1);
        proof {
            let m1 = self.pool();
            assert forall|k: usize, i: int| #[trigger] linked(m1, k, i) implies r1(kids(m1, k)[i])
                < r1(k) by {
                let d = kids(m1, k)[i];
                if k == parent && i == kids(m0, k).len() {
                    assert(d == child);
                    lemma_root_in_subtree(m0, r0, child);
                } else {
                    assert(kids(m1, k)[i] == kids(m0, k)[i]);
                    assert(linked(m0, k, i));
                    if sub.contains(k) {
                        lemma_subtree_closed(m0, r0, child, k, i);
                    } else if sub.contains(d) {
                        lemma_subtree_registered(m0, r0, child, d);
                    }
                }
            }
        }
        true
    }

    pub fn set_visible(&mut self, id: usize, visible: bool) -> (found: bool)
        requires
            old(self).wf(),
        ensures
            final(self).wf(),
            found == old(self).pool().contains_key(id),
            final(self).pool() == if found {
                old(self).pool().insert(
                    id,
                    NodeData {
                        node: NodeProperties { visible, ..old(self).pool()[id].node },
                        ..old(self).pool()[id]
                    },
                )
            } else {
                old(self).pool()
            },
            final(self).same_but_pool(old(self)),
    {
        let ghost m0 = self.pool();
        match self.node_pool.remove(&id) {
            Some(mut n) => {
                n.node.visible = visible;
                let ghost n1 = n;
                self.node_pool.insert(id, n);
                proof {
                    assert(self.node_pool@ =~= m0.insert(id, n1));
                    lemma_ranked_update(m0, self.ranks(), id, n1);
                }
                true
            },
            None => {
                assert(self.node_pool@ =~= m0);
                false
            },
        }
    }

    pub fn set_role(&mut self, id: usize, role: NodeRole) -> (found: bool)
        requires
            old(self).wf(),
        ensures
            final(self).wf(),
            found == old(self).pool().contains_key(id),
            final(self).pool() == if found {
                old(self).pool().insert(id, NodeData { role, ..old(self).pool()[id] })
            } else {
                old(self).pool()
            },
            final(self).same_but_pool(old(self)),
    {
        let ghost m0 = self.pool();
        match self.node_pool.remove(&id) {
            Some(mut n) => {
                n.role = role;
                let ghost n1 = n;
                self.node_pool.insert(id, n);
                proof {
                    assert(self.node_pool@ =~= m0.insert(id, n1));
                    lemma_ranked_update(m0, self.ranks(), id, n1);
                }
                true
            },
            None => {
                assert(self.node_pool@ =~= m0);
                false
            },
        }
    }

    pub fn set_transition(&mut self, id: usize, transition: TransitionRule) -> (found: bool)
        requires
            old(self).wf(),
        ensures
            final(self).wf(),
            found == old(self).pool().contains_key(id),
            final(self).pool() == if found {
                old(self).pool().insert(id, NodeData { transition, ..old(self).pool()[id] })
            } else {
                old(self).pool()
            },
            final(self).same_but_pool(old(self)),
    {
        let ghost m0 = self.pool();
        match self.node_pool.remove(&id) {
            Some(mut n) => {
                n.transition = transition;
                let ghost n1 = n;
                self.node_pool.insert(id, n);
                proof {
                    assert(self.node_pool@ =~= m0.insert(id, n1));
                    lemma_ranked_update(m0, self.ranks(), id, n1);
                }
                true
            },
            None => {
                assert(self.node_pool@ =~= m0);
                false
            },
        }
    }

    /// What the node registered under `id` asks of the scene stack; nothing
    /// for an id that is not registered.
    pub fn transition(&self, id: usize) -> (r: NodeActions)
        ensures
            r == if self.pool().contains_key(id) {
                action_of(self.pool()[id].transition)
            } else {
                NodeActions::NoAction
            },
    {
        match self.node_pool.get(&id) {
            Some(n) => n.transition.action(),
            None => NodeActions::NoAction,
        }
    }

    /// Hands out the replacement that the node `id` names, and clears it so
    /// that it is handed out once.
    pub fn take_transition_node(&mut self, id: usize) -> (r: usize)
        requires
            old(self).wf(),
        ensures
            final(self).wf(),
            r == if old(self).pool().contains_key(id) {
                replacement_of(old(self).pool()[id].transition)
            } else {
                0
            },
            final(self).pool() == if old(self).pool().contains_key(id) {
                old(self).pool().insert(
                    id,
                    NodeData {
                        transition: replacement_taken(old(self).pool()[id].transition),
                        ..old(self).pool()[id]
                    },
                )
            } else {
                old(self).pool()
            },
            final(self).same_but_pool(old(self)),
    {
        let ghost m0 = self.pool();
        match self.node_pool.remove(&id) {
            Some(mut n) => {
                let r = n.transition.replacement();
                n.transition = n.transition.taken();
                let ghost n1 = n;
                self.node_pool.insert(id, n);
                proof {
                    assert(self.node_pool@ =~= m0.insert(id, n1));
                    lemma_ranked_update(m0, self.ranks(), id, n1);
                }
                r
            },
            None => {
                assert(self.node_pool@ =~= m0);
                0
            },
        }
    }

    /// Whether `id` stands for no node: id 0, or a registered node of type
    /// `Nil`.
    pub fn is_nil(&self, id: usize) -> (r: bool)
        ensures
            r == (id == 0 || (self.pool().contains_key(id) && self.pool()[id].node.n_type
                == NodeType::Nil)),
    {
        if id == 0 {
            return true;
        }
        match self.node_pool.get(&id) {
            Some(n) => n.node.n_type == NodeType::Nil,
            None => false,
        }
    }

    /// Whether `id` is a registered node of type `t`.
    pub fn is_node_type(&self, id: usize, t: NodeType) -> (r: bool)
        ensures
            r == (self.pool().contains_key(id) && self.pool()[id].node.n_type == t),
    {
        match self.node_pool.get(&id) {
            Some(n) => n.node.n_type == t,
            None => false,
        }
    }

    /// Gives `node` a fresh id, registers it under that id, and, when
    /// `attach` asks for it, appends it to the child list of its parent when
    /// that parent is registered and holds children. Returns the id. The
    /// node must not hold children yet.
    pub fn create_node(&mut self, node: NodeData, attach: bool) -> (id: usize)
        requires
            old(self).wf(),
            old(self).last_id() < usize::MAX,
            node.children is Some ==> node.children->0@.len() == 0,
        ensures
            final(self).wf(),
            id == old(self).last_id() + 1,
            final(self).last_id() == id,
            created(old(self).pool(), final(self).pool(), node, attach, id),
            final(self).io_targets() == old(self).io_targets(),
            final(self).mouse_at() == old(self).mouse_at(),
            final(self).mouse_moved() == old(self).mouse_moved(),
    {
        let ghost n0 = node;
        let id = self.gen_id();
        let mut node = node;
        node.node.id = id;
        let parent = node.parent;
        assert(node == placed(n0, id));
        self.add_node(node);
        let ghost m = self.pool();
        if attach {
            proof {
                let d = descendants(m, self.ranks(), id, kids(m, id).len() as int);
                assert(kids(m, id).len() == 0);
                assert(d == Seq::<usize>::empty());
                assert(subtree(m, self.ranks(), id) =~= seq![id]);
                if subtree(m, self.ranks(), id).contains(parent) {
                    let w = choose|w: int| 0 <= w < 1 && seq![id][w] == parent;
                }
                if parent == id {
                    assert(seq![id][0] == id);
                }
            }
            let _ = self.add_child(parent, id);
        }
        id
    }

    /// Sets the dirty flag of the node `id` alone.
    pub fn set_node_dirty(&mut self, id: usize, dirty: bool)
        requires
            old(self).wf(),
        ensures
            final(self).wf(),
            final(self).pool() == if old(self).pool().contains_key(id) {
                old(self).pool().insert(id, with_dirty(old(self).pool()[id], dirty))
            } else {
                old(self).pool()
            },
            final(self).same_but_pool(old(self)),
    {
        let ghost m0 = self.pool();
        match self.node_pool.remove(&id) {
            Some(mut n) => {
                n.node.dirty = dirty;
                let ghost n1 = n;
                self.node_pool.insert(id, n);
                proof {
                    assert(self.node_pool@ =~= m0.insert(id, n1));
                    lemma_ranked_update(m0, self.ranks(), id, n1);
                }
            },
            None => {
                assert(self.node_pool@ =~= m0);
            },
        }
    }

    /// Sets the pause flag of the node `id` alone.
    pub fn pause_node(&mut self, id: usize, paused: bool)
        requires
            old(self).wf(),
        ensures
            final(self).wf(),
            final(self).pool() == if old(self).pool().contains_key(id) {
                old(self).pool().insert(id, with_paused(old(self).pool()[id], paused))
            } else {
                old(self).pool()
            },
            final(self).same_but_pool(old(self)),
    {
        let ghost m0 = self.pool();
        match self.node_pool.remove(&id) {
            Some(mut n) => {
                n.timing.pause(paused);
                let ghost n1 = n;
                self.node_pool.insert(id, n);
                proof {
                    assert(self.node_pool@ =~= m0.insert(id, n1));
                    lemma_ranked_update(m0, self.ranks(), id, n1);
                }
            },
            None => {
                assert(self.node_pool@ =~= m0);
            },
        }
    }

    fn empty_children_at(&mut self, id: usize)
        requires
            old(self).wf(),
        ensures
            final(self).wf(),
            final(self).pool().dom() == old(self).pool().dom(),
            forall|k: usize|
                k != id && old(self).pool().contains_key(k) ==> final(self).pool()[k] == old(
                    self,
                ).pool()[k],
            old(self).pool().contains_key(id) ==> emptied(
                old(self).pool()[id],
                final(self).pool()[id],
            ),
            final(self).same_but_pool(old(self)),
    {
        match self.node_pool.remove(&id) {
            Some(mut n) => {
                if n.children.is_some() {
                    n.children = Some(Vec::new());
                }
                self.node_pool.insert(id, n);
                assert(self.pool().dom() =~= old(self).pool().dom());
            },
            None => {},
        }
        proof {
            lemma_ranked_kept(old(self).pool(), self.pool(), self.ranks());
        }
    }

    /// Sets the dirty flag of `id` and of every node below it, so that the
    /// next visit recomputes their transforms.
    pub fn ripple_node_dirty(&mut self, id: usize, dirty: bool)
        requires
            old(self).wf(),
        ensures
            final(self).wf(),
            final(self).pool() == dirty_rippled(old(self).pool(), old(self).ranks(), id, dirty),
            final(self).same_but_pool(old(self)),
    {
        let ghost m0 = self.pool();
        let ghost r0 = self.ranks();
        let ids = self.subtree_ids(id);
        let mut i: usize = 0;
        while i < ids.len()
            invariant
                0 <= i <= ids.len(),
                ids@ == subtree(m0, r0, id),
                self.wf(),
                self.same_but_pool(old(self)),
                old(self).pool() == m0,
                self.pool().dom() == m0.dom(),
                forall|k: usize|
                    m0.contains_key(k) ==> self.pool()[k] == if #[trigger] ids@.subrange(
                        0,
                        i as int,
                    ).contains(k) {
                        with_dirty(m0[k], dirty)
                    } else {
                        m0[k]
                    },
            decreases ids.len() - i,
        {
            let k = ids[i];
            let ghost before = self.pool();
            self.set_node_dirty(k, dirty);
            proof {
                assert forall|j: usize| m0.contains_key(j) implies self.pool()[j] == if #[trigger] ids@.subrange(
                    0,
                    i + 1,
                ).contains(j) {
                    with_dirty(m0[j], dirty)
                } else {
                    m0[j]
                } by {
                    let s0 = ids@.subrange(0, i as int);
                    let s1 = ids@.subrange(0, i + 1);
                    assert(s1 =~= s0.push(k));
                    let was = s0.contains(j);
                    assert(before[j] == if was {
                        with_dirty(m0[j], dirty)
                    } else {
                        m0[j]
                    });
                    if j == k {
                        assert(s1[i as int] == k);
                    } else {
                        if s1.contains(j) {
                            let w = choose|w: int| 0 <= w < s1.len() && s1[w] == j;
                            assert(s0[w] == j);
                        }
                        if s0.contains(j) {
                            let w = choose|w: int| 0 <= w < s0.len() && s0[w] == j;
                            assert(s1[w] == j);
                        }
                    }
                }
            }
            i = i + 1;
        }
        assert(ids@.subrange(0, ids.len() as int) =~= ids@);
        assert(self.pool() =~= dirty_rippled(m0, r0, id, dirty));
    }

    /// Sets the pause flag of `id` and of every node below it.
    pub fn ripple_pause(&mut self, id: usize, paused: bool)
        requires
            old(self).wf(),
        ensures
            final(self).wf(),
            final(self).pool() == pause_rippled(old(self).pool(), old(self).ranks(), id, paused),
            final(self).same_but_pool(old(self)),
    {
        let ghost m0 = self.pool();
        let ghost r0 = self.ranks();
        let ids = self.subtree_ids(id);
        let mut i: usize = 0;
        while i < ids.len()
            invariant
                0 <= i <= ids.len(),
                ids@ == subtree(m0, r0, id),
                self.wf(),
                self.same_but_pool(old(self)),
                old(self).pool() == m0,
                self.pool().dom() == m0.dom(),
                forall|k: usize|
                    m0.contains_key(k) ==> self.pool()[k] == if #[trigger] ids@.subrange(
                        0,
                        i as int,
                    ).contains(k) {
                        with_paused(m0[k], paused)
                    } else {
                        m0[k]
                    },
            decreases ids.len() - i,
        {
            let k = ids[i];
            let ghost before = self.pool();
            self.pause_node(k, paused);
            proof {
                assert forall|j: usize| m0.contains_key(j) implies self.pool()[j] == if #[trigger] ids@.subrange(
                    0,
                    i + 1,
                ).contains(j) {
                    with_paused(m0[j], paused)
                } else {
                    m0[j]
                } by {
                    let s0 = ids@.subrange(0, i as int);
                    let s1 = ids@.subrange(0, i + 1);
                    assert(s1 =~= s0.push(k));
                    let was = s0.contains(j);
                    assert(before[j] == if was {
                        with_paused(m0[j], paused)
                    } else {
                        m0[j]
                    });
                    if j == k {
                        assert(s1[i as int] == k);
                    } else {
                        if s1.contains(j) {
                            let w = choose|w: int| 0 <= w < s1.len() && s1[w] == j;
                            assert(s0[w] == j);
                        }
                        if s0.contains(j) {
                            let w = choose|w: int| 0 <= w < s0.len() && s0[w] == j;
                            assert(s1[w] == j);
                        }
                    }
                }
            }
            i = i + 1;
        }
        assert(ids@.subrange(0, ids.len() as int) =~= ids@);
        assert(self.pool() =~= pause_rippled(m0, r0, id, paused));
    }

    /// Empties the child list of `id` and of every node below it. The nodes
    /// stay registered.
    pub fn flush(&mut self, id: usize)
        requires
            old(self).wf(),
        ensures
            final(self).wf(),
            flushed(old(self).pool(), final(self).pool(), old(self).ranks(), id),
            final(self).same_but_pool(old(self)),
    {
        let ghost m0 = self.pool();
        let ghost r0 = self.ranks();
        let ids = self.subtree_ids(id);
        let mut i: usize = 0;
        while i < ids.len()
            invariant
                0 <= i <= ids.len(),
                ids@ == subtree(m0, r0, id),
                self.wf(),
                self.same_but_pool(old(self)),
                old(self).pool() == m0,
                self.pool().dom() == m0.dom(),
                forall|k: usize|
                    m0.contains_key(k) ==> if #[trigger] ids@.subrange(0, i as int).contains(k) {
                        emptied(m0[k], self.pool()[k])
                    } else {
                        self.pool()[k] == m0[k]
                    },
            decreases ids.len() - i,
        {
            let k = ids[i];
            let ghost before = self.pool();
            self.empty_children_at(k);
            proof {
                assert forall|j: usize| m0.contains_key(j) implies if #[trigger] ids@.subrange(
                    0,
                    i + 1,
                ).contains(j) {
                    emptied(m0[j], self.pool()[j])
                } else {
                    self.pool()[j] == m0[j]
                } by {
                    let s0 = ids@.subrange(0, i as int);
                    let s1 = ids@.subrange(0, i + 1);
                    assert(s1 =~= s0.push(k));
                    let was = s0.contains(j);
                    assert(if was {
                        emptied(m0[j], before[j])
                    } else {
                        before[j] == m0[j]
                    });
                    if j == k {
                        assert(s1[i as int] == k);
                    } else {
                        if s1.contains(j) {
                            let w = choose|w: int| 0 <= w < s1.len() && s1[w] == j;
                            assert(s0[w] == j);
                        }
                        if s0.contains(j) {
                            let w = choose|w: int| 0 <= w < s0.len() && s0[w] == j;
                            assert(s1[w] == j);
                        }
                    }
                }
            }
            i = i + 1;
        }
        assert(ids@.subrange(0, ids.len() as int) =~= ids@);
    }
}

} // verus!
