use vstd::prelude::*;

use crate::node::{NodeData, NodeRole, TransformFilter};
use crate::world::{kids, lemma_contains_concat, linked, GlobalData};

verus! {

/// One step of rendering a tree. A visit turns the tree into a list of these,
/// which the renderer carries out in order against its transform stack.
#[derive(Debug, PartialEq, Eq, Structural, Clone, Copy)]
pub enum RenderOp {
    /// Push the current render state.
    Save,
    /// Pop the render state pushed by the matching `Save`.
    Restore,
    /// Let the node compute its displayed transform from the interpolation
    /// factor; this marks the node and its subtree dirty.
    Interpolate(usize),
    /// Recompute the node's local transform (and its inverse), then apply it.
    Recompute(usize),
    /// Apply the node's cached local transform.
    UseCached(usize),
    /// Draw the node under the current transform.
    Draw(usize),
    /// Apply the inverse of the node's full local transform.
    CancelParent(usize),
    /// Apply the listed parts of the node's current local transform.
    ApplyParentParts { parent: usize, translation: bool, rotation: bool, scale: bool },
}

/// The part of `parent`'s transform that `f` lets through.
pub open spec fn parent_parts(parent: usize, f: TransformFilter) -> RenderOp {
    RenderOp::ApplyParentParts {
        parent,
        translation: !f.exclude_translation,
        rotation: !f.exclude_rotation,
        scale: !f.exclude_scale,
    }
}

/// What visiting `id` renders. `forced` holds when an animated ancestor on
/// the way down has marked the subtree dirty during this visit.
///
/// A filter node applies no transform of its own and ignores visibility: for
/// each child it cancels its parent's transform and re-applies the parts it
/// lets through. Any other node renders nothing when hidden; otherwise it
/// interpolates (when animated), applies its transform (recomputed when
/// dirty), draws itself, then visits its children in order.
pub open spec fn visit_plan(
    m: Map<usize, NodeData>,
    r: spec_fn(usize) -> nat,
    id: usize,
    forced: bool,
) -> Seq<RenderOp>
    decreases r(id), 1int, 0int,
{
    if !m.contains_key(id) {
        Seq::empty()
    } else {
        let n = m[id];
        let len = kids(m, id).len() as int;
        match n.role {
            NodeRole::Filter(_) => seq![RenderOp::Save] + children_plan(m, r, id, forced, len) + seq![
                RenderOp::Restore,
            ],
            _ => if !n.node.visible {
                Seq::empty()
            } else {
                let animated = n.role is Animated;
                let down = forced || animated;
                seq![RenderOp::Save] + (if animated {
                    seq![RenderOp::Interpolate(id)]
                } else {
                    Seq::empty()
                }) + seq![
                    if n.node.dirty || down {
                        RenderOp::Recompute(id)
                    } else {
                        RenderOp::UseCached(id)
                    },
                    RenderOp::Draw(id),
                ] + children_plan(m, r, id, down, len) + seq![RenderOp::Restore]
            },
        }
    }
}

/// What visiting the first `n` children of `id` renders.
pub open spec fn children_plan(
    m: Map<usize, NodeData>,
    r: spec_fn(usize) -> nat,
    id: usize,
    forced: bool,
    n: int,
) -> Seq<
    RenderOp,
>
    decreases r(id), 0int, n,
{
    if n <= 0 || n > kids(m, id).len() {
        Seq::empty()
    } else {
        children_plan(m, r, id, forced, n - 1) + child_plan(m, r, id, forced, kids(m, id)[n - 1])
    }
}

/// What visiting child `c` of `id` renders.
pub open spec fn child_plan(
    m: Map<usize, NodeData>,
    r: spec_fn(usize) -> nat,
    id: usize,
    forced: bool,
    c: usize,
) -> Seq<
    RenderOp,
>
    decreases r(id), 0int, 0int,
{
    if !(m.contains_key(c) && r(c) < r(id)) || !m.contains_key(id) {
        Seq::empty()
    } else {
        match m[id].role {
            NodeRole::Filter(f) => {
                let p = m[id].parent;
                if p != 0 && m.contains_key(p) {
                    seq![RenderOp::Save, RenderOp::CancelParent(p), parent_parts(p, f)]
                        + visit_plan(m, r, c, forced) + seq![RenderOp::Restore]
                } else {
                    Seq::empty()
                }
            },
            _ => visit_plan(m, r, c, forced),
        }
    }
}

/// No node of `m` is animated.
pub open spec fn nothing_animated(m: Map<usize, NodeData>) -> bool {
    forall|j: usize| #[trigger] m.contains_key(j) ==> !(m[j].role is Animated)
}

/// While nothing in the registry animates, a visit recomputes the transform
/// of a node only when that node is dirty: every clean node it renders
/// reuses its cached transform unchanged.
pub proof fn law_clean_nodes_reuse_cache(
    m: Map<usize, NodeData>,
    r: spec_fn(usize) -> nat,
    id: usize,
    k: usize,
)
    requires
        nothing_animated(m),
    ensures
        visit_plan(m, r, id, false).contains(RenderOp::Recompute(k)) ==> m.contains_key(k)
            && m[k].node.dirty,
    decreases r(id), 1int, 0int,
{
    let x = RenderOp::Recompute(k);
    if m.contains_key(id) {
        let n = m[id];
        let len = kids(m, id).len() as int;
        lemma_children_reuse_cache(m, r, id, len, k);
        match n.role {
            NodeRole::Filter(_) => {
                lemma_contains_concat(seq![RenderOp::Save], children_plan(m, r, id, false, len), x);
                lemma_contains_concat(
                    seq![RenderOp::Save] + children_plan(m, r, id, false, len),
                    seq![RenderOp::Restore],
                    x,
                );
                assert(!seq![RenderOp::Save].contains(x)) by {
                    assert(seq![RenderOp::Save][0] != x);
                }
                assert(!seq![RenderOp::Restore].contains(x)) by {
                    assert(seq![RenderOp::Restore][0] != x);
                }
            },
            _ => {
                if n.node.visible {
                    let own = seq![
                        if n.node.dirty {
                            RenderOp::Recompute(id)
                        } else {
                            RenderOp::UseCached(id)
                        },
                        RenderOp::Draw(id),
                    ];
                    let a = seq![RenderOp::Save] + Seq::<RenderOp>::empty();
                    assert(a =~= seq![RenderOp::Save]);
                    let b = a + own;
                    let c = b + children_plan(m, r, id, false, len);
                    assert(visit_plan(m, r, id, false) == c + seq![RenderOp::Restore]);
                    lemma_contains_concat(c, seq![RenderOp::Restore], x);
                    lemma_contains_concat(b, children_plan(m, r, id, false, len), x);
                    lemma_contains_concat(a, own, x);
                    assert(!seq![RenderOp::Save].contains(x)) by {
                        assert(seq![RenderOp::Save][0] != x);
                    }
                    assert(!seq![RenderOp::Restore].contains(x)) by {
                        assert(seq![RenderOp::Restore][0] != x);
                    }
                    if own.contains(x) {
                        let w = choose|w: int| 0 <= w < own.len() && own[w] == x;
                        assert(w == 0);
                    }
                }
            },
        }
    }
}

/// The children of a node share the property of `law_clean_nodes_reuse_cache`.
pub proof fn lemma_children_reuse_cache(
    m: Map<usize, NodeData>,
    r: spec_fn(usize) -> nat,
    id: usize,
    n: int,
    k: usize,
)
    requires
        nothing_animated(m),
    ensures
        children_plan(m, r, id, false, n).contains(RenderOp::Recompute(k)) ==> m.contains_key(k)
            && m[k].node.dirty,
    decreases r(id), 0int, n,
{
    let x = RenderOp::Recompute(k);
    if 0 < n <= kids(m, id).len() {
        let c = kids(m, id)[n - 1];
        lemma_children_reuse_cache(m, r, id, n - 1, k);
        lemma_contains_concat(children_plan(m, r, id, false, n - 1), child_plan(m, r, id, false, c), x);
        if m.contains_key(c) && r(c) < r(id) && m.contains_key(id) {
            law_clean_nodes_reuse_cache(m, r, c, k);
            match m[id].role {
                NodeRole::Filter(f) => {
                    let p = m[id].parent;
                    if p != 0 && m.contains_key(p) {
                        let head = seq![RenderOp::Save, RenderOp::CancelParent(p), parent_parts(p, f)];
                        lemma_contains_concat(head, visit_plan(m, r, c, false), x);
                        lemma_contains_concat(
                            head + visit_plan(m, r, c, false),
                            seq![RenderOp::Restore],
                            x,
                        );
                        if head.contains(x) {
                            let w = choose|w: int| 0 <= w < head.len() && head[w] == x;
                        }
                        assert(!seq![RenderOp::Restore].contains(x)) by {
                            assert(seq![RenderOp::Restore][0] != x);
                        }
                    }
                },
                _ => {},
            }
        }
    }
}

/// How an operation changes the depth of the render-state stack.
pub open spec fn depth_change(op: RenderOp) -> int {
    match op {
        RenderOp::Save => 1,
        RenderOp::Restore => -1,
        _ => 0,
    }
}

/// The depth of the render-state stack after `s`, relative to before it.
pub open spec fn net_depth(s: Seq<RenderOp>) -> int
    decreases s.len(),
{
    if s.len() == 0 {
        0
    } else {
        net_depth(s.drop_last()) + depth_change(s.last())
    }
}

/// `s` never restores a state it did not save, and restores every state it
/// saved.
pub open spec fn nests(s: Seq<RenderOp>) -> bool {
    &&& net_depth(s) == 0
    &&& forall|i: int| 0 <= i <= s.len() ==> #[trigger] net_depth(s.subrange(0, i)) >= 0
}

/// `s` neither saves nor restores.
pub open spec fn flat(s: Seq<RenderOp>) -> bool {
    forall|i: int| 0 <= i < s.len() ==> depth_change(#[trigger] s[i]) == 0
}

pub proof fn lemma_net_depth_concat(a: Seq<RenderOp>, b: Seq<RenderOp>)
    ensures
        net_depth(a + b) == net_depth(a) + net_depth(b),
    decreases b.len(),
{
    if b.len() == 0 {
        assert(a + b =~= a);
    } else {
        assert((a + b).drop_last() =~= a + b.drop_last());
        lemma_net_depth_concat(a, b.drop_last());
    }
}

pub proof fn lemma_flat_nests(s: Seq<RenderOp>)
    requires
        flat(s),
    ensures
        nests(s),
        forall|i: int| 0 <= i <= s.len() ==> #[trigger] net_depth(s.subrange(0, i)) == 0,
    decreases s.len(),
{
    if s.len() > 0 {
        let r = s.drop_last();
        assert(flat(r)) by {
            assert forall|i: int| 0 <= i < r.len() implies depth_change(#[trigger] r[i]) == 0 by {
                assert(r[i] == s[i]);
            }
        }
        lemma_flat_nests(r);
        assert forall|i: int| 0 <= i <= s.len() implies #[trigger] net_depth(s.subrange(0, i))
            == 0 by {
            if i < s.len() {
                assert(s.subrange(0, i) =~= r.subrange(0, i));
            } else {
                assert(s.subrange(0, i) =~= s);
                assert(r.subrange(0, r.len() as int) =~= r);
                assert(depth_change(s[s.len() - 1]) == 0);
            }
        }
    }
}

pub proof fn lemma_nests_concat(a: Seq<RenderOp>, b: Seq<RenderOp>)
    requires
        nests(a),
        nests(b),
    ensures
        nests(a + b),
{
    lemma_net_depth_concat(a, b);
    assert forall|i: int| 0 <= i <= (a + b).len() implies #[trigger] net_depth(
        (a + b).subrange(0, i),
    ) >= 0 by {
        if i <= a.len() {
            assert((a + b).subrange(0, i) =~= a.subrange(0, i));
        } else {
            assert((a + b).subrange(0, i) =~= a + b.subrange(0, i - a.len()));
            lemma_net_depth_concat(a, b.subrange(0, i - a.len()));
            assert(a.subrange(0, a.len() as int) =~= a);
        }
    }
}

pub proof fn lemma_nests_wrapped(s: Seq<RenderOp>)
    requires
        nests(s),
    ensures
        nests(seq![RenderOp::Save] + s + seq![RenderOp::Restore]),
{
    let w = seq![RenderOp::Save] + s + seq![RenderOp::Restore];
    let open = seq![RenderOp::Save];
    assert(net_depth(Seq::<RenderOp>::empty()) == 0);
    assert(net_depth(open) == 1) by {
        assert(open.drop_last() =~= Seq::<RenderOp>::empty());
        assert(open.last() == RenderOp::Save);
    }
    lemma_net_depth_concat(open, s);
    lemma_net_depth_concat(open + s, seq![RenderOp::Restore]);
    assert(net_depth(seq![RenderOp::Restore]) == -1) by {
        assert(seq![RenderOp::Restore].drop_last() =~= Seq::<RenderOp>::empty());
        assert(seq![RenderOp::Restore].last() == RenderOp::Restore);
    }
    assert forall|i: int| 0 <= i <= w.len() implies #[trigger] net_depth(w.subrange(0, i)) >= 0 by {
        if i == 0 {
            assert(w.subrange(0, i) =~= Seq::<RenderOp>::empty());
        } else if i <= s.len() + 1 {
            assert(w.subrange(0, i) =~= open + s.subrange(0, i - 1));
            lemma_net_depth_concat(open, s.subrange(0, i - 1));
        } else {
            assert(w.subrange(0, i) =~= w);
        }
    }
}

/// Every render plan saves and restores in nested pairs: it never restores
/// a state it did not save and restores every state it saved, so it leaves
/// the render-state stack as it found it.
pub proof fn law_visit_plan_nests(m: Map<usize, NodeData>, r: spec_fn(usize) -> nat, id: usize, forced: bool)
    ensures
        nests(visit_plan(m, r, id, forced)),
    decreases r(id), 1int, 0int,
{
    if !m.contains_key(id) {
        lemma_flat_nests(Seq::<RenderOp>::empty());
    } else {
        let n = m[id];
        let len = kids(m, id).len() as int;
        match n.role {
            NodeRole::Filter(_) => {
                lemma_children_plan_nests(m, r, id, forced, len);
                lemma_nests_wrapped(children_plan(m, r, id, forced, len));
            },
            _ => {
                if !n.node.visible {
                    lemma_flat_nests(Seq::<RenderOp>::empty());
                } else {
                    let animated = n.role is Animated;
                    let down = forced || animated;
                    let pre = (if animated {
                        seq![RenderOp::Interpolate(id)]
                    } else {
                        Seq::<RenderOp>::empty()
                    }) + seq![
                        if n.node.dirty || down {
                            RenderOp::Recompute(id)
                        } else {
                            RenderOp::UseCached(id)
                        },
                        RenderOp::Draw(id),
                    ];
                    assert(flat(pre));
                    lemma_flat_nests(pre);
                    lemma_children_plan_nests(m, r, id, down, len);
                    lemma_nests_concat(pre, children_plan(m, r, id, down, len));
                    lemma_nests_wrapped(pre + children_plan(m, r, id, down, len));
                    assert(visit_plan(m, r, id, forced) =~= seq![RenderOp::Save] + (pre
                        + children_plan(m, r, id, down, len)) + seq![RenderOp::Restore]);
                }
            },
        }
    }
}

/// The children of a node render in nested pairs too.
pub proof fn lemma_children_plan_nests(
    m: Map<usize, NodeData>,
    r: spec_fn(usize) -> nat,
    id: usize,
    forced: bool,
    n: int,
)
    ensures
        nests(children_plan(m, r, id, forced, n)),
    decreases r(id), 0int, n,
{
    if n <= 0 || n > kids(m, id).len() {
        lemma_flat_nests(Seq::<RenderOp>::empty());
    } else {
        let c = kids(m, id)[n - 1];
        lemma_children_plan_nests(m, r, id, forced, n - 1);
        if !(m.contains_key(c) && r(c) < r(id)) || !m.contains_key(id) {
            lemma_flat_nests(Seq::<RenderOp>::empty());
        } else {
            law_visit_plan_nests(m, r, c, forced);
            match m[id].role {
                NodeRole::Filter(f) => {
                    let p = m[id].parent;
                    if p != 0 && m.contains_key(p) {
                        let pre = seq![RenderOp::CancelParent(p), parent_parts(p, f)];
                        assert(flat(pre));
                        lemma_flat_nests(pre);
                        lemma_nests_concat(pre, visit_plan(m, r, c, forced));
                        lemma_nests_wrapped(pre + visit_plan(m, r, c, forced));
                        assert(child_plan(m, r, id, forced, c) =~= seq![RenderOp::Save] + (pre
                            + visit_plan(m, r, c, forced)) + seq![RenderOp::Restore]);
                    } else {
                        lemma_flat_nests(Seq::<RenderOp>::empty());
                    }
                },
                _ => {},
            }
        }
        lemma_nests_concat(children_plan(m, r, id, forced, n - 1), child_plan(m, r, id, forced, c));
    }
}

impl GlobalData {
    #[verifier::rlimit(40)]
    fn emit_visit(&self, id: usize, forced: bool, out: &mut Vec<RenderOp>)
        requires
            self.wf(),
        ensures
            final(out)@ == old(out)@ + visit_plan(self.pool(), self.ranks(), id, forced),
        decreases self.ranks()(id),
    {
        let ghost m = self.pool();
        let ghost r = self.ranks();
        match self.find_node(&id) {
            None => {
                assert(out@ =~= old(out)@ + visit_plan(m, r, id, forced));
            },
            Some(n) => {
                let filter: Option<TransformFilter> = match n.role {
                    NodeRole::Filter(f) => Some(f),
                    _ => None,
                };
                let animated = match n.role {
                    NodeRole::Animated => true,
                    _ => false,
                };
                if filter.is_none() && !n.node.visible {
                    assert(out@ =~= old(out)@ + visit_plan(m, r, id, forced));
                    return ;
                }
                out.push(RenderOp::Save);
                let down = forced || animated;
                if filter.is_none() {
                    if animated {
                        out.push(RenderOp::Interpolate(id));
                    }
                    if n.node.dirty || down {
                        out.push(RenderOp::Recompute(id));
                    } else {
                        out.push(RenderOp::UseCached(id));
                    }
                    out.push(RenderOp::Draw(id));
                }
                let ghost base = out@;
                let p = n.parent;
                let parent_known = p != 0 && self.find_node(&p).is_some();
                let mut count: usize = 0;
                match &n.children {
                    None => {},
                    Some(ks) => {
                        count = ks.len();
                        let mut i: usize = 0;
                        while i < ks.len()
                            invariant
                                0 <= i <= ks.len(),
                                ks@ == kids(m, id),
                                m == self.pool(),
                                r == self.ranks(),
                                self.wf(),
                                m.contains_key(id),
                                n == m[id],
                                filter is Some <==> m[id].role is Filter,
                                filter is Some ==> m[id].role == NodeRole::Filter(filter->0),
                                parent_known == (p != 0 && m.contains_key(p)),
                                p == m[id].parent,
                                out@ == base + children_plan(m, r, id, down, i as int),
                            decreases ks.len() - i,
                        {
                            let c = ks[i];
                            let ghost before = out@;
                            if self.find_node(&c).is_some() {
                                assert(linked(m, id, i as int));
                                match filter {
                                    Some(f) => {
                                        if parent_known {
                                            out.push(RenderOp::Save);
                                            out.push(RenderOp::CancelParent(p));
                                            out.push(
                                                RenderOp::ApplyParentParts {
                                                    parent: p,
                                                    translation: !f.exclude_translation,
                                                    rotation: !f.exclude_rotation,
                                                    scale: !f.exclude_scale,
                                                },
                                            );
                                            self.emit_visit(c, down, out);
                                            out.push(RenderOp::Restore);
                                        }
                                    },
                                    None => {
                                        self.emit_visit(c, down, out);
                                    },
                                }
                            }
                            assert(out@ =~= before + child_plan(m, r, id, down, c));
                            assert(children_plan(m, r, id, down, i + 1) == children_plan(m, r,
                                id,
                                down,
                                i as int,
                            ) + child_plan(m, r, id, down, c));
                            assert(out@ =~= base + children_plan(m, r, id, down, i + 1));
                            i = i + 1;
                        }
                    },
                }
                assert(count == kids(m, id).len());
                out.push(RenderOp::Restore);
                assert(out@ =~= old(out)@ + visit_plan(m, r, id, forced));
            },
        }
    }

    /// The render plan of the tree rooted at `id`. It reads the registry
    /// only, so two visits with no change in between give the same plan.
    pub fn visit(&self, id: usize) -> (ops: Vec<RenderOp>)
        requires
            self.wf(),
        ensures
            ops@ == visit_plan(self.pool(), self.ranks(), id, false),
    {
        let mut out: Vec<RenderOp> = Vec::new();
        self.emit_visit(id, false, &mut out);
        assert(out@ =~= visit_plan(self.pool(), self.ranks(), id, false));
        out
    }
}

} // verus!
