use vstd::prelude::*;

use crate::node::{NodeData, NodeRole, TransformFilter};
use crate::visit::{child_plan, RenderOp};

verus! {

/// One factor of a composed transform, named after the node it comes from.
#[derive(PartialEq, Eq, Structural, Clone, Copy)]
pub enum Factor {
    /// The node's full local transform.
    Local(usize),
    /// The inverse of the node's full local transform.
    Inverse(usize),
    /// The listed parts of the node's local transform.
    Parts { node: usize, translation: bool, rotation: bool, scale: bool },
}

/// The factor that applying `op` contributes, if any.
pub open spec fn factor_of(op: RenderOp) -> Option<Factor> {
    match op {
        RenderOp::Recompute(n) => Some(Factor::Local(n)),
        RenderOp::UseCached(n) => Some(Factor::Local(n)),
        RenderOp::CancelParent(n) => Some(Factor::Inverse(n)),
        RenderOp::ApplyParentParts { parent, translation, rotation, scale } => Some(
            Factor::Parts { node: parent, translation, rotation, scale },
        ),
        _ => None,
    }
}

/// The render state after `ops`, from the transform `cur` and the saved
/// transforms `saved` (last saved last). A transform is a product of
/// factors, the first one applied to a point first: applying a transform
/// puts it in front.
pub open spec fn run(ops: Seq<RenderOp>, cur: Seq<Factor>, saved: Seq<Seq<Factor>>) -> (
    Seq<Factor>,
    Seq<Seq<Factor>>,
)
    decreases ops.len(),
{
    if ops.len() == 0 {
        (cur, saved)
    } else {
        let (c, s) = run(ops.drop_last(), cur, saved);
        match ops.last() {
            RenderOp::Save => (c, s.push(c)),
            RenderOp::Restore => if s.len() > 0 {
                (s.last(), s.drop_last())
            } else {
                (c, s)
            },
            op => match factor_of(op) {
                Some(f) => (seq![f] + c, s),
                None => (c, s),
            },
        }
    }
}

/// Whether `f` is the identity: a part of a transform with no part in it.
pub open spec fn is_identity(f: Factor) -> bool {
    f matches Factor::Parts { translation: false, rotation: false, scale: false, .. }
}

/// Whether `g` right after `f` makes the identity: a node's inverse followed
/// by its transform.
pub open spec fn cancels(f: Factor, g: Factor) -> bool {
    match f {
        Factor::Inverse(n) => g == Factor::Local(n),
        _ => false,
    }
}

/// `s` with identity factors dropped and each inverse cancelled against the
/// same node's transform right after it.
pub open spec fn reduce(s: Seq<Factor>) -> Seq<Factor>
    decreases s.len(),
{
    if s.len() == 0 {
        s
    } else if is_identity(s[0]) {
        reduce(s.drop_first())
    } else if s.len() >= 2 && cancels(s[0], s[1]) {
        reduce(s.subrange(2, s.len() as int))
    } else {
        seq![s[0]] + reduce(s.drop_first())
    }
}

/// The part of `parent`'s transform that `f` lets through, as a factor.
pub open spec fn let_through(parent: usize, f: TransformFilter) -> Factor {
    Factor::Parts {
        node: parent,
        translation: !f.exclude_translation,
        rotation: !f.exclude_rotation,
        scale: !f.exclude_scale,
    }
}

/// Where a filter places a child `c` (in a ranked registry every registered
/// child ranks below its parent). The filter sits below its parent `p`, so
/// when it is visited the transform in force is `p`'s own followed by the
/// transform `a` of the nodes above `p`. The child is then drawn under its
/// own transform, the parts of `p`'s that the filter lets through, and `a`:
/// the rest of `p`'s transform is cancelled. In particular a filter that
/// excludes translation, rotation and scale draws the child under its own
/// transform and `a` alone, whatever `p`'s transform is.
pub proof fn law_filter_places_child(
    m: Map<usize, NodeData>,
    r: spec_fn(usize) -> nat,
    id: usize,
    forced: bool,
    c: usize,
    a: Seq<Factor>,
    saved: Seq<Seq<Factor>>,
)
    requires
        m.contains_key(id),
        m[id].role is Filter,
        m[id].parent != 0,
        m.contains_key(m[id].parent),
        m.contains_key(c),
        r(c) < r(id),
        m[c].node.visible,
        !(m[c].role is Filter),
    ensures
        ({
            let p = m[id].parent;
            let f = m[id].role->Filter_0;
            let ops = child_plan(m, r, id, forced, c);
            let k = if m[c].role is Animated {
                6int
            } else {
                5int
            };
            &&& k < ops.len()
            &&& ops[k] == RenderOp::Draw(c)
            &&& reduce(run(ops.subrange(0, k), seq![Factor::Local(p)] + a, saved).0) == seq![
                Factor::Local(c),
            ] + (if is_identity(let_through(p, f)) {
                Seq::empty()
            } else {
                seq![let_through(p, f)]
            }) + reduce(a)
            &&& (f.exclude_translation && f.exclude_rotation && f.exclude_scale) ==> reduce(
                run(ops.subrange(0, k), seq![Factor::Local(p)] + a, saved).0,
            ) == seq![Factor::Local(c)] + reduce(a)
        }),
{
    let p = m[id].parent;
    let f = m[id].role->Filter_0;
    let ops = child_plan(m, r, id, forced, c);
    let animated = m[c].role is Animated;
    let down = forced || animated;
    let t = if m[c].node.dirty || down {
        RenderOp::Recompute(c)
    } else {
        RenderOp::UseCached(c)
    };
    let parts = RenderOp::ApplyParentParts {
        parent: p,
        translation: !f.exclude_translation,
        rotation: !f.exclude_rotation,
        scale: !f.exclude_scale,
    };
    let k = if animated {
        6int
    } else {
        5int
    };
    let head = if animated {
        seq![
            RenderOp::Save,
            RenderOp::CancelParent(p),
            parts,
            RenderOp::Save,
            RenderOp::Interpolate(c),
            t,
        ]
    } else {
        seq![RenderOp::Save, RenderOp::CancelParent(p), parts, RenderOp::Save, t]
    };
    assert(ops.subrange(0, k) =~= head);
    assert(ops[k] == RenderOp::Draw(c));
    let x = seq![Factor::Local(p)] + a;
    let pf = let_through(p, f);
    let s1 = run(seq![RenderOp::Save], x, saved);
    assert(run(Seq::<RenderOp>::empty(), x, saved) == (x, saved));
    assert(seq![RenderOp::Save].drop_last() =~= Seq::<RenderOp>::empty());
    assert(seq![RenderOp::Save].last() == RenderOp::Save);
    assert(s1.0 == x);
    let h2 = seq![RenderOp::Save, RenderOp::CancelParent(p)];
    assert(h2.drop_last() =~= seq![RenderOp::Save]);
    assert(h2.last() == RenderOp::CancelParent(p));
    let s2 = run(h2, x, saved);
    assert(s2.0 == seq![Factor::Inverse(p)] + x);
    let h3 = seq![RenderOp::Save, RenderOp::CancelParent(p), parts];
    assert(h3.drop_last() =~= h2);
    assert(h3.last() == parts);
    let s3 = run(h3, x, saved);
    assert(s3.0 == seq![pf] + (seq![Factor::Inverse(p)] + x));
    let h4 = seq![RenderOp::Save, RenderOp::CancelParent(p), parts, RenderOp::Save];
    assert(h4.drop_last() =~= h3);
    assert(h4.last() == RenderOp::Save);
    let s4 = run(h4, x, saved);
    assert(s4.0 == s3.0);
    let fin = seq![Factor::Local(c)] + s3.0;
    if animated {
        let h5 = seq![RenderOp::Save, RenderOp::CancelParent(p), parts, RenderOp::Save, RenderOp::Interpolate(c)];
        assert(h5.drop_last() =~= h4);
        assert(h5.last() == RenderOp::Interpolate(c));
        assert(run(h5, x, saved).0 == s3.0);
        assert(head.drop_last() =~= h5);
        assert(head.last() == t);
    } else {
        assert(head.drop_last() =~= h4);
        assert(head.last() == t);
    }
    assert(run(head, x, saved).0 == fin);
    // reduce the product: keep the child's factor, keep or drop the parts,
    // cancel the parent's inverse against its transform
    let rest = seq![Factor::Inverse(p), Factor::Local(p)] + a;
    assert(s3.0 =~= seq![pf] + rest);
    assert(fin =~= seq![Factor::Local(c)] + (seq![pf] + rest));
    assert(fin.drop_first() =~= seq![pf] + rest);
    assert(reduce(fin) == seq![Factor::Local(c)] + reduce(seq![pf] + rest));
    assert((seq![pf] + rest).drop_first() =~= rest);
    assert(rest.subrange(2, rest.len() as int) =~= a);
    assert(reduce(rest) == reduce(a));
    if is_identity(pf) {
        assert(reduce(seq![pf] + rest) == reduce(rest));
        assert(seq![Factor::Local(c)] + Seq::<Factor>::empty() =~= seq![Factor::Local(c)]);
    } else {
        assert(reduce(seq![pf] + rest) == seq![pf] + reduce(rest));
        assert(seq![Factor::Local(c)] + (seq![pf] + reduce(a)) =~= seq![Factor::Local(c)]
            + seq![pf] + reduce(a));
    }
}

} // verus!
