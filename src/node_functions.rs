use vstd::prelude::*;

use crate::node::NodeData;
use crate::node_manager::{removed, removed_all, timing_candidates, NodeManager};
use crate::world::{all_descendants, can_attach, child_appended, subtree, GlobalData};

verus! {

/// The node that a search for `id` below `root` finds: `id` when it names a
/// leaf (a node without a child list) among the descendants of `root`, or
/// `root` itself when `root` is that leaf; 0 (no node) otherwise.
pub open spec fn leaf_found(
    m: Map<usize, NodeData>,
    r: spec_fn(usize) -> nat,
    id: usize,
    root: usize,
) -> usize {
    if m.contains_key(root) && if m[root].children is Some {
        all_descendants(m, r, root).contains(id) && m.contains_key(id) && m[id].children is None
    } else {
        root == id
    } {
        id
    } else {
        0
    }
}

pub struct NodeFunctions;

impl NodeFunctions {
    pub fn node_id(node: &NodeData) -> (id: usize)
        ensures
            id == node.node.id,
    {
        node.node.id
    }

    pub fn id_equal_node(id: usize, node: &NodeData) -> (r: bool)
        ensures
            r == (id == node.node.id),
    {
        id == node.node.id
    }

    /// The node registered under `id`, if any.
    pub fn get_rnode_data(id: usize, gdata: &GlobalData) -> (r: Option<&NodeData>)
        ensures
            r is Some <==> (id != 0 && gdata.pool().contains_key(id)),
            r is Some ==> *r->0 == gdata.pool()[id],
    {
        gdata.find_node(&id)
    }

    /// Searches the tree rooted at `root` for the leaf `id` (see
    /// `leaf_found`); 0 when there is none.
    pub fn find_node(id: usize, root: usize, gdata: &GlobalData) -> (r: usize)
        requires
            gdata.wf(),
        ensures
            r == leaf_found(gdata.pool(), gdata.ranks(), id, root),
    {
        let ghost m = gdata.pool();
        let ghost rk = gdata.ranks();
        match gdata.find_node(&root) {
            None => 0,
            Some(rn) => {
                if rn.children.is_none() {
                    return if root == id {
                        id
                    } else {
                        0
                    };
                }
                let ids = gdata.subtree_ids(root);
                assert(ids@ == seq![root] + all_descendants(m, rk, root));
                let mut i: usize = 1;
                while i < ids.len()
                    invariant
                        1 <= i <= ids.len(),
                        ids@ == seq![root] + all_descendants(m, rk, root),
                        m == gdata.pool(),
                        rk == gdata.ranks(),
                        gdata.wf(),
                        m.contains_key(root),
                        m[root].children is Some,
                        forall|j: int|
                            1 <= j < i ==> !(ids@[j] == id && m.contains_key(id) && m[id].children is None),
                    decreases ids.len() - i,
                {
                    let k = ids[i];
                    if k == id {
                        match gdata.find_node(&k) {
                            Some(kn) => {
                                if kn.children.is_none() {
                                    assert(all_descendants(m, rk, root)[i - 1] == id);
                                    return id;
                                }
                            },
                            None => {},
                        }
                    }
                    i = i + 1;
                }
                proof {
                    if all_descendants(m, rk, root).contains(id) && m.contains_key(id)
                        && m[id].children is None {
                        let w = choose|w: int|
                            0 <= w < all_descendants(m, rk, root).len() && all_descendants(m, rk, root)[w]
                                == id;
                        assert(ids@[w + 1] == id);
                    }
                }
                0
            },
        }
    }

    /// Registers as timing targets, depth first, the nodes of the tree rooted
    /// at `id` that can be timing targets.
    pub fn register_timing_targets(id: usize, gdata: &GlobalData, man: &mut NodeManager)
        requires
            gdata.wf(),
        ensures
            final(man).targets() == old(man).targets() + timing_candidates(
                gdata.pool(),
                subtree(gdata.pool(), gdata.ranks(), id),
            ),
            final(man).stacked() == old(man).stacked(),
            final(man).next() == old(man).next(),
            final(man).running() == old(man).running(),
            final(man).flush_signal() == old(man).flush_signal(),
    {
        let ghost m = gdata.pool();
        let ids = gdata.subtree_ids(id);
        let mut i: usize = 0;
        while i < ids.len()
            invariant
                0 <= i <= ids.len(),
                ids@ == subtree(m, gdata.ranks(), id),
                m == gdata.pool(),
                gdata.wf(),
                man.targets() == old(man).targets() + timing_candidates(
                    m,
                    ids@.subrange(0, i as int),
                ),
                man.stacked() == old(man).stacked(),
                man.next() == old(man).next(),
                man.running() == old(man).running(),
                man.flush_signal() == old(man).flush_signal(),
            decreases ids.len() - i,
        {
            let k = ids[i];
            match gdata.find_node(&k) {
                Some(n) => {
                    if n.node.canbe_timing_target {
                        man.register_timing_target(k);
                    }
                },
                None => {},
            }
            assert(ids@.subrange(0, i + 1).drop_last() =~= ids@.subrange(0, i as int));
            assert(man.targets() =~= old(man).targets() + timing_candidates(
                m,
                ids@.subrange(0, i + 1),
            ));
            i = i + 1;
        }
        assert(ids@.subrange(0, ids.len() as int) =~= ids@);
    }

    pub fn unregister_timing_targets_by_id(id: usize, man: &mut NodeManager)
        ensures
            final(man).targets() == removed(old(man).targets(), id),
            final(man).stacked() == old(man).stacked(),
            final(man).next() == old(man).next(),
            final(man).running() == old(man).running(),
            final(man).flush_signal() == old(man).flush_signal(),
    {
        man.unschedule_timing_target_by_id(id);
    }

    /// Drops from the timing targets every node of the tree rooted at `id`
    /// that can be a timing target: the same nodes, walked the same way, as
    /// `register_timing_targets` registers.
    pub fn unregister_timing_targets(id: usize, gdata: &GlobalData, man: &mut NodeManager)
        requires
            gdata.wf(),
        ensures
            final(man).targets() == removed_all(
                old(man).targets(),
                timing_candidates(gdata.pool(), subtree(gdata.pool(), gdata.ranks(), id)),
            ),
            final(man).stacked() == old(man).stacked(),
            final(man).next() == old(man).next(),
            final(man).running() == old(man).running(),
            final(man).flush_signal() == old(man).flush_signal(),
    {
        let ghost m = gdata.pool();
        let ids = gdata.subtree_ids(id);
        let mut i: usize = 0;
        while i < ids.len()
            invariant
                0 <= i <= ids.len(),
                ids@ == subtree(m, gdata.ranks(), id),
                m == gdata.pool(),
                gdata.wf(),
                man.targets() == removed_all(
                    old(man).targets(),
                    timing_candidates(m, ids@.subrange(0, i as int)),
                ),
                man.stacked() == old(man).stacked(),
                man.next() == old(man).next(),
                man.running() == old(man).running(),
                man.flush_signal() == old(man).flush_signal(),
            decreases ids.len() - i,
        {
            let k = ids[i];
            let ghost c0 = timing_candidates(m, ids@.subrange(0, i as int));
            assert(ids@.subrange(0, i + 1).drop_last() =~= ids@.subrange(0, i as int));
            match gdata.find_node(&k) {
                Some(n) => {
                    if n.node.canbe_timing_target {
                        man.unschedule_timing_target(k);
                        assert(timing_candidates(m, ids@.subrange(0, i + 1)) == c0.push(k));
                        assert(c0.push(k).drop_last() =~= c0);
                    } else {
                        assert(timing_candidates(m, ids@.subrange(0, i + 1)) =~= c0);
                    }
                },
                None => {
                    assert(timing_candidates(m, ids@.subrange(0, i + 1)) =~= c0);
                },
            }
            i = i + 1;
        }
        assert(ids@.subrange(0, ids.len() as int) =~= ids@);
    }
}

pub struct NodeGroup;

impl NodeGroup {
    /// Appends the registered node `id` to the child list of the parent it
    /// names, when that parent is registered, holds children and is not
    /// below `id` (see `can_attach`); says whether it did.
    pub fn attach_parent(id: usize, gdata: &mut GlobalData) -> (done: bool)
        requires
            old(gdata).wf(),
        ensures
            final(gdata).wf(),
            done == (id != 0 && old(gdata).pool().contains_key(id) && can_attach(
                old(gdata).pool(),
                old(gdata).ranks(),
                old(gdata).pool()[id].parent,
                id,
            )),
            done ==> {
                let p = old(gdata).pool()[id].parent;
                &&& final(gdata).pool() == old(gdata).pool().insert(p, final(gdata).pool()[p])
                &&& child_appended(old(gdata).pool()[p], final(gdata).pool()[p], id)
            },
            !done ==> final(gdata).pool() == old(gdata).pool() && final(gdata).ranks() == old(
                gdata,
            ).ranks(),
            final(gdata).last_id() == old(gdata).last_id(),
            final(gdata).io_targets() == old(gdata).io_targets(),
    {
        let parent = match gdata.find_node(&id) {
            Some(n) => n.parent,
            None => {
                return false;
            },
        };
        gdata.add_child(parent, id)
    }
}

} // verus!
