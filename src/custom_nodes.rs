use vstd::prelude::*;

use crate::node::{NodeData, NodeRole, NodeType, TransformFilter, TransitionRule};
use crate::world::{created, GlobalData};

verus! {

/// `n` is a fresh node with the given settings: visible, dirty and paused,
/// with an empty child list when `group` holds and none otherwise.
pub open spec fn shaped(
    n: NodeData,
    name: String,
    n_type: NodeType,
    parent: usize,
    group: bool,
    timing_target: bool,
    role: NodeRole,
    transition: TransitionRule,
) -> bool {
    &&& n.node.name == name
    &&& n.node.n_type == n_type
    &&& n.node.visible
    &&& n.node.dirty
    &&& n.node.canbe_timing_target == timing_target
    &&& n.timing.paused
    &&& n.parent == parent
    &&& (n.children is Some <==> group)
    &&& group ==> n.children->0@ == Seq::<usize>::empty()
    &&& n.role == role
    &&& n.transition == transition
}

/// The filter that follows its parent's position only.
pub open spec fn default_filter() -> TransformFilter {
    TransformFilter { exclude_translation: false, exclude_rotation: true, exclude_scale: true }
}

/// A scene that, on the first frame it runs, asks to be replaced by another.
pub struct SceneBoot;

impl SceneBoot {
    /// Registers a boot scene that hands over to `replacement`. Its parent
    /// link names the replacement; it is attached to no child list.
    pub fn with_replacement(name: String, replacement: usize, gdata: &mut GlobalData) -> (id:
        usize)
        requires
            old(gdata).wf(),
            old(gdata).last_id() < usize::MAX,
        ensures
            final(gdata).wf(),
            id == old(gdata).last_id() + 1,
            final(gdata).last_id() == id,
            exists|n: NodeData|
                #[trigger] created(old(gdata).pool(), final(gdata).pool(), n, false, id) && shaped(
                    n,
                    name,
                    NodeType::Scene,
                    replacement,
                    false,
                    false,
                    NodeRole::Plain,
                    TransitionRule::Always { replacement },
                ),
            final(gdata).io_targets() == old(gdata).io_targets(),
    {
        let mut n = NodeData::leaf(0, name, NodeType::Scene, replacement);
        n.transition = TransitionRule::Always { replacement };
        let ghost n0 = n;
        let id = gdata.create_node(n, false);
        assert(created(old(gdata).pool(), gdata.pool(), n0, false, id));
        id
    }
}

/// A headless group that turns its children about its own position: it is a
/// timing target, and it interpolates its rotation on every visit.
pub struct OrbitAnchorNode;

impl OrbitAnchorNode {
    pub fn new(name: String, parent: usize, gdata: &mut GlobalData) -> (id: usize)
        requires
            old(gdata).wf(),
            old(gdata).last_id() < usize::MAX,
        ensures
            final(gdata).wf(),
            id == old(gdata).last_id() + 1,
            final(gdata).last_id() == id,
            exists|n: NodeData|
                #[trigger] created(old(gdata).pool(), final(gdata).pool(), n, true, id) && shaped(
                    n,
                    name,
                    NodeType::Node,
                    parent,
                    true,
                    true,
                    NodeRole::Animated,
                    TransitionRule::Stay,
                ),
            final(gdata).io_targets() == old(gdata).io_targets(),
    {
        let mut n = NodeData::group(0, name, NodeType::Node, parent);
        n.node.canbe_timing_target = true;
        n.role = NodeRole::Animated;
        let ghost n0 = n;
        let id = gdata.create_node(n, true);
        assert(created(old(gdata).pool(), gdata.pool(), n0, true, id));
        id
    }
}

impl TransformFilter {
    /// Registers a filter node under `parent_id` that lets through its
    /// parent's translation only, and attaches it there.
    pub fn new(name: String, parent_id: usize, gdata: &mut GlobalData) -> (id: usize)
        requires
            old(gdata).wf(),
            old(gdata).last_id() < usize::MAX,
        ensures
            final(gdata).wf(),
            id == old(gdata).last_id() + 1,
            final(gdata).last_id() == id,
            exists|n: NodeData|
                #[trigger] created(old(gdata).pool(), final(gdata).pool(), n, true, id) && shaped(
                    n,
                    name,
                    NodeType::Node,
                    parent_id,
                    true,
                    false,
                    NodeRole::Filter(default_filter()),
                    TransitionRule::Stay,
                ),
            final(gdata).io_targets() == old(gdata).io_targets(),
    {
        let mut n = NodeData::group(0, name, NodeType::Node, parent_id);
        n.role = NodeRole::Filter(TransformFilter::follow_translation());
        let ghost n0 = n;
        let id = gdata.create_node(n, true);
        assert(created(old(gdata).pool(), gdata.pool(), n0, true, id));
        id
    }
}

} // verus!
