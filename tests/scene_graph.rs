use ranger::custom_nodes::{OrbitAnchorNode, SceneBoot};
use ranger::node::{NodeActions, NodeData, NodeRole, NodeType, TransformFilter, TransitionRule};
use ranger::node_functions::{NodeFunctions, NodeGroup};
use ranger::visit::RenderOp;
use ranger::world::GlobalData;

/// scene(1) -> layer(2) -> { a(3), b(4) }, scene(1) -> c(5)
fn small_tree() -> GlobalData {
    let mut g = GlobalData::new();
    let scene = g.create_node(NodeData::group(0, String::from("scene"), NodeType::Scene, 0), false);
    let layer = g.create_node(NodeData::group(0, String::from("layer"), NodeType::Group, scene), true);
    g.create_node(NodeData::leaf(0, String::from("a"), NodeType::Node, layer), true);
    g.create_node(NodeData::leaf(0, String::from("b"), NodeType::Node, layer), true);
    g.create_node(NodeData::leaf(0, String::from("c"), NodeType::Node, scene), true);
    g
}

fn dirty(g: &GlobalData, id: usize) -> bool {
    g.find_node(&id).unwrap().node.dirty
}

#[test]
fn ids_are_handed_out_in_order() {
    let g = small_tree();
    assert_eq!(g.node_count(), 5);
    assert_eq!(g.subtree_ids(1), vec![1, 2, 3, 4, 5]);
    assert_eq!(g.subtree_ids(2), vec![2, 3, 4]);
    assert_eq!(g.find_node(&1).unwrap().children, Some(vec![2, 5]));
}

#[test]
fn register_find_take_round_trip() {
    let mut g = GlobalData::new();
    let id = g.gen_id();
    let node = NodeData::leaf(id, String::from("x"), NodeType::Node, 0);
    g.add_node(node);
    let found = g.find_node(&id).unwrap();
    assert_eq!(found.node.id, id);
    assert_eq!(found.node.name, "x");
    let taken = g.take_node(&id).unwrap();
    assert_eq!(taken.node.name, "x");
    assert!(g.find_node(&id).is_none());
    assert!(g.take_node(&id).is_none());
    assert!(g.find_node(&0).is_none());
    assert_eq!(g.node_count(), 0);
}

#[test]
fn ripple_dirty_reaches_every_descendant() {
    let mut g = small_tree();
    g.ripple_node_dirty(1, false);
    for id in 1..=5 {
        assert!(!dirty(&g, id));
    }
    g.ripple_node_dirty(2, true);
    assert!(!dirty(&g, 1));
    assert!(dirty(&g, 2));
    assert!(dirty(&g, 3));
    assert!(dirty(&g, 4));
    assert!(!dirty(&g, 5));
}

#[test]
fn ripple_dirty_on_a_deep_chain() {
    let mut g = GlobalData::new();
    let mut parent = g.create_node(NodeData::group(0, String::from("n"), NodeType::Group, 0), false);
    let root = parent;
    for _ in 0..20 {
        parent = g.create_node(NodeData::group(0, String::from("n"), NodeType::Group, parent), true);
    }
    g.ripple_node_dirty(root, false);
    assert!(!dirty(&g, parent));
    g.ripple_node_dirty(root, true);
    for id in root..=parent {
        assert!(dirty(&g, id));
    }
}

#[test]
fn descendants_exclude_the_node_itself() {
    let g = small_tree();
    assert_eq!(g.descendants_of(1), vec![2, 3, 4, 5]);
    assert_eq!(g.descendants_of(3), Vec::<usize>::new());
    assert_eq!(g.descendants_of(9), Vec::<usize>::new());
}

#[test]
fn ripple_pause_covers_the_whole_subtree() {
    let mut g = small_tree();
    g.ripple_pause(2, false);
    for id in 2..=4 {
        assert!(!g.find_node(&id).unwrap().timing.paused);
    }
    assert!(g.find_node(&1).unwrap().timing.paused);
    assert!(g.find_node(&5).unwrap().timing.paused);
    g.ripple_pause(1, false);
    for id in 1..=5 {
        assert!(!g.find_node(&id).unwrap().timing.paused);
    }
}

#[test]
fn flush_empties_child_lists_but_keeps_nodes() {
    let mut g = small_tree();
    g.flush(1);
    assert_eq!(g.node_count(), 5);
    assert_eq!(g.find_node(&1).unwrap().children, Some(vec![]));
    assert_eq!(g.find_node(&2).unwrap().children, Some(vec![]));
    assert_eq!(g.find_node(&3).unwrap().children, None);
    assert_eq!(g.subtree_ids(1), vec![1]);
}

#[test]
fn world_chain_climbs_to_the_root() {
    let g = small_tree();
    assert_eq!(g.node_to_world(3), Some(vec![3, 2, 1]));
    assert_eq!(g.node_to_world(1), Some(vec![1]));
    assert_eq!(g.node_to_world(9), None);
    // the same question twice gives the same answer
    assert_eq!(g.node_to_world(4), g.node_to_world(4));
}

#[test]
fn world_chain_fails_on_a_missing_parent() {
    let mut g = small_tree();
    g.take_node(&2);
    assert_eq!(g.node_to_world(3), None);
    assert_eq!(g.node_to_world(5), Some(vec![5, 1]));
}

#[test]
fn world_chain_fails_on_a_parent_cycle() {
    let mut g = GlobalData::new();
    g.add_node(NodeData::leaf(1, String::from("a"), NodeType::Node, 2));
    g.add_node(NodeData::leaf(2, String::from("b"), NodeType::Node, 1));
    assert_eq!(g.node_to_world(1), None);
    assert_eq!(g.node_to_world(2), None);
}

#[test]
fn world_chain_follows_a_younger_parent() {
    let mut g = GlobalData::new();
    g.add_node(NodeData::leaf(5, String::from("root"), NodeType::Node, 0));
    g.add_node(NodeData::leaf(3, String::from("mid"), NodeType::Node, 5));
    g.add_node(NodeData::leaf(4, String::from("low"), NodeType::Node, 3));
    assert_eq!(g.node_to_world(4), Some(vec![4, 3, 5]));
}

#[test]
fn clean_nodes_reuse_their_cached_transform() {
    let mut g = small_tree();
    let first = g.visit(1);
    assert_eq!(
        first,
        vec![
            RenderOp::Save,
            RenderOp::Recompute(1),
            RenderOp::Draw(1),
            RenderOp::Save,
            RenderOp::Recompute(2),
            RenderOp::Draw(2),
            RenderOp::Save,
            RenderOp::Recompute(3),
            RenderOp::Draw(3),
            RenderOp::Restore,
            RenderOp::Save,
            RenderOp::Recompute(4),
            RenderOp::Draw(4),
            RenderOp::Restore,
            RenderOp::Restore,
            RenderOp::Save,
            RenderOp::Recompute(5),
            RenderOp::Draw(5),
            RenderOp::Restore,
            RenderOp::Restore,
        ]
    );
    g.ripple_node_dirty(1, false);
    let second = g.visit(1);
    assert!(second.iter().all(|op| !matches!(op, RenderOp::Recompute(_))));
    assert!(second.contains(&RenderOp::UseCached(3)));
    assert_eq!(g.visit(1), second);
    g.ripple_node_dirty(2, true);
    let third = g.visit(1);
    assert!(third.contains(&RenderOp::UseCached(1)));
    assert!(third.contains(&RenderOp::Recompute(2)));
    assert!(third.contains(&RenderOp::Recompute(4)));
    assert!(third.contains(&RenderOp::UseCached(5)));
}

#[test]
fn hidden_nodes_render_nothing() {
    let mut g = small_tree();
    assert!(g.set_visible(2, false));
    let ops = g.visit(1);
    assert!(!ops.contains(&RenderOp::Draw(2)));
    assert!(!ops.contains(&RenderOp::Draw(3)));
    assert!(ops.contains(&RenderOp::Draw(5)));
    assert!(!g.set_visible(42, false));
}

#[test]
fn animated_nodes_force_their_subtree() {
    let mut g = GlobalData::new();
    let scene = g.create_node(NodeData::group(0, String::from("scene"), NodeType::Scene, 0), false);
    let anchor = OrbitAnchorNode::new(String::from("anchor"), scene, &mut g);
    let moon = g.create_node(NodeData::leaf(0, String::from("moon"), NodeType::Node, anchor), true);
    g.ripple_node_dirty(scene, false);
    let ops = g.visit(scene);
    assert_eq!(
        ops,
        vec![
            RenderOp::Save,
            RenderOp::UseCached(scene),
            RenderOp::Draw(scene),
            RenderOp::Save,
            RenderOp::Interpolate(anchor),
            RenderOp::Recompute(anchor),
            RenderOp::Draw(anchor),
            RenderOp::Save,
            RenderOp::Recompute(moon),
            RenderOp::Draw(moon),
            RenderOp::Restore,
            RenderOp::Restore,
            RenderOp::Restore,
        ]
    );
    assert!(g.find_node(&anchor).unwrap().node.canbe_timing_target);
}

#[test]
fn filter_reapplies_only_the_parts_it_lets_through() {
    let mut g = GlobalData::new();
    let scene = g.create_node(NodeData::group(0, String::from("scene"), NodeType::Scene, 0), false);
    let ring = g.create_node(NodeData::group(0, String::from("ring"), NodeType::Node, scene), true);
    let filter = TransformFilter::new(String::from("filter"), ring, &mut g);
    let ship = g.create_node(NodeData::leaf(0, String::from("ship"), NodeType::Node, filter), true);
    g.ripple_node_dirty(scene, false);
    let ops = g.visit(ring);
    assert_eq!(
        ops,
        vec![
            RenderOp::Save,
            RenderOp::UseCached(ring),
            RenderOp::Draw(ring),
            RenderOp::Save,
            RenderOp::Save,
            RenderOp::CancelParent(ring),
            RenderOp::ApplyParentParts { parent: ring, translation: true, rotation: false, scale: false },
            RenderOp::Save,
            RenderOp::UseCached(ship),
            RenderOp::Draw(ship),
            RenderOp::Restore,
            RenderOp::Restore,
            RenderOp::Restore,
            RenderOp::Restore,
        ]
    );
}

#[test]
fn filter_excluding_everything_detaches_children() {
    let mut g = GlobalData::new();
    let ring = g.create_node(NodeData::group(0, String::from("ring"), NodeType::Node, 0), false);
    let filter = TransformFilter::new(String::from("filter"), ring, &mut g);
    let ship = g.create_node(NodeData::leaf(0, String::from("ship"), NodeType::Node, filter), true);
    let mut f = TransformFilter::follow_translation();
    f.exclude_translation(true);
    f.exclude_rotation(true);
    f.exclude_scale(true);
    assert!(g.set_role(filter, NodeRole::Filter(f)));
    let ops = g.visit(filter);
    assert_eq!(
        ops,
        vec![
            RenderOp::Save,
            RenderOp::Save,
            RenderOp::CancelParent(ring),
            RenderOp::ApplyParentParts { parent: ring, translation: false, rotation: false, scale: false },
            RenderOp::Save,
            RenderOp::Recompute(ship),
            RenderOp::Draw(ship),
            RenderOp::Restore,
            RenderOp::Restore,
            RenderOp::Restore,
        ]
    );
}

#[test]
fn filter_without_parent_skips_its_children() {
    let mut g = GlobalData::new();
    let filter = TransformFilter::new(String::from("filter"), 0, &mut g);
    assert_eq!(g.visit(filter), vec![RenderOp::Save, RenderOp::Restore]);
}

#[test]
fn attach_refuses_cycles_leaves_and_strangers() {
    let mut g = small_tree();
    assert!(!g.add_child(3, 4));
    assert!(!g.add_child(2, 1));
    assert!(!g.add_child(4, 4));
    assert!(!g.add_child(7, 8));
    let id = g.gen_id();
    g.add_node(NodeData::leaf(id, String::from("late"), NodeType::Node, 2));
    assert!(NodeGroup::attach_parent(id, &mut g));
    assert_eq!(g.find_node(&2).unwrap().children, Some(vec![3, 4, id]));
    assert!(!NodeGroup::attach_parent(99, &mut g));
    assert!(!NodeGroup::attach_parent(0, &mut g));
}

#[test]
fn attach_to_a_younger_parent() {
    let mut g = small_tree();
    let ring = g.create_node(NodeData::group(0, String::from("ring"), NodeType::Group, 0), false);
    assert!(g.add_child(ring, 2));
    assert_eq!(g.subtree_ids(ring), vec![ring, 2, 3, 4]);
    g.ripple_node_dirty(1, false);
    g.ripple_node_dirty(ring, true);
    assert!(dirty(&g, 4));
    assert!(!dirty(&g, 5));
    // 2 is below the ring: the ring under 2 would close a cycle
    assert!(!g.add_child(2, ring));
    let child = g.gen_id();
    let parent = g.gen_id();
    g.add_node(NodeData::group(parent, String::from("p"), NodeType::Group, 0));
    g.add_node(NodeData::leaf(child, String::from("c"), NodeType::Node, parent));
    assert!(NodeGroup::attach_parent(child, &mut g));
    assert_eq!(g.descendants_of(parent), vec![child]);
}

#[test]
fn find_node_matches_leaves_only() {
    let g = small_tree();
    assert_eq!(NodeFunctions::find_node(4, 1, &g), 4);
    assert_eq!(NodeFunctions::find_node(5, 1, &g), 5);
    assert_eq!(NodeFunctions::find_node(2, 1, &g), 0);
    assert_eq!(NodeFunctions::find_node(1, 1, &g), 0);
    assert_eq!(NodeFunctions::find_node(3, 3, &g), 3);
    assert_eq!(NodeFunctions::find_node(4, 3, &g), 0);
    assert_eq!(NodeFunctions::find_node(3, 9, &g), 0);
}

#[test]
fn boot_scene_hands_out_its_replacement_once() {
    let mut g = GlobalData::new();
    let game = g.create_node(NodeData::group(0, String::from("game"), NodeType::Scene, 0), false);
    let boot = SceneBoot::with_replacement(String::from("boot"), game, &mut g);
    assert_eq!(g.transition(boot), NodeActions::SceneReplaceTake);
    assert_eq!(g.take_transition_node(boot), game);
    assert_eq!(g.take_transition_node(boot), 0);
    assert_eq!(g.transition(game), NodeActions::NoAction);
    assert_eq!(g.transition(77), NodeActions::NoAction);
}

#[test]
fn ready_rule_waits_for_its_flag() {
    let mut g = small_tree();
    assert!(g.set_transition(1, TransitionRule::WhenReady { replacement: 9, ready: false }));
    assert_eq!(g.transition(1), NodeActions::NoAction);
    assert!(g.set_transition(1, TransitionRule::WhenReady { replacement: 9, ready: true }));
    assert_eq!(g.transition(1), NodeActions::SceneReplaceTake);
}

#[test]
fn nil_and_types() {
    let mut g = small_tree();
    assert!(g.is_nil(0));
    assert!(!g.is_nil(1));
    assert!(!g.is_nil(42));
    g.add_node(NodeData::leaf(8, String::from("nil"), NodeType::Nil, 0));
    assert!(g.is_nil(8));
    assert!(g.find_node(&0).is_none());
    assert!(g.is_node_type(1, NodeType::Scene));
    assert!(!g.is_node_type(1, NodeType::Group));
}

#[test]
fn mouse_changes_are_taken_once() {
    let mut g = GlobalData::new();
    assert_eq!(g.take_mouse_change(), None);
    g.set_mouse(3, 4);
    assert_eq!(g.mouse(), (3, 4));
    assert_eq!(g.take_mouse_change(), Some((3, 4)));
    assert_eq!(g.take_mouse_change(), None);
    g.register_io_event_targets(2);
    assert_eq!(g.io_event_targets_count(), 1);
}
