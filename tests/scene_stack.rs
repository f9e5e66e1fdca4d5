use ranger::custom_nodes::{OrbitAnchorNode, SceneBoot};
use ranger::node::{IOEvent, IOEventData, NodeData, NodeType, TransitionRule};
use ranger::node_functions::NodeFunctions;
use ranger::node_manager::{LifecycleEvent, NodeManager};
use ranger::world::GlobalData;

fn scene_with_anchor(g: &mut GlobalData, name: &str) -> (usize, usize) {
    let scene = g.create_node(NodeData::group(0, String::from(name), NodeType::Scene, 0), false);
    let anchor = OrbitAnchorNode::new(String::from("anchor"), scene, g);
    (scene, anchor)
}

/// One frame of the scene stack, as the program runs it: open the frame,
/// then carry out the running node's transition; the hooks of both steps,
/// in order, and the unstacked id.
fn frame(man: &mut NodeManager, g: &mut GlobalData) -> Option<(Vec<LifecycleEvent>, usize)> {
    let mut events = man.visit(g)?;
    let outcome = man.resolve_transition(g);
    events.extend(outcome.events);
    Some((events, outcome.popped))
}

#[test]
fn scene_replacement_happens_within_one_visit() {
    let mut g = GlobalData::new();
    let mut man = NodeManager::new();
    let (scene_b, anchor_b) = scene_with_anchor(&mut g, "B");
    let (scene_a, anchor_a) = scene_with_anchor(&mut g, "A");
    NodeFunctions::register_timing_targets(scene_a, &g, &mut man);
    NodeFunctions::register_timing_targets(scene_b, &g, &mut man);

    man.push_node(scene_a);
    assert_eq!(man.next_node(), scene_a);

    // one visit commits A, which enters once
    let (events, popped) = frame(&mut man, &mut g).unwrap();
    assert_eq!(
        events,
        vec![LifecycleEvent::Enter(scene_a), LifecycleEvent::EndEnterTransition(scene_a)]
    );
    assert_eq!(popped, 0);
    assert_eq!(man.running_node(), scene_a);
    assert_eq!(man.next_node(), 0);

    // A asks to be replaced by B: within this one visit A leaves the stack,
    // the registry and the timing targets, exits, and B runs and enters
    assert!(g.set_transition(scene_a, TransitionRule::Always { replacement: scene_b }));
    let (events, popped) = frame(&mut man, &mut g).unwrap();
    assert_eq!(popped, scene_a);
    assert_eq!(
        events,
        vec![
            LifecycleEvent::StartExitTransition(scene_a),
            LifecycleEvent::Exit(scene_a),
            LifecycleEvent::Enter(scene_b),
            LifecycleEvent::EndEnterTransition(scene_b),
        ]
    );
    assert!(g.find_node(&scene_a).is_none());
    assert_eq!(man.running_node(), scene_b);
    assert_eq!(man.next_node(), 0);
    assert!(!g.visit(scene_b).is_empty());
    assert!(g.find_node(&anchor_a).is_some());

    // nothing more happens on the next visit
    let (events, popped) = frame(&mut man, &mut g).unwrap();
    assert!(events.is_empty());
    assert_eq!(popped, 0);
    assert_eq!(man.running_node(), scene_b);

    // B's anchor receives updates once resumed; A was dropped from the
    // registry, so nothing resumes A's anchor, which stays paused
    assert_eq!(man.update(&g), Vec::<usize>::new());
    g.ripple_pause(scene_b, false);
    g.ripple_pause(scene_a, false);
    assert_eq!(man.update(&g), vec![anchor_b]);
}

#[test]
fn boot_scene_hands_over_to_the_game() {
    let mut g = GlobalData::new();
    let mut man = NodeManager::new();
    let game = g.create_node(NodeData::group(0, String::from("game"), NodeType::Scene, 0), false);
    let boot = SceneBoot::with_replacement(String::from("boot"), game, &mut g);
    man.push_node(boot);
    man.set_next_node(&g);
    assert_eq!(man.running_node(), boot);
    let outcome = man.resolve_transition(&mut g);
    assert_eq!(outcome.popped, boot);
    assert_eq!(outcome.events[1], LifecycleEvent::Exit(boot));
    assert_eq!(outcome.events[2], LifecycleEvent::Enter(game));
    assert_eq!(man.running_node(), game);
    assert_eq!(man.next_node(), 0);
    assert_eq!(g.node_count(), 1);
    assert!(!man.is_empty());
}

#[test]
fn visit_opens_frames_until_the_stack_empties() {
    let mut g = GlobalData::new();
    let mut man = NodeManager::new();
    assert_eq!(man.visit(&g), None);
    let a = g.create_node(NodeData::group(0, String::from("a"), NodeType::Scene, 0), false);
    man.push_node(a);
    assert_eq!(
        man.visit(&g),
        Some(vec![LifecycleEvent::Enter(a), LifecycleEvent::EndEnterTransition(a)])
    );
    assert_eq!(man.visit(&g), Some(vec![]));
    assert_eq!(man.running_node(), a);
    man.pop_node();
    assert_eq!(man.visit(&g), None);
}

#[test]
fn pop_stages_the_top_and_empty_pop_is_harmless() {
    let mut man = NodeManager::new();
    man.pop_node();
    assert!(man.is_empty());
    assert_eq!(man.next_node(), 0);
    man.push_node(3);
    man.push_node(4);
    man.pop_node();
    assert_eq!(man.next_node(), 4);
    man.pop_node();
    assert_eq!(man.next_node(), 3);
    assert!(man.is_empty());
}

#[test]
fn replace_with_unknown_id_only_unstacks() {
    let mut g = GlobalData::new();
    let mut man = NodeManager::new();
    let a = g.create_node(NodeData::group(0, String::from("a"), NodeType::Scene, 0), false);
    man.push_node(a);
    assert_eq!(man.replace_by_id(50, &mut g), a);
    assert!(man.is_empty());
    assert_eq!(g.node_count(), 0);
    assert_eq!(man.replace_by_id(a, &mut g), 0);
}

#[test]
fn transition_nodes_do_not_trigger_exit() {
    let mut g = GlobalData::new();
    let mut man = NodeManager::new();
    let a = g.create_node(NodeData::group(0, String::from("a"), NodeType::Scene, 0), false);
    let t = g.create_node(NodeData::group(0, String::from("t"), NodeType::SceneTransition, 0), false);
    man.push_node(a);
    man.set_next_node(&g);
    man.push_node(t);
    assert_eq!(man.set_next_node(&g), Vec::<LifecycleEvent>::new());
    assert_eq!(man.running_node(), t);
}

#[test]
fn untargeted_nodes_never_update() {
    let mut g = GlobalData::new();
    let mut man = NodeManager::new();
    let (scene, anchor) = scene_with_anchor(&mut g, "s");
    let plain = g.create_node(NodeData::leaf(0, String::from("p"), NodeType::Node, scene), true);
    g.ripple_pause(scene, false);
    assert_eq!(man.update(&g), Vec::<usize>::new());
    NodeFunctions::register_timing_targets(scene, &g, &mut man);
    let due = man.update(&g);
    assert_eq!(due, vec![anchor]);
    assert!(!due.contains(&plain));
    assert!(!due.contains(&scene));
    g.ripple_pause(scene, true);
    assert_eq!(man.update(&g), Vec::<usize>::new());
    g.ripple_pause(scene, false);
    NodeFunctions::unregister_timing_targets(scene, &g, &mut man);
    assert_eq!(man.update(&g), Vec::<usize>::new());
    man.register_timing_target(anchor);
    man.register_timing_target(anchor);
    man.unschedule_timing_target_by_id(anchor);
    assert_eq!(man.update(&g), Vec::<usize>::new());
}

#[test]
fn mouse_events_go_to_the_running_node() {
    let mut g = GlobalData::new();
    let mut man = NodeManager::new();
    assert_eq!(man.io_event(IOEventData::new_mouse_event(1, 2), &mut g), Vec::<usize>::new());
    assert_eq!(g.mouse(), (1, 2));
    let a = g.create_node(NodeData::group(0, String::from("a"), NodeType::Scene, 0), false);
    let b = g.create_node(NodeData::leaf(0, String::from("b"), NodeType::Node, a), true);
    man.push_node(a);
    man.set_next_node(&g);
    assert_eq!(man.io_event(IOEventData::new_mouse_event(5, 6), &mut g), vec![a, b]);
    let key = IOEventData { event: IOEvent::Keyboard, coord: (7, 8), node: 0 };
    assert_eq!(man.io_event(key, &mut g), Vec::<usize>::new());
    assert_eq!(IOEventData::new().event, IOEvent::Undefined);
    assert_eq!(g.mouse(), (5, 6));
}
