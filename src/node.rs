use vstd::prelude::*;

verus! {

/// What a scene node does when the scene stack asks it about a transition.
#[derive(Debug, PartialEq, Eq, Structural, Clone, Copy)]
pub enum NodeActions {
    NoAction,
    SceneReplace,
    SceneReplaceTake,
    SceneReplaceTakeUnRegister,
}

#[derive(Debug, PartialEq, Eq, Structural, Clone, Copy)]
pub enum NodeType {
    Nil,
    Node,
    Group,
    Scene,
    SceneTransition,
}

#[derive(Debug, PartialEq, Eq, Structural, Clone, Copy)]
pub enum IOEvent {
    Undefined,
    Mouse,
    Joystick,
    Keyboard,
}

/// An input event and where it happened, in device space.
#[derive(Debug, Clone, Copy)]
pub struct IOEventData {
    pub event: IOEvent,
    pub coord: (i32, i32),
    /// The node the event concerns (0 for none).
    pub node: usize,
}

impl IOEventData {
    pub fn new() -> (e: Self)
        ensures
            e == (IOEventData { event: IOEvent::Undefined, coord: (0, 0), node: 0 }),
    {
        IOEventData { event: IOEvent::Undefined, coord: (0, 0), node: 0 }
    }

    pub fn new_mouse_event(x: i32, y: i32) -> (e: Self)
        ensures
            e == (IOEventData { event: IOEvent::Mouse, coord: (x, y), node: 0 }),
    {
        IOEventData { event: IOEvent::Mouse, coord: (x, y), node: 0 }
    }
}

#[derive(Debug, PartialEq, Eq, Structural, Clone, Copy)]
pub enum RenderStyle {
    Filled,
    Outline,
    Both,
}

// --------------------------------------------------------
// Base node properties
// --------------------------------------------------------
#[derive(Debug)]
pub struct NodeProperties {
    pub id: usize,
    pub name: String,
    pub n_type: NodeType,
    pub visible: bool,
    pub canbe_timing_target: bool,
    /// The node "as a whole" dirty state: its cached transform must be
    /// recomputed before it is trusted again.
    pub dirty: bool,
}

impl NodeProperties {
    pub fn new() -> (p: Self)
        ensures
            p.id == 0,
            p.name@ == Seq::<char>::empty(),
            p.n_type == NodeType::Nil,
            p.visible,
            !p.canbe_timing_target,
            p.dirty,
    {
        NodeProperties {
            id: 0,
            name: String::new(),
            n_type: NodeType::Nil,
            visible: true,
            canbe_timing_target: false,
            dirty: true,
        }
    }

    pub fn name(&self) -> (r: &String)
        ensures
            r == &self.name,
    {
        &self.name
    }

    pub fn set_name(&mut self, name: String)
        ensures
            *final(self) == (NodeProperties { name, ..*old(self) }),
    {
        self.name = name;
    }

    pub fn id(&self) -> (r: usize)
        ensures
            r == self.id,
    {
        self.id
    }

    pub fn set_id(&mut self, id: usize)
        ensures
            *final(self) == (NodeProperties { id, ..*old(self) }),
    {
        self.id = id;
    }

    pub fn is_dirty(&self) -> (r: bool)
        ensures
            r == self.dirty,
    {
        self.dirty
    }

    pub fn set_dirty(&mut self, dirty: bool)
        ensures
            *final(self) == (NodeProperties { dirty, ..*old(self) }),
    {
        self.dirty = dirty;
    }

    pub fn node_type(&self) -> (r: NodeType)
        ensures
            r == self.n_type,
    {
        self.n_type
    }

    pub fn set_type(&mut self, n_type: NodeType)
        ensures
            *final(self) == (NodeProperties { n_type, ..*old(self) }),
    {
        self.n_type = n_type;
    }

    pub fn is_nil(&self) -> (r: bool)
        ensures
            r == (self.n_type == NodeType::Nil),
    {
        self.n_type == NodeType::Nil
    }

    pub fn visible(&self) -> (r: bool)
        ensures
            r == self.visible,
    {
        self.visible
    }

    pub fn set_visible(&mut self, visible: bool)
        ensures
            *final(self) == (NodeProperties { visible, ..*old(self) }),
    {
        self.visible = visible;
    }

    pub fn canbe_timing_target(&self) -> (r: bool)
        ensures
            r == self.canbe_timing_target,
    {
        self.canbe_timing_target
    }

    pub fn make_timing_target(&mut self, enabled: bool)
        ensures
            *final(self) == (NodeProperties { canbe_timing_target: enabled, ..*old(self) }),
    {
        self.canbe_timing_target = enabled;
    }
}

// --------------------------------------------------------
// Timing properties
// --------------------------------------------------------
#[derive(Debug, Clone, Copy)]
pub struct TimingProperties {
    pub paused: bool,
}

impl TimingProperties {
    /// A node starts paused: it receives no updates until it is resumed.
    pub fn new() -> (t: Self)
        ensures
            t.paused,
    {
        Self { paused: true }
    }

    pub fn paused(&self) -> (r: bool)
        ensures
            r == self.paused,
    {
        self.paused
    }

    pub fn pause(&mut self, paused: bool)
        ensures
            final(self).paused == paused,
    {
        self.paused = paused;
    }
}

// --------------------------------------------------------
// Transform filter
// --------------------------------------------------------
/// Which parts of its parent's local transform a filter node withholds from
/// its children.
#[derive(Debug, Clone, Copy)]
pub struct TransformFilter {
    pub exclude_translation: bool,
    pub exclude_rotation: bool,
    pub exclude_scale: bool,
}

impl TransformFilter {
    /// The common case: follow the parent's position only.
    pub fn follow_translation() -> (f: Self)
        ensures
            !f.exclude_translation,
            f.exclude_rotation,
            f.exclude_scale,
    {
        TransformFilter { exclude_translation: false, exclude_rotation: true, exclude_scale: true }
    }

    pub fn exclude_translation(&mut self, exclude: bool)
        ensures
            *final(self) == (TransformFilter { exclude_translation: exclude, ..*old(self) }),
    {
        self.exclude_translation = exclude;
    }

    pub fn exclude_rotation(&mut self, exclude: bool)
        ensures
            *final(self) == (TransformFilter { exclude_rotation: exclude, ..*old(self) }),
    {
        self.exclude_rotation = exclude;
    }

    pub fn exclude_scale(&mut self, exclude: bool)
        ensures
            *final(self) == (TransformFilter { exclude_scale: exclude, ..*old(self) }),
    {
        self.exclude_scale = exclude;
    }
}

/// How a node takes part in rendering beyond drawing itself.
#[derive(Debug, Clone, Copy)]
pub enum NodeRole {
    /// Applies its own local transform, draws, then visits its children.
    Plain,
    /// Like `Plain`, but recomputes its displayed transform on every visit
    /// (interpolation), which marks its whole subtree dirty.
    Animated,
    /// Re-derives a partial transform from its parent for each child.
    Filter(TransformFilter),
}

/// When a scene asks to be replaced by another node.
#[derive(Debug, Clone, Copy)]
pub enum TransitionRule {
    /// Never.
    Stay,
    /// On the first frame it runs.
    Always { replacement: usize },
    /// Once its `ready` flag has been raised.
    WhenReady { replacement: usize, ready: bool },
}

/// The action that `rule` asks for.
pub open spec fn action_of(rule: TransitionRule) -> NodeActions {
    match rule {
        TransitionRule::Stay => NodeActions::NoAction,
        TransitionRule::Always { .. } => NodeActions::SceneReplaceTake,
        TransitionRule::WhenReady { ready, .. } => if ready {
            NodeActions::SceneReplaceTake
        } else {
            NodeActions::NoAction
        },
    }
}

/// The node that `rule` names as replacement (0 when none).
pub open spec fn replacement_of(rule: TransitionRule) -> usize {
    match rule {
        TransitionRule::Stay => 0,
        TransitionRule::Always { replacement } => replacement,
        TransitionRule::WhenReady { replacement, .. } => replacement,
    }
}

/// `rule` with its replacement cleared.
pub open spec fn replacement_taken(rule: TransitionRule) -> TransitionRule {
    match rule {
        TransitionRule::Stay => TransitionRule::Stay,
        TransitionRule::Always { .. } => TransitionRule::Always { replacement: 0 },
        TransitionRule::WhenReady { ready, .. } => TransitionRule::WhenReady { replacement: 0, ready },
    }
}

impl TransitionRule {
    pub fn action(&self) -> (r: NodeActions)
        ensures
            r == action_of(*self),
    {
        match self {
            TransitionRule::Stay => NodeActions::NoAction,
            TransitionRule::Always { .. } => NodeActions::SceneReplaceTake,
            TransitionRule::WhenReady { ready, .. } => if *ready {
                NodeActions::SceneReplaceTake
            } else {
                NodeActions::NoAction
            },
        }
    }

    pub fn replacement(&self) -> (r: usize)
        ensures
            r == replacement_of(*self),
    {
        match self {
            TransitionRule::Stay => 0,
            TransitionRule::Always { replacement } => *replacement,
            TransitionRule::WhenReady { replacement, .. } => *replacement,
        }
    }

    pub fn taken(&self) -> (r: TransitionRule)
        ensures
            r == replacement_taken(*self),
    {
        match self {
            TransitionRule::Stay => TransitionRule::Stay,
            TransitionRule::Always { .. } => TransitionRule::Always { replacement: 0 },
            TransitionRule::WhenReady { ready, .. } => TransitionRule::WhenReady {
                replacement: 0,
                ready: *ready,
            },
        }
    }
}

// --------------------------------------------------------
// Node property bag
// --------------------------------------------------------
/// One node of the scene graph as the registry holds it. Links to other
/// nodes are ids: `parent` (0 for a root) and the ordered `children`
/// (`None` for a node that cannot hold children).
#[derive(Debug)]
pub struct NodeData {
    pub node: NodeProperties,
    pub timing: TimingProperties,
    pub parent: usize,
    pub children: Option<Vec<usize>>,
    pub role: NodeRole,
    pub transition: TransitionRule,
}

impl NodeData {
    /// An unnamed, parentless leaf of type `Nil`, visible, dirty and paused.
    pub fn new() -> (n: Self)
        ensures
            n.node.id == 0,
            n.node.name@ == Seq::<char>::empty(),
            n.node.n_type == NodeType::Nil,
            n.node.visible,
            !n.node.canbe_timing_target,
            n.node.dirty,
            n.timing.paused,
            n.parent == 0,
            n.children is None,
            n.role is Plain,
            n.transition is Stay,
    {
        NodeData {
            node: NodeProperties::new(),
            timing: TimingProperties::new(),
            parent: 0,
            children: None,
            role: NodeRole::Plain,
            transition: TransitionRule::Stay,
        }
    }

    /// A leaf with the given identity.
    pub fn leaf(id: usize, name: String, n_type: NodeType, parent: usize) -> (n: Self)
        ensures
            n.node.id == id,
            n.node.name == name,
            n.node.n_type == n_type,
            n.node.visible,
            !n.node.canbe_timing_target,
            n.node.dirty,
            n.timing.paused,
            n.parent == parent,
            n.children is None,
            n.role is Plain,
            n.transition is Stay,
    {
        let mut n = NodeData::new();
        n.node.id = id;
        n.node.name = name;
        n.node.n_type = n_type;
        n.parent = parent;
        n
    }

    /// A node with the given identity that can hold children.
    pub fn group(id: usize, name: String, n_type: NodeType, parent: usize) -> (n: Self)
        ensures
            n.node.id == id,
            n.node.name == name,
            n.node.n_type == n_type,
            n.node.visible,
            !n.node.canbe_timing_target,
            n.node.dirty,
            n.timing.paused,
            n.parent == parent,
            n.children is Some,
            n.children->0@ == Seq::<usize>::empty(),
            n.role is Plain,
            n.transition is Stay,
    {
        let mut n = NodeData::new();
        n.node.id = id;
        n.node.name = name;
        n.node.n_type = n_type;
        n.parent = parent;
        let kids: Vec<usize> = Vec::new();
        n.children = Some(kids);
        n
    }
}

} // verus!
