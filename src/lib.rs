//! A retained-mode 2D scene graph: a registry of nodes addressed by id,
//! dirty-flag propagation, render plans, timing targets and a scene stack.

pub mod color;
pub mod node;
pub mod world;
pub mod visit;
pub mod node_manager;
pub mod node_functions;
pub mod custom_nodes;
pub mod fx_edge;
pub mod frame;
pub mod text;
pub mod placement;
