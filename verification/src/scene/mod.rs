pub mod animation;
pub mod artboard;
pub mod graph;
pub mod state_machine;
pub mod shapes;
