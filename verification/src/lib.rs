//! Verified core of a Lottie animation renderer: the integer and symbolic
//! decisions of the Lottie schema, the scene graph, the state machine
//! inputs, path contour splitting and the GPU draw bookkeeping.
pub mod engine;
pub mod geometry;
pub mod lottie;
pub mod renderer;
pub mod scene;
