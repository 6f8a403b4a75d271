pub mod batch;
pub mod canvas;
pub mod culling;
pub mod controls;
