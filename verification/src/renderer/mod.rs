pub mod buffers;
pub mod draw;
pub mod plan;
