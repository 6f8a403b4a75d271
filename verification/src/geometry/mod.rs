pub mod encoding;
pub mod frame;
pub mod path;
pub mod tessellation;
