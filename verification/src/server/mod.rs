pub mod circular_buffer;
pub mod buffer_laws;
pub mod message;
pub mod frame;
pub mod guest;
