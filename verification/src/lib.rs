//! A string buffer for calls into C: text is kept inline, without a heap
//! allocation, while it is shorter than [`STRING_SIZE`], and moves to the heap
//! once it grows past that. Either way the buffer holds its content followed by
//! one zero byte.

pub mod buffer;
pub mod laws;
pub mod text;

pub use buffer::format_c;
pub use buffer::CFixedString;
pub use buffer::STRING_SIZE;
pub use text::utf8_lossy;
