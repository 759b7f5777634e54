//! A Pixelflut server core: a sharded pixel canvas, the line-oriented wire
//! codec, the request interpreter, and the per-connection handling logic.

pub mod buffer;
pub mod codec;
pub mod color;
pub mod conn;
pub mod pixmap;
pub mod proto;
pub mod shared;
