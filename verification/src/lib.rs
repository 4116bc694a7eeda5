//! A low-latency logging core: per-thread byte rings, the on-the-wire record
//! format, and the drain-side decoder that turns records back into lines.

pub mod bits;
pub mod wire;
pub mod level;
pub mod record;
pub mod builder;
pub mod ring;
pub mod cursor;
pub mod format;
pub mod timestamp;
pub mod text;
pub mod decode;
pub mod drain;
pub mod encode;
pub mod hotpath;
pub mod dispatch;
pub mod affinity;
pub mod backoff;
pub mod thread_buf;
pub mod segments;
pub mod ringbuffer_backend;
pub mod ringbuf_backend;
pub mod triple_buffer_backend;
pub mod rtrb_backend;
