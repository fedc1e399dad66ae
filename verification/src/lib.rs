pub mod aligned_buf;
pub mod aligned_buf_writer;
pub mod be;
pub mod buffers;
pub mod casts;
pub mod crc32;
pub mod cursor;
pub mod frame;
pub mod frame_check;
pub mod frame_error;
pub mod frame_laws;
pub mod index_codec;
pub mod object;
pub mod range;
pub mod range_manager;
pub mod session;
pub mod store_error;
pub mod stream_manager;
pub mod text;
pub mod tracing;
pub mod worker;
