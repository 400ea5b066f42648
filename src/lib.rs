//! An in-process media fan-out buffer: one producer writes interleaved audio
//! and video frames into a GOP-aligned sliding window, and up to sixteen
//! consumers each read their own subset of it at their own pace.
//!
//! `dispatcher` holds the shared state and its operations, `receiver` a
//! consumer's side of the request/receive handshake, and `laws` what holds
//! of them; blocking and threads are left to the host.
pub mod bits;
pub mod buffer;
pub mod dispatcher;
pub mod laws;
pub mod notifier;
pub mod receiver;
pub mod ring;
