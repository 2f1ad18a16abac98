//! A single-producer/single-consumer transport for variable-length chunks of
//! bytes ("blips") with buffer reuse.
//!
//! A fixed backing allocation is written into incrementally through scoped
//! reservations; released reservations publish their length, making the bytes
//! visible to the reader; the reader pulls newly published bytes as views
//! that share reference-counted storage and split without copying; and the
//! whole allocation is recycled for a new write pass once no reader-side view
//! derived from it remains outstanding.
//!
//! The protocol is stated and machine-checked in the contracts: consumption
//! never overtakes publication, publication never overruns the storage, a
//! buffer is never recycled while a view or writer is outstanding, and the
//! receiver of a stream queue observes exactly the sent bytes, in order, with
//! buffer-pass boundaries invisible.

pub mod blip;
pub mod buffer;
pub mod laws;
pub mod queue;
pub mod storage;

pub use blip::Blip;
pub use buffer::BlipBuf;
pub use buffer::BlipBufInternal;
pub use buffer::BlipBufReservation;
pub use buffer::BlipBufWriter;
pub use queue::blip_queue;
pub use queue::BlipQueueReceiver;
pub use queue::BlipQueueSender;
pub use queue::BlipQueueShared;
pub use storage::Buffer;
