//! Concurrent FIFO queues for producer/consumer work between threads.
//!
//! - `linked`: the Michael–Scott list of nodes, with exact contracts over
//!   the sequence of queued items.
//! - `non_blocking`: a shared queue over that list whose calls never suspend
//!   the thread. It is not lock-free: each call holds the list under a
//!   verified spin lock (see `NonBlockingQueue`).
//! - `blocking`: a shared queue whose `dequeue` waits for an item.
//! - `model`: calls on a queue as a sequence of operations, and the laws
//!   that every such sequence obeys.
//! - `grep`, `request`, `multipart`: line search, request-line and header
//!   reading, and upload header values for the programs built on the queues.
//! - `time`: a call timed on the monotonic clock.
//! - `share`: how many items each consumer of a producer/consumer run takes.

pub mod blocking;
pub mod grep;
pub mod linked;
pub mod model;
pub mod non_blocking;
pub mod request;
pub mod share;
pub mod time;
pub mod multipart;
