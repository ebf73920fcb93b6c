//! Tubes: one interface over any duplex byte channel, with receive-until
//! matching, timeouts, traffic mirroring and a console bridge.
//!
//! Nothing here blocks or performs I/O by itself. A channel is anything that
//! implements the attempt-based traits of [`traits`]; every operation longer
//! than one attempt is a small state machine with a `poll` method that is
//! called again whenever the channel may have made progress.
//!
//! ```ignore
//! use io_tubes::traits::Poll;
//! use io_tubes::tubes::{Loopback, Tube};
//!
//! // a pipe that hands back what it is sent
//! let mut p = Tube::new(Loopback::new(4096));
//!
//! let mut send = p.send(b"Hello World!");
//! assert!(matches!(send.poll(&mut p), Poll::Ready(Ok(()))));
//!
//! let mut recv = p.recv_until(b"World");
//! assert!(matches!(recv.poll(&mut p, false), Poll::Ready(Ok(()))));
//! assert_eq!(recv.into_buf(), b"Hello World");
//! ```
//!
//! The parts, leaves first:
//!
//! - [`utils::automaton`]: what the delimiter automaton computes, and why;
//! - [`utils::RecvUntil`], [`utils::SendAll`], [`utils::SendLineAfter`] and
//!   [`utils::Interactive`]: the operations;
//! - [`tubes::Tube`]: the operations on one channel, with a journal of the
//!   bytes that cross it;
//! - [`tubes::DebugTube`]: a tee to two sinks;
//! - [`tubes::Loopback`]: a channel in memory.
pub mod traits;
pub mod tubes;
pub mod utils;
