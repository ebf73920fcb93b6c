//! Channels and the decorators that wrap them.
pub mod debug;
pub mod journal;
pub mod loopback;
pub mod tube;

pub use debug::DebugTube;
pub use journal::{Direction, Record};
pub use loopback::Loopback;
pub use tube::Tube;
