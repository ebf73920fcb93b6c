//! The operations that span several attempts, each a state machine of its
//! own.
pub mod automaton;
pub mod interactive;
pub mod recv_until;
pub mod send;
pub mod send_line_after;

pub use interactive::Interactive;
pub use recv_until::RecvUntil;
pub use send::SendAll;
pub use send_line_after::SendLineAfter;


