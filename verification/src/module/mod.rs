//! Server state and the messages sent to a client that waits for a conversion.

pub mod sse_callback;
pub mod state;
