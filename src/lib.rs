//! A line-delimited message protocol over a byte stream: the message type, its
//! wire encoding, the accumulator that turns arbitrarily chunked bytes into
//! messages, and the server's per-connection decisions.
pub mod connection;
pub mod frame;
pub mod laws;
pub mod server;
pub mod wire;

pub use connection::{Connection, Delivery, ReadEvent};
pub use frame::{Frame, FrameError};
pub use server::{Reaction, Session};
pub use wire::{decode_frame, encode_frame};
