//! Status queries for Quake 3 servers: the request datagram, the decoding of
//! the reply into the keys of the server and its players, and the removal of
//! colour codes from the names of the players.
//!
//! The library does no input or output of its own. A caller takes the steps
//! of a query on a socket, each as `Q3Client::action` says and in the order
//! that `transport::next_step` gives, and hands the datagram that came back
//! to `decode::decode_status`.

pub mod client;
pub mod decode;
pub mod keys;
pub mod status;
pub mod string_utils;
pub mod text;
pub mod transport;

pub use client::{Q3Client, Q3ClientOptions, Timeout};
pub use decode::{decode_status, parse_status, DecodeError};
pub use keys::ServerKeys;
pub use status::{Player, ServerStatus};
pub use string_utils::sanitize_string;
pub use transport::{
    first_step, next_step, request, Action, Step, TransportError, REPLY_CAPACITY,
};
