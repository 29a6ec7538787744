//! Verified core of a game login server: the wire framing of the login
//! protocol, its string and integer codecs, the request handler, and the
//! decisions of the login flow.

pub mod protocol;
pub mod config;
pub mod servers;
pub mod handler;
pub mod login;
