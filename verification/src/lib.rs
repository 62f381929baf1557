//! Verified core of a WebRTC socket layer: the decisions, codecs and
//! bookkeeping that surround the peer connections.

pub mod ice;
pub mod util;
pub mod json;
pub mod session;
pub mod signal;
pub mod packet;
pub mod server;
pub mod client;
pub mod counter;
pub mod demo;
