//! Screen streaming between computers: the rules of the signaling relay, of
//! the WebRTC handshake that runs over it, and of the capture, encode and
//! preview stages on either side of it.

pub mod audio;
pub mod capture;
pub mod commands;
pub mod encoding;
pub mod hw_encoding;
pub mod json;
pub mod network;
pub mod peer;
pub mod pipeline;
pub mod quality;
pub mod session;
pub mod signaling_client;
pub mod signaling_laws;
pub mod signaling_server;
pub mod text;
pub mod text_order;
pub mod video_preview;
