//! Hush: the logic of a sound-card modem.
//!
//! A station sends frames over the loudspeaker and listens for them with the
//! microphone; a client drives it with lines of JSON. This crate decides: how a
//! payload becomes symbols and back ([`modems`], [`modes`]), what goes through
//! the queues ([`fifo`], [`upload`]) and the audio streams ([`audio`]), what the
//! receiver does ([`worker`], [`align`]) and what that comes to for a frame that
//! was sent ([`reception`]), and how requests are answered ([`control`],
//! [`reply`]). Sound devices, sockets, files and floating-point signal
//! processing are the caller's.
pub mod align;
pub mod audio;
pub mod control;
pub mod fifo;
pub mod json;
pub mod modems;
pub mod modes;
pub mod reception;
pub mod reply;
pub mod state;
pub mod text;
pub mod upload;
pub mod worker;
