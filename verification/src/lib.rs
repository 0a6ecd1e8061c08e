//! An SNI-routing front door: TLS connections are told apart by the server
//! name in their ClientHello and bridged, byte for byte, to a backend.

pub mod actor;
pub mod actor_laws;
pub mod command_laws;
pub mod control;
pub mod control_laws;
pub mod event_laws;
pub mod hello;
pub mod init;
pub mod json;
pub mod lookup_laws;
pub mod seqs;
pub mod sni;
pub mod start_laws;
pub mod state;
pub mod stream_laws;
pub mod text;
pub mod text_laws;
pub mod verdict_laws;
pub mod wire;
