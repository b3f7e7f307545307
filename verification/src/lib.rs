//! Identity, authorization and invite primitives for Crab City, with the
//! small pieces of server and terminal logic that build on them.

pub mod text;
pub mod capability;
pub mod wire;
pub mod encoding;
pub mod error;
pub mod keys;
pub mod membership;
pub mod noun;
pub mod identity_proof;
pub mod digest;
pub mod invite;
pub mod event;
pub mod signal;
pub mod protocol;
pub mod hex;
pub mod desktop;
pub mod vt;
pub mod recorder;
pub mod keyed;
pub mod coordination;
pub mod pty;
pub mod tty;
pub mod attribution;
pub mod dispatch;
pub mod handshake;
pub mod merging;
pub mod inbox;
pub mod deferral;
pub mod discovery;
pub mod disconnect;
pub mod json;
pub mod transcript;
pub mod locking;
pub mod password_auth;
