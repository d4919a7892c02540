//! Terminal interoperability contracts: capability evidence, negotiation, terminal protocol
//! parsers, transports, artifact references, and local callback intents.

pub mod artifact_ref;
pub mod codec;
pub mod da1;
pub mod evidence;
pub mod geometry;
pub mod intent;
pub mod kgp;
pub mod orchestration;
pub mod paths;
pub mod sixel;
pub mod text;
pub mod tmux;
