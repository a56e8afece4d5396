//! Server-side engine of a multi-player drawing-and-guessing game: the wire
//! framing, the actors' mailboxes, the session state machine, the room
//! orchestrator and the turn engine.

pub mod canvas;
mod chance;
pub mod codec;
pub mod events;
pub mod game;
pub mod input;
pub mod message;
pub mod room;
pub mod server;
pub mod session;
pub mod text;
pub mod world;
