//! Decoding of Twitch chat (IRC over WebSocket) lines into structured
//! messages, the per-name color table, and the commands a chat client sends.

pub mod client;
pub mod color;
pub mod emote;
pub mod message;
pub mod tags;
pub mod text;

pub use crate::emote::EmoteServer;
pub use crate::message::IrcMessage;
