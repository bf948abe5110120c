//! Supervision logic for a chat reader: the chat line grammar, the event
//! notification session, operation routing strings, and the supervisor that
//! decides how to reconnect and when to refresh credentials.
pub mod api;
pub mod eventsub;
pub mod irc;
pub mod operation;
pub mod settings;
pub mod sound;
pub mod supervisor;
pub mod text;
