//! Server core for a real-time multiplayer card game in the style of Dutch
//! Blitz: the deck and deal, the authoritative rules engine, and the
//! session/stream coordinator that serializes plays and fans out events.
pub mod card;
pub mod conserve;
pub mod deal;
pub mod error;
pub mod hand;
pub mod pile;
pub mod registry;
pub mod score;
pub mod session;
pub mod state;
pub mod wire;
