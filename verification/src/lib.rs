//! Verified core of a multiplayer racing-game room server.
//!
//! A room admits up to [`room::MAX_CLIENT_COUNT`] clients carrying up to
//! [`room::MAX_PLAYER_COUNT`] players, drives them through the
//! Lobby -> Voting -> Playing lifecycle, and during play aggregates one tick
//! of per-player frames into each outgoing server frame.  All decisions are
//! made here on plain values; channels, UDP and encryption live outside.

pub mod clients;
pub mod matchmaking;
pub mod protocol;
pub mod race;
pub mod rng;
pub mod room;
