//! Riichi mahjong table logic: scoring, AI fallbacks, the ledger that keeps
//! every player's mirror of the zero-trust table in step, the room lobby's
//! seating rules, and the peer-to-peer and LAN discovery of rooms.

pub mod domain;
pub mod mental_poker;
pub mod net;
pub mod player;
pub mod score;
