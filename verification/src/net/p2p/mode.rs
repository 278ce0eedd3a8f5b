//! Room trust modes.
//!
//! The mode decides how a hand starts: on the host-authoritative path
//! (Standard) or on the zero-trust mental-poker path (ZeroTrust). The host
//! picks it when creating the room; it travels with the lobby announcement so
//! that joiners see it before joining.
//!
//! - **Standard**: the host process holds the authoritative game state; player
//!   actions go through the room actor. The host is trusted.
//! - **ZeroTrust**: the four players are peers; the mental-poker protocols make
//!   the wall unpredictable to any one of them and keep hands hidden.
//!
//! On the wire a mode is a lower-case kebab string; a record without the field
//! reads as [`RoomMode::Standard`] (older rooms).

use vstd::prelude::*;
use crate::net::text::str_eq;

verus! {

#[derive(Debug, Clone, Copy, PartialEq, Eq, Hash, Structural)]
pub enum RoomMode {
    /// Host-authoritative; the host is trusted.
    Standard,
    /// Peer-to-peer zero trust; no single player can cheat.
    ZeroTrust,
}

impl Default for RoomMode {
    fn default() -> (r: Self)
        ensures
            r == RoomMode::Standard,
    {
        RoomMode::Standard
    }
}

/// The kebab wire form of a mode.
pub open spec fn kebab_of(m: RoomMode) -> Seq<char> {
    match m {
        RoomMode::Standard => "standard"@,
        RoomMode::ZeroTrust => "zero-trust"@,
    }
}

/// The mode a kebab string names; anything unknown is `Standard`.
pub open spec fn mode_of_kebab(s: Seq<char>) -> RoomMode {
    if s == "zero-trust"@ {
        RoomMode::ZeroTrust
    } else {
        RoomMode::Standard
    }
}

impl RoomMode {
    /// Every mode, in menu order.
    pub fn all() -> (r: &'static [RoomMode])
        ensures
            r@ == seq![RoomMode::Standard, RoomMode::ZeroTrust],
    {
        &[RoomMode::Standard, RoomMode::ZeroTrust]
    }

    /// Short tag for lobby rows.
    pub fn short_tag(self) -> (r: &'static str)
        ensures
            r@ == (match self {
                RoomMode::Standard => "标准"@,
                RoomMode::ZeroTrust => "零信任"@,
            }),
    {
        match self {
            RoomMode::Standard => "标准",
            RoomMode::ZeroTrust => "零信任",
        }
    }

    /// Full label.
    pub fn label(self) -> (r: &'static str)
        ensures
            r@ == (match self {
                RoomMode::Standard => "标准模式 (房主权威)"@,
                RoomMode::ZeroTrust => "零信任模式 (mental poker)"@,
            }),
    {
        match self {
            RoomMode::Standard => "标准模式 (房主权威)",
            RoomMode::ZeroTrust => "零信任模式 (mental poker)",
        }
    }

    /// The kebab wire form.
    pub fn as_kebab(self) -> (r: &'static str)
        ensures
            r@ == kebab_of(self),
    {
        match self {
            RoomMode::Standard => "standard",
            RoomMode::ZeroTrust => "zero-trust",
        }
    }

    /// Reads a kebab wire form; anything unknown falls back to `Standard`.
    pub fn from_kebab(s: &str) -> (r: RoomMode)
        ensures
            r == mode_of_kebab(s@),
    {
        if str_eq(s, "zero-trust") {
            RoomMode::ZeroTrust
        } else {
            RoomMode::Standard
        }
    }
}

/// Reading back the wire form of a mode gives the mode.
pub proof fn law_kebab_round_trip(m: RoomMode)
    ensures
        mode_of_kebab(kebab_of(m)) == m,
{
    reveal_strlit("standard");
    reveal_strlit("zero-trust");
    assert("standard"@ != "zero-trust"@) by {
        assert("standard"@.len() != "zero-trust"@.len());
    }
}

} // verus!
