//! Readings of the system clock and draws of peer ids, as values that only
//! a reading or a draw makes: a contract that speaks of one speaks of a
//! reading or a draw that was actually made.

use vstd::prelude::*;

use super::db::{generate_peer_id, is_peer_id, now_timestamp};
use crate::types::{clone_opt_string, opt_view, PeerId};

verus! {

/// One reading of the system clock: its timestamp text, or none when the
/// clock lies outside the range of representable timestamps. Only
/// `read_clock` makes one.
pub struct ClockReading {
    stamp: Option<String>,
}

impl ClockReading {
    /// The timestamp text that the reading gave.
    pub closed spec fn stamp(self) -> Option<Seq<char>> {
        opt_view(self.stamp)
    }

    /// The timestamp text that the reading gave.
    pub fn stamp_text(&self) -> (r: Option<String>)
        ensures
            opt_view(r) == self.stamp(),
    {
        clone_opt_string(&self.stamp)
    }
}

/// Reads the system clock.
pub fn read_clock() -> (r: ClockReading) {
    ClockReading { stamp: now_timestamp() }
}

/// One draw of a peer id: the id drawn, or none when no random generator
/// could be seeded. Only `draw_peer_id` makes one.
pub struct IdDraw {
    id: Option<PeerId>,
}

impl IdDraw {
    /// The id that was drawn.
    pub closed spec fn drawn(self) -> Option<Seq<char>> {
        opt_view(self.id)
    }

    /// The id that was drawn.
    pub fn drawn_id(&self) -> (r: Option<PeerId>)
        ensures
            opt_view(r) == self.drawn(),
    {
        clone_opt_string(&self.id)
    }
}

/// Draws a random peer id (see `is_peer_id`).
pub fn draw_peer_id() -> (r: IdDraw)
    ensures
        r.drawn() matches Some(id) ==> is_peer_id(id),
{
    IdDraw { id: generate_peer_id() }
}

} // verus!
