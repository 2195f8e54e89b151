//! In-memory authoritative state store for a multiplayer game lobby:
//! player records, game-session records with live membership, and a
//! denormalized member-count cache, behind an exclusive-lease discipline.

use vstd::prelude::*;

pub mod laws;
pub mod state;

verus! {

/// A sequence of player ids with no repeated id.
pub open spec fn distinct(s: Seq<i32>) -> bool {
    forall|i: int, j: int| 0 <= i < j < s.len() ==> s[i] != s[j]
}

} // verus!
