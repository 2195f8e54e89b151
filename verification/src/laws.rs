//! Store-wide properties, stated and proved once over the specs that
//! the operations' contracts are written in.

use crate::state::{add_member, GameState, LockedGameState, Slot, StorageState};
use vstd::prelude::*;

verus! {

/// Count cache consistency: in a well-formed index, the cached count
/// of every game at rest equals the true length of its membership
/// list.
pub proof fn lemma_count_cache_consistent(s: StorageState, id: i32)
    requires
        s.wf(),
        s.games_map().contains_key(id),
        s.games_map()[id] is Idle,
    ensures
        s.counts().contains_key(id),
        s.counts()[id] as nat == s.games_map()[id]->Idle_0.members().len(),
{
}

/// Count cache consistency under a lease: while a guard holds a game's
/// record, the cached count equals the length of the membership list
/// the guard sees.
pub proof fn lemma_count_tracks_lease(s: StorageState, g: LockedGameState)
    requires
        s.valid_game_guard(g),
    ensures
        s.counts().contains_key(g.game_id()),
        s.counts()[g.game_id()] as nat == g@.members().len(),
{
}

/// Idempotent add: adding a member a second time, with no intervening
/// remove, changes nothing; after one add the member appears, and in a
/// duplicate-free list it appears at exactly one position.
pub proof fn lemma_add_member_idempotent(s: Seq<i32>, p: i32)
    requires
        crate::distinct(s),
    ensures
        add_member(add_member(s, p), p) == add_member(s, p),
        add_member(s, p).contains(p),
        add_member(s, p).len() == if s.contains(p) {
            s.len()
        } else {
            s.len() + 1
        },
        crate::distinct(add_member(s, p)),
        forall|i: int, j: int|
            0 <= i < add_member(s, p).len() && 0 <= j < add_member(s, p).len() && add_member(
                s,
                p,
            )[i] == p && add_member(s, p)[j] == p ==> i == j,
{
    let t = add_member(s, p);
    if !s.contains(p) {
        assert(t == s.push(p));
        assert(t[s.len() as int] == p);
        assert forall|i: int, j: int| 0 <= i < j < t.len() implies t[i] != t[j] by {
            if j == s.len() {
                assert(t[i] == s[i]);
                assert(s[i] != p);
            } else {
                assert(t[i] == s[i] && t[j] == s[j]);
            }
        }
    }
}

/// Lazy closure: a game whose indexed record is already marked closed
/// can no longer be leased; the next lease attempt purges it instead.
pub proof fn lemma_closed_never_leasable(s: StorageState, id: i32)
    requires
        s.games_map().contains_key(id),
        s.games_map()[id] matches Slot::Idle(g) && g.is_closed(),
    ensures
        !s.can_lease_game(id),
{
}

/// Mutual exclusion: while a lease of a game is outstanding — its slot
/// is checked out of the index — no further lease of that game can be
/// taken, so no second holder can ever observe a half-mutated record.
pub proof fn lemma_lease_is_exclusive(s: StorageState, id: i32)
    requires
        s.game_leased(id),
    ensures
        !s.can_lease_game(id),
{
}

/// Independence: an index step that pins, rewrites or purges one
/// game's slot — a lease, a release, a registration or a closure purge
/// — leaves every other game exactly as leasable as before. Player
/// operations leave the game table untouched altogether.
pub proof fn lemma_lease_independence(
    pre: StorageState,
    post: StorageState,
    a: i32,
    slot: Slot<GameState>,
    b: i32,
)
    requires
        a != b,
        post.games_map() == pre.games_map().insert(a, slot) || post.games_map()
            == pre.games_map().remove(a) || post.games_map() == pre.games_map(),
    ensures
        post.can_lease_game(b) == pre.can_lease_game(b),
{
}

} // verus!
