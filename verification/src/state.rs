//! Records, the coarse index, and the lease guards of the lobby store.
//!
//! The store serializes work on any single entity through an exclusive
//! lease: taking a lease checks the entity's record out of the coarse
//! index (its slot is marked [`Slot::Leased`]), and releasing the lease
//! checks the record back in. While a game's record is checked out, the
//! denormalized member-count cache is kept in step with the record by
//! the guard's mutation methods, so a lock-free count read stays honest.

use std::collections::HashMap;
use vstd::prelude::*;

verus! {

broadcast use vstd::std_specs::hash::group_hash_axioms;

/// A player's record: the game the player currently occupies, if any,
/// and an opaque token naming the player's outbound notification
/// channel. The store never interprets the token; the connection layer
/// stores and clears it.
pub struct PlayerState {
    pub game_id: Option<i32>,
    pub sender: Option<u64>,
}

impl Default for PlayerState {
    /// A freshly known player: unattached, with no active connection.
    fn default() -> (p: PlayerState)
        ensures
            p.game_id is None,
            p.sender is None,
    {
        PlayerState { game_id: None, sender: None }
    }
}

/// A game session's record: its current members, in join order and
/// without duplicates, and whether the session has been torn down.
pub struct GameState {
    pub players: Vec<i32>,
    closed: bool,
}

impl GameState {
    /// The membership list, as a sequence of player ids.
    pub closed spec fn members(&self) -> Seq<i32> {
        self.players@
    }

    /// Whether this session has been marked closed.
    pub closed spec fn is_closed(&self) -> bool {
        self.closed
    }

    pub fn new(players: &[i32]) -> (g: GameState)
        requires
            crate::distinct(players@),
        ensures
            g.members() == players@,
            !g.is_closed(),
    {
        GameState { players: vstd::slice::slice_to_vec(players), closed: false }
    }
}

/// What one member add leaves of a membership list: unchanged if the
/// player is already present, appended otherwise.
pub open spec fn add_member(s: Seq<i32>, p: i32) -> Seq<i32> {
    if s.contains(p) {
        s
    } else {
        s.push(p)
    }
}

/// The game table that bulk seeding builds: one entry per listed game
/// id, later list entries overriding earlier ones.
pub open spec fn seeded_games(seeds: Seq<GameSeed>) -> Map<i32, Seq<i32>>
    decreases seeds.len(),
{
    if seeds.len() == 0 {
        Map::empty()
    } else {
        seeded_games(seeds.drop_last()).insert(seeds.last().id, seeds.last().players@)
    }
}

/// Extends a player-to-game assignment with every member of one game.
pub open spec fn joins_of(m: Map<i32, i32>, game_id: i32, players: Seq<i32>) -> Map<i32, i32>
    decreases players.len(),
{
    if players.len() == 0 {
        m
    } else {
        joins_of(m, game_id, players.drop_last()).insert(players.last(), game_id)
    }
}

/// The player-to-game assignment that bulk seeding builds: each listed
/// member is attached to the last listed game that names them.
pub open spec fn seeded_joins(seeds: Seq<GameSeed>) -> Map<i32, i32>
    decreases seeds.len(),
{
    if seeds.len() == 0 {
        Map::empty()
    } else {
        joins_of(seeded_joins(seeds.drop_last()), seeds.last().id, seeds.last().players@)
    }
}

/// One entry of the coarse index: either the entity's record, at rest,
/// or a marker left behind while an exclusive guard holds the record.
pub enum Slot<T> {
    Leased,
    Idle(T),
}

/// A row of a bulk game listing; `fetch_num_players` fills
/// `num_players` from the count cache.
#[derive(Clone, Copy, PartialEq, Eq, Debug)]
pub struct GameEntry {
    pub id: i32,
    pub num_players: i32,
}

/// One currently active session handed to the store at startup.
pub struct GameSeed {
    pub id: i32,
    pub players: Vec<i32>,
}

/// The coarse index: the single authoritative mapping from ids to
/// records, plus the denormalized member-count cache.
pub struct StorageState {
    players: HashMap<i32, Slot<PlayerState>>,
    games: HashMap<i32, Slot<GameState>>,
    game_num_players: HashMap<i32, usize>,
}

impl StorageState {
    /// The player table, as a map.
    pub closed spec fn players_map(&self) -> Map<i32, Slot<PlayerState>> {
        self.players@
    }

    /// The game table, as a map.
    pub closed spec fn games_map(&self) -> Map<i32, Slot<GameState>> {
        self.games@
    }

    /// The member-count cache, as a map.
    pub closed spec fn counts(&self) -> Map<i32, usize> {
        self.game_num_players@
    }

    /// Whether a game's record is currently checked out by a guard.
    pub open spec fn game_leased(&self, id: i32) -> bool {
        self.games_map().contains_key(id) && self.games_map()[id] is Leased
    }

    /// Whether a player's record is currently checked out by a guard.
    pub open spec fn player_leased(&self, id: i32) -> bool {
        self.players_map().contains_key(id) && self.players_map()[id] is Leased
    }

    /// Whether a lease attempt on this game would succeed: the game is
    /// indexed, at rest, and not closed.
    pub open spec fn can_lease_game(&self, id: i32) -> bool {
        self.games_map().contains_key(id) && (self.games_map()[id] matches Slot::Idle(g)
            && !g.is_closed())
    }

    /// Well-formedness of the index: the count cache covers exactly the
    /// indexed games, every cached count fits the listing's `i32`, and
    /// for every game at rest the cached count equals the true length
    /// of its duplicate-free membership list.
    pub open spec fn wf(&self) -> bool {
        &&& forall|id: i32|
            #[trigger] self.games_map().contains_key(id) <==> self.counts().contains_key(id)
        &&& forall|id: i32|
            #[trigger] self.counts().contains_key(id) ==> self.counts()[id] <= i32::MAX as usize
        &&& forall|id: i32|
            #[trigger] self.games_map().contains_key(id) ==> (self.games_map()[id] matches Slot::Idle(g) ==> {
                &&& self.counts()[id] as nat == g.members().len()
                &&& crate::distinct(g.members())
            })
    }

    /// Well-formedness does not depend on the player table: it carries
    /// over whenever the game table and the count cache are untouched.
    proof fn lemma_wf_unchanged_games(pre: StorageState, post: StorageState)
        requires
            pre.wf(),
            post.games_map() == pre.games_map(),
            post.counts() == pre.counts(),
        ensures
            post.wf(),
    {
        assert forall|id: i32|
            #[trigger] post.games_map().contains_key(id) <==> post.counts().contains_key(id) by {
            assert(pre.games_map().contains_key(id) <==> pre.counts().contains_key(id));
        }
        assert forall|id: i32| #[trigger] post.counts().contains_key(id) implies post.counts()[id]
            <= i32::MAX as usize by {
            assert(pre.counts().contains_key(id) ==> pre.counts()[id] <= i32::MAX as usize);
        }
    }

    /// Rewriting the cached count of a checked-out game preserves
    /// well-formedness, since the count-to-record tie only binds games
    /// at rest.
    proof fn lemma_wf_counts_update(pre: StorageState, post: StorageState, id: i32, c: usize)
        requires
            pre.wf(),
            pre.game_leased(id),
            c <= i32::MAX as usize,
            post.games_map() == pre.games_map(),
            post.counts() == pre.counts().insert(id, c),
        ensures
            post.wf(),
    {
        assert forall|k: i32|
            #[trigger] post.games_map().contains_key(k) <==> post.counts().contains_key(k) by {
            assert(pre.games_map().contains_key(k) <==> pre.counts().contains_key(k));
        }
        assert forall|k: i32| #[trigger] post.counts().contains_key(k) implies post.counts()[k]
            <= i32::MAX as usize by {
            if k != id {
                assert(pre.counts().contains_key(k) ==> pre.counts()[k] <= i32::MAX as usize);
            }
        }
        assert forall|k: i32| #[trigger] post.games_map().contains_key(k) implies (
        post.games_map()[k] matches Slot::Idle(g) ==> {
            &&& post.counts()[k] as nat == g.members().len()
            &&& crate::distinct(g.members())
        }) by {
            assert(pre.games_map().contains_key(k));
        }
    }

    /// An empty index: no players, no games, no cached counts.
    pub fn empty() -> (s: StorageState)
        ensures
            s.wf(),
            s.players_map() == Map::<i32, Slot<PlayerState>>::empty(),
            s.games_map() == Map::<i32, Slot<GameState>>::empty(),
            s.counts() == Map::<i32, usize>::empty(),
    {
        StorageState {
            players: HashMap::new(),
            games: HashMap::new(),
            game_num_players: HashMap::new(),
        }
    }

    /// Bulk initialization from the currently active sessions a
    /// persistence collaborator reports at startup. Every listed game
    /// is indexed at rest with its cached count, and every listed
    /// member gets a player record pre-attached to the last listed
    /// game that names them, before the index is shared with any
    /// caller.
    pub fn new(data: Vec<GameSeed>) -> (s: StorageState)
        requires
            forall|k: int|
                0 <= k < data@.len() ==> crate::distinct(#[trigger] data@[k].players@)
                    && data@[k].players@.len() <= i32::MAX as nat,
        ensures
            s.wf(),
            forall|id: i32|
                #[trigger] s.games_map().contains_key(id) <==> seeded_games(
                    data@,
                ).contains_key(id),
            forall|id: i32|
                #[trigger] seeded_games(data@).contains_key(id) ==> (s.games_map()[id] matches Slot::Idle(g)
                    && g.members() == seeded_games(data@)[id] && !g.is_closed()),
            forall|id: i32|
                #[trigger] s.counts().contains_key(id) <==> seeded_games(data@).contains_key(id),
            forall|id: i32|
                #[trigger] seeded_games(data@).contains_key(id) ==> s.counts()[id] as nat
                    == seeded_games(data@)[id].len(),
            forall|pid: i32|
                #[trigger] s.players_map().contains_key(pid) <==> seeded_joins(
                    data@,
                ).contains_key(pid),
            forall|pid: i32|
                #[trigger] seeded_joins(data@).contains_key(pid) ==> (s.players_map()[pid] matches Slot::Idle(p)
                    && p.game_id == Some(seeded_joins(data@)[pid]) && p.sender is None),
    {
        let ghost all = data@;
        let mut s = StorageState::empty();
        let mut i: usize = 0;
        while i < data.len()
            invariant
                0 <= i <= all.len(),
                data@ == all,
                forall|k: int|
                    0 <= k < all.len() ==> crate::distinct(#[trigger] all[k].players@)
                        && all[k].players@.len() <= i32::MAX as nat,
                forall|id: i32|
                    #[trigger] s.games_map().contains_key(id) <==> seeded_games(
                        all.subrange(0, i as int),
                    ).contains_key(id),
                forall|id: i32|
                    #[trigger] seeded_games(all.subrange(0, i as int)).contains_key(id)
                        ==> (s.games_map()[id] matches Slot::Idle(g) && g.members()
                        == seeded_games(all.subrange(0, i as int))[id] && !g.is_closed()
                        && crate::distinct(g.members())),
                forall|id: i32|
                    #[trigger] s.counts().contains_key(id) <==> seeded_games(
                        all.subrange(0, i as int),
                    ).contains_key(id),
                forall|id: i32|
                    #[trigger] seeded_games(all.subrange(0, i as int)).contains_key(id)
                        ==> s.counts()[id] as nat == seeded_games(all.subrange(0, i as int))[id].len()
                        && s.counts()[id] <= i32::MAX as usize,
                forall|pid: i32|
                    #[trigger] s.players_map().contains_key(pid) <==> seeded_joins(
                        all.subrange(0, i as int),
                    ).contains_key(pid),
                forall|pid: i32|
                    #[trigger] seeded_joins(all.subrange(0, i as int)).contains_key(pid)
                        ==> (s.players_map()[pid] matches Slot::Idle(p) && p.game_id == Some(
                        seeded_joins(all.subrange(0, i as int))[pid],
                    ) && p.sender is None),
            decreases all.len() - i,
        {
            let gid = data[i].id;
            let ghost pre_joins = seeded_joins(all.subrange(0, i as int));
            let mut j: usize = 0;
            while j < data[i].players.len()
                invariant
                    0 <= i < all.len(),
                    data@ == all,
                    0 <= j <= all[i as int].players@.len(),
                    gid == all[i as int].id,
                    pre_joins == seeded_joins(all.subrange(0, i as int)),
                    forall|k: int|
                        0 <= k < all.len() ==> crate::distinct(#[trigger] all[k].players@)
                            && all[k].players@.len() <= i32::MAX as nat,
                    forall|id: i32|
                        #[trigger] s.games_map().contains_key(id) <==> seeded_games(
                            all.subrange(0, i as int),
                        ).contains_key(id),
                    forall|id: i32|
                        #[trigger] seeded_games(all.subrange(0, i as int)).contains_key(id)
                            ==> (s.games_map()[id] matches Slot::Idle(g) && g.members()
                            == seeded_games(all.subrange(0, i as int))[id] && !g.is_closed()
                            && crate::distinct(g.members())),
                    forall|id: i32|
                        #[trigger] s.counts().contains_key(id) <==> seeded_games(
                            all.subrange(0, i as int),
                        ).contains_key(id),
                    forall|id: i32|
                        #[trigger] seeded_games(all.subrange(0, i as int)).contains_key(id)
                            ==> s.counts()[id] as nat == seeded_games(all.subrange(0, i as int))[id].len()
                            && s.counts()[id] <= i32::MAX as usize,
                    forall|pid: i32|
                        #[trigger] s.players_map().contains_key(pid) <==> joins_of(
                            pre_joins,
                            gid,
                            all[i as int].players@.subrange(0, j as int),
                        ).contains_key(pid),
                    forall|pid: i32|
                        #[trigger] joins_of(
                            pre_joins,
                            gid,
                            all[i as int].players@.subrange(0, j as int),
                        ).contains_key(pid) ==> (s.players_map()[pid] matches Slot::Idle(p)
                            && p.game_id == Some(
                            joins_of(
                                pre_joins,
                                gid,
                                all[i as int].players@.subrange(0, j as int),
                            )[pid],
                        ) && p.sender is None),
                decreases all[i as int].players@.len() - j,
            {
                let pid = data[i].players[j];
                let ghost s0 = s;
                s.players.insert(pid, Slot::Idle(PlayerState { game_id: Some(gid), sender: None }));
                proof {
                    assert(s.games_map() == s0.games_map());
                    assert(s.counts() == s0.counts());
                    assert(s.players_map() == s0.players_map().insert(
                        pid,
                        Slot::Idle(PlayerState { game_id: Some(gid), sender: None }),
                    ));
                    let ps = all[i as int].players@;
                    assert(ps.subrange(0, j + 1).drop_last() =~= ps.subrange(0, j as int));
                    assert(ps.subrange(0, j + 1).last() == ps[j as int]);
                }
                j = j + 1;
            }
            proof {
                assert(all[i as int].players@.subrange(0, all[i as int].players@.len() as int)
                    =~= all[i as int].players@);
            }
            let ghost s1 = s;
            let n = data[i].players.len();
            s.game_num_players.insert(gid, n);
            let g_new = GameState::new(data[i].players.as_slice());
            s.games.insert(gid, Slot::Idle(g_new));
            proof {
                assert(s.players_map() == s1.players_map());
                assert(s.counts() == s1.counts().insert(gid, n));
                assert(s.games_map() == s1.games_map().insert(gid, Slot::Idle(g_new)));
                assert(all.subrange(0, i + 1).drop_last() =~= all.subrange(0, i as int));
                assert(all.subrange(0, i + 1).last() == all[i as int]);
            }
            i = i + 1;
        }
        proof {
            assert(all.subrange(0, all.len() as int) =~= all);
        }
        s
    }

    /// Unconditionally (re-)creates the game's record with the given
    /// members and resets its cached count; an existing record for the
    /// same id is replaced, and the result reports whether one was.
    pub fn register_game(&mut self, id: i32, players: &[i32]) -> (replaced: bool)
        requires
            old(self).wf(),
            crate::distinct(players@),
            players@.len() <= i32::MAX as nat,
            !old(self).game_leased(id),
        ensures
            final(self).wf(),
            replaced == old(self).games_map().contains_key(id),
            final(self).games_map().contains_key(id),
            final(self).games_map()[id] matches Slot::Idle(g) && g.members() == players@
                && !g.is_closed(),
            final(self).games_map() == old(self).games_map().insert(id, final(self).games_map()[id]),
            final(self).counts() == old(self).counts().insert(id, players@.len() as usize),
            final(self).players_map() == old(self).players_map(),
    {
        let replaced = self.games.contains_key(&id);
        self.game_num_players.insert(id, players.len());
        self.games.insert(id, Slot::Idle(GameState::new(players)));
        replaced
    }

    /// Whether a guard is a genuine outstanding lease of this index:
    /// its game's slot is checked out, and the cached count tracks the
    /// guard's duplicate-free membership list.
    pub open spec fn valid_game_guard(&self, g: LockedGameState) -> bool {
        &&& self.game_leased(g.game_id())
        &&& self.counts().contains_key(g.game_id())
        &&& self.counts()[g.game_id()] as nat == g@.members().len()
        &&& crate::distinct(g@.members())
    }

    /// Whether a guard is a genuine outstanding lease of a player's
    /// record in this index.
    pub open spec fn valid_player_guard(&self, g: LockedPlayerState) -> bool {
        self.player_leased(g.player_id())
    }

    /// Checks the player's record out of the index, creating a default
    /// (unattached) record on first sight of the id. Never fails. The
    /// caller owes a matching `release_player`; concurrent callers must
    /// serialize leases of one player id before calling in.
    pub fn lock_player_state(&mut self, id: i32) -> (guard: LockedPlayerState)
        requires
            old(self).wf(),
            !old(self).player_leased(id),
        ensures
            final(self).wf(),
            final(self).valid_player_guard(guard),
            guard.player_id() == id,
            guard@ == if old(self).players_map().contains_key(id) {
                old(self).players_map()[id]->Idle_0
            } else {
                (PlayerState { game_id: None, sender: None })
            },
            final(self).players_map() == old(self).players_map().insert(id, Slot::<
                PlayerState,
            >::Leased),
            final(self).games_map() == old(self).games_map(),
            final(self).counts() == old(self).counts(),
    {
        let slot = self.players.remove(&id);
        let state = match slot {
            None => PlayerState { game_id: None, sender: None },
            Some(Slot::Idle(p)) => p,
            // The caller serializes leases of one id, so a checked-out
            // slot cannot be met here.
            Some(Slot::Leased) => {
                proof {
                    assert(false);
                }
                PlayerState { game_id: None, sender: None }
            },
        };
        self.players.insert(id, Slot::Leased);
        proof {
            assert(self.players@ =~= old(self).players@.insert(id, Slot::<PlayerState>::Leased));
            StorageState::lemma_wf_unchanged_games(*old(self), *self);
        }
        LockedPlayerState { id, state }
    }

    /// Checks a player's record back into the index, ending the lease.
    pub fn release_player(&mut self, guard: LockedPlayerState)
        requires
            old(self).wf(),
            old(self).valid_player_guard(guard),
        ensures
            final(self).wf(),
            final(self).players_map() == old(self).players_map().insert(
                guard.player_id(),
                Slot::Idle(guard@),
            ),
            final(self).games_map() == old(self).games_map(),
            final(self).counts() == old(self).counts(),
    {
        let LockedPlayerState { id, state } = guard;
        self.players.insert(id, Slot::Idle(state));
        proof {
            StorageState::lemma_wf_unchanged_games(*old(self), *self);
        }
    }

    /// Checks the game's record out of the index, if the game is known
    /// and still open. A record found closed is purged from the index
    /// and the count cache instead, and the attempt reports "not
    /// found"; so does an id the index has never seen. Concurrent
    /// callers must serialize leases of one game id before calling in.
    pub fn lock_game_state(&mut self, id: i32) -> (r: Option<LockedGameState>)
        requires
            old(self).wf(),
            !old(self).game_leased(id),
        ensures
            final(self).wf(),
            r is Some <==> old(self).can_lease_game(id),
            final(self).players_map() == old(self).players_map(),
            !old(self).games_map().contains_key(id) ==> {
                &&& final(self).games_map() == old(self).games_map()
                &&& final(self).counts() == old(self).counts()
            },
            (old(self).games_map().contains_key(id) && old(
                self,
            ).games_map()[id]->Idle_0.is_closed()) ==> {
                &&& final(self).games_map() == old(self).games_map().remove(id)
                &&& final(self).counts() == old(self).counts().remove(id)
            },
            old(self).can_lease_game(id) ==> {
                &&& r matches Some(guard)
                &&& guard.game_id() == id
                &&& guard@ == old(self).games_map()[id]->Idle_0
                &&& final(self).valid_game_guard(guard)
                &&& final(self).games_map() == old(self).games_map().insert(id, Slot::<
                    GameState,
                >::Leased)
                &&& final(self).counts() == old(self).counts()
            },
    {
        let slot = self.games.remove(&id);
        match slot {
            None => None,
            // The caller serializes leases of one id, so a checked-out
            // slot cannot be met here.
            Some(Slot::Leased) => {
                proof {
                    assert(false);
                }
                None
            },
            Some(Slot::Idle(g)) => {
                if g.closed {
                    self.game_num_players.remove(&id);
                    None
                } else {
                    self.games.insert(id, Slot::Leased);
                    proof {
                        assert(self.games@ =~= old(self).games@.insert(id, Slot::<
                            GameState,
                        >::Leased));
                    }
                    Some(LockedGameState { id, state: g })
                }
            },
        }
    }

    /// Checks a game's record back into the index, ending the lease.
    /// The cached count already matches the record, so only the slot
    /// changes.
    pub fn release_game(&mut self, guard: LockedGameState)
        requires
            old(self).wf(),
            old(self).valid_game_guard(guard),
        ensures
            final(self).wf(),
            final(self).games_map() == old(self).games_map().insert(
                guard.game_id(),
                Slot::Idle(guard@),
            ),
            final(self).players_map() == old(self).players_map(),
            final(self).counts() == old(self).counts(),
    {
        let LockedGameState { id, state } = guard;
        self.games.insert(id, Slot::Idle(state));
    }

    /// Non-blocking snapshot read of the cached member count.
    pub fn read_count(&self, id: i32) -> (r: Option<usize>)
        ensures
            r == if self.counts().contains_key(id) {
                Some(self.counts()[id])
            } else {
                None::<usize>
            },
    {
        match self.game_num_players.get(&id) {
            Some(n) => Some(*n),
            None => None,
        }
    }

    /// Fills each listing row's member count from the count cache,
    /// without taking any per-entity lease; a row whose game the cache
    /// does not know keeps the count it came with.
    pub fn fetch_num_players(&self, games: &mut Vec<GameEntry>)
        requires
            self.wf(),
        ensures
            final(games)@.len() == old(games)@.len(),
            forall|k: int|
                0 <= k < old(games)@.len() ==> {
                    &&& (#[trigger] final(games)@[k]).id == old(games)@[k].id
                    &&& final(games)@[k].num_players == if self.counts().contains_key(
                        old(games)@[k].id,
                    ) {
                        self.counts()[old(games)@[k].id] as i32
                    } else {
                        old(games)@[k].num_players
                    }
                },
    {
        let mut out: Vec<GameEntry> = Vec::new();
        let mut i: usize = 0;
        while i < games.len()
            invariant
                self.wf(),
                0 <= i <= games@.len(),
                out@.len() == i,
                forall|k: int|
                    0 <= k < i ==> {
                        &&& (#[trigger] out@[k]).id == games@[k].id
                        &&& out@[k].num_players == if self.counts().contains_key(games@[k].id) {
                            self.counts()[games@[k].id] as i32
                        } else {
                            games@[k].num_players
                        }
                    },
            decreases games@.len() - i,
        {
            let row = games[i];
            let num = match self.game_num_players.get(&row.id) {
                Some(n) => *n as i32,
                None => row.num_players,
            };
            out.push(GameEntry { id: row.id, num_players: num });
            i = i + 1;
        }
        *games = out;
    }
}

/// An exclusively held player record. While the guard lives, the
/// player's slot in the index is checked out, so no other holder can
/// observe or mutate the record. Mutation is pure data mutation, with
/// no cross-entity side effects.
pub struct LockedPlayerState {
    id: i32,
    state: PlayerState,
}

impl View for LockedPlayerState {
    type V = PlayerState;

    closed spec fn view(&self) -> PlayerState {
        self.state
    }
}

impl LockedPlayerState {
    /// The leased player's id.
    pub closed spec fn player_id(&self) -> i32 {
        self.id
    }

    pub fn id(&self) -> (r: i32)
        ensures
            r == self.player_id(),
    {
        self.id
    }

    /// The game the player currently occupies, if any.
    pub fn joined_game_id(&self) -> (r: Option<i32>)
        ensures
            r == self@.game_id,
    {
        self.state.game_id
    }

    /// Points the player's record at a game.
    pub fn join_game(&mut self, game_id: i32)
        ensures
            final(self).player_id() == old(self).player_id(),
            final(self)@.game_id == Some(game_id),
            final(self)@.sender == old(self)@.sender,
    {
        self.state.game_id = Some(game_id);
    }

    /// Clears the player's occupied-game reference.
    pub fn leave_game(&mut self)
        ensures
            final(self).player_id() == old(self).player_id(),
            final(self)@.game_id is None,
            final(self)@.sender == old(self)@.sender,
    {
        self.state.game_id = None;
    }

    /// The player's notification-channel token, if a connection is
    /// active.
    pub fn sender(&self) -> (r: Option<u64>)
        ensures
            r == self@.sender,
    {
        self.state.sender
    }

    /// Stores or clears the notification-channel token; the store only
    /// keeps the slot, it never interprets the token.
    pub fn set_sender(&mut self, sender: Option<u64>)
        ensures
            final(self).player_id() == old(self).player_id(),
            final(self)@.game_id == old(self)@.game_id,
            final(self)@.sender == sender,
    {
        self.state.sender = sender;
    }
}

/// An exclusively held game record. While the guard lives, the game's
/// slot in the index is checked out. Membership mutations keep the
/// index's count cache in step, so they take the index as an argument.
pub struct LockedGameState {
    id: i32,
    state: GameState,
}

impl View for LockedGameState {
    type V = GameState;

    closed spec fn view(&self) -> GameState {
        self.state
    }
}

impl LockedGameState {
    /// The leased game's id.
    pub closed spec fn game_id(&self) -> i32 {
        self.id
    }

    pub fn id(&self) -> (r: i32)
        ensures
            r == self.game_id(),
    {
        self.id
    }

    /// Read-only view of the current membership list.
    pub fn players(&self) -> (r: &[i32])
        ensures
            r@ == self@.members(),
    {
        self.state.players.as_slice()
    }

    /// Membership test.
    pub fn has_player(&self, player_id: i32) -> (r: bool)
        ensures
            r == self@.members().contains(player_id),
    {
        contains_id(self.state.players.as_slice(), player_id)
    }

    /// Idempotent member add: a player already present leaves the
    /// record and the whole index untouched; otherwise the player is
    /// appended and the game's cached count in the index is advanced
    /// in the same step.
    pub fn add_player(&mut self, index: &mut StorageState, player_id: i32)
        requires
            old(index).wf(),
            old(index).valid_game_guard(*old(self)),
            old(self)@.members().len() < i32::MAX as nat,
        ensures
            final(index).wf(),
            final(index).valid_game_guard(*final(self)),
            final(self).game_id() == old(self).game_id(),
            final(self)@.members() == add_member(old(self)@.members(), player_id),
            final(self)@.members().contains(player_id),
            final(self)@.is_closed() == old(self)@.is_closed(),
            final(index).games_map() == old(index).games_map(),
            final(index).players_map() == old(index).players_map(),
            old(self)@.members().contains(player_id) ==> {
                &&& *final(self) == *old(self)
                &&& final(index).counts() == old(index).counts()
            },
            !old(self)@.members().contains(player_id) ==> final(index).counts() == old(
                index,
            ).counts().insert(
                old(self).game_id(),
                (old(index).counts()[old(self).game_id()] + 1) as usize,
            ),
    {
        if !contains_id(self.state.players.as_slice(), player_id) {
            self.state.players.push(player_id);
            let cur: usize = *index.game_num_players.get(&self.id).unwrap();
            index.game_num_players.insert(self.id, cur + 1);
            proof {
                assert(self.state.players@ == old(self).state.players@.push(player_id));
                assert(self.state.players@[old(self).state.players@.len() as int] == player_id);
                StorageState::lemma_wf_counts_update(
                    *old(index),
                    *index,
                    self.id,
                    (cur + 1) as usize,
                );
            }
        }
    }

    /// Removes a member and retracts the game's cached count in the
    /// same step. The caller must have verified membership under this
    /// very lease; the count cache stays equal to the list's length.
    pub fn remove_player(&mut self, index: &mut StorageState, player_id: i32)
        requires
            old(index).wf(),
            old(index).valid_game_guard(*old(self)),
            old(self)@.members().contains(player_id),
        ensures
            final(index).wf(),
            final(index).valid_game_guard(*final(self)),
            final(self).game_id() == old(self).game_id(),
            final(self)@.members() == old(self)@.members().remove_value(player_id),
            !final(self)@.members().contains(player_id),
            final(self)@.members().len() == old(self)@.members().len() - 1,
            final(self)@.is_closed() == old(self)@.is_closed(),
            final(index).games_map() == old(index).games_map(),
            final(index).players_map() == old(index).players_map(),
            final(index).counts() == old(index).counts().insert(
                old(self).game_id(),
                (old(index).counts()[old(self).game_id()] - 1) as usize,
            ),
    {
        let idx = index_of_id(self.state.players.as_slice(), player_id);
        self.state.players.remove(idx);
        let cur: usize = *index.game_num_players.get(&self.id).unwrap();
        index.game_num_players.insert(self.id, cur - 1);
        proof {
            let pre = old(self).state.players@;
            pre.index_of_first_ensures(player_id);
            let first = pre.index_of_first(player_id).unwrap();
            assert(pre[first] == player_id);
            assert(idx as int == first);
            assert(self.state.players@ == pre.remove_value(player_id));
            assert forall|k: int| 0 <= k < self.state.players@.len() implies self.state.players@[k]
                != player_id by {
                if k < idx {
                    assert(pre[k] != player_id);
                } else {
                    assert(self.state.players@[k] == pre[k + 1]);
                    assert(crate::distinct(pre));
                    assert(pre[idx as int] == player_id);
                }
            }
            assert(!self.state.players@.contains(player_id));
            StorageState::lemma_wf_counts_update(*old(index), *index, self.id, (cur - 1) as usize);
        }
    }

    /// Marks the session closed. The record stays indexed until the
    /// next lease attempt discovers the flag and purges it; this guard
    /// stays usable.
    pub fn close(&mut self)
        ensures
            final(self).game_id() == old(self).game_id(),
            final(self)@.members() == old(self)@.members(),
            final(self)@.is_closed(),
    {
        self.state.closed = true;
    }
}

/// Whether a slice of player ids contains the given id.
fn contains_id(s: &[i32], x: i32) -> (r: bool)
    ensures
        r == s@.contains(x),
{
    let mut i: usize = 0;
    while i < s.len()
        invariant
            0 <= i <= s@.len(),
            forall|j: int| 0 <= j < i ==> s@[j] != x,
        decreases s@.len() - i,
    {
        if s[i] == x {
            return true;
        }
        i = i + 1;
    }
    false
}

/// The index of the first occurrence of the given id in the slice.
fn index_of_id(s: &[i32], x: i32) -> (r: usize)
    requires
        s@.contains(x),
    ensures
        r < s@.len(),
        s@[r as int] == x,
        forall|j: int| 0 <= j < r ==> s@[j] != x,
{
    let mut i: usize = 0;
    while i < s.len()
        invariant
            0 <= i <= s@.len(),
            s@.contains(x),
            forall|j: int| 0 <= j < i ==> s@[j] != x,
        decreases s@.len() - i,
    {
        if s[i] == x {
            return i;
        }
        i = i + 1;
    }
    proof {
        assert(false);
    }
    0
}

} // verus!
