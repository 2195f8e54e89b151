use lobby_state::state::{GameEntry, GameSeed, GameState, StorageState};

fn seed(id: i32, players: &[i32]) -> GameSeed {
    GameSeed { id, players: players.to_vec() }
}

#[test]
fn game_state_new_copies_members() {
    let g = GameState::new(&[1, 2, 3]);
    assert_eq!(g.players, vec![1, 2, 3]);
}

#[test]
fn unknown_game_is_not_found() {
    let mut s = StorageState::empty();
    assert!(s.lock_game_state(42).is_none());
    assert_eq!(s.read_count(42), None);
}

#[test]
fn register_then_lease() {
    let mut s = StorageState::empty();
    let replaced = s.register_game(7, &[1, 2]);
    assert!(!replaced);
    assert_eq!(s.read_count(7), Some(2));
    let g = s.lock_game_state(7).expect("open game must be leasable");
    assert_eq!(g.id(), 7);
    assert_eq!(g.players(), &[1, 2]);
    assert!(g.has_player(1));
    assert!(!g.has_player(3));
    s.release_game(g);
}

#[test]
fn register_empty_members() {
    let mut s = StorageState::empty();
    s.register_game(9, &[]);
    assert_eq!(s.read_count(9), Some(0));
    let g = s.lock_game_state(9).expect("empty game is still leasable");
    assert_eq!(g.players(), &[] as &[i32]);
    s.release_game(g);
}

#[test]
fn registration_overwrite() {
    let mut s = StorageState::empty();
    s.register_game(7, &[1, 2]);
    let replaced = s.register_game(7, &[3]);
    assert!(replaced);
    assert_eq!(s.read_count(7), Some(1));
    let g = s.lock_game_state(7).unwrap();
    assert!(!g.has_player(1));
    assert!(g.has_player(3));
    s.release_game(g);
}

#[test]
fn idempotent_add() {
    let mut s = StorageState::empty();
    s.register_game(1, &[]);
    let mut g = s.lock_game_state(1).unwrap();
    g.add_player(&mut s, 5);
    assert_eq!(g.players(), &[5]);
    assert_eq!(s.read_count(1), Some(1));
    g.add_player(&mut s, 5);
    assert_eq!(g.players(), &[5]);
    assert_eq!(s.read_count(1), Some(1));
    s.release_game(g);
}

#[test]
fn remove_member_updates_count() {
    let mut s = StorageState::empty();
    s.register_game(1, &[1, 2, 3]);
    let mut g = s.lock_game_state(1).unwrap();
    g.remove_player(&mut s, 2);
    assert_eq!(g.players(), &[1, 3]);
    assert_eq!(s.read_count(1), Some(2));
    s.release_game(g);
    assert_eq!(s.read_count(1), Some(2));
}

#[test]
fn count_cache_consistency() {
    let mut s = StorageState::empty();
    s.register_game(3, &[10]);
    let mut g = s.lock_game_state(3).unwrap();
    let ops: [(bool, i32); 7] =
        [(true, 11), (true, 12), (false, 10), (true, 13), (false, 12), (true, 11), (false, 13)];
    for (add, pid) in ops {
        if add {
            g.add_player(&mut s, pid);
        } else if g.has_player(pid) {
            g.remove_player(&mut s, pid);
        }
        assert_eq!(s.read_count(3), Some(g.players().len()));
    }
    let final_members = g.players().to_vec();
    s.release_game(g);
    assert_eq!(final_members, vec![11]);
    assert_eq!(s.read_count(3), Some(1));
}

#[test]
fn serialized_net_adds() {
    let mut s = StorageState::empty();
    s.register_game(8, &[1, 2]);
    let mut net: i64 = 0;
    for round in 0..20i32 {
        let mut g = s.lock_game_state(8).unwrap();
        let pid = 100 + round;
        g.add_player(&mut s, pid);
        net += 1;
        if round % 3 == 0 {
            g.remove_player(&mut s, pid);
            net -= 1;
        }
        s.release_game(g);
    }
    assert_eq!(s.read_count(8), Some((2 + net) as usize));
}

#[test]
fn independence_of_distinct_games() {
    let mut s = StorageState::empty();
    s.register_game(1, &[1]);
    s.register_game(2, &[2]);
    let a = s.lock_game_state(1).unwrap();
    // A long-lived lease on game 1 leaves game 2 fully available.
    let mut b = s.lock_game_state(2).unwrap();
    b.add_player(&mut s, 9);
    assert_eq!(s.read_count(2), Some(2));
    assert_eq!(s.read_count(1), Some(1));
    s.release_game(b);
    s.release_game(a);
}

#[test]
fn lazy_closure() {
    let mut s = StorageState::empty();
    s.register_game(7, &[1, 2]);
    let mut g = s.lock_game_state(7).unwrap();
    g.close();
    s.release_game(g);
    // The record survives closure until the next lease attempt.
    assert_eq!(s.read_count(7), Some(2));
    assert!(s.lock_game_state(7).is_none());
    // The purge removed the game from the listing's backing index too.
    assert_eq!(s.read_count(7), None);
    let mut rows = vec![GameEntry { id: 7, num_players: -1 }];
    s.fetch_num_players(&mut rows);
    assert_eq!(rows[0].num_players, -1);
    assert!(s.lock_game_state(7).is_none());
}

#[test]
fn seeded_consistency() {
    let mut s = StorageState::new(vec![seed(7, &[1, 2])]);
    let p1 = s.lock_player_state(1);
    assert_eq!(p1.joined_game_id(), Some(7));
    s.release_player(p1);
    let p2 = s.lock_player_state(2);
    assert_eq!(p2.joined_game_id(), Some(7));
    s.release_player(p2);
    assert_eq!(s.read_count(7), Some(2));
    let g = s.lock_game_state(7).unwrap();
    assert_eq!(g.players(), &[1, 2]);
    s.release_game(g);
}

#[test]
fn seeding_last_game_wins_for_shared_player() {
    let mut s = StorageState::new(vec![seed(1, &[10]), seed(2, &[10, 11])]);
    let p = s.lock_player_state(10);
    assert_eq!(p.joined_game_id(), Some(2));
    s.release_player(p);
    assert_eq!(s.read_count(1), Some(1));
    assert_eq!(s.read_count(2), Some(2));
}

#[test]
fn player_lease_defaults_and_mutation() {
    let mut s = StorageState::empty();
    let mut p = s.lock_player_state(5);
    assert_eq!(p.id(), 5);
    assert_eq!(p.joined_game_id(), None);
    assert_eq!(p.sender(), None);
    p.join_game(3);
    p.set_sender(Some(77));
    s.release_player(p);
    // The record persists across leases.
    let mut p = s.lock_player_state(5);
    assert_eq!(p.joined_game_id(), Some(3));
    assert_eq!(p.sender(), Some(77));
    p.leave_game();
    p.set_sender(None);
    s.release_player(p);
    let p = s.lock_player_state(5);
    assert_eq!(p.joined_game_id(), None);
    assert_eq!(p.sender(), None);
    s.release_player(p);
}

#[test]
fn fetch_num_players_fills_known_rows() {
    let mut s = StorageState::empty();
    s.register_game(1, &[1, 2, 3]);
    s.register_game(2, &[4]);
    let mut rows = vec![
        GameEntry { id: 1, num_players: 0 },
        GameEntry { id: 2, num_players: 0 },
        GameEntry { id: 99, num_players: -7 },
    ];
    s.fetch_num_players(&mut rows);
    assert_eq!(rows[0], GameEntry { id: 1, num_players: 3 });
    assert_eq!(rows[1], GameEntry { id: 2, num_players: 1 });
    assert_eq!(rows[2], GameEntry { id: 99, num_players: -7 });
}
