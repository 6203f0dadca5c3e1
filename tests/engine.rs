use sekigae3::assignment::SeatType;
use sekigae3::layout::SeatStructure;
use sekigae3::seat::SekigaeEngine;
use sekigae3::user::{SeatPos, User, WantSeat, WithUser};

fn user_wanting(number: usize, name: &str, x: usize, y: usize, weight: u32) -> User {
    let mut u = User::new(number, name.to_string());
    let mut w = WantSeat::new();
    w.add_pos(SeatPos::new(x, y, weight));
    u.add_want(w);
    u
}

fn plain_user(number: usize) -> User {
    User::new(number, format!("user{}", number))
}

fn checkerboard() -> SeatStructure {
    SeatStructure::new(vec![
        vec![true, false, true],
        vec![false, true, false],
        vec![true, false, true],
    ])
}

fn find(engine: &SekigaeEngine, id: usize) -> Vec<(usize, usize)> {
    let mut found = Vec::new();
    for (r, row) in engine.structure.iter().enumerate() {
        for (c, cell) in row.iter().enumerate() {
            if *cell == SeatType::User(id) {
                found.push((r, c));
            }
        }
    }
    found
}

fn count(engine: &SekigaeEngine, f: impl Fn(&SeatType) -> bool) -> usize {
    engine.structure.iter().flat_map(|row| row.iter()).filter(|c| f(c)).count()
}

#[test]
fn scenario_a_checkerboard_two_want_same_corner() {
    let mut engine = SekigaeEngine::new();
    let users = vec![
        user_wanting(1, "Alice", 2, 2, 1),
        user_wanting(2, "Bob", 2, 2, 1),
        plain_user(3),
    ];
    engine.init(checkerboard(), users);
    assert_eq!(engine.structure[0][0], SeatType::User(1));
    assert_eq!(engine.structure[0][2], SeatType::User(2));
    assert_eq!(engine.structure[1][1], SeatType::User(3));
    assert_eq!(engine.structure[2][0], SeatType::Filled);
    assert_eq!(engine.structure[2][2], SeatType::Filled);
    assert_eq!(engine.structure[0][1], SeatType::Empty);
    let before = engine.total_cost();
    // Alice: 1000 * sqrt(8) rounded down; Bob: 1000 * 2.
    assert_eq!(before, 2828 + 2000);
    engine.optimize();
    let after = engine.total_cost();
    assert!(after < before);
    // One of them reaches (2, 2); the other is best off at (1, 1).
    assert_eq!(after, 1414);
    let alice = find(&engine, 1);
    let bob = find(&engine, 2);
    assert!(alice == vec![(2, 2)] || bob == vec![(2, 2)]);
    assert!(alice == vec![(1, 1)] || bob == vec![(1, 1)]);
    assert_eq!(find(&engine, 3).len(), 1);
}

#[test]
fn scenario_a_charlie_does_not_affect_cost() {
    let mut engine = SekigaeEngine::new();
    let users = vec![
        user_wanting(1, "Alice", 2, 2, 1),
        user_wanting(2, "Bob", 2, 2, 1),
        plain_user(3),
    ];
    engine.init(checkerboard(), users);
    let before = engine.total_cost();
    // Moving Charlie to a placeholder leaves the total unchanged.
    engine.exchange(1, 1, 2, 0);
    assert_eq!(engine.structure[2][0], SeatType::User(3));
    assert_eq!(engine.total_cost(), before);
}

#[test]
fn scenario_b_empty_layout() {
    let mut engine = SekigaeEngine::new();
    engine.init(SeatStructure::new(Vec::new()), vec![plain_user(1), plain_user(2)]);
    assert!(engine.structure.is_empty());
    assert!(engine.users.is_empty());
    assert_eq!(engine.total_cost(), 0);
    engine.optimize();
    assert!(engine.structure.is_empty());
    assert_eq!(engine.total_cost(), 0);
    assert!(engine.return_structure().result.is_empty());
}

#[test]
fn scenario_b_empty_layout_resets_earlier_assignment() {
    let mut engine = SekigaeEngine::new();
    engine.init(checkerboard(), vec![user_wanting(1, "a", 0, 0, 3)]);
    engine.init(SeatStructure::new(Vec::new()), vec![user_wanting(1, "a", 0, 0, 3)]);
    assert!(engine.structure.is_empty());
    assert!(engine.user_pos.is_empty());
    assert_eq!(engine.total_cost(), 0);
}

fn no_improving_exchange(engine: &mut SekigaeEngine) -> bool {
    let base = engine.total_cost();
    let h = engine.structure.len();
    let w = engine.structure[0].len();
    for r1 in 0..h {
        for c1 in 0..w {
            if !matches!(engine.structure[r1][c1], SeatType::User(_)) {
                continue;
            }
            for r2 in 0..h {
                for c2 in 0..w {
                    if (r1, c1) == (r2, c2) || engine.structure[r2][c2] == SeatType::Empty {
                        continue;
                    }
                    engine.exchange(r1, c1, r2, c2);
                    let cost = engine.total_cost();
                    engine.exchange(r2, c2, r1, c1);
                    if cost < base {
                        return false;
                    }
                }
            }
        }
    }
    true
}

#[test]
fn scenario_c_open_grid_reaches_local_optimum() {
    let mut engine = SekigaeEngine::new();
    let layout = SeatStructure::new(vec![vec![true; 5]; 5]);
    // Twenty occupants, each wanting a distinct cell, in reverse order.
    let mut users = Vec::new();
    for k in 0..20usize {
        let target = 24 - k;
        users.push(user_wanting(100 + k, "u", target / 5, target % 5, 1));
    }
    engine.init(layout, users);
    let before = engine.total_cost();
    assert!(before > 0);
    engine.optimize();
    let after = engine.total_cost();
    assert!(after <= before);
    assert!(no_improving_exchange(&mut engine));
    assert_eq!(engine.total_cost(), after);
}

#[test]
fn init_places_each_occupant_once() {
    let mut engine = SekigaeEngine::new();
    let layout = SeatStructure::new(vec![vec![true, false, true], vec![true, true, false]]);
    engine.init(layout, vec![plain_user(7), plain_user(8)]);
    assert_eq!(count(&engine, |c| matches!(c, SeatType::User(_))), 2);
    assert_eq!(count(&engine, |c| *c == SeatType::Filled), 2);
    assert_eq!(count(&engine, |c| *c == SeatType::Empty), 2);
    assert_eq!(find(&engine, 7), vec![(0, 0)]);
    assert_eq!(find(&engine, 8), vec![(0, 2)]);
    assert_eq!(engine.user_pos[&7], (0, 0));
    assert_eq!(engine.user_pos[&8], (0, 2));
    assert_eq!(engine.structure[1][0], SeatType::Filled);
    assert_eq!(engine.structure[1][1], SeatType::Filled);
}

#[test]
fn init_drops_occupants_beyond_seat_count() {
    let mut engine = SekigaeEngine::new();
    let layout = SeatStructure::new(vec![vec![true, true], vec![false, false]]);
    engine.init(layout, vec![plain_user(1), plain_user(2), user_wanting(3, "c", 0, 0, 5)]);
    assert_eq!(engine.users.len(), 2);
    assert_eq!(find(&engine, 3).len(), 0);
    assert!(!engine.user_pos.contains_key(&3));
    assert_eq!(engine.total_cost(), 0);
}

#[test]
fn optimize_twice_changes_nothing() {
    let mut engine = SekigaeEngine::new();
    let users = vec![
        user_wanting(1, "a", 0, 3, 2),
        user_wanting(2, "b", 1, 0, 1),
        user_wanting(3, "c", 0, 0, 4),
        plain_user(4),
    ];
    engine.init(SeatStructure::new(vec![vec![true; 4]; 2]), users);
    let before = engine.total_cost();
    engine.optimize();
    let once = engine.total_cost();
    let grid = engine.return_structure().result;
    assert!(once <= before);
    engine.optimize();
    assert_eq!(engine.total_cost(), once);
    assert_eq!(engine.return_structure().result, grid);
}

#[test]
fn swapping_twice_restores_state() {
    let mut engine = SekigaeEngine::new();
    engine.init(checkerboard(), vec![plain_user(1), plain_user(2), plain_user(3)]);
    let grid = engine.return_structure().result;
    let index = engine.user_pos.clone();
    engine.exchange(0, 0, 1, 1);
    assert_eq!(engine.structure[0][0], SeatType::User(3));
    assert_eq!(engine.structure[1][1], SeatType::User(1));
    assert_eq!(engine.user_pos[&1], (1, 1));
    assert_eq!(engine.user_pos[&3], (0, 0));
    engine.exchange(0, 0, 1, 1);
    assert_eq!(engine.return_structure().result, grid);
    assert_eq!(engine.user_pos, index);
}

#[test]
fn exchange_with_placeholder_and_back() {
    let mut engine = SekigaeEngine::new();
    engine.init(checkerboard(), vec![plain_user(1)]);
    engine.exchange(0, 0, 2, 2);
    assert_eq!(engine.structure[0][0], SeatType::Filled);
    assert_eq!(engine.structure[2][2], SeatType::User(1));
    assert_eq!(engine.user_pos[&1], (2, 2));
    engine.exchange(2, 2, 0, 0);
    assert_eq!(engine.structure[0][0], SeatType::User(1));
    assert_eq!(engine.structure[2][2], SeatType::Filled);
    assert_eq!(engine.user_pos[&1], (0, 0));
}

#[test]
fn proximity_pulls_occupants_together() {
    let mut engine = SekigaeEngine::new();
    let mut a = User::new(1, "a".to_string());
    let mut g = WantSeat::new();
    g.add_with(WithUser::new(2, 1));
    a.add_want(g);
    engine.init(SeatStructure::new(vec![vec![true, true, true, true]]), vec![a, plain_user(3), plain_user(4), plain_user(2)]);
    assert_eq!(engine.total_cost(), 3000);
    engine.optimize();
    assert_eq!(engine.total_cost(), 1000);
}

#[test]
fn return_structure_copies_grid() {
    let mut engine = SekigaeEngine::new();
    engine.init(checkerboard(), vec![plain_user(5)]);
    let r = engine.return_structure();
    assert_eq!(r.result, engine.structure);
}
