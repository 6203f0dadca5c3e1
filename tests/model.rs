use std::collections::HashMap;

use sekigae3::api::{ApiStruct, IDResult};
use sekigae3::distance::{isqrt, scaled_distance};
use sekigae3::layout::SeatStructure;
use sekigae3::session::{random_alphanumeric_string, Sekigae};
use sekigae3::user::{weighted_distance, SeatPos, User, WantSeat, WithUser};

#[test]
fn integer_square_roots() {
    assert_eq!(isqrt(0), 0);
    assert_eq!(isqrt(1), 1);
    assert_eq!(isqrt(8), 2);
    assert_eq!(isqrt(9), 3);
    assert_eq!(isqrt(2_000_000), 1414);
    assert_eq!(isqrt(u128::MAX), u64::MAX as u128);
}

#[test]
fn distances_in_thousandths() {
    assert_eq!(scaled_distance((0, 0), (0, 0)), 0);
    assert_eq!(scaled_distance((0, 0), (3, 4)), 5000);
    assert_eq!(scaled_distance((2, 2), (0, 0)), 2828);
    assert_eq!(scaled_distance((1, 0), (0, 1)), 1414);
    assert_eq!(weighted_distance(3, (0, 0), (0, 2)), 6000);
    assert_eq!(weighted_distance(0, (0, 0), (9, 9)), 0);
    assert_eq!(weighted_distance(u32::MAX, (0, 0), (usize::MAX, usize::MAX)), u64::MAX);
}

#[test]
fn cost_is_mean_of_group_minima() {
    let mut u = User::new(1, "a".to_string());
    let mut g1 = WantSeat::new();
    g1.add_pos(SeatPos::new(0, 3, 1));
    g1.add_pos(SeatPos::new(0, 1, 2));
    let mut g2 = WantSeat::new();
    g2.add_with(WithUser::new(2, 1));
    g2.add_with(WithUser::new(99, 1));
    u.add_want(g1);
    u.add_want(g2);
    let mut pos = HashMap::new();
    pos.insert(1usize, (0usize, 0usize));
    pos.insert(2usize, (4usize, 0usize));
    // Group one: min(3000, 2 * 1000) = 2000; group two: 4000 (99 is absent).
    assert_eq!(u.cost_calc(&(0, 0), &pos), 3000);
}

#[test]
fn cost_without_groups_is_zero() {
    let u = User::new(1, "a".to_string());
    assert_eq!(u.cost_calc(&(3, 3), &HashMap::new()), 0);
}

#[test]
fn unconstrained_group_saturates() {
    let mut u = User::new(1, "a".to_string());
    u.add_want(WantSeat::new());
    assert_eq!(u.cost_calc(&(0, 0), &HashMap::new()), u64::MAX);
    let mut v = User::new(2, "b".to_string());
    let mut g = WantSeat::new();
    g.add_with(WithUser::new(5, 1));
    v.add_want(g);
    assert_eq!(v.cost_calc(&(0, 0), &HashMap::new()), u64::MAX);
}

#[test]
fn seat_counting() {
    let s = SeatStructure::new(vec![vec![true, false, true], vec![false, true, false]]);
    assert_eq!(s.count_seat_num(), 3);
    assert!(s.is_rectangular());
    assert_eq!(SeatStructure::new(Vec::new()).count_seat_num(), 0);
    assert!(!SeatStructure::new(vec![vec![true], vec![true, true]]).is_rectangular());
}

#[test]
fn convert_request() {
    let req = ApiStruct {
        seat_structure: SeatStructure::new(vec![vec![true, true]]),
        user_set: vec![(1, Some("Alice".to_string())), (2, None)],
    };
    let (layout, users) = req.convert();
    assert_eq!(layout.structure, vec![vec![true, true]]);
    assert_eq!(users.len(), 2);
    assert_eq!(users[0].number, 1);
    assert_eq!(users[0].name, "Alice");
    assert_eq!(users[1].number, 2);
    assert_eq!(users[1].name, "");
    assert!(users[0].want.is_empty());
}

#[test]
fn id_result_variants() {
    match IDResult::new(Ok("abc".to_string())) {
        IDResult::ID(id) => assert_eq!(id, "abc"),
        IDResult::Error(_) => panic!("expected an id"),
    }
    match IDResult::new(Err("bad".to_string())) {
        IDResult::Error(e) => assert_eq!(e, "bad"),
        IDResult::ID(_) => panic!("expected an error"),
    }
}

#[test]
fn random_strings_are_alphanumeric() {
    let a = random_alphanumeric_string(30);
    let b = random_alphanumeric_string(30);
    assert_eq!(a.chars().count(), 30);
    assert!(a.chars().all(|c| c.is_ascii_alphanumeric()));
    assert_ne!(a, b);
    assert_eq!(random_alphanumeric_string(0), "");
}

#[test]
fn new_session() {
    let mut s = Sekigae::new(SeatStructure::new(vec![vec![true]]), "key");
    assert_eq!(s.id().len(), 20);
    assert!(s.id().chars().all(|c| c.is_ascii_alphanumeric()));
    assert_eq!(s.admin_session, "key");
    assert!(s.get_user(4).is_none());
    s.set_user(4, User::new(4, "d".to_string()));
    assert_eq!(s.get_user(4).map(|u| u.name.clone()), Some("d".to_string()));
    let other = Sekigae::new(SeatStructure::new(Vec::new()), "key");
    assert_ne!(s.id(), other.id());
}
