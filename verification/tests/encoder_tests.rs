use snake_agent::encoder::{encode, Snapshot, StateVector};
use snake_agent::grid::{Cell, Direction};

const GRID_W: i32 = 32;
const GRID_H: i32 = 24;

fn cell(x: i32, y: i32) -> Cell {
    Cell { x, y }
}

#[test]
fn open_path_ahead_is_safe_and_reachable() {
    // head at (1, 1) heading right, food one straight step ahead, nothing in the way
    let snap = Snapshot {
        head: cell(1, 1),
        heading: Direction::Right,
        food: cell(2, 1),
        body: vec![cell(1, 1)],
    };
    let sv = encode(&snap, GRID_W, GRID_H);
    assert_eq!(sv.flag(0), 0, "no danger straight");
    assert_eq!(sv.flag(11), 1, "food reachable straight ahead");
}

#[test]
fn encoding_is_idempotent() {
    let snap = Snapshot {
        head: cell(5, 7),
        heading: Direction::Up,
        food: cell(2, 9),
        body: vec![cell(5, 7), cell(5, 8), cell(4, 8)],
    };
    let a = encode(&snap, GRID_W, GRID_H);
    let b = encode(&snap, GRID_W, GRID_H);
    assert_eq!(a.to_vec(), b.to_vec());
}

#[test]
fn full_vector_matches_hand_computation() {
    let snap = Snapshot {
        head: cell(1, 1),
        heading: Direction::Right,
        food: cell(2, 1),
        body: vec![cell(1, 1), cell(0, 1)],
    };
    let sv = encode(&snap, GRID_W, GRID_H);
    assert_eq!(
        sv.to_vec(),
        vec![
            0, 0, 0, // no danger straight / right / left
            0, 1, 0, 0, // heading one-hot: left, right, up, down
            0, 1, 0, 0, // food is right of the head only
            1, 1, 1, // food reachable after each of the three moves
        ],
    );
}

#[test]
fn wall_ahead_raises_danger() {
    // head in the top-left corner, heading left: straight leaves the grid,
    // a right turn (up) leaves the grid as well
    let snap = Snapshot {
        head: cell(0, 0),
        heading: Direction::Left,
        food: cell(3, 3),
        body: vec![cell(0, 0)],
    };
    let sv = encode(&snap, GRID_W, GRID_H);
    assert_eq!(sv.flag(0), 1, "danger straight: off the grid");
    assert_eq!(sv.flag(1), 1, "danger right: off the grid");
    assert_eq!(sv.flag(2), 0, "turning left (down) stays on the grid");
}

#[test]
fn own_body_ahead_raises_danger() {
    let snap = Snapshot {
        head: cell(3, 3),
        heading: Direction::Right,
        food: cell(10, 10),
        body: vec![cell(3, 3), cell(4, 3), cell(4, 4), cell(3, 4)],
    };
    let sv = encode(&snap, GRID_W, GRID_H);
    assert_eq!(sv.flag(0), 1, "body segment straight ahead");
    assert_eq!(sv.flag(1), 1, "body segment below (relative right)");
    assert_eq!(sv.flag(2), 0, "cell above is free");
}

#[test]
fn food_flags_are_independent() {
    // food up and to the left at once
    let snap = Snapshot {
        head: cell(10, 10),
        heading: Direction::Down,
        food: cell(4, 2),
        body: vec![cell(10, 10)],
    };
    let sv = encode(&snap, GRID_W, GRID_H);
    assert_eq!(sv.flag(7), 1, "food left");
    assert_eq!(sv.flag(8), 0, "food not right");
    assert_eq!(sv.flag(9), 1, "food above");
    assert_eq!(sv.flag(10), 0, "food not below");
}

#[test]
fn heading_one_hot_is_exclusive() {
    for (heading, hot) in [
        (Direction::Left, 3usize),
        (Direction::Right, 4),
        (Direction::Up, 5),
        (Direction::Down, 6),
    ] {
        let snap = Snapshot {
            head: cell(10, 10),
            heading,
            food: cell(4, 2),
            body: vec![cell(10, 10)],
        };
        let sv = encode(&snap, GRID_W, GRID_H);
        for i in 3..=6usize {
            assert_eq!(sv.flag(i), if i == hot { 1 } else { 0 });
        }
    }
}

#[test]
fn state_vector_accepts_only_14_bits() {
    assert!(StateVector::from_flags(vec![0u8; 13]).is_none());
    assert!(StateVector::from_flags(vec![0u8; 15]).is_none());
    assert!(StateVector::from_flags(vec![2u8; 14]).is_none());
    let sv = StateVector::from_flags(vec![1u8; 14]).unwrap();
    assert_eq!(sv.len(), 14);
    assert_eq!(sv.to_vec(), vec![1u8; 14]);
    assert_eq!(sv.flag(0), 1);
}
