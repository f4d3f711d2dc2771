use snake_agent::action::Action;
use snake_agent::grid::Direction;
use snake_agent::policy::{epsilon_for, select_action, select_from};

#[test]
fn epsilon_starts_at_80() {
    assert_eq!(epsilon_for(0), 80);
}

#[test]
fn epsilon_decays_linearly() {
    assert_eq!(epsilon_for(1), 79);
    assert_eq!(epsilon_for(40), 40);
    assert_eq!(epsilon_for(79), 1);
}

#[test]
fn epsilon_is_zero_from_episode_80_on() {
    assert_eq!(epsilon_for(80), 0);
    assert_eq!(epsilon_for(81), 0);
    assert_eq!(epsilon_for(100000), 0);
}

#[test]
fn low_roll_explores_high_roll_exploits() {
    let explore = Action::TurnLeft;
    let greedy = Action::Straight;
    assert_eq!(select_from(80, 10, explore, greedy), explore);
    assert_eq!(select_from(80, 79, explore, greedy), explore);
    assert_eq!(select_from(80, 80, explore, greedy), greedy);
    assert_eq!(select_from(80, 199, explore, greedy), greedy);
}

#[test]
fn zero_epsilon_never_explores() {
    for roll in 0..200 {
        assert_eq!(select_from(0, roll, Action::TurnRight, Action::Straight), Action::Straight);
    }
    for _ in 0..100 {
        assert_eq!(select_action(0, Action::TurnLeft), Action::TurnLeft);
    }
}

#[test]
fn full_epsilon_always_explores() {
    for roll in 0..200 {
        assert_eq!(select_from(200, roll, Action::TurnRight, Action::Straight), Action::TurnRight);
    }
}

#[test]
fn saturated_epsilon_always_explores() {
    // at epsilon = 200 every roll out of [0, 200) explores, so over many
    // draws every action must show up, the greedy one among them only by chance
    let mut seen = [false; 3];
    for _ in 0..1000 {
        let a = select_action(200, Action::Straight);
        seen[a.index()] = true;
    }
    assert!(seen[0] && seen[1] && seen[2]);
}

#[test]
fn one_hot_encodings_are_fixed() {
    assert_eq!(Action::Straight.one_hot(), vec![1u8, 0, 0]);
    assert_eq!(Action::TurnRight.one_hot(), vec![0u8, 1, 0]);
    assert_eq!(Action::TurnLeft.one_hot(), vec![0u8, 0, 1]);
}

#[test]
fn action_indices_round_trip() {
    for k in 0..3 {
        assert_eq!(Action::from_index(k).index(), k);
    }
}

#[test]
fn actions_turn_the_heading_clockwise() {
    assert_eq!(Action::Straight.apply_to(Direction::Right), Direction::Right);
    assert_eq!(Action::TurnRight.apply_to(Direction::Right), Direction::Down);
    assert_eq!(Action::TurnRight.apply_to(Direction::Down), Direction::Left);
    assert_eq!(Action::TurnRight.apply_to(Direction::Left), Direction::Up);
    assert_eq!(Action::TurnRight.apply_to(Direction::Up), Direction::Right);
    assert_eq!(Action::TurnLeft.apply_to(Direction::Right), Direction::Up);
    assert_eq!(Action::TurnLeft.apply_to(Direction::Up), Direction::Left);
    assert_eq!(Action::TurnLeft.apply_to(Direction::Left), Direction::Down);
    assert_eq!(Action::TurnLeft.apply_to(Direction::Down), Direction::Right);
}
