use snake_agent::action::Action;
use snake_agent::agent::{Agent, AgentConfig};
use snake_agent::encoder::{Snapshot, StateVector};
use snake_agent::grid::{Cell, Direction};
use snake_agent::memory::Transition;

fn config(replay_capacity: usize, batch_size: usize) -> AgentConfig {
    AgentConfig { replay_capacity, batch_size }
}

fn state() -> StateVector {
    StateVector::from_flags(vec![0u8; 14]).unwrap()
}

fn transition(reward: i64, done: bool) -> Transition {
    Transition {
        state: state(),
        action: Action::Straight,
        reward,
        next_state: state(),
        done,
    }
}

#[test]
fn a_fresh_agent_explores_at_rate_80() {
    let agent = Agent::new(config(100, 10));
    assert_eq!(agent.n_games, 0);
    assert_eq!(agent.epsilon, 80);
    assert_eq!(agent.memory.len(), 0);
}

#[test]
fn epsilon_follows_the_schedule_across_episodes() {
    let mut agent = Agent::new(config(100, 10));
    agent.end_episode();
    assert_eq!(agent.n_games, 1);
    assert_eq!(agent.epsilon, 79);
    for _ in 0..99 {
        agent.end_episode();
    }
    assert_eq!(agent.n_games, 100);
    assert_eq!(agent.epsilon, 0);
}

#[test]
fn batched_training_waits_for_a_full_batch() {
    let mut agent = Agent::new(config(100, 3));
    agent.remember(transition(1, false));
    agent.remember(transition(2, false));
    assert!(agent.train_long_memory().is_none());
    agent.remember(transition(3, false));
    let batch = agent.train_long_memory().expect("batch ready");
    let rewards: Vec<i64> = batch.iter().map(|t| t.reward).collect();
    assert_eq!(rewards, vec![1, 2, 3]);
}

#[test]
fn batch_is_the_oldest_transitions_in_order() {
    let mut agent = Agent::new(config(100, 2));
    for r in 1..=5i64 {
        agent.remember(transition(r, r == 5));
    }
    let batch = agent.train_long_memory().expect("batch ready");
    let rewards: Vec<i64> = batch.iter().map(|t| t.reward).collect();
    assert_eq!(rewards, vec![1, 2]);
}

#[test]
fn remembering_beyond_capacity_evicts_fifo() {
    let mut agent = Agent::new(config(2, 2));
    agent.remember(transition(1, false));
    agent.remember(transition(2, false));
    agent.remember(transition(3, true));
    assert_eq!(agent.memory.len(), 2);
    let batch = agent.train_long_memory().expect("batch ready");
    let rewards: Vec<i64> = batch.iter().map(|t| t.reward).collect();
    assert_eq!(rewards, vec![2, 3]);
}

#[test]
fn greedy_agent_takes_the_greedy_choice() {
    let mut agent = Agent::new(config(10, 2));
    for _ in 0..80 {
        agent.end_episode();
    }
    assert_eq!(agent.epsilon, 0);
    for greedy in [Action::Straight, Action::TurnRight, Action::TurnLeft] {
        for _ in 0..50 {
            assert_eq!(agent.get_action(greedy), greedy);
        }
    }
}

#[test]
fn get_state_matches_the_encoder_scenario() {
    let agent = Agent::new(config(10, 2));
    let snap = Snapshot {
        head: Cell { x: 1, y: 1 },
        heading: Direction::Right,
        food: Cell { x: 2, y: 1 },
        body: vec![Cell { x: 1, y: 1 }],
    };
    let sv = agent.get_state(&snap, 32, 24);
    assert_eq!(sv.flag(0), 0);
    assert_eq!(sv.flag(11), 1);
}
