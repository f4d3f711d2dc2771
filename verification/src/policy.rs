//! The epsilon-greedy action policy and its exploration schedule.

use vstd::prelude::*;
use crate::action::Action;
use rand::Rng;

verus! {

/// The exploration rate after `n` finished episodes, out of 200: it starts at
/// 80 and falls linearly to 0, where it stays from episode 80 on.
pub open spec fn spec_epsilon(n: int) -> int {
    if n >= 80 {
        0
    } else {
        80 - n
    }
}

/// Recomputes the exploration rate from the episode counter.
pub fn epsilon_for(n_games: u32) -> (e: i32)
    ensures
        e == spec_epsilon(n_games as int),
{
    if n_games >= 80 {
        0
    } else {
        80 - n_games as i32
    }
}

/// The schedule starts at 80, never leaves [0, 80], never rises, and is
/// exactly 0 from episode 80 on: from there the policy is purely greedy.
pub proof fn lemma_epsilon_decay(n: int, m: int)
    requires
        0 <= n <= m,
    ensures
        spec_epsilon(0) == 80,
        0 <= spec_epsilon(n) <= 80,
        spec_epsilon(m) <= spec_epsilon(n),
        n >= 80 ==> spec_epsilon(n) == 0,
{
}

/// Relies on rand::Rng::gen_range over the range 0..n, which returns a value
/// of that range and panics only when the range is empty.
#[verifier::external_body]
fn sample_below(n: i32) -> (r: i32)
    requires
        n > 0,
    ensures
        0 <= r < n,
{
    rand::thread_rng().gen_range(0..n)
}

/// The decision rule of the epsilon-greedy policy, on an already drawn roll:
/// a roll below epsilon explores, any other roll exploits.
pub fn select_from(epsilon: i32, roll: i32, explore_choice: Action, greedy_choice: Action) -> (a:
    Action)
    requires
        0 <= roll < 200,
    ensures
        a == if roll < epsilon {
            explore_choice
        } else {
            greedy_choice
        },
{
    if roll < epsilon {
        explore_choice
    } else {
        greedy_choice
    }
}

/// Epsilon-greedy selection: draws a roll out of 200; below `epsilon` it
/// explores with a uniformly drawn action, otherwise it returns the greedy
/// choice the caller read off the value network. With `epsilon` at or below
/// zero the policy is purely greedy.
pub fn select_action(epsilon: i32, greedy_choice: Action) -> (a: Action)
    ensures
        epsilon <= 0 ==> a == greedy_choice,
{
    let roll = sample_below(200);
    let explore_choice = Action::from_index(sample_below(3) as usize);
    select_from(epsilon, roll, explore_choice, greedy_choice)
}

} // verus!
