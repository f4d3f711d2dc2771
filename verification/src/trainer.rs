//! The plain-valued part of the Q-learning update. The network itself and the
//! gradient step run on floating-point tensors outside this library; what can
//! be pinned down here is the shape of the target: for each batch element
//! `target = reward + weight * gamma * best next-state value`, where the
//! weight gates the future term by the done flag.

use vstd::prelude::*;
use crate::memory::Transition;

verus! {

/// Weight of the future term in the Q-learning target: 0 on a terminal
/// transition, 1 otherwise.
pub open spec fn spec_future_weight(done: bool) -> int {
    if done {
        0
    } else {
        1
    }
}

/// The future-term gate for one transition.
pub fn future_weight(done: bool) -> (w: i64)
    ensures
        w == spec_future_weight(done),
{
    if done {
        0
    } else {
        1
    }
}

/// The future-term gates of a whole training batch, element by element.
pub fn future_weights(batch: &Vec<Transition>) -> (r: Vec<i64>)
    ensures
        r@.len() == batch@.len(),
        forall|i: int| 0 <= i < r@.len() ==> r@[i] == spec_future_weight(batch@[i].done),
{
    let mut r: Vec<i64> = Vec::new();
    let mut i: usize = 0;
    while i < batch.len()
        invariant
            i <= batch@.len(),
            r@.len() == i,
            forall|j: int| 0 <= j < i ==> r@[j] == spec_future_weight(batch@[j].done),
        decreases batch@.len() - i,
    {
        r.push(future_weight(batch[i].done));
        i += 1;
    }
    r
}

/// The terminal target of Q-learning: on a terminal transition the future
/// term carries weight 0, so the target equals the reward exactly — whatever
/// value the network assigns to the next state and whatever the discount is.
pub proof fn lemma_terminal_target(reward: int, discounted_future: int)
    ensures
        reward + spec_future_weight(true) * discounted_future == reward,
        reward + spec_future_weight(false) * discounted_future == reward + discounted_future,
{
}

} // verus!
