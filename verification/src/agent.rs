//! The agent: replay memory, episode counter and exploration rate, and the
//! per-step and per-episode decisions of the learning loop. The value network
//! itself lives outside; the agent consumes its greedy choice and hands back
//! the batches it is to be trained on.

use vstd::prelude::*;
use vstd::math::min;
use crate::action::Action;
use crate::encoder::{encode, spec_encode, Snapshot, StateVector};
use crate::memory::{push_model, ReplayMemory, Transition, TransitionView, views_of};
use crate::policy::{epsilon_for, select_action, spec_epsilon};

verus! {

/// The fixed constants of a run.
#[derive(Clone, Copy, Debug)]
pub struct AgentConfig {
    /// Capacity of the replay memory.
    pub replay_capacity: usize,
    /// Number of transitions drawn for one batched training pass.
    pub batch_size: usize,
}

/// The learning agent's own state: how many episodes are finished, the
/// exploration rate derived from that count, and the replay memory.
pub struct Agent {
    pub n_games: u32,
    pub epsilon: i32,
    pub memory: ReplayMemory,
    pub batch_size: usize,
}

impl Agent {
    /// The stored transitions, oldest first.
    pub open spec fn memory_view(&self) -> Seq<TransitionView> {
        self.memory@
    }

    pub open spec fn spec_capacity(&self) -> int {
        self.memory.spec_capacity()
    }

    pub open spec fn spec_batch_size(&self) -> int {
        self.batch_size as int
    }

    /// The memory respects its bound and the exploration rate is exactly what
    /// the schedule assigns to the episode counter.
    pub open spec fn wf(&self) -> bool {
        &&& 0 < self.spec_capacity()
        &&& self.memory_view().len() <= self.spec_capacity()
        &&& 0 < self.spec_batch_size()
        &&& self.epsilon == spec_epsilon(self.n_games as int)
    }

    pub fn new(config: AgentConfig) -> (r: Agent)
        requires
            config.replay_capacity > 0,
            config.batch_size > 0,
        ensures
            r.wf(),
            r.n_games == 0,
            r.epsilon == 80,
            r.memory_view() == Seq::<TransitionView>::empty(),
            r.spec_capacity() == config.replay_capacity,
            r.spec_batch_size() == config.batch_size,
    {
        Agent {
            n_games: 0,
            epsilon: 80,
            memory: ReplayMemory::new(config.replay_capacity),
            batch_size: config.batch_size,
        }
    }

    /// Featurizes a snapshot of the environment; pure, the agent is untouched.
    pub fn get_state(&self, snapshot: &Snapshot, w: i32, h: i32) -> (r: StateVector)
        requires
            i32::MIN < snapshot.head.x < i32::MAX,
            i32::MIN < snapshot.head.y < i32::MAX,
            (w as int) * (h as int) <= usize::MAX as int,
        ensures
            r@ == spec_encode(*snapshot, w as int, h as int),
            r.wf(),
    {
        encode(snapshot, w, h)
    }

    /// Chooses the next action: explore with probability epsilon out of 200,
    /// otherwise take the greedy choice read off the value network.
    pub fn get_action(&self, greedy_choice: Action) -> (a: Action)
        ensures
            self.epsilon <= 0 ==> a == greedy_choice,
    {
        select_action(self.epsilon, greedy_choice)
    }

    /// Stores a finished step in the replay memory, evicting the oldest entry
    /// once the capacity is reached.
    pub fn remember(&mut self, t: Transition)
        requires
            old(self).wf(),
        ensures
            final(self).wf(),
            final(self).memory_view() == push_model(
                old(self).memory_view(),
                t@,
                old(self).spec_capacity(),
            ),
            final(self).n_games == old(self).n_games,
            final(self).epsilon == old(self).epsilon,
            final(self).spec_capacity() == old(self).spec_capacity(),
            final(self).spec_batch_size() == old(self).spec_batch_size(),
    {
        self.memory.push(t);
    }

    /// The batch for the long (end-of-episode) training pass: the oldest
    /// `batch_size` stored transitions, in insertion order. While the memory
    /// holds fewer, batched training is skipped and nothing is returned.
    pub fn train_long_memory(&self) -> (r: Option<Vec<Transition>>)
        requires
            self.wf(),
        ensures
            match r {
                None => self.memory_view().len() < self.spec_batch_size(),
                Some(batch) => {
                    &&& self.memory_view().len() >= self.spec_batch_size()
                    &&& batch@.len() == self.spec_batch_size()
                    &&& views_of(batch@) == self.memory_view().take(self.spec_batch_size())
                },
            },
    {
        if self.memory.len() < self.batch_size {
            return None;
        }
        let batch = self.memory.oldest(self.batch_size);
        proof {
            assert(min(self.batch_size as int, self.memory_view().len() as int)
                == self.spec_batch_size());
        }
        Some(batch)
    }

    /// One turn of the learning loop, after the environment has answered: the
    /// transition is stored in any case; when it ended the episode, the game
    /// counter advances, the exploration rate decays, and the batch for the
    /// long training pass — if the memory already holds a full one — is
    /// handed back for the caller to train on.
    pub fn finish_step(&mut self, t: Transition) -> (r: Option<Vec<Transition>>)
        requires
            old(self).wf(),
            old(self).n_games < u32::MAX,
        ensures
            final(self).wf(),
            final(self).spec_capacity() == old(self).spec_capacity(),
            final(self).spec_batch_size() == old(self).spec_batch_size(),
            final(self).memory_view() == push_model(
                old(self).memory_view(),
                t@,
                old(self).spec_capacity(),
            ),
            final(self).n_games == old(self).n_games + if t.done {
                1int
            } else {
                0int
            },
            final(self).epsilon == spec_epsilon(final(self).n_games as int),
            match r {
                None => !t.done || final(self).memory_view().len() < final(self).spec_batch_size(),
                Some(batch) => {
                    &&& t.done
                    &&& final(self).memory_view().len() >= final(self).spec_batch_size()
                    &&& batch@.len() == final(self).spec_batch_size()
                    &&& views_of(batch@) == final(self).memory_view().take(
                        final(self).spec_batch_size(),
                    )
                },
            },
    {
        let done = t.done;
        self.remember(t);
        if done {
            self.end_episode();
            self.train_long_memory()
        } else {
            None
        }
    }

    /// Closes an episode: one more game is on the counter and the exploration
    /// rate is recomputed from it. The memory is untouched.
    pub fn end_episode(&mut self)
        requires
            old(self).wf(),
            old(self).n_games < u32::MAX,
        ensures
            final(self).wf(),
            final(self).n_games == old(self).n_games + 1,
            final(self).epsilon == spec_epsilon(final(self).n_games as int),
            final(self).memory_view() == old(self).memory_view(),
            final(self).spec_capacity() == old(self).spec_capacity(),
            final(self).spec_batch_size() == old(self).spec_batch_size(),
    {
        self.n_games = self.n_games + 1;
        self.epsilon = epsilon_for(self.n_games);
    }
}

} // verus!
