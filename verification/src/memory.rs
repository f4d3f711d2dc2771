//! The bounded replay memory: a FIFO buffer of transitions with a fixed
//! capacity. Pushing into a full memory evicts the single oldest transition;
//! batches for training are drawn oldest-first.

use vstd::prelude::*;
use vstd::math::min;
use crate::action::Action;
use crate::encoder::StateVector;

verus! {

/// One step of interaction with the environment: the state the agent saw, the
/// action it took, the reward (in whole points, as the environment hands them
/// out), the state after the step, and whether the episode ended there.
#[derive(Debug)]
pub struct Transition {
    pub state: StateVector,
    pub action: Action,
    pub reward: i64,
    pub next_state: StateVector,
    pub done: bool,
}

/// The mathematical content of a transition: both state vectors as sequences
/// of flags, beside the plain fields.
pub struct TransitionView {
    pub state: Seq<u8>,
    pub action: Action,
    pub reward: int,
    pub next_state: Seq<u8>,
    pub done: bool,
}

impl View for Transition {
    type V = TransitionView;

    open spec fn view(&self) -> TransitionView {
        TransitionView {
            state: self.state@,
            action: self.action,
            reward: self.reward as int,
            next_state: self.next_state@,
            done: self.done,
        }
    }
}

impl Clone for Transition {
    fn clone(&self) -> (r: Self)
        ensures
            r@ == self@,
    {
        Transition {
            state: self.state.clone(),
            action: self.action,
            reward: self.reward,
            next_state: self.next_state.clone(),
            done: self.done,
        }
    }
}

/// The transitions a sequence of transitions stands for.
pub open spec fn views_of(ts: Seq<Transition>) -> Seq<TransitionView> {
    ts.map_values(|t: Transition| t@)
}

/// What one push leaves in a memory of capacity `cap`: the new transition is
/// appended, and when the memory is already at capacity the single oldest
/// entry goes first.
pub open spec fn push_model(s: Seq<TransitionView>, t: TransitionView, cap: int) -> Seq<
    TransitionView,
> {
    if s.len() >= cap {
        s.drop_first().push(t)
    } else {
        s.push(t)
    }
}

/// The contents after pushing `ts`, one after another, into a memory holding `s`.
pub open spec fn push_all_model(s: Seq<TransitionView>, ts: Seq<TransitionView>, cap: int) -> Seq<
    TransitionView,
>
    decreases ts.len(),
{
    if ts.len() <= 0 {
        s
    } else {
        push_all_model(push_model(s, ts[0], cap), ts.drop_first(), cap)
    }
}

/// FIFO eviction, stated for any run of pushes: a memory that started with `s`
/// ends up holding exactly the last `cap` entries (all of them, if fewer) of
/// everything pushed through it, in insertion order. In particular, after
/// pushing `cap + k` transitions into an empty memory, the length is `cap` and
/// the `k` oldest are gone.
pub proof fn lemma_fifo_eviction(s: Seq<TransitionView>, ts: Seq<TransitionView>, cap: int)
    requires
        0 < cap,
        s.len() <= cap,
    ensures
        push_all_model(s, ts, cap).len() == min(cap, s.len() + ts.len() as int),
        push_all_model(s, ts, cap) == (s + ts).skip(
            s.len() + ts.len() - min(cap, s.len() + ts.len() as int),
        ),
    decreases ts.len(),
{
    let all = s + ts;
    if ts.len() == 0 {
        assert(all =~= s);
        assert(all.skip(0) =~= all);
    } else {
        let s2 = push_model(s, ts[0], cap);
        let rest = ts.drop_first();
        lemma_fifo_eviction(s2, rest, cap);
        let all2 = s2 + rest;
        if s.len() < cap {
            assert(all2 =~= all);
        } else {
            assert(all2 =~= all.skip(1));
            let keep = min(cap, all2.len() as int);
            assert(all.skip(1).skip(all2.len() - keep) =~= all.skip(1 + all2.len() - keep));
        }
    }
}

/// A bounded FIFO buffer of transitions.
pub struct ReplayMemory {
    items: Vec<Transition>,
    capacity: usize,
}

impl View for ReplayMemory {
    type V = Seq<TransitionView>;

    closed spec fn view(&self) -> Seq<TransitionView> {
        views_of(self.items@)
    }
}

impl ReplayMemory {
    /// The fixed capacity the memory was created with.
    pub closed spec fn spec_capacity(&self) -> int {
        self.capacity as int
    }

    /// The length never exceeds the capacity.
    pub open spec fn wf(&self) -> bool {
        &&& 0 < self.spec_capacity()
        &&& self@.len() <= self.spec_capacity()
    }

    pub fn new(capacity: usize) -> (r: Self)
        requires
            capacity > 0,
        ensures
            r.wf(),
            r@ == Seq::<TransitionView>::empty(),
            r.spec_capacity() == capacity,
    {
        let r = ReplayMemory { items: Vec::new(), capacity };
        proof {
            assert(r@ =~= Seq::<TransitionView>::empty());
        }
        r
    }

    pub fn capacity(&self) -> (c: usize)
        ensures
            c == self.spec_capacity(),
    {
        self.capacity
    }

    pub fn len(&self) -> (n: usize)
        ensures
            n == self@.len(),
    {
        self.items.len()
    }

    pub fn is_full(&self) -> (r: bool)
        ensures
            r == (self@.len() == self.spec_capacity()),
    {
        self.items.len() == self.capacity
    }

    /// Appends a transition; a full memory first evicts its oldest entry.
    pub fn push(&mut self, t: Transition)
        requires
            old(self).wf(),
        ensures
            final(self).wf(),
            final(self).spec_capacity() == old(self).spec_capacity(),
            final(self)@ == push_model(old(self)@, t@, old(self).spec_capacity()),
    {
        let ghost before = self.items@;
        if self.items.len() == self.capacity {
            self.items.remove(0);
            proof {
                assert(self.items@ =~= before.drop_first());
                assert(views_of(before.drop_first()) =~= views_of(before).drop_first());
            }
        }
        let ghost mid = self.items@;
        self.items.push(t);
        proof {
            assert(views_of(mid.push(t)) =~= views_of(mid).push(t@));
        }
    }

    /// The `n` transitions inserted earliest, in insertion order; all of them
    /// if fewer than `n` are stored.
    pub fn oldest(&self, n: usize) -> (r: Vec<Transition>)
        ensures
            r@.len() == min(n as int, self@.len() as int),
            views_of(r@) == self@.take(r@.len() as int),
    {
        let count = if n <= self.items.len() {
            n
        } else {
            self.items.len()
        };
        let mut r: Vec<Transition> = Vec::new();
        let mut i: usize = 0;
        while i < count
            invariant
                i <= count,
                count == min(n as int, self.items@.len() as int),
                r@.len() == i,
                views_of(r@) == self@.take(i as int),
            decreases count - i,
        {
            r.push(self.items[i].clone());
            i += 1;
            proof {
                assert(views_of(r@) =~= self@.take(i as int));
            }
        }
        r
    }
}

} // verus!
