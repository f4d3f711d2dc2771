//! State featurization: turns an environment snapshot into the fixed vector
//! of 14 flags that the value network consumes.

use vstd::prelude::*;
use crate::bfs::{is_reachable, reachable};
use crate::grid::{in_bounds, spec_step, spec_turn_left, spec_turn_right, step, turn_left,
    turn_right, Cell, Direction};

verus! {

/// What the agent sees of the environment before choosing a move.
#[derive(Clone, Debug)]
pub struct Snapshot {
    /// The cell under the snake's head.
    pub head: Cell,
    /// The direction the snake is travelling.
    pub heading: Direction,
    /// The cell holding the food.
    pub food: Cell,
    /// Every cell covered by the snake, head included.
    pub body: Vec<Cell>,
}

/// The fixed-length vector of 14 flags, each 0 or 1, fed to the value
/// network. Immutable once produced.
#[derive(Debug)]
pub struct StateVector {
    flags: Vec<u8>,
}

impl View for StateVector {
    type V = Seq<u8>;

    closed spec fn view(&self) -> Seq<u8> {
        self.flags@
    }
}

impl StateVector {
    /// A state vector holds exactly 14 flags, each 0 or 1.
    pub open spec fn wf(&self) -> bool {
        &&& self@.len() == 14
        &&& forall|i: int| 0 <= i < self@.len() ==> self@[i] <= 1
    }

    pub fn flag(&self, i: usize) -> (r: u8)
        requires
            i < self@.len(),
        ensures
            r == self@[i as int],
    {
        self.flags[i]
    }

    pub fn len(&self) -> (n: usize)
        ensures
            n == self@.len(),
    {
        self.flags.len()
    }

    /// The flags as a plain vector, oldest-defined flag first.
    pub fn to_vec(&self) -> (r: Vec<u8>)
        ensures
            r@ == self@,
    {
        let mut v: Vec<u8> = Vec::new();
        let mut i: usize = 0;
        while i < self.flags.len()
            invariant
                i <= self.flags@.len(),
                v@ == self.flags@.take(i as int),
            decreases self.flags@.len() - i,
        {
            v.push(self.flags[i]);
            i += 1;
            proof {
                assert(v@ =~= self.flags@.take(i as int));
            }
        }
        proof {
            assert(v@ =~= self@);
        }
        v
    }

    /// Wraps 14 raw flags as a state vector; anything else is refused.
    pub fn from_flags(flags: Vec<u8>) -> (r: Option<StateVector>)
        ensures
            match r {
                Some(sv) => flags@.len() == 14 && (forall|i: int|
                    0 <= i < flags@.len() ==> flags@[i] <= 1) && sv@ == flags@,
                None => flags@.len() != 14 || exists|i: int|
                    0 <= i < flags@.len() && flags@[i] > 1,
            },
    {
        if flags.len() != 14 {
            return None;
        }
        let mut i: usize = 0;
        while i < flags.len()
            invariant
                i <= flags@.len(),
                forall|j: int| 0 <= j < i ==> flags@[j] <= 1,
            decreases flags@.len() - i,
        {
            if flags[i] > 1 {
                return None;
            }
            i += 1;
        }
        Some(StateVector { flags })
    }
}

impl Clone for StateVector {
    fn clone(&self) -> (r: Self)
        ensures
            r@ == self@,
    {
        let r = StateVector { flags: self.flags.clone() };
        proof {
            assert(r@ =~= self@);
        }
        r
    }
}

/// The flag value of a condition: 1 when it holds, else 0.
pub open spec fn flag_of(b: bool) -> u8 {
    if b {
        1
    } else {
        0
    }
}

/// Moving one step from the head along `d` leaves the grid or hits the body.
pub open spec fn spec_danger(s: Snapshot, d: Direction, w: int, h: int) -> bool {
    !in_bounds(spec_step(s.head, d), w, h) || s.body@.contains(spec_step(s.head, d))
}

/// The food can be reached from the cell one step ahead along `d`, with the
/// snake's body (before the move) as obstacles.
pub open spec fn spec_reach_after(s: Snapshot, d: Direction, w: int, h: int) -> bool {
    reachable(spec_step(s.head, d), s.food, s.body@.to_set(), w, h)
}

/// The 14 flags of the feature vector in their fixed order: danger straight /
/// right / left, the one-hot heading (left, right, up, down), the food's
/// relative position (left, right, above, below of the head; not exclusive),
/// and reachability of the food one step ahead under straight / right / left.
pub open spec fn spec_encode(s: Snapshot, w: int, h: int) -> Seq<u8> {
    seq![
        flag_of(spec_danger(s, s.heading, w, h)),
        flag_of(spec_danger(s, spec_turn_right(s.heading), w, h)),
        flag_of(spec_danger(s, spec_turn_left(s.heading), w, h)),
        flag_of(s.heading == Direction::Left),
        flag_of(s.heading == Direction::Right),
        flag_of(s.heading == Direction::Up),
        flag_of(s.heading == Direction::Down),
        flag_of(s.food.x < s.head.x),
        flag_of(s.food.x > s.head.x),
        flag_of(s.food.y < s.head.y),
        flag_of(s.food.y > s.head.y),
        flag_of(spec_reach_after(s, s.heading, w, h)),
        flag_of(spec_reach_after(s, spec_turn_right(s.heading), w, h)),
        flag_of(spec_reach_after(s, spec_turn_left(s.heading), w, h)),
    ]
}

/// Linear scan: does the body cover cell `c`?
pub fn contains_cell(cells: &Vec<Cell>, c: Cell) -> (r: bool)
    ensures
        r == cells@.contains(c),
{
    let mut i: usize = 0;
    while i < cells.len()
        invariant
            i <= cells@.len(),
            forall|j: int| 0 <= j < i ==> cells@[j] != c,
        decreases cells@.len() - i,
    {
        if cells[i] == c {
            return true;
        }
        i += 1;
    }
    false
}

/// The danger flag for one candidate heading.
fn danger(s: &Snapshot, d: Direction, w: i32, h: i32) -> (r: bool)
    requires
        i32::MIN < s.head.x < i32::MAX,
        i32::MIN < s.head.y < i32::MAX,
    ensures
        r == spec_danger(*s, d, w as int, h as int),
{
    let n = step(s.head, d);
    if n.x < 0 || n.y < 0 || n.x >= w || n.y >= h {
        return true;
    }
    contains_cell(&s.body, n)
}

/// The reachability flag for one candidate heading.
fn reach_after(s: &Snapshot, d: Direction, w: i32, h: i32) -> (r: bool)
    requires
        i32::MIN < s.head.x < i32::MAX,
        i32::MIN < s.head.y < i32::MAX,
        (w as int) * (h as int) <= usize::MAX as int,
    ensures
        r == spec_reach_after(*s, d, w as int, h as int),
{
    let n = step(s.head, d);
    is_reachable(n, s.food, &s.body, w, h)
}

/// Encodes a snapshot as the 14-flag state vector, in the fixed order that
/// `spec_encode` lays down. Pure: equal snapshots give equal vectors.
#[verifier::rlimit(50)]
pub fn encode(s: &Snapshot, w: i32, h: i32) -> (r: StateVector)
    requires
        i32::MIN < s.head.x < i32::MAX,
        i32::MIN < s.head.y < i32::MAX,
        (w as int) * (h as int) <= usize::MAX as int,
    ensures
        r@ == spec_encode(*s, w as int, h as int),
        r.wf(),
{
    let mut flags: Vec<u8> = Vec::new();
    let b = danger(s, s.heading, w, h);
    flags.push(if b { 1 } else { 0 });
    let b = danger(s, turn_right(s.heading), w, h);
    flags.push(if b { 1 } else { 0 });
    let b = danger(s, turn_left(s.heading), w, h);
    flags.push(if b { 1 } else { 0 });
    flags.push(if s.heading == Direction::Left { 1 } else { 0 });
    flags.push(if s.heading == Direction::Right { 1 } else { 0 });
    flags.push(if s.heading == Direction::Up { 1 } else { 0 });
    flags.push(if s.heading == Direction::Down { 1 } else { 0 });
    flags.push(if s.food.x < s.head.x { 1 } else { 0 });
    flags.push(if s.food.x > s.head.x { 1 } else { 0 });
    flags.push(if s.food.y < s.head.y { 1 } else { 0 });
    flags.push(if s.food.y > s.head.y { 1 } else { 0 });
    let b = reach_after(s, s.heading, w, h);
    flags.push(if b { 1 } else { 0 });
    let b = reach_after(s, turn_right(s.heading), w, h);
    flags.push(if b { 1 } else { 0 });
    let b = reach_after(s, turn_left(s.heading), w, h);
    flags.push(if b { 1 } else { 0 });
    let r = StateVector { flags };
    proof {
        assert(r@ =~= spec_encode(*s, w as int, h as int));
    }
    r
}

/// The encoder is a pure function of the snapshot: two state vectors encoding
/// the same snapshot on the same grid are identical, flag for flag.
pub proof fn lemma_encode_deterministic(a: StateVector, b: StateVector, s: Snapshot, w: int, h: int)
    requires
        a@ == spec_encode(s, w, h),
        b@ == spec_encode(s, w, h),
    ensures
        a@ == b@,
{
}

} // verus!
