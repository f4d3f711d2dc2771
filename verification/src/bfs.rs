//! Breadth-first reachability over a bounded grid.
//!
//! `is_reachable` decides whether a target cell can be reached from a start
//! cell through 4-connected, in-bounds, unobstructed cells. Its contract pins
//! the result to `reachable`, the existence of such a path.

use vstd::prelude::*;
use vstd::set_lib::{lemma_int_range, lemma_len_subset, set_int_range};
use crate::grid::{adjacent, in_bounds, Cell};

verus! {

/// A cell the search may stand on: on the grid and not an obstacle.
pub open spec fn open_cell(c: Cell, blocked: Set<Cell>, w: int, h: int) -> bool {
    in_bounds(c, w, h) && !blocked.contains(c)
}

/// `p` walks from `s` to `t` over open cells, each step moving to a
/// 4-connected neighbour.
pub open spec fn is_path(p: Seq<Cell>, s: Cell, t: Cell, blocked: Set<Cell>, w: int, h: int) -> bool {
    &&& p.len() > 0
    &&& p[0] == s
    &&& p[p.len() - 1] == t
    &&& forall|i: int| 0 <= i < p.len() ==> open_cell(#[trigger] p[i], blocked, w, h)
    &&& forall|i: int| 0 <= i < p.len() - 1 ==> adjacent(#[trigger] p[i], p[i + 1])
}

/// Some path of open cells leads from `s` to `t`.
pub open spec fn reachable(s: Cell, t: Cell, blocked: Set<Cell>, w: int, h: int) -> bool {
    exists|p: Seq<Cell>| is_path(p, s, t, blocked, w, h)
}

/// Any in-bounds, unobstructed cell reaches itself, by the one-cell path.
pub proof fn lemma_reachable_self(c: Cell, blocked: Set<Cell>, w: int, h: int)
    requires
        in_bounds(c, w, h),
        !blocked.contains(c),
    ensures
        reachable(c, c, blocked, w, h),
{
    let p = seq![c];
    assert(is_path(p, c, c, blocked, w, h));
}

/// From a start that is out of bounds or itself an obstacle, nothing is
/// reachable: every path would have to begin on an open cell.
pub proof fn lemma_unreachable_from_closed_start(s: Cell, t: Cell, blocked: Set<Cell>, w: int, h: int)
    requires
        !open_cell(s, blocked, w, h),
    ensures
        !reachable(s, t, blocked, w, h),
{
    if reachable(s, t, blocked, w, h) {
        let p = choose|p: Seq<Cell>| is_path(p, s, t, blocked, w, h);
        assert(open_cell(p[0], blocked, w, h));
    }
}

/// Extending a path by one open neighbour keeps it a path.
proof fn lemma_reachable_step(s: Cell, c: Cell, n: Cell, blocked: Set<Cell>, w: int, h: int)
    requires
        reachable(s, c, blocked, w, h),
        adjacent(c, n),
        open_cell(n, blocked, w, h),
    ensures
        reachable(s, n, blocked, w, h),
{
    let p = choose|p: Seq<Cell>| is_path(p, s, c, blocked, w, h);
    let q = p.push(n);
    assert forall|i: int| 0 <= i < q.len() implies open_cell(#[trigger] q[i], blocked, w, h) by {
        if i < p.len() {
            assert(open_cell(p[i], blocked, w, h));
        }
    }
    assert forall|i: int| 0 <= i < q.len() - 1 implies adjacent(#[trigger] q[i], q[i + 1]) by {
        if i < p.len() - 1 {
            assert(adjacent(p[i], p[i + 1]));
        }
    }
    assert(is_path(q, s, n, blocked, w, h));
}

/// A set of cells that contains the head of a path and is closed under
/// stepping to open neighbours contains the whole path, its tail included.
proof fn lemma_path_stays_in_closed_set(
    p: Seq<Cell>,
    region: Set<Cell>,
    blocked: Set<Cell>,
    w: int,
    h: int,
)
    requires
        p.len() > 0,
        forall|i: int| 0 <= i < p.len() ==> open_cell(#[trigger] p[i], blocked, w, h),
        forall|i: int| 0 <= i < p.len() - 1 ==> adjacent(#[trigger] p[i], p[i + 1]),
        region.contains(p[0]),
        forall|a: Cell, b: Cell|
            region.contains(a) && #[trigger] adjacent(a, b) && open_cell(b, blocked, w, h)
                ==> region.contains(b),
    ensures
        region.contains(p[p.len() - 1]),
    decreases p.len(),
{
    if p.len() > 1 {
        assert(adjacent(p[0], p[1]));
        assert(region.contains(p[1]));
        let rest = p.drop_first();
        assert forall|i: int| 0 <= i < rest.len() - 1 implies adjacent(
            #[trigger] rest[i],
            rest[i + 1],
        ) by {
            assert(adjacent(p[i + 1], p[i + 2]));
        }
        lemma_path_stays_in_closed_set(rest, region, blocked, w, h);
    }
}

/// Index of a cell in a grid stored column by column.
spec fn cell_index(c: Cell, h: int) -> int {
    c.x * h + c.y
}

/// On a `w` by `h` grid every in-bounds cell gets an index below `w * h`.
proof fn lemma_index_range(c: Cell, w: int, h: int)
    requires
        in_bounds(c, w, h),
    ensures
        0 <= cell_index(c, h) < w * h,
        0 <= c.x * h,
{
    assert(0 <= c.x * h && c.x * h + c.y < w * h) by (nonlinear_arith)
        requires
            0 <= c.x < w,
            0 <= c.y < h,
    ;
}

/// Distinct in-bounds cells get distinct indices.
proof fn lemma_index_injective(a: Cell, b: Cell, w: int, h: int)
    requires
        in_bounds(a, w, h),
        in_bounds(b, w, h),
        cell_index(a, h) == cell_index(b, h),
    ensures
        a == b,
{
    assert(a.x == b.x && a.y == b.y) by (nonlinear_arith)
        requires
            0 <= a.y < h,
            0 <= b.y < h,
            a.x * h + a.y == b.x * h + b.y,
    ;
}

/// A duplicate-free sequence of in-bounds cells cannot be longer than the
/// number of grid cells.
proof fn lemma_distinct_cells_bound(q: Seq<Cell>, w: int, h: int)
    requires
        q.no_duplicates(),
        forall|i: int| 0 <= i < q.len() ==> in_bounds(#[trigger] q[i], w, h),
        0 < w,
        0 < h,
    ensures
        q.len() <= w * h,
{
    let f = |c: Cell| cell_index(c, h);
    let m = q.map_values(f);
    assert(m.no_duplicates()) by {
        assert forall|i: int, j: int|
            0 <= i < m.len() && 0 <= j < m.len() && i != j implies m[i] != m[j] by {
            if m[i] == m[j] {
                lemma_index_injective(q[i], q[j], w, h);
            }
        }
    }
    m.unique_seq_to_set();
    assert(m.to_set().subset_of(set_int_range(0, w * h))) by {
        assert forall|e: int| m.to_set().contains(e) implies set_int_range(0, w * h).contains(
            e,
        ) by {
            let i = choose|i: int| 0 <= i < m.len() && m[i] == e;
            lemma_index_range(q[i], w, h);
        }
    }
    lemma_int_range(0, w * h);
    lemma_len_subset(m.to_set(), set_int_range(0, w * h));
}

/// A vector of `n` cleared flags, one per grid cell.
fn bool_grid(n: usize) -> (v: Vec<bool>)
    ensures
        v@.len() == n,
        forall|i: int| 0 <= i < n ==> !v@[i],
{
    let mut v: Vec<bool> = Vec::new();
    while v.len() < n
        invariant
            v@.len() <= n,
            forall|i: int| 0 <= i < v@.len() ==> !v@[i],
        decreases n - v@.len(),
    {
        v.push(false);
    }
    v
}

/// Flat index of an in-bounds cell into a `w * h` grid vector.
fn grid_index(c: Cell, w: i32, h: i32) -> (i: usize)
    requires
        0 < w,
        0 < h,
        in_bounds(c, w as int, h as int),
        (w as int) * (h as int) <= usize::MAX as int,
    ensures
        i == cell_index(c, h as int),
        i < (w as int) * (h as int),
{
    proof {
        lemma_index_range(c, w as int, h as int);
    }
    (c.x as usize) * (h as usize) + (c.y as usize)
}

/// Marks `n` visited and enqueues it, unless it is out of bounds, an obstacle,
/// or already enqueued. All breadth-first search invariants are preserved, and
/// afterwards an open `n` is certainly in the queue.
fn try_visit(
    queue: &mut Vec<Cell>,
    visited: &mut Vec<bool>,
    blocked: &Vec<bool>,
    n: Cell,
    w: i32,
    h: i32,
    Ghost(bset): Ghost<Set<Cell>>,
    Ghost(from): Ghost<Cell>,
)
    requires
        0 < w,
        0 < h,
        (w as int) * (h as int) <= usize::MAX as int,
        old(visited)@.len() == (w as int) * (h as int),
        blocked@.len() == (w as int) * (h as int),
        forall|c: Cell|
            in_bounds(c, w as int, h as int)
                ==> (blocked@[cell_index(c, h as int)] <==> bset.contains(c)),
        forall|c: Cell|
            in_bounds(c, w as int, h as int)
                ==> (old(visited)@[cell_index(c, h as int)] <==> old(queue)@.contains(c)),
        forall|i: int|
            0 <= i < old(queue)@.len()
                ==> open_cell(#[trigger] old(queue)@[i], bset, w as int, h as int),
        old(queue)@.no_duplicates(),
        forall|i: int|
            0 <= i < old(queue)@.len()
                ==> reachable(from, #[trigger] old(queue)@[i], bset, w as int, h as int),
        open_cell(n, bset, w as int, h as int)
            ==> reachable(from, n, bset, w as int, h as int),
    ensures
        final(visited)@.len() == old(visited)@.len(),
        old(queue)@.len() <= final(queue)@.len() <= old(queue)@.len() + 1,
        forall|i: int| 0 <= i < old(queue)@.len() ==> final(queue)@[i] == old(queue)@[i],
        forall|c: Cell|
            in_bounds(c, w as int, h as int)
                ==> (final(visited)@[cell_index(c, h as int)] <==> final(queue)@.contains(c)),
        forall|i: int|
            0 <= i < final(queue)@.len() ==> open_cell(
                #[trigger] final(queue)@[i],
                bset,
                w as int,
                h as int,
            ),
        final(queue)@.no_duplicates(),
        forall|i: int|
            0 <= i < final(queue)@.len() ==> reachable(
                from,
                #[trigger] final(queue)@[i],
                bset,
                w as int,
                h as int,
            ),
        open_cell(n, bset, w as int, h as int) ==> final(queue)@.contains(n),
        forall|c: Cell| old(queue)@.contains(c) ==> final(queue)@.contains(c),
{
    let ghost wi = w as int;
    let ghost hi = h as int;
    if n.x >= 0 && n.y >= 0 && n.x < w && n.y < h {
        let k = grid_index(n, w, h);
        if !blocked[k] && !visited[k] {
            assert(open_cell(n, bset, wi, hi));
            assert(!queue@.contains(n));
            visited.set(k, true);
            queue.push(n);
            proof {
                assert forall|c: Cell| in_bounds(c, wi, hi) implies (visited@[cell_index(c, hi)]
                    <==> queue@.contains(c)) by {
                    lemma_index_range(c, wi, hi);
                    if cell_index(c, hi) == k {
                        lemma_index_injective(c, n, wi, hi);
                        assert(queue@[queue@.len() - 1] == n);
                    } else {
                        assert(old(visited)@[cell_index(c, hi)] == visited@[cell_index(c, hi)]);
                        assert(queue@.contains(c) <==> old(queue)@.contains(c)) by {
                            if old(queue)@.contains(c) {
                                let i = choose|i: int|
                                    0 <= i < old(queue)@.len() && old(queue)@[i] == c;
                                assert(queue@[i] == c);
                            }
                            if queue@.contains(c) {
                                let i = choose|i: int| 0 <= i < queue@.len() && queue@[i] == c;
                                assert(i < old(queue)@.len());
                            }
                        }
                    }
                }
                assert(queue@.no_duplicates()) by {
                    assert forall|i: int, j: int|
                        0 <= i < queue@.len() && 0 <= j < queue@.len() && i != j implies queue@[i]
                        != queue@[j] by {
                        if i < old(queue)@.len() && j < old(queue)@.len() {
                            assert(old(queue)@[i] != old(queue)@[j]);
                        } else if j == old(queue)@.len() {
                            assert(old(queue)@[i] != n);
                        } else {
                            assert(old(queue)@[j] != n);
                        }
                    }
                }
                assert(queue@[queue@.len() - 1] == n);
                assert forall|c: Cell| old(queue)@.contains(c) implies queue@.contains(c) by {
                    let i = choose|i: int| 0 <= i < old(queue)@.len() && old(queue)@[i] == c;
                    assert(queue@[i] == c);
                }
            }
        } else {
            proof {
                lemma_index_range(n, wi, hi);
                if open_cell(n, bset, wi, hi) {
                    assert(bset.contains(n) <==> blocked@[cell_index(n, hi)]);
                    assert(visited@[cell_index(n, hi)]);
                }
            }
        }
    } else {
        assert(!in_bounds(n, wi, hi));
    }
}

/// Breadth-first search: decides whether `target` can be reached from `start`
/// across the `w` by `h` grid through 4-connected steps that avoid the cells
/// of `obstacles`. A start that is out of bounds or an obstacle reaches
/// nothing; a start equal to the target is reached at once.
pub fn is_reachable(start: Cell, target: Cell, obstacles: &Vec<Cell>, w: i32, h: i32) -> (r: bool)
    requires
        (w as int) * (h as int) <= usize::MAX as int,
    ensures
        r == reachable(start, target, obstacles@.to_set(), w as int, h as int),
{
    let ghost bset = obstacles@.to_set();
    let ghost wi = w as int;
    let ghost hi = h as int;

    if w <= 0 || h <= 0 || start.x < 0 || start.y < 0 || start.x >= w || start.y >= h {
        proof {
            lemma_unreachable_from_closed_start(start, target, bset, wi, hi);
        }
        return false;
    }

    let grid_size: usize = (w as usize) * (h as usize);
    let mut blocked = bool_grid(grid_size);
    proof {
        assert forall|c: Cell| in_bounds(c, wi, hi) implies !blocked@[cell_index(c, hi)] by {
            lemma_index_range(c, wi, hi);
        }
    }

    let mut oi: usize = 0;
    while oi < obstacles.len()
        invariant
            0 < w,
            0 < h,
            wi == w as int,
            hi == h as int,
            wi * hi <= usize::MAX as int,
            grid_size == wi * hi,
            blocked@.len() == grid_size,
            oi <= obstacles@.len(),
            forall|c: Cell|
                in_bounds(c, wi, hi)
                    ==> (blocked@[cell_index(c, hi)] <==> exists|j: int|
                        0 <= j < oi && obstacles@[j] == c),
        decreases obstacles@.len() - oi,
    {
        let ob = obstacles[oi];
        if ob.x >= 0 && ob.y >= 0 && ob.x < w && ob.y < h {
            let k = grid_index(ob, w, h);
            blocked.set(k, true);
            proof {
                assert forall|c: Cell| in_bounds(c, wi, hi) implies (blocked@[cell_index(c, hi)]
                    <==> exists|j: int| 0 <= j < oi + 1 && obstacles@[j] == c) by {
                    lemma_index_range(c, wi, hi);
                    if cell_index(c, hi) == k {
                        lemma_index_injective(c, ob, wi, hi);
                        assert(obstacles@[oi as int] == c);
                    } else {
                        if exists|j: int| 0 <= j < oi + 1 && obstacles@[j] == c {
                            let j = choose|j: int| 0 <= j < oi + 1 && obstacles@[j] == c;
                            assert(j < oi);
                        }
                    }
                }
            }
        } else {
            proof {
                assert forall|c: Cell| in_bounds(c, wi, hi) implies (blocked@[cell_index(c, hi)]
                    <==> exists|j: int| 0 <= j < oi + 1 && obstacles@[j] == c) by {
                    if exists|j: int| 0 <= j < oi + 1 && obstacles@[j] == c {
                        let j = choose|j: int| 0 <= j < oi + 1 && obstacles@[j] == c;
                        assert(j < oi);
                    }
                }
            }
        }
        oi += 1;
    }
    proof {
        assert forall|c: Cell| in_bounds(c, wi, hi) implies (blocked@[cell_index(c, hi)]
            <==> bset.contains(c)) by {
            assert(bset.contains(c) <==> obstacles@.contains(c));
        }
    }

    let si = grid_index(start, w, h);
    if blocked[si] {
        proof {
            lemma_unreachable_from_closed_start(start, target, bset, wi, hi);
        }
        return false;
    }

    let mut visited = bool_grid(grid_size);
    let mut queue: Vec<Cell> = Vec::new();
    visited.set(si, true);
    queue.push(start);
    proof {
        lemma_reachable_self(start, bset, wi, hi);
        assert forall|c: Cell| in_bounds(c, wi, hi) implies (visited@[cell_index(c, hi)]
            <==> queue@.contains(c)) by {
            lemma_index_range(c, wi, hi);
            if cell_index(c, hi) == si {
                lemma_index_injective(c, start, wi, hi);
                assert(queue@[0] == start);
            } else {
                if queue@.contains(c) {
                    let i = choose|i: int| 0 <= i < queue@.len() && queue@[i] == c;
                    assert(queue@[i] == start);
                }
            }
        }
    }
    let mut head: usize = 0;

    while head < queue.len()
        invariant
            0 < w,
            0 < h,
            wi == w as int,
            hi == h as int,
            wi * hi <= usize::MAX as int,
            grid_size == wi * hi,
            bset == obstacles@.to_set(),
            visited@.len() == grid_size,
            blocked@.len() == grid_size,
            forall|c: Cell|
                in_bounds(c, wi, hi) ==> (blocked@[cell_index(c, hi)] <==> bset.contains(c)),
            head <= queue@.len(),
            queue@.len() <= wi * hi,
            queue@.contains(start),
            forall|c: Cell|
                in_bounds(c, wi, hi) ==> (visited@[cell_index(c, hi)] <==> queue@.contains(c)),
            forall|i: int| 0 <= i < queue@.len() ==> open_cell(#[trigger] queue@[i], bset, wi, hi),
            queue@.no_duplicates(),
            forall|i: int|
                0 <= i < queue@.len() ==> reachable(start, #[trigger] queue@[i], bset, wi, hi),
            forall|i: int| 0 <= i < head ==> queue@[i] != target,
            forall|i: int, n: Cell|
                0 <= i < head && #[trigger] adjacent(queue@[i], n) && open_cell(n, bset, wi, hi)
                    ==> queue@.contains(n),
        decreases wi * hi - head,
    {
        let c = queue[head];
        let ghost prev_head = head;
        head += 1;
        if c == target {
            assert(reachable(start, target, bset, wi, hi));
            return true;
        }
        assert(in_bounds(c, wi, hi));
        let n_right = Cell { x: c.x + 1, y: c.y };
        let n_left = Cell { x: c.x - 1, y: c.y };
        let n_down = Cell { x: c.x, y: c.y + 1 };
        let n_up = Cell { x: c.x, y: c.y - 1 };
        proof {
            if open_cell(n_right, bset, wi, hi) {
                lemma_reachable_step(start, c, n_right, bset, wi, hi);
            }
            if open_cell(n_left, bset, wi, hi) {
                lemma_reachable_step(start, c, n_left, bset, wi, hi);
            }
            if open_cell(n_down, bset, wi, hi) {
                lemma_reachable_step(start, c, n_down, bset, wi, hi);
            }
            if open_cell(n_up, bset, wi, hi) {
                lemma_reachable_step(start, c, n_up, bset, wi, hi);
            }
        }
        let ghost q0 = queue@;
        try_visit(&mut queue, &mut visited, &blocked, n_right, w, h, Ghost(bset), Ghost(start));
        let ghost q1 = queue@;
        try_visit(&mut queue, &mut visited, &blocked, n_left, w, h, Ghost(bset), Ghost(start));
        let ghost q2 = queue@;
        try_visit(&mut queue, &mut visited, &blocked, n_down, w, h, Ghost(bset), Ghost(start));
        let ghost q3 = queue@;
        try_visit(&mut queue, &mut visited, &blocked, n_up, w, h, Ghost(bset), Ghost(start));
        proof {
            lemma_distinct_cells_bound(queue@, wi, hi);
            assert(forall|i: int| 0 <= i < q0.len() ==> queue@[i] == q0[i]);
            assert(queue@.contains(start)) by {
                let i = choose|i: int| 0 <= i < q0.len() && q0[i] == start;
                assert(queue@[i] == start);
            }
            assert forall|i: int, n: Cell|
                0 <= i < head && #[trigger] adjacent(queue@[i], n) && open_cell(
                    n,
                    bset,
                    wi,
                    hi,
                ) implies queue@.contains(n) by {
                if i < prev_head {
                    assert(queue@[i] == q0[i]);
                    assert(q0.contains(n));
                    let j = choose|j: int| 0 <= j < q0.len() && q0[j] == n;
                    assert(queue@[j] == n);
                } else {
                    assert(queue@[i] == q0[prev_head as int]);
                    assert(queue@[i] == c);
                    assert(n == n_right || n == n_left || n == n_down || n == n_up);
                    if n == n_right {
                        assert(q1.contains(n_right));
                    } else if n == n_left {
                        assert(q2.contains(n_left));
                    } else if n == n_down {
                        assert(q3.contains(n_down));
                    }
                }
            }
            assert forall|i: int| 0 <= i < head implies queue@[i] != target by {
                if i < prev_head {
                    assert(queue@[i] == q0[i]);
                } else {
                    assert(queue@[i] == c);
                }
            }
        }
    }

    proof {
        if reachable(start, target, bset, wi, hi) {
            let region = queue@.to_set();
            let p = choose|p: Seq<Cell>| is_path(p, start, target, bset, wi, hi);
            assert(region.contains(start));
            assert forall|a: Cell, b: Cell|
                region.contains(a) && #[trigger] adjacent(a, b) && open_cell(b, bset, wi, hi)
                    implies region.contains(b) by {
                let i = choose|i: int| 0 <= i < queue@.len() && queue@[i] == a;
                assert(queue@.contains(b));
            }
            lemma_path_stays_in_closed_set(p, region, bset, wi, hi);
            assert(region.contains(target));
            let i = choose|i: int| 0 <= i < queue@.len() && queue@[i] == target;
            assert(queue@[i] != target);
        }
    }
    false
}

} // verus!
