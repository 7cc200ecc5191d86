//! Path search over the blocked bitmap: a breadth-first search that either
//! hands back the first step of a route from a start tile to a goal tile,
//! or establishes that no route exists.  A route may enter the goal tile
//! even when it is blocked (the goal is usually an occupied tile); every
//! tile strictly between start and goal must be unblocked.

use vstd::prelude::*;
use crate::map::{GameMap, sidx, in_map, MAPCOUNT, MAPWIDTH};

verus! {

/// The two tiles are distinct and touch, diagonals included.
pub open spec fn adj8(a: (int, int), b: (int, int)) -> bool {
    a != b && -1 <= a.0 - b.0 <= 1 && -1 <= a.1 - b.1 <= 1
}

/// The coordinates of a tile index.
pub open spec fn coords(t: int) -> (int, int) {
    (t % (MAPWIDTH as int), t / (MAPWIDTH as int))
}

/// Index and coordinates are inverse to each other.
pub proof fn lemma_coords_of_sidx(x: int, y: int)
    requires
        in_map(x, y),
    ensures
        coords(sidx(x, y)) == (x, y),
        0 <= sidx(x, y) < MAPCOUNT,
{
}

/// A walk from `start` to `goal`: at least one intermediate structure,
/// consecutive tiles touching, and every tile strictly between the two
/// unblocked.  The goal itself may be blocked.
pub open spec fn is_route(
    blocked: Seq<bool>,
    p: Seq<(int, int)>,
    start: (int, int),
    goal: (int, int),
) -> bool {
    &&& p.len() >= 2
    &&& p.first() == start
    &&& p.last() == goal
    &&& forall|i: int| 0 <= i < p.len() ==> in_map((#[trigger] p[i]).0, p[i].1)
    &&& forall|i: int| 0 <= i < p.len() - 1 ==> adj8(#[trigger] p[i], p[i + 1])
    &&& forall|i: int| 1 <= i < p.len() - 1 ==> !blocked[sidx((#[trigger] p[i]).0, p[i].1)]
}

/// Some route joins `start` to `goal`.
pub open spec fn route_exists(blocked: Seq<bool>, start: (int, int), goal: (int, int)) -> bool {
    exists|p: Seq<(int, int)>| is_route(blocked, p, start, goal)
}

/// A feeder is how the search reached a visited tile: a walk from `start`
/// whose every tile after the first is unblocked, ending at tile index `t`.
pub open spec fn is_feeder(
    blocked: Seq<bool>,
    p: Seq<(int, int)>,
    start: (int, int),
    t: int,
) -> bool {
    &&& p.len() >= 2
    &&& p.first() == start
    &&& sidx(p.last().0, p.last().1) == t
    &&& forall|i: int| 0 <= i < p.len() ==> in_map((#[trigger] p[i]).0, p[i].1)
    &&& forall|i: int| 0 <= i < p.len() - 1 ==> adj8(#[trigger] p[i], p[i + 1])
    &&& forall|i: int| 1 <= i < p.len() ==> !blocked[sidx((#[trigger] p[i]).0, p[i].1)]
}

/// The tile `t` was reached by a feeder whose first move is tile `s`.
pub open spec fn feeder_with_step(blocked: Seq<bool>, start: (int, int), t: int, s: int) -> bool {
    exists|p: Seq<(int, int)>|
        is_feeder(blocked, p, start, t) && sidx(p[1].0, p[1].1) == s
}

/// A fully processed tile: the goal does not touch it, and every
/// unblocked tile touching it has been visited.
pub open spec fn processed_ok(
    blocked: Seq<bool>,
    visited: Seq<bool>,
    t: int,
    goal: (int, int),
) -> bool {
    &&& !adj8(coords(t), goal)
    &&& forall|v: int|
        0 <= v < MAPCOUNT && adj8(coords(t), coords(v)) && !blocked[v]
            ==> #[trigger] visited[v]
}

/// How many tiles of the first `n` are visited.
pub open spec fn count_visited(visited: Seq<bool>, n: int) -> int
    decreases n,
{
    if n <= 0 {
        0
    } else {
        count_visited(visited, n - 1) + if visited[n - 1] { 1int } else { 0int }
    }
}

/// The visited count never exceeds the number of tiles.
pub proof fn lemma_count_bounds(visited: Seq<bool>, n: int)
    ensures
        0 <= count_visited(visited, n) <= (if n >= 0 { n } else { 0 }),
    decreases n,
{
    if n > 0 {
        lemma_count_bounds(visited, n - 1);
    }
}

/// Newly visiting one tile raises the count by exactly one.
pub proof fn lemma_count_update(visited: Seq<bool>, n: int, i: int)
    requires
        0 <= i < n <= visited.len(),
        !visited[i],
    ensures
        count_visited(visited.update(i, true), n) == count_visited(visited, n) + 1,
    decreases n,
{
    if n > 0 {
        if i == n - 1 {
            lemma_count_agree(visited.update(i, true), visited, n - 1);
        } else {
            lemma_count_update(visited, n - 1, i);
        }
    }
}

/// The count reads only the first `n` entries.
pub proof fn lemma_count_agree(a: Seq<bool>, b: Seq<bool>, n: int)
    requires
        forall|k: int| 0 <= k < n ==> a[k] == b[k],
    ensures
        count_visited(a, n) == count_visited(b, n),
    decreases n,
{
    if n > 0 {
        lemma_count_agree(a, b, n - 1);
    }
}

/// A processed tile stays processed as more tiles are visited.
pub proof fn lemma_processed_monotone(
    blocked: Seq<bool>,
    v1: Seq<bool>,
    v2: Seq<bool>,
    t: int,
    goal: (int, int),
)
    requires
        processed_ok(blocked, v1, t, goal),
        forall|k: int| 0 <= k < MAPCOUNT && v1[k] ==> v2[k],
    ensures
        processed_ok(blocked, v2, t, goal),
{
    assert forall|v: int| 0 <= v < MAPCOUNT && adj8(coords(t), coords(v)) && !blocked[v]
        implies v2[v] by {
        assert(v1[v]);
    }
}

/// The search invariant over the bookkeeping tables.
pub open spec fn bfs_inv(
    blocked: Seq<bool>,
    visited: Seq<bool>,
    fstep: Seq<usize>,
    queue: Seq<usize>,
    head: int,
    start: (int, int),
    goal: (int, int),
) -> bool {
    &&& visited.len() == MAPCOUNT
    &&& fstep.len() == MAPCOUNT
    &&& in_map(start.0, start.1)
    &&& visited[sidx(start.0, start.1)]
    &&& forall|t: int|
        0 <= t < MAPCOUNT && #[trigger] visited[t] && t != sidx(start.0, start.1)
            ==> !blocked[t] && fstep[t] < MAPCOUNT
                && feeder_with_step(blocked, start, t, fstep[t] as int)
    &&& forall|i: int|
        0 <= i < queue.len() ==> (#[trigger] queue[i]) < MAPCOUNT && visited[queue[i] as int]
    &&& forall|t: int|
        0 <= t < MAPCOUNT && #[trigger] visited[t] ==> queue.contains(t as usize)
    &&& forall|i: int, j: int| 0 <= i < j < queue.len() ==> queue[i] != queue[j]
    &&& 0 <= head <= queue.len()
    &&& queue.len() <= count_visited(visited, MAPCOUNT as int)
    &&& forall|i: int|
        0 <= i < head ==> processed_ok(blocked, visited, #[trigger] queue[i] as int, goal)
}

/// When a processed tile touches the goal, the feeder that reached it
/// extends into a complete route whose first step is recorded for it.
proof fn lemma_found_route(
    blocked: Seq<bool>,
    visited: Seq<bool>,
    fstep: Seq<usize>,
    queue: Seq<usize>,
    head: int,
    start: (int, int),
    goal: (int, int),
    u: usize,
    nx: int,
    ny: int,
)
    requires
        bfs_inv(blocked, visited, fstep, queue, head, start, goal),
        head < queue.len(),
        queue[head] == u,
        u < MAPCOUNT,
        in_map(goal.0, goal.1),
        !adj8(start, goal),
        adj8(coords(u as int), (nx, ny)),
        in_map(nx, ny),
        sidx(nx, ny) == sidx(goal.0, goal.1),
    ensures
        u as int != sidx(start.0, start.1),
        fstep[u as int] < MAPCOUNT,
        !blocked[fstep[u as int] as int],
        adj8(start, coords(fstep[u as int] as int)),
        exists|p: Seq<(int, int)>|
            is_route(blocked, p, start, goal) && sidx(p[1].0, p[1].1) == fstep[u as int] as int,
{
    lemma_coords_of_sidx(nx, ny);
    lemma_coords_of_sidx(goal.0, goal.1);
    lemma_coords_of_sidx(start.0, start.1);
    assert((nx, ny) == goal);
    assert(u as int != sidx(start.0, start.1));
    let p = choose|p: Seq<(int, int)>|
        is_feeder(blocked, p, start, u as int) && sidx(p[1].0, p[1].1) == fstep[u as int] as int;
    let q = p.push(goal);
    assert(q.last() == goal);
    assert forall|i: int| 0 <= i < q.len() implies in_map((#[trigger] q[i]).0, q[i].1) by {
        if i < p.len() {
            assert(q[i] == p[i]);
        }
    }
    assert forall|i: int| 0 <= i < q.len() - 1 implies adj8(#[trigger] q[i], q[i + 1]) by {
        if i < p.len() - 1 {
            assert(q[i] == p[i] && q[i + 1] == p[i + 1]);
        } else {
            assert(q[i] == p.last() && q[i + 1] == goal);
            assert(coords(u as int) == (p.last().0, p.last().1)) by {
                lemma_coords_of_sidx(p.last().0, p.last().1);
            }
        }
    }
    assert forall|i: int| 1 <= i < q.len() - 1
        implies !blocked[sidx((#[trigger] q[i]).0, q[i].1)] by {
        assert(q[i] == p[i]);
    }
    assert(is_route(blocked, q, start, goal));
    assert(sidx(q[1].0, q[1].1) == fstep[u as int] as int);
    lemma_coords_of_sidx(p[1].0, p[1].1);
}

/// Visits one fresh, unblocked neighbour: marks it, records its first
/// step, and queues it.
#[verifier::rlimit(100)]
#[verifier::spinoff_prover]
fn bfs_mark(
    map: &GameMap,
    visited: &mut Vec<bool>,
    fstep: &mut Vec<usize>,
    queue: &mut Vec<usize>,
    u: usize,
    v: usize,
    nx: i32,
    ny: i32,
    start_idx: usize,
    Ghost(head): Ghost<int>,
    Ghost(start): Ghost<(int, int)>,
    Ghost(goal): Ghost<(int, int)>,
)
    requires
        map.inv(),
        bfs_inv(map.blocked@, old(visited)@, old(fstep)@, old(queue)@, head, start, goal),
        head < old(queue)@.len(),
        old(queue)@[head] == u,
        start_idx == sidx(start.0, start.1),
        adj8(coords(u as int), (nx as int, ny as int)),
        u < MAPCOUNT,
        in_map(nx as int, ny as int),
        v == sidx(nx as int, ny as int),
        !old(visited)@[v as int],
        !map.blocked@[v as int],
    ensures
        bfs_inv(map.blocked@, final(visited)@, final(fstep)@, final(queue)@, head, start, goal),
        final(queue)@.len() >= old(queue)@.len(),
        forall|i: int|
            0 <= i < old(queue)@.len() ==> #[trigger] final(queue)@[i] == old(queue)@[i],
        forall|t: int|
            0 <= t < MAPCOUNT && old(visited)@[t] ==> #[trigger] final(visited)@[t],
        final(visited)@[v as int],
{
    let ghost visited0 = visited@;
    let ghost queue0 = queue@;
    visited[v] = true;
    let fs = if u == start_idx { v } else { fstep[u] };
    fstep[v] = fs;
    queue.push(v);
    proof {
        lemma_count_update(visited0, MAPCOUNT as int, v as int);
        // The feeder to the new tile extends the feeder to `u`, or is the
        // two-tile walk when `u` is the start itself.
        if u == start_idx {
            let p = seq![start, (nx as int, ny as int)];
            assert(p.last() == (nx as int, ny as int));
            assert(coords(u as int) == start) by {
                lemma_coords_of_sidx(start.0, start.1);
            }
            assert(is_feeder(map.blocked@, p, start, v as int));
            assert(sidx(p[1].0, p[1].1) == fs as int);
        } else {
            let p = choose|p: Seq<(int, int)>|
                is_feeder(map.blocked@, p, start, u as int) && sidx(p[1].0, p[1].1)
                    == old(fstep)@[u as int] as int;
            let q = p.push((nx as int, ny as int));
            assert(q.last() == (nx as int, ny as int));
            assert forall|i: int| 0 <= i < q.len()
                implies in_map((#[trigger] q[i]).0, q[i].1) by {
                if i < p.len() {
                    assert(q[i] == p[i]);
                }
            }
            assert forall|i: int| 0 <= i < q.len() - 1
                implies adj8(#[trigger] q[i], q[i + 1]) by {
                if i < p.len() - 1 {
                    assert(q[i] == p[i] && q[i + 1] == p[i + 1]);
                } else {
                    assert(q[i] == p.last() && q[i + 1] == (nx as int, ny as int));
                    assert(coords(u as int) == (p.last().0, p.last().1)) by {
                        lemma_coords_of_sidx(p.last().0, p.last().1);
                    }
                }
            }
            assert forall|i: int| 1 <= i < q.len()
                implies !map.blocked@[sidx((#[trigger] q[i]).0, q[i].1)] by {
                if i < p.len() {
                    assert(q[i] == p[i]);
                }
            }
            assert(is_feeder(map.blocked@, q, start, v as int));
            assert(sidx(q[1].0, q[1].1) == fs as int);
        }
        // Every already-reached tile keeps its feeder: only the fresh slot
        // of the step table was written.
        assert forall|t: int|
            0 <= t < MAPCOUNT && #[trigger] visited@[t] && t != sidx(start.0, start.1)
            implies !map.blocked@[t] && fstep@[t] < MAPCOUNT
                && feeder_with_step(map.blocked@, start, t, fstep@[t] as int) by {
            if t != v as int {
                assert(visited0[t]);
                assert(fstep@[t] == old(fstep)@[t]);
            }
        }
        // Visited tiles are queued: the new tile sits at the end.
        assert forall|t: int| 0 <= t < MAPCOUNT && #[trigger] visited@[t]
            implies queue@.contains(t as usize) by {
            if t == v as int {
                assert(queue@[queue@.len() - 1] == t as usize);
            } else {
                assert(visited0[t]);
                let i = choose|i: int| 0 <= i < queue0.len() && queue0[i] == t as usize;
                assert(queue@[i] == t as usize);
            }
        }
        // The queue stays duplicate-free: the new tile was unvisited, and
        // every queued tile is visited.
        assert forall|i: int, j: int| 0 <= i < j < queue@.len()
            implies queue@[i] != queue@[j] by {
            if j == queue@.len() - 1 {
                assert(queue@[i] == queue0[i]);
                assert(visited0[queue0[i] as int]);
            }
        }
        // Processed tiles stay processed as the visited set grows.
        assert forall|i: int| 0 <= i < head
            implies processed_ok(map.blocked@, visited@, #[trigger] queue@[i] as int,
                goal) by {
            assert(queue@[i] == queue0[i]);
            lemma_processed_monotone(map.blocked@, visited0, visited@, queue0[i] as int, goal);
        }
    }
}

/// Handles one neighbour `(nx, ny)` of the tile `u` under processing:
/// reports the first step of a found route if the neighbour is the goal,
/// and otherwise visits it if it is new and unblocked.
#[verifier::rlimit(100)]
#[verifier::spinoff_prover]
fn bfs_visit_neighbor(
    map: &GameMap,
    visited: &mut Vec<bool>,
    fstep: &mut Vec<usize>,
    queue: &mut Vec<usize>,
    u: usize,
    nx: i32,
    ny: i32,
    start_idx: usize,
    goal_idx: usize,
    Ghost(head): Ghost<int>,
    Ghost(start): Ghost<(int, int)>,
    Ghost(goal): Ghost<(int, int)>,
) -> (found: Option<usize>)
    requires
        map.inv(),
        bfs_inv(map.blocked@, old(visited)@, old(fstep)@, old(queue)@, head, start, goal),
        head < old(queue)@.len(),
        old(queue)@[head] == u,
        start_idx == sidx(start.0, start.1),
        goal_idx == sidx(goal.0, goal.1),
        in_map(goal.0, goal.1),
        !adj8(start, goal),
        start != goal,
        adj8(coords(u as int), (nx as int, ny as int)),
        u < MAPCOUNT,
    ensures
        bfs_inv(map.blocked@, final(visited)@, final(fstep)@, final(queue)@, head, start, goal),
        final(queue)@.len() >= old(queue)@.len(),
        forall|i: int|
            0 <= i < old(queue)@.len() ==> #[trigger] final(queue)@[i] == old(queue)@[i],
        forall|t: int|
            0 <= t < MAPCOUNT && old(visited)@[t] ==> #[trigger] final(visited)@[t],
        found is Some ==> found.unwrap() < MAPCOUNT && !map.blocked@[found.unwrap() as int]
            && adj8(start, coords(found.unwrap() as int)) && (exists|p: Seq<(int, int)>|
            is_route(map.blocked@, p, start, goal) && sidx(p[1].0, p[1].1)
                == found.unwrap() as int),
        found is None ==> (in_map(nx as int, ny as int) ==> sidx(nx as int, ny as int) != goal_idx
            && (!map.blocked@[sidx(nx as int, ny as int)]
                ==> final(visited)@[sidx(nx as int, ny as int)])),
{
    if !(0 <= nx && nx < 80 && 0 <= ny && ny < 43) {
        return None;
    }
    let v = (ny as usize) * MAPWIDTH + nx as usize;
    proof {
        lemma_coords_of_sidx(nx as int, ny as int);
    }
    if v == goal_idx {
        proof {
            lemma_found_route(
                map.blocked@, visited@, fstep@, queue@, head, start, goal, u, nx as int,
                ny as int);
        }
        let step = fstep[u];
        return Some(step);
    }
    if !visited[v] && !map.blocked[v] {
        bfs_mark(map, visited, fstep, queue, u, v, nx, ny, start_idx, Ghost(head), Ghost(start),
            Ghost(goal));
        return None;
    }
    None
}

/// Processes one queued tile: visits each of its eight neighbours, and
/// reports the first step of a found route when one of them is the goal.
#[verifier::rlimit(100)]
#[verifier::spinoff_prover]
fn bfs_process_tile(
    map: &GameMap,
    visited: &mut Vec<bool>,
    fstep: &mut Vec<usize>,
    queue: &mut Vec<usize>,
    u: usize,
    start_idx: usize,
    goal_idx: usize,
    Ghost(head): Ghost<int>,
    Ghost(start): Ghost<(int, int)>,
    Ghost(goal): Ghost<(int, int)>,
) -> (found: Option<usize>)
    requires
        map.inv(),
        bfs_inv(map.blocked@, old(visited)@, old(fstep)@, old(queue)@, head, start, goal),
        head < old(queue)@.len(),
        old(queue)@[head] == u,
        start_idx == sidx(start.0, start.1),
        goal_idx == sidx(goal.0, goal.1),
        in_map(goal.0, goal.1),
        !adj8(start, goal),
        start != goal,
    ensures
        bfs_inv(map.blocked@, final(visited)@, final(fstep)@, final(queue)@,
            if found is None { head + 1 } else { head }, start, goal),
        final(queue)@.len() >= old(queue)@.len(),
        forall|i: int|
            0 <= i < old(queue)@.len() ==> #[trigger] final(queue)@[i] == old(queue)@[i],
        found is Some ==> found.unwrap() < MAPCOUNT && !map.blocked@[found.unwrap() as int]
            && adj8(start, coords(found.unwrap() as int)) && (exists|p: Seq<(int, int)>|
            is_route(map.blocked@, p, start, goal) && sidx(p[1].0, p[1].1)
                == found.unwrap() as int),
{
    proof {
        assert(u < MAPCOUNT && old(visited)@[u as int]);
    }
    let ux = (u % MAPWIDTH) as i32;
    let uy = (u / MAPWIDTH) as i32;
    proof {
        assert(coords(u as int) == (ux as int, uy as int));
        assert(in_map(ux as int, uy as int));
    }
    let mut found: Option<usize>;
    found = bfs_visit_neighbor(map, visited, fstep, queue, u, ux - 1, uy - 1, start_idx,
        goal_idx, Ghost(head), Ghost(start), Ghost(goal));
    let ghost n1 = visited@;
    if found.is_none() {
        found = bfs_visit_neighbor(map, visited, fstep, queue, u, ux, uy - 1, start_idx,
            goal_idx, Ghost(head), Ghost(start), Ghost(goal));
    }
    let ghost n2 = visited@;
    if found.is_none() {
        found = bfs_visit_neighbor(map, visited, fstep, queue, u, ux + 1, uy - 1, start_idx,
            goal_idx, Ghost(head), Ghost(start), Ghost(goal));
    }
    let ghost n3 = visited@;
    if found.is_none() {
        found = bfs_visit_neighbor(map, visited, fstep, queue, u, ux - 1, uy, start_idx,
            goal_idx, Ghost(head), Ghost(start), Ghost(goal));
    }
    let ghost n4 = visited@;
    if found.is_none() {
        found = bfs_visit_neighbor(map, visited, fstep, queue, u, ux + 1, uy, start_idx,
            goal_idx, Ghost(head), Ghost(start), Ghost(goal));
    }
    let ghost n5 = visited@;
    if found.is_none() {
        found = bfs_visit_neighbor(map, visited, fstep, queue, u, ux - 1, uy + 1, start_idx,
            goal_idx, Ghost(head), Ghost(start), Ghost(goal));
    }
    let ghost n6 = visited@;
    if found.is_none() {
        found = bfs_visit_neighbor(map, visited, fstep, queue, u, ux, uy + 1, start_idx,
            goal_idx, Ghost(head), Ghost(start), Ghost(goal));
    }
    let ghost n7 = visited@;
    if found.is_none() {
        found = bfs_visit_neighbor(map, visited, fstep, queue, u, ux + 1, uy + 1, start_idx,
            goal_idx, Ghost(head), Ghost(start), Ghost(goal));
    }
    if found.is_some() {
        return found;
    }
    proof {
        // All eight neighbours were handled without finding the goal, so
        // the tile is fully processed.
        assert forall|t: int| 0 <= t < MAPCOUNT && n1[t] implies visited@[t] by {}
        assert forall|t: int| 0 <= t < MAPCOUNT && n2[t] implies visited@[t] by {}
        assert forall|t: int| 0 <= t < MAPCOUNT && n3[t] implies visited@[t] by {}
        assert forall|t: int| 0 <= t < MAPCOUNT && n4[t] implies visited@[t] by {}
        assert forall|t: int| 0 <= t < MAPCOUNT && n5[t] implies visited@[t] by {}
        assert forall|t: int| 0 <= t < MAPCOUNT && n6[t] implies visited@[t] by {}
        assert forall|t: int| 0 <= t < MAPCOUNT && n7[t] implies visited@[t] by {}
        assert(!adj8(coords(u as int), goal)) by {
            if adj8(coords(u as int), goal) {
                assert(goal.0 == ux - 1 || goal.0 == ux || goal.0 == ux + 1);
                assert(goal.1 == uy - 1 || goal.1 == uy || goal.1 == uy + 1);
                assert(goal_idx == sidx(goal.0, goal.1));
            }
        }
        assert forall|v: int|
            0 <= v < MAPCOUNT && adj8(coords(u as int), coords(v)) && !map.blocked@[v]
            implies visited@[v] by {
            crate::visibility::lemma_idx_coords(v);
            let (vx, vy) = coords(v);
            assert(sidx(vx, vy) == v);
            assert(vx == ux - 1 || vx == ux || vx == ux + 1);
            assert(vy == uy - 1 || vy == uy || vy == uy + 1);
        }
        assert(processed_ok(map.blocked@, visited@, u as int, goal));
        assert forall|i: int| 0 <= i < head + 1
            implies processed_ok(map.blocked@, visited@, #[trigger] queue@[i] as int,
                goal) by {}
    }
    None
}

/// Searches for a route from `(sx, sy)` to `(gx, gy)` over the blocked
/// bitmap and returns the first tile to step onto, or `None` exactly when
/// no route exists.  The caller handles adjacent goals itself, by melee
/// rather than movement.
pub fn find_first_step(map: &GameMap, sx: i32, sy: i32, gx: i32, gy: i32) -> (r: Option<usize>)
    requires
        map.inv(),
        in_map(sx as int, sy as int),
        in_map(gx as int, gy as int),
        !adj8((sx as int, sy as int), (gx as int, gy as int)),
        (sx as int, sy as int) != (gx as int, gy as int),
    ensures
        r is Some ==> r.unwrap() < MAPCOUNT && !map.blocked@[r.unwrap() as int]
            && adj8((sx as int, sy as int), coords(r.unwrap() as int))
            && (exists|p: Seq<(int, int)>|
            is_route(map.blocked@, p, (sx as int, sy as int), (gx as int, gy as int))
                && sidx(p[1].0, p[1].1) == r.unwrap() as int),
        r is None ==> !route_exists(map.blocked@, (sx as int, sy as int), (gx as int, gy as int)),
{
    let ghost start = (sx as int, sy as int);
    let ghost goal = (gx as int, gy as int);
    let start_idx = map.xy_idx(sx, sy);
    let goal_idx = map.xy_idx(gx, gy);
    let mut visited: Vec<bool> = vec![false; MAPCOUNT];
    let mut fstep: Vec<usize> = vec![0; MAPCOUNT];
    let mut queue: Vec<usize> = Vec::new();
    let ghost v0 = visited@;
    visited[start_idx] = true;
    queue.push(start_idx);
    proof {
        lemma_count_bounds(v0, MAPCOUNT as int);
        lemma_count_update(v0, MAPCOUNT as int, start_idx as int);
        assert(queue@[0] == start_idx);
        assert forall|t: int| 0 <= t < MAPCOUNT && #[trigger] visited@[t]
            implies queue@.contains(t as usize) by {
            assert(t == start_idx as int);
            assert(queue@[0] == t as usize);
        }
        lemma_coords_of_sidx(start.0, start.1);
    }
    let mut head: usize = 0;
    while head < queue.len()
        invariant
            map.inv(),
            bfs_inv(map.blocked@, visited@, fstep@, queue@, head as int, start, goal),
            start_idx == sidx(start.0, start.1),
            goal_idx == sidx(goal.0, goal.1),
            in_map(start.0, start.1),
            in_map(goal.0, goal.1),
            !adj8(start, goal),
            start != goal,
            start == (sx as int, sy as int),
            goal == (gx as int, gy as int),
        decreases MAPCOUNT - head,
    {
        proof {
            lemma_count_bounds(visited@, MAPCOUNT as int);
        }
        let u = queue[head];
        let found = bfs_process_tile(map, &mut visited, &mut fstep, &mut queue, u, start_idx,
            goal_idx, Ghost(head as int), Ghost(start), Ghost(goal));
        if let Some(f) = found {
            return Some(f);
        }
        head = head + 1;
    }
    proof {
        // The queue is exhausted: every visited tile is processed, and any
        // route would have to run through visited tiles into a tile that
        // touches the goal, which no processed tile does.
        assert forall|t: int| 0 <= t < MAPCOUNT && #[trigger] visited@[t]
            implies processed_ok(map.blocked@, visited@, t, goal) by {
            let i = choose|i: int| 0 <= i < queue@.len() && queue@[i] == t as usize;
            assert(processed_ok(map.blocked@, visited@, queue@[i] as int, goal));
        }
        if route_exists(map.blocked@, start, goal) {
            let p = choose|p: Seq<(int, int)>| is_route(map.blocked@, p, start, goal);
            lemma_route_reaches_visited(map.blocked@, visited@, p, start, goal,
                p.len() - 2);
            lemma_coords_of_sidx(p[p.len() - 2].0, p[p.len() - 2].1);
            assert(adj8(p[p.len() - 2], goal));
            assert(false);
        }
    }
    None
}

/// Along any route, every tile before the last is visited once the search
/// has processed its whole frontier: the start is visited, and a visited,
/// processed tile passes the property to the next tile of the route.
proof fn lemma_route_reaches_visited(
    blocked: Seq<bool>,
    visited: Seq<bool>,
    p: Seq<(int, int)>,
    start: (int, int),
    goal: (int, int),
    i: int,
)
    requires
        is_route(blocked, p, start, goal),
        visited.len() == MAPCOUNT,
        in_map(start.0, start.1),
        visited[sidx(start.0, start.1)],
        forall|t: int|
            0 <= t < MAPCOUNT && #[trigger] visited[t] ==> processed_ok(blocked, visited, t, goal),
        0 <= i < p.len() - 1,
    ensures
        visited[sidx(p[i].0, p[i].1)],
    decreases i,
{
    if i == 0 {
        assert(p[0] == start);
    } else {
        lemma_route_reaches_visited(blocked, visited, p, start, goal, i - 1);
        let a = sidx(p[i - 1].0, p[i - 1].1);
        let b = sidx(p[i].0, p[i].1);
        lemma_coords_of_sidx(p[i - 1].0, p[i - 1].1);
        lemma_coords_of_sidx(p[i].0, p[i].1);
        assert(processed_ok(blocked, visited, a, goal));
        assert(adj8(coords(a), coords(b)));
        assert(!blocked[b]);
    }
}

} // verus!
