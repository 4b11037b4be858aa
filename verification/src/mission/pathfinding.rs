//! A* grid pathfinding on the dungeon map.

use vstd::prelude::*;

use super::dungeon::{adjacent, cell, lemma_cell_in_grid, lemma_cell_injective, manhattan, DungeonMap, Pos};

verus! {

/// An entry of the open set: a position and the f-score it was queued with.
#[derive(Clone, Copy)]
struct OpenEntry {
    f: u32,
    pos: Pos,
}

/// `path` is a walk over walkable tiles between four-neighbours.
pub open spec fn is_walk(map: DungeonMap, path: Seq<Pos>) -> bool {
    &&& forall|k: int| 0 <= k < path.len() ==> map.walkable(#[trigger] path[k])
    &&& forall|k: int| 0 <= k < path.len() - 1 ==> adjacent(#[trigger] path[k], path[k + 1])
}

/// `path` is a walk from `start` to `goal`.
pub open spec fn connects(map: DungeonMap, path: Seq<Pos>, start: Pos, goal: Pos) -> bool {
    &&& path.len() > 0
    &&& path[0] == start
    &&& path[path.len() - 1] == goal
    &&& is_walk(map, path)
}

/// Some walk leads from `start` to `goal`.
pub open spec fn reachable(map: DungeonMap, start: Pos, goal: Pos) -> bool {
    exists|path: Seq<Pos>| connects(map, path, start, goal)
}

/// Maps small enough that no cost in the search overflows a `u32`.
pub open spec fn search_fits(map: DungeonMap) -> bool {
    map.width as int * map.height as int + map.width as int + map.height as int <= u32::MAX
}

/// Number of finite (not `u32::MAX`) entries.
spec fn count_finite(s: Seq<u32>) -> nat
    decreases s.len(),
{
    if s.len() == 0 {
        0
    } else {
        count_finite(s.drop_last()) + if s.last() != u32::MAX {
            1nat
        } else {
            0nat
        }
    }
}

/// Sum of the entries.
spec fn sum_all(s: Seq<u32>) -> nat
    decreases s.len(),
{
    if s.len() == 0 {
        0
    } else {
        sum_all(s.drop_last()) + s.last() as nat
    }
}

spec fn ind(v: u32) -> nat {
    if v != u32::MAX {
        1
    } else {
        0
    }
}

proof fn lemma_count_push(s: Seq<u32>, v: u32)
    ensures
        count_finite(s.push(v)) == count_finite(s) + ind(v),
        sum_all(s.push(v)) == sum_all(s) + v,
{
    assert(s.push(v).drop_last() =~= s);
}

proof fn lemma_count_bound(s: Seq<u32>)
    ensures
        count_finite(s) <= s.len(),
    decreases s.len(),
{
    if s.len() > 0 {
        lemma_count_bound(s.drop_last());
    }
}

proof fn lemma_count_update(s: Seq<u32>, i: int, v: u32)
    requires
        0 <= i < s.len(),
    ensures
        count_finite(s.update(i, v)) + ind(s[i]) == count_finite(s) + ind(v),
        sum_all(s.update(i, v)) + s[i] == sum_all(s) + v,
    decreases s.len(),
{
    let t = s.update(i, v);
    if i == s.len() - 1 {
        assert(t.drop_last() =~= s.drop_last());
    } else {
        assert(t.drop_last() =~= s.drop_last().update(i, v));
        lemma_count_update(s.drop_last(), i, v);
    }
}

/// The distance the search estimates with is symmetric, obeys the triangle
/// inequality, and changes by at most one across a step, so it never
/// overestimates the length of a walk.
pub proof fn lemma_heuristic_laws(a: Pos, b: Pos, c: Pos)
    ensures
        manhattan(a, b) == manhattan(b, a),
        manhattan(a, c) <= manhattan(a, b) + manhattan(b, c),
        adjacent(a, b) ==> manhattan(a, c) <= manhattan(b, c) + 1,
        manhattan(a, b) == 0 <==> a == b,
{
}

/// The estimate A* ranks tiles by: the Manhattan distance to the goal, for
/// which `lemma_heuristic_laws` gives symmetry, the triangle law and
/// consistency along a step.
pub fn heuristic(a: Pos, b: Pos) -> (d: u32)
    requires
        manhattan(a, b) <= u32::MAX,
    ensures
        d == manhattan(a, b),
{
    let dx = if a.0 >= b.0 {
        a.0 - b.0
    } else {
        b.0 - a.0
    };
    let dy = if a.1 >= b.1 {
        a.1 - b.1
    } else {
        b.1 - a.1
    };
    dx + dy
}

spec fn gv(map: DungeonMap, g: Seq<u32>, p: Pos) -> u32 {
    g[cell(map.width, p)]
}

spec fn finite(map: DungeonMap, g: Seq<u32>, p: Pos) -> bool {
    gv(map, g, p) != u32::MAX
}

/// The parent recorded for `p` is an in-bounds neighbour of strictly smaller cost.
spec fn parent_ok(map: DungeonMap, g: Seq<u32>, came: Seq<Option<Pos>>, p: Pos) -> bool {
    let q = came[cell(map.width, p)].unwrap();
    &&& map.in_bounds(q)
    &&& adjacent(p, q)
    &&& gv(map, g, q) < gv(map, g, p)
}

/// Every walkable neighbour of `p` has a finite cost, at most one more than `p`'s.
spec fn closed(map: DungeonMap, g: Seq<u32>, p: Pos) -> bool {
    forall|q: Pos| #![trigger gv(map, g, q)]
        map.walkable(q) && adjacent(p, q) ==> finite(map, g, q) && gv(map, g, q) <= gv(map, g, p) + 1
}

/// The open set holds an entry for `p` queued with `p`'s current cost.
spec fn exact_entry(map: DungeonMap, goal: Pos, g: Seq<u32>, open: Seq<OpenEntry>, p: Pos) -> bool {
    exists|i: int|
        0 <= i < open.len() && open[i].pos == p && open[i].f == gv(map, g, p) + manhattan(p, goal)
}

/// The search invariant, except for the frontier property.
spec fn core_inv(
    map: DungeonMap,
    start: Pos,
    goal: Pos,
    g: Seq<u32>,
    came: Seq<Option<Pos>>,
    open: Seq<OpenEntry>,
) -> bool {
    &&& g.len() == map.width as int * map.height as int
    &&& came.len() == g.len()
    &&& map.in_bounds(start)
    &&& map.in_bounds(goal)
    &&& gv(map, g, start) == 0
    &&& came[cell(map.width, start)] is None
    &&& count_finite(g) <= g.len()
    &&& forall|p: Pos| #![trigger gv(map, g, p)]
        map.in_bounds(p) && finite(map, g, p) ==> {
            &&& map.walkable(p)
            &&& gv(map, g, p) < count_finite(g)
            &&& (p == start || came[cell(map.width, p)] is Some)
        }
    &&& forall|p: Pos| #![trigger came[cell(map.width, p)]]
        map.in_bounds(p) && came[cell(map.width, p)] is Some ==> parent_ok(map, g, came, p)
    &&& forall|i: int|
        #![trigger open[i]]
        0 <= i < open.len() ==> map.in_bounds(open[i].pos) && finite(map, g, open[i].pos)
            && open[i].f >= gv(map, g, open[i].pos) + manhattan(open[i].pos, goal)
    &&& finite(map, g, goal) ==> exists|i: int| 0 <= i < open.len() && open[i].pos == goal
}

/// Every finite position other than `skip` is queued at its current cost or closed.
spec fn frontier_inv(map: DungeonMap, goal: Pos, g: Seq<u32>, open: Seq<OpenEntry>, skip: Option<Pos>) -> bool {
    forall|p: Pos| #![trigger gv(map, g, p)]
        map.in_bounds(p) && finite(map, g, p) && skip != Some(p) ==> exact_entry(map, goal, g, open, p)
            || closed(map, g, p)
}

/// Row-major index of an in-bounds position.
fn index_of(map: &DungeonMap, p: Pos) -> (i: usize)
    requires
        map.wf(),
        map.in_bounds(p),
    ensures
        i == cell(map.width, p),
        i < map.width as int * map.height as int,
{
    proof {
        lemma_cell_in_grid(map.width, map.height, p);
    }
    (p.1 * map.width + p.0) as usize
}

proof fn lemma_manhattan_bound(map: DungeonMap, a: Pos, b: Pos)
    requires
        map.in_bounds(a),
        map.in_bounds(b),
    ensures
        manhattan(a, b) < map.width as int + map.height as int,
{
}

/// Relax the edge from the expanded position `c` to its neighbour `n`.
fn relax(
    map: &DungeonMap,
    Ghost(start): Ghost<Pos>,
    goal: Pos,
    g: &mut Vec<u32>,
    came: &mut Vec<Option<Pos>>,
    open: &mut Vec<OpenEntry>,
    c: Pos,
    n: Pos,
)
    requires
        map.wf(),
        search_fits(*map),
        core_inv(*map, start, goal, old(g)@, old(came)@, old(open)@),
        frontier_inv(*map, goal, old(g)@, old(open)@, Some(c)),
        map.in_bounds(c),
        finite(*map, old(g)@, c),
        map.in_bounds(n),
        adjacent(c, n),
    ensures
        core_inv(*map, start, goal, final(g)@, final(came)@, final(open)@),
        frontier_inv(*map, goal, final(g)@, final(open)@, Some(c)),
        map.walkable(n) ==> finite(*map, final(g)@, n),
        map.walkable(n) ==> gv(*map, final(g)@, n) <= gv(*map, old(g)@, c) + 1,
        forall|p: Pos|
            #![trigger gv(*map, final(g)@, p)]
            map.in_bounds(p) && finite(*map, old(g)@, p) ==> finite(*map, final(g)@, p),
        forall|p: Pos| #![trigger gv(*map, final(g)@, p)] map.in_bounds(p) ==> gv(*map, final(g)@, p) <= gv(*map, old(g)@, p),
        gv(*map, final(g)@, c) == gv(*map, old(g)@, c),
        2 * sum_all(final(g)@) + final(open)@.len() <= 2 * sum_all(old(g)@) + old(open)@.len(),
{
    let ghost g0 = g@;
    let ghost came0 = came@;
    let ghost open0 = open@;
    let ghost w = map.width;
    let ci = index_of(map, c);
    let cg = g[ci];
    proof {
        lemma_count_bound(g0);
        lemma_manhattan_bound(*map, n, goal);
    }
    if map.is_walkable(n.0, n.1) {
        let ni = index_of(map, n);
        let tentative = cg + 1;
        if tentative < g[ni] {
            let old_gn = g[ni];
            g.set(ni, tentative);
            came.set(ni, Some(c));
            let f = tentative + heuristic(n, goal);
            open.push(OpenEntry { f, pos: n });
            proof {
                let g1 = g@;
                lemma_count_update(g0, ni as int, tentative);
                assert(n != start);
                assert(n != c);
                assert forall|p: Pos|
                    #![trigger gv(*map, g1, p)]
                    #![trigger came@[cell(w, p)]]
                    map.in_bounds(p) && p != n implies gv(*map, g1, p) == gv(
                    *map,
                    g0,
                    p,
                ) && came@[cell(w, p)] == came0[cell(w, p)] by {
                    lemma_cell_in_grid(map.width, map.height, p);
                    lemma_cell_in_grid(map.width, map.height, n);
                    if cell(w, p) == cell(w, n) {
                        lemma_cell_injective(w, p, n);
                    }
                }
                assert(gv(*map, g1, n) == tentative);
                // core invariant: finite positions
                assert forall|p: Pos| #![trigger gv(*map, g1, p)]
                    map.in_bounds(p) && finite(*map, g1, p) implies {
                        &&& 0 <= cell(w, p) < came@.len()
                        &&& map.walkable(p)
                        &&& gv(*map, g1, p) < count_finite(g1)
                        &&& (p == start || came@[cell(w, p)] is Some)
                    } by {
                    lemma_cell_in_grid(map.width, map.height, p);
                    if p != n {
                        assert(gv(*map, g0, p) == gv(*map, g1, p));
                    }
                }
                assert forall|p: Pos| #![trigger came@[cell(w, p)]]
                    map.in_bounds(p) && came@[cell(w, p)] is Some implies parent_ok(
                    *map,
                    g1,
                    came@,
                    p,
                ) by {
                    lemma_cell_in_grid(map.width, map.height, p);
                    if p == n {
                        assert(came@[cell(w, p)] == Some(c));
                        assert(gv(*map, g1, c) == gv(*map, g0, c));
                    } else {
                        assert(gv(*map, g0, p) == gv(*map, g1, p));
                        assert(came@[cell(w, p)] == came0[cell(w, p)]);
                        let q = came0[cell(w, p)].unwrap();
                        assert(parent_ok(*map, g0, came0, p));
                        assert(gv(*map, g0, q) == gv(*map, g0, q));
                        if q != n {
                            assert(gv(*map, g1, q) == gv(*map, g0, q));
                        }
                    }
                }
                assert forall|i: int| #![trigger open@[i]] 0 <= i < open@.len() implies map.in_bounds(
                    open@[i].pos,
                ) && finite(*map, g1, open@[i].pos) && open@[i].f >= gv(*map, g1, open@[i].pos) + manhattan(
                    open@[i].pos,
                    goal,
                ) by {
                    if i < open0.len() {
                        assert(open@[i] == open0[i]);
                        let p = open0[i].pos;
                        assert(finite(*map, g0, p));
                        if p != n {
                            assert(gv(*map, g0, p) == gv(*map, g1, p));
                        }
                    }
                }
                if finite(*map, g1, goal) {
                    if goal == n {
                        assert(open@[open@.len() - 1].pos == goal);
                    } else {
                        assert(gv(*map, g0, goal) == gv(*map, g1, goal));
                        let i = choose|i: int| 0 <= i < open0.len() && open0[i].pos == goal;
                        assert(open@[i] == open0[i]);
                    }
                }
                // frontier
                assert forall|p: Pos| #![trigger gv(*map, g1, p)]
                    map.in_bounds(p) && finite(*map, g1, p) && Some(c) != Some(p) implies exact_entry(
                    *map,
                    goal,
                    g1,
                    open@,
                    p,
                ) || closed(*map, g1, p) by {
                    if p == n {
                        let k = open@.len() - 1;
                        assert(open@[k].pos == p && open@[k].f == gv(*map, g1, p) + manhattan(p, goal));
                    } else {
                        assert(gv(*map, g0, p) == gv(*map, g1, p));
                        if exact_entry(*map, goal, g0, open0, p) {
                            let i = choose|i: int|
                                0 <= i < open0.len() && open0[i].pos == p && open0[i].f == gv(*map, g0, p)
                                    + manhattan(p, goal);
                            assert(open@[i] == open0[i]);
                        } else {
                            assert(closed(*map, g0, p));
                            assert forall|q: Pos| #![trigger gv(*map, g1, q)]
                                map.walkable(q) && adjacent(p, q) implies finite(*map, g1, q) && gv(*map, g1, q) <= gv(
                                *map,
                                g1,
                                p,
                            ) + 1 by {
                                assert(finite(*map, g0, q));
                                assert(gv(*map, g0, q) <= gv(*map, g0, p) + 1);
                                if q != n {
                                    assert(gv(*map, g0, q) == gv(*map, g1, q));
                                }
                            }
                        }
                    }
                }
                lemma_count_bound(g1);
                assert(core_inv(*map, start, goal, g1, came@, open@));
                assert forall|p: Pos| #![trigger gv(*map, g1, p)]
                    map.in_bounds(p) && finite(*map, g0, p) implies finite(*map, g1, p) by {
                    if p != n {
                        assert(gv(*map, g0, p) == gv(*map, g1, p));
                    }
                }
                assert forall|p: Pos| #![trigger gv(*map, g1, p)] map.in_bounds(p) implies gv(*map, g1, p) <= gv(
                    *map,
                    g0,
                    p,
                ) by {
                    if p != n {
                        assert(gv(*map, g0, p) == gv(*map, g1, p));
                    }
                }
            }
        }
    }
}

/// Index of the first entry with the smallest f-score.
fn argmin(open: &Vec<OpenEntry>) -> (i: usize)
    requires
        open@.len() > 0,
    ensures
        i < open@.len(),
        forall|j: int| 0 <= j < open@.len() ==> open@[i as int].f <= #[trigger] open@[j].f,
{
    let mut best: usize = 0;
    let mut k: usize = 1;
    while k < open.len()
        invariant
            0 <= best < k <= open@.len(),
            forall|j: int| 0 <= j < k ==> open@[best as int].f <= #[trigger] open@[j].f,
        decreases open@.len() - k,
    {
        if open[k].f < open[best].f {
            best = k;
        }
        k += 1;
    }
    best
}

proof fn lemma_remove_index(open: Seq<OpenEntry>, i: int, j: int)
    requires
        0 <= i < open.len(),
        0 <= j < open.len(),
        j != i,
    ensures
        ({
            let k = if j < i {
                j
            } else {
                j - 1
            };
            0 <= k < open.remove(i).len() && open.remove(i)[k] == open[j]
        }),
{
}

/// With an empty open set, every finite position is closed, so every walk
/// from the start stays on finite positions.
proof fn lemma_walk_stays_finite(
    map: DungeonMap,
    g: Seq<u32>,
    path: Seq<Pos>,
    k: int,
)
    requires
        is_walk(map, path),
        0 <= k < path.len(),
        finite(map, g, path[0]),
        forall|p: Pos| #![trigger gv(map, g, p)]
            map.in_bounds(p) && finite(map, g, p) ==> closed(map, g, p),
    ensures
        finite(map, g, path[k]),
    decreases k,
{
    if k > 0 {
        lemma_walk_stays_finite(map, g, path, k - 1);
        let p = path[k - 1];
        assert(map.walkable(p));
        assert(adjacent(p, path[k]));
        assert(map.walkable(path[k]));
        assert(closed(map, g, p));
        assert(gv(map, g, path[k]) == gv(map, g, path[k]));
    }
}

/// Facts about a fresh cost table holding only the start position.
proof fn lemma_initial(
    map: DungeonMap,
    start: Pos,
    goal: Pos,
    g: Seq<u32>,
    came: Seq<Option<Pos>>,
    open: Seq<OpenEntry>,
)
    requires
        map.wf(),
        map.in_bounds(start),
        map.in_bounds(goal),
        map.walkable(start),
        start != goal,
        g.len() == map.width as int * map.height as int,
        came.len() == g.len(),
        count_finite(g) == 1,
        forall|j: int| 0 <= j < g.len() && j != cell(map.width, start) ==> g[j] == u32::MAX,
        g[cell(map.width, start)] == 0,
        forall|j: int| 0 <= j < came.len() ==> came[j] is None,
        open.len() == 1,
        open[0].pos == start,
        open[0].f == manhattan(start, goal),
    ensures
        core_inv(map, start, goal, g, came, open),
        frontier_inv(map, goal, g, open, None),
{
    let wd = map.width;
    lemma_cell_in_grid(map.width, map.height, start);
    lemma_count_bound(g);
    assert forall|p: Pos| #![trigger gv(map, g, p)] map.in_bounds(p) && p != start implies gv(map, g, p)
        == u32::MAX by {
        lemma_cell_in_grid(map.width, map.height, p);
        if cell(wd, p) == cell(wd, start) {
            lemma_cell_injective(wd, p, start);
        }
    }
    assert forall|p: Pos| #![trigger came[cell(map.width, p)]]
        map.in_bounds(p) && came[cell(map.width, p)] is Some implies parent_ok(map, g, came, p) by {
        lemma_cell_in_grid(map.width, map.height, p);
    }
    assert(!finite(map, g, goal));
    assert(exact_entry(map, goal, g, open, start)) by {
        assert(open[0].pos == start);
    }
}

/// Popping a non-goal entry keeps the invariants, with the popped position
/// exempt from the frontier property (and not exempt when the entry was stale).
proof fn lemma_after_remove(
    map: DungeonMap,
    start: Pos,
    goal: Pos,
    g: Seq<u32>,
    came: Seq<Option<Pos>>,
    open: Seq<OpenEntry>,
    i: int,
)
    requires
        core_inv(map, start, goal, g, came, open),
        frontier_inv(map, goal, g, open, None),
        0 <= i < open.len(),
        open[i].pos != goal,
    ensures
        core_inv(map, start, goal, g, came, open.remove(i)),
        frontier_inv(map, goal, g, open.remove(i), Some(open[i].pos)),
        open[i].f != gv(map, g, open[i].pos) + manhattan(open[i].pos, goal) ==> frontier_inv(
            map,
            goal,
            g,
            open.remove(i),
            None,
        ),
{
    let o1 = open.remove(i);
    let c = open[i].pos;
    assert forall|j: int| #![trigger o1[j]] 0 <= j < o1.len() implies map.in_bounds(o1[j].pos) && finite(
        map,
        g,
        o1[j].pos,
    ) by {
        let jj = if j < i {
            j
        } else {
            j + 1
        };
        assert(o1[j] == open[jj]);
    }
    if finite(map, g, goal) {
        let j = choose|j: int| 0 <= j < open.len() && open[j].pos == goal;
        lemma_remove_index(open, i, j);
    }
    assert forall|p: Pos| #![trigger gv(map, g, p)]
        map.in_bounds(p) && finite(map, g, p) && (Some(c) != Some(p) || open[i].f != gv(map, g, c)
            + manhattan(c, goal)) implies exact_entry(map, goal, g, o1, p) || closed(map, g, p) by {
        if exact_entry(map, goal, g, open, p) {
            let j = choose|j: int|
                0 <= j < open.len() && open[j].pos == p && open[j].f == gv(map, g, p) + manhattan(p, goal);
            lemma_remove_index(open, i, j);
            let k = if j < i {
                j
            } else {
                j - 1
            };
            assert(o1[k] == open[j]);
        }
    }
}

/// Follow the recorded parents back from the goal to the start.
fn reconstruct(
    map: &DungeonMap,
    Ghost(start): Ghost<Pos>,
    goal: Pos,
    g_score: &Vec<u32>,
    came_from: &Vec<Option<Pos>>,
    Ghost(open): Ghost<Seq<OpenEntry>>,
) -> (path: Vec<Pos>)
    requires
        map.wf(),
        core_inv(*map, start, goal, g_score@, came_from@, open),
        finite(*map, g_score@, goal),
    ensures
        connects(*map, path@, start, goal),
        path@.len() <= gv(*map, g_score@, goal) + 1,
{
    let mut back: Vec<Pos> = Vec::new();
    let mut pos = goal;
    back.push(pos);
    loop
        invariant
            map.wf(),
            core_inv(*map, start, goal, g_score@, came_from@, open),
            back@.len() >= 1,
            back@[0] == goal,
            back@[back@.len() - 1] == pos,
            map.in_bounds(pos),
            finite(*map, g_score@, pos),
            is_walk(*map, back@),
            back@.len() + gv(*map, g_score@, pos) <= gv(*map, g_score@, goal) + 1,
        ensures
            came_from@[cell(map.width, pos)] is None,
        decreases gv(*map, g_score@, pos),
    {
        let pi = index_of(map, pos);
        match came_from[pi] {
            Some(prev) => {
                proof {
                    assert(parent_ok(*map, g_score@, came_from@, pos));
                }
                let ghost b0 = back@;
                back.push(prev);
                pos = prev;
                proof {
                    assert(gv(*map, g_score@, prev) == gv(*map, g_score@, prev));
                    assert forall|k: int| 0 <= k < back@.len() implies map.walkable(#[trigger] back@[k]) by {
                        if k < b0.len() {
                            assert(back@[k] == b0[k]);
                        }
                    }
                    assert forall|k: int| 0 <= k < back@.len() - 1 implies adjacent(
                        #[trigger] back@[k],
                        back@[k + 1],
                    ) by {
                        if k < b0.len() - 1 {
                            assert(back@[k] == b0[k]);
                            assert(back@[k + 1] == b0[k + 1]);
                        }
                    }
                }
            },
            None => {
                break ;
            },
        }
    }
    assert(gv(*map, g_score@, pos) == gv(*map, g_score@, pos));
    assert(pos == start);
    // Reverse into the final path
    let mut path: Vec<Pos> = Vec::new();
    let n = back.len();
    let mut j: usize = n;
    while j > 0
        invariant
            n == back@.len(),
            j <= n,
            path@.len() == n - j,
            forall|k: int| 0 <= k < n - j ==> #[trigger] path@[k] == back@[n - 1 - k],
        decreases j,
    {
        j -= 1;
        path.push(back[j]);
    }
    proof {
        assert forall|k: int| 0 <= k < path@.len() implies map.walkable(#[trigger] path@[k]) by {
            assert(path@[k] == back@[n - 1 - k]);
        }
        assert forall|k: int| 0 <= k < path@.len() - 1 implies adjacent(#[trigger] path@[k], path@[k + 1]) by {
            assert(path@[k] == back@[n - 1 - k]);
            assert(path@[k + 1] == back@[n - 1 - (k + 1)]);
            assert(adjacent(back@[n - 1 - (k + 1)], back@[n - 1 - k]));
        }
        assert(path@[0] == back@[n - 1]);
        assert(path@[n - 1] == back@[0]);
    }
    path
}

/// With an empty open set the goal is unreachable.
proof fn lemma_exhausted(
    map: DungeonMap,
    start: Pos,
    goal: Pos,
    g: Seq<u32>,
    came: Seq<Option<Pos>>,
    open: Seq<OpenEntry>,
)
    requires
        core_inv(map, start, goal, g, came, open),
        frontier_inv(map, goal, g, open, None),
        open.len() == 0,
    ensures
        !reachable(map, start, goal),
{
    assert(!finite(map, g, goal));
    assert forall|p: Pos| #![trigger gv(map, g, p)] map.in_bounds(p) && finite(map, g, p) implies closed(
        map,
        g,
        p,
    ) by {
        if exact_entry(map, goal, g, open, p) {
        }
    }
    if reachable(map, start, goal) {
        let path = choose|path: Seq<Pos>| connects(map, path, start, goal);
        lemma_walk_stays_finite(map, g, path, path.len() - 1);
    }
}

/// Along a walk of `k + 1` tiles the estimate to the goal drops by at most `k`.
proof fn lemma_walk_estimate(map: DungeonMap, q: Seq<Pos>, goal: Pos, j: int)
    requires
        is_walk(map, q),
        q.len() > 0,
        q[q.len() - 1] == goal,
        0 <= j < q.len(),
    ensures
        manhattan(q[j], goal) <= q.len() - 1 - j,
    decreases q.len() - j,
{
    if j < q.len() - 1 {
        lemma_walk_estimate(map, q, goal, j + 1);
        assert(adjacent(q[j], q[j + 1]));
    }
}

/// Walking from the start, each tile is reached at a cost no more than its
/// place on the walk, until some tile is queued at its current cost.
proof fn lemma_walk_cost(map: DungeonMap, start: Pos, goal: Pos, g: Seq<u32>, came: Seq<Option<Pos>>, open: Seq<OpenEntry>, q: Seq<Pos>, k: int)
    requires
        core_inv(map, start, goal, g, came, open),
        frontier_inv(map, goal, g, open, None),
        is_walk(map, q),
        q.len() > 0,
        q[0] == start,
        0 <= k < q.len(),
    ensures
        (exists|j: int| 0 <= j <= k && finite(map, g, q[j]) && gv(map, g, q[j]) <= j && #[trigger] exact_entry(map, goal, g, open, q[j]))
            || (finite(map, g, q[k]) && gv(map, g, q[k]) <= k),
    decreases k,
{
    if k > 0 {
        lemma_walk_cost(map, start, goal, g, came, open, q, k - 1);
        let p = q[k - 1];
        if !(exists|j: int| 0 <= j <= k - 1 && finite(map, g, q[j]) && gv(map, g, q[j]) <= j && #[trigger] exact_entry(map, goal, g, open, q[j])) {
            assert(finite(map, g, p) && gv(map, g, p) <= k - 1);
            assert(map.walkable(p));
            if exact_entry(map, goal, g, open, p) {
                assert(finite(map, g, q[k - 1]) && gv(map, g, q[k - 1]) <= k - 1 && exact_entry(map, goal, g, open, q[k - 1]));
            } else {
                assert(closed(map, g, p));
                assert(adjacent(p, q[k]));
                assert(map.walkable(q[k]));
                assert(gv(map, g, q[k]) == gv(map, g, q[k]));
            }
        }
    }
}

/// When the goal comes off the open set with the smallest f-score, its
/// cost is no more than the length of any walk to it.
proof fn lemma_goal_optimal(map: DungeonMap, start: Pos, goal: Pos, g: Seq<u32>, came: Seq<Option<Pos>>, open: Seq<OpenEntry>, i: int, q: Seq<Pos>)
    requires
        core_inv(map, start, goal, g, came, open),
        frontier_inv(map, goal, g, open, None),
        0 <= i < open.len(),
        open[i].pos == goal,
        forall|j: int| 0 <= j < open.len() ==> open[i].f <= #[trigger] open[j].f,
        connects(map, q, start, goal),
    ensures
        gv(map, g, goal) + 1 <= q.len(),
{
    let k = q.len() - 1;
    lemma_walk_cost(map, start, goal, g, came, open, q, k);
    assert(open[i] == open[i]);
    if exists|j: int| 0 <= j <= k && finite(map, g, q[j]) && gv(map, g, q[j]) <= j && #[trigger] exact_entry(map, goal, g, open, q[j]) {
        let j = choose|j: int| 0 <= j <= k && finite(map, g, q[j]) && gv(map, g, q[j]) <= j && #[trigger] exact_entry(map, goal, g, open, q[j]);
        let e = choose|e: int| 0 <= e < open.len() && open[e].pos == q[j] && open[e].f == gv(map, g, q[j]) + manhattan(q[j], goal);
        lemma_walk_estimate(map, q, goal, j);
        assert(open[i].f <= open[e].f);
    }
}

/// A path no longer than the goal's cost plus one is no longer than any walk.
proof fn lemma_path_optimal(map: DungeonMap, start: Pos, goal: Pos, g: Seq<u32>, came: Seq<Option<Pos>>, open: Seq<OpenEntry>, i: int, path: Seq<Pos>)
    requires
        core_inv(map, start, goal, g, came, open),
        frontier_inv(map, goal, g, open, None),
        0 <= i < open.len(),
        open[i].pos == goal,
        forall|j: int| 0 <= j < open.len() ==> open[i].f <= #[trigger] open[j].f,
        path.len() <= gv(map, g, goal) + 1,
    ensures
        forall|q: Seq<Pos>| #[trigger] connects(map, q, start, goal) ==> path.len() <= q.len(),
{
    assert forall|q: Seq<Pos>| #[trigger] connects(map, q, start, goal) implies path.len() <= q.len() by {
        lemma_goal_optimal(map, start, goal, g, came, open, i, q);
    }
}

/// Find a path from `start` to `goal` on the dungeon grid using A*.
/// Returns `None` if no path exists.
#[verifier::spinoff_prover]
#[verifier::rlimit(50)]
pub fn find_path(map: &DungeonMap, start: Pos, goal: Pos) -> (r: Option<Vec<Pos>>)
    requires
        map.wf(),
        search_fits(*map),
    ensures
        start == goal ==> (r matches Some(p) && p@ == seq![start]),
        start != goal ==> (r is Some <==> reachable(*map, start, goal)),
        start != goal ==> (r matches Some(p) ==> connects(*map, p@, start, goal)),
        r matches Some(p) ==> forall|q: Seq<Pos>| #[trigger] connects(*map, q, start, goal) ==> p@.len() <= q.len(),
{
    if start.0 == goal.0 && start.1 == goal.1 {
        return Some(vec![start]);
    }
    if !map.is_walkable(start.0, start.1) || !map.is_walkable(goal.0, goal.1) {
        proof {
            if reachable(*map, start, goal) {
                let path = choose|path: Seq<Pos>| connects(*map, path, start, goal);
                assert(map.walkable(path[0]));
                assert(map.walkable(path[path.len() - 1]));
            }
        }
        return None;
    }
    let w = map.width as usize;
    let h = map.height as usize;
    let size = w * h;

    // g_score: best cost from start to this node; came_from: parent node
    let mut g_score: Vec<u32> = Vec::new();
    let mut came_from: Vec<Option<Pos>> = Vec::new();
    let mut k: usize = 0;
    while k < size
        invariant
            size == map.width as int * map.height as int,
            k <= size,
            g_score@.len() == k,
            came_from@.len() == k,
            count_finite(g_score@) == 0,
            forall|j: int| 0 <= j < k ==> g_score@[j] == u32::MAX,
            forall|j: int| 0 <= j < k ==> came_from@[j] is None,
        decreases size - k,
    {
        proof {
            lemma_count_push(g_score@, u32::MAX);
        }
        g_score.push(u32::MAX);
        came_from.push(None);
        k += 1;
    }
    let si = index_of(map, start);
    proof {
        lemma_count_update(g_score@, si as int, 0);
        lemma_manhattan_bound(*map, start, goal);
    }
    g_score.set(si, 0);
    let mut open: Vec<OpenEntry> = Vec::new();
    open.push(OpenEntry { f: heuristic(start, goal), pos: start });
    proof {
        lemma_initial(*map, start, goal, g_score@, came_from@, open@);
    }
    loop
        invariant
            map.wf(),
            search_fits(*map),
            start != goal,
            core_inv(*map, start, goal, g_score@, came_from@, open@),
            frontier_inv(*map, goal, g_score@, open@, None),
        decreases 2 * sum_all(g_score@) + open@.len(),
    {
        if open.len() == 0 {
            proof {
                lemma_exhausted(*map, start, goal, g_score@, came_from@, open@);
            }
            return None;
        }
        let ghost g0 = g_score@;
        let ghost open0 = open@;
        let i = argmin(&open);
        let current = open.remove(i);
        let c = current.pos;
        assert(open0[i as int] == current);

        if c.0 == goal.0 && c.1 == goal.1 {
            let path = reconstruct(map, Ghost(start), goal, &g_score, &came_from, Ghost(open0));
            proof {
                lemma_path_optimal(*map, start, goal, g0, came_from@, open0, i as int, path@);
            }
            return Some(path);
        }
        proof {
            lemma_after_remove(*map, start, goal, g0, came_from@, open0, i as int);
            lemma_count_bound(g0);
            lemma_manhattan_bound(*map, c, goal);
        }
        let ci = index_of(map, c);
        let current_g = g_score[ci];
        let hc = heuristic(c, goal);

        // Skip if we've already found a better path to this node
        if current.f > current_g + hc + 1 {
            continue ;
        }
        let (cx, cy) = c;
        if cy > 0 {
            relax(map, Ghost(start), goal, &mut g_score, &mut came_from, &mut open, c, (cx, cy - 1));
        }
        if cy + 1 < map.height {
            relax(map, Ghost(start), goal, &mut g_score, &mut came_from, &mut open, c, (cx, cy + 1));
        }
        if cx > 0 {
            relax(map, Ghost(start), goal, &mut g_score, &mut came_from, &mut open, c, (cx - 1, cy));
        }
        if cx + 1 < map.width {
            relax(map, Ghost(start), goal, &mut g_score, &mut came_from, &mut open, c, (cx + 1, cy));
        }
        proof {
            let g1 = g_score@;
            assert(gv(*map, g1, c) == gv(*map, g0, c));
            assert forall|q: Pos| #![trigger gv(*map, g1, q)]
                map.walkable(q) && adjacent(c, q) implies finite(*map, g1, q) by {
            }
            assert(closed(*map, g1, c));
        }
    }
}

} // verus!
