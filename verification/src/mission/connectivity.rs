//! Why every room of a generated dungeon can be walked to from the entrance:
//! walks over the room graph, walks over tiles, and how corridors turn the
//! first into the second.

use vstd::prelude::*;

use super::dungeon::{
    adjacent, corridor_ok, edge_between, h_segment_walkable, l_path_walkable, v_segment_walkable, DungeonMap, Pos, Room,
};
use super::pathfinding::{connects, is_walk, reachable};

verus! {

/// `p` is a walk over the room graph from room `a` to room `b`.
pub open spec fn graph_walk(edges: Seq<(usize, usize)>, p: Seq<usize>, a: usize, b: usize) -> bool {
    &&& p.len() >= 1
    &&& p[0] == a
    &&& p[p.len() - 1] == b
    &&& forall|k: int| 0 <= k < p.len() - 1 ==> edge_between(edges, #[trigger] p[k], p[k + 1])
}

/// Rooms `a` and `b` are joined by some walk over the room graph.
pub open spec fn linked(edges: Seq<(usize, usize)>, a: usize, b: usize) -> bool {
    exists|p: Seq<usize>| graph_walk(edges, p, a, b)
}

/// Every two rooms of `s` are linked.
pub open spec fn all_linked(edges: Seq<(usize, usize)>, s: Seq<usize>) -> bool {
    forall|a: int, b: int| 0 <= a < s.len() && 0 <= b < s.len() ==> #[trigger] linked(edges, s[a], s[b])
}

/// Two groups of rooms, each linked within itself, are all linked once an
/// edge joins a room of one to a room of the other.
pub proof fn lemma_join_groups(edges: Seq<(usize, usize)>, l: Seq<usize>, r: Seq<usize>, i: int, j: int)
    requires
        all_linked(edges, l),
        all_linked(edges, r),
        0 <= i < l.len(),
        0 <= j < r.len(),
        edge_between(edges, l[i], r[j]),
    ensures
        all_linked(edges, l + r),
{
    let s = l + r;
    lemma_linked_edge(edges, l[i], r[j]);
    assert(edge_between(edges, r[j], l[i]));
    lemma_linked_edge(edges, r[j], l[i]);
    assert forall|a: int, b: int| 0 <= a < s.len() && 0 <= b < s.len() implies #[trigger] linked(edges, s[a], s[b]) by {
        if a < l.len() && b < l.len() {
            assert(linked(edges, l[a], l[b]));
        } else if a >= l.len() && b >= l.len() {
            assert(linked(edges, r[a - l.len()], r[b - l.len()]));
        } else if a < l.len() {
            assert(linked(edges, l[a], l[i]));
            assert(linked(edges, r[j], r[b - l.len()]));
            lemma_linked_trans(edges, l[a], l[i], r[j]);
            lemma_linked_trans(edges, l[a], r[j], r[b - l.len()]);
        } else {
            assert(linked(edges, r[a - l.len()], r[j]));
            assert(linked(edges, l[i], l[b]));
            lemma_linked_trans(edges, r[a - l.len()], r[j], l[i]);
            lemma_linked_trans(edges, r[a - l.len()], l[i], l[b]);
        }
    }
}

/// Groups stay linked when edges are added after the others.
pub proof fn lemma_all_linked_extend(e: Seq<(usize, usize)>, f: Seq<(usize, usize)>, s: Seq<usize>)
    requires
        all_linked(e, s),
        e.len() <= f.len(),
        f.subrange(0, e.len() as int) == e,
    ensures
        all_linked(f, s),
{
    assert forall|a: int, b: int| 0 <= a < s.len() && 0 <= b < s.len() implies #[trigger] linked(f, s[a], s[b]) by {
        assert(linked(e, s[a], s[b]));
        lemma_linked_extend(e, f, s[a], s[b]);
    }
}

pub proof fn lemma_linked_refl(edges: Seq<(usize, usize)>, a: usize)
    ensures
        linked(edges, a, a),
{
    assert(graph_walk(edges, seq![a], a, a));
}

pub proof fn lemma_linked_edge(edges: Seq<(usize, usize)>, a: usize, b: usize)
    requires
        edge_between(edges, a, b),
    ensures
        linked(edges, a, b),
{
    let p = seq![a, b];
    assert(p[0] == a && p[1] == b);
    assert(graph_walk(edges, p, a, b));
}

pub proof fn lemma_linked_trans(edges: Seq<(usize, usize)>, a: usize, b: usize, c: usize)
    requires
        linked(edges, a, b),
        linked(edges, b, c),
    ensures
        linked(edges, a, c),
{
    let p = choose|p: Seq<usize>| graph_walk(edges, p, a, b);
    let q = choose|q: Seq<usize>| graph_walk(edges, q, b, c);
    let r = p + q.drop_first();
    assert forall|k: int| 0 <= k < r.len() - 1 implies edge_between(edges, #[trigger] r[k], r[k + 1]) by {
        if k < p.len() - 1 {
            assert(r[k] == p[k] && r[k + 1] == p[k + 1]);
        } else {
            let j = k - (p.len() - 1);
            assert(r[k] == q[j]);
            assert(r[k + 1] == q[j + 1]);
        }
    }
    if q.len() == 1 {
        assert(r =~= p);
    } else {
        assert(r[r.len() - 1] == q[q.len() - 1]);
    }
    assert(graph_walk(edges, r, a, c));
}

/// Walks stay walks when edges are added after the others.
pub proof fn lemma_linked_extend(e: Seq<(usize, usize)>, f: Seq<(usize, usize)>, a: usize, b: usize)
    requires
        linked(e, a, b),
        e.len() <= f.len(),
        f.subrange(0, e.len() as int) == e,
    ensures
        linked(f, a, b),
{
    let p = choose|p: Seq<usize>| graph_walk(e, p, a, b);
    assert forall|k: int| 0 <= k < p.len() - 1 implies edge_between(f, #[trigger] p[k], p[k + 1]) by {
        assert(edge_between(e, p[k], p[k + 1]));
        let j = choose|j: int| 0 <= j < e.len() && (e[j] == (p[k], p[k + 1]) || e[j] == (p[k + 1], p[k]));
        assert(f[j] == f.subrange(0, e.len() as int)[j]);
    }
    assert(graph_walk(f, p, a, b));
}

pub proof fn lemma_reach_trans(map: DungeonMap, p: Pos, q: Pos, r: Pos)
    requires
        reachable(map, p, q),
        reachable(map, q, r),
    ensures
        reachable(map, p, r),
{
    let a = choose|a: Seq<Pos>| connects(map, a, p, q);
    let b = choose|b: Seq<Pos>| connects(map, b, q, r);
    let c = a + b.drop_first();
    assert forall|k: int| 0 <= k < c.len() implies map.walkable(#[trigger] c[k]) by {
        if k < a.len() {
            assert(c[k] == a[k]);
        } else {
            assert(c[k] == b[k - a.len() + 1]);
        }
    }
    assert forall|k: int| 0 <= k < c.len() - 1 implies adjacent(#[trigger] c[k], c[k + 1]) by {
        if k < a.len() - 1 {
            assert(c[k] == a[k] && c[k + 1] == a[k + 1]);
        } else {
            let j = k - (a.len() - 1);
            assert(c[k] == b[j]);
            assert(c[k + 1] == b[j + 1]);
        }
    }
    if b.len() == 1 {
        assert(c =~= a);
    } else {
        assert(c[c.len() - 1] == b[b.len() - 1]);
    }
    assert(connects(map, c, p, r));
}

pub proof fn lemma_reach_sym(map: DungeonMap, p: Pos, q: Pos)
    requires
        reachable(map, p, q),
    ensures
        reachable(map, q, p),
{
    let a = choose|a: Seq<Pos>| connects(map, a, p, q);
    let n = a.len();
    let b = Seq::new(n, |k: int| a[n - 1 - k]);
    assert forall|k: int| 0 <= k < b.len() implies map.walkable(#[trigger] b[k]) by {
        assert(map.walkable(a[n - 1 - k]));
    }
    assert forall|k: int| 0 <= k < b.len() - 1 implies adjacent(#[trigger] b[k], b[k + 1]) by {
        assert(adjacent(a[n - 2 - k], a[n - 1 - k]));
    }
    assert(connects(map, b, q, p));
}

/// A walkable horizontal segment joins its ends, walking from the lower end up.
proof fn lemma_h_run(map: DungeonMap, x1: u32, x2: u32, y: u32)
    requires
        x1 <= x2,
        h_segment_walkable(map, x1, x2, y),
    ensures
        reachable(map, (x1, y), (x2, y)),
{
    let n = (x2 - x1 + 1) as nat;
    let path = Seq::new(n, |i: int| ((x1 + i) as u32, y));
    assert forall|k: int| 0 <= k < path.len() implies map.walkable(#[trigger] path[k]) by {
        let x = (x1 + k) as u32;
        assert(x1 <= x <= x2);
        assert(map.walkable((x, y)));
    }
    assert forall|k: int| 0 <= k < path.len() - 1 implies adjacent(#[trigger] path[k], path[k + 1]) by {
        assert(path[k] == ((x1 + k) as u32, y));
        assert(path[k + 1] == ((x1 + k + 1) as u32, y));
    }
    assert(path[n - 1] == (x2, y));
    assert(connects(map, path, (x1, y), (x2, y)));
}

/// A walkable vertical segment joins its ends, walking from the lower end up.
proof fn lemma_v_run(map: DungeonMap, y1: u32, y2: u32, x: u32)
    requires
        y1 <= y2,
        v_segment_walkable(map, y1, y2, x),
    ensures
        reachable(map, (x, y1), (x, y2)),
{
    let n = (y2 - y1 + 1) as nat;
    let path = Seq::new(n, |i: int| (x, (y1 + i) as u32));
    assert forall|k: int| 0 <= k < path.len() implies map.walkable(#[trigger] path[k]) by {
        let y = (y1 + k) as u32;
        assert(y1 <= y <= y2);
        assert(map.walkable((x, y)));
    }
    assert forall|k: int| 0 <= k < path.len() - 1 implies adjacent(#[trigger] path[k], path[k + 1]) by {
        assert(path[k] == (x, (y1 + k) as u32));
        assert(path[k + 1] == (x, (y1 + k + 1) as u32));
    }
    assert(path[n - 1] == (x, y2));
    assert(connects(map, path, (x, y1), (x, y2)));
}

proof fn lemma_h_segment(map: DungeonMap, x1: u32, x2: u32, y: u32)
    requires
        h_segment_walkable(map, x1, x2, y),
    ensures
        reachable(map, (x1, y), (x2, y)),
{
    if x1 <= x2 {
        lemma_h_run(map, x1, x2, y);
    } else {
        assert forall|x: u32| (x2 <= x <= x1 || x1 <= x <= x2) implies #[trigger] map.walkable((x, y)) by {
            assert(x1 <= x <= x2 || x2 <= x <= x1);
        }
        lemma_h_run(map, x2, x1, y);
        lemma_reach_sym(map, (x2, y), (x1, y));
    }
}

proof fn lemma_v_segment(map: DungeonMap, y1: u32, y2: u32, x: u32)
    requires
        v_segment_walkable(map, y1, y2, x),
    ensures
        reachable(map, (x, y1), (x, y2)),
{
    if y1 <= y2 {
        lemma_v_run(map, y1, y2, x);
    } else {
        assert forall|y: u32| (y2 <= y <= y1 || y1 <= y <= y2) implies #[trigger] map.walkable((x, y)) by {
            assert(y1 <= y <= y2 || y2 <= y <= y1);
        }
        lemma_v_run(map, y2, y1, x);
        lemma_reach_sym(map, (x, y2), (x, y1));
    }
}

/// A walkable L-shaped corridor joins its ends.
pub proof fn lemma_l_path(map: DungeonMap, x1: u32, y1: u32, x2: u32, y2: u32)
    requires
        l_path_walkable(map, x1, y1, x2, y2),
    ensures
        reachable(map, (x1, y1), (x2, y2)),
{
    if h_segment_walkable(map, x1, x2, y1) && v_segment_walkable(map, y1, y2, x2) {
        lemma_h_segment(map, x1, x2, y1);
        lemma_v_segment(map, y1, y2, x2);
        lemma_reach_trans(map, (x1, y1), (x2, y1), (x2, y2));
    } else {
        lemma_v_segment(map, y1, y2, x1);
        lemma_h_segment(map, x1, x2, y2);
        lemma_reach_trans(map, (x1, y1), (x1, y2), (x2, y2));
    }
}

/// The tile at the center of a room.
pub open spec fn center_pos(r: Room) -> Pos {
    (r.spec_center().0 as u32, r.spec_center().1 as u32)
}

/// Every edge of `edges` is a walkable corridor between its rooms' centers.
pub open spec fn all_corridors(map: DungeonMap, edges: Seq<(usize, usize)>) -> bool {
    &&& forall|k: int| 0 <= k < edges.len() ==> (#[trigger] edges[k]).0 < map.rooms@.len() && edges[k].1 < map.rooms@.len()
    &&& forall|k: int| 0 <= k < edges.len() ==> corridor_ok(map, (#[trigger] edges[k]).0, edges[k].1)
}

/// Rooms joined by an edge have centers joined by a walk over tiles.
proof fn lemma_edge_reach(map: DungeonMap, edges: Seq<(usize, usize)>, a: usize, b: usize)
    requires
        all_corridors(map, edges),
        edge_between(edges, a, b),
    ensures
        reachable(map, center_pos(map.rooms@[a as int]), center_pos(map.rooms@[b as int])),
{
    let k = choose|k: int| 0 <= k < edges.len() && (edges[k] == (a, b) || edges[k] == (b, a));
    let e = edges[k];
    assert(corridor_ok(map, e.0, e.1));
    let (ax, ay) = map.rooms@[e.0 as int].spec_center();
    let (bx, by) = map.rooms@[e.1 as int].spec_center();
    lemma_l_path(map, ax as u32, ay as u32, bx as u32, by as u32);
    if e != (a, b) {
        lemma_reach_sym(map, center_pos(map.rooms@[b as int]), center_pos(map.rooms@[a as int]));
    }
}

/// Rooms joined by a walk of at least one edge have centers joined by a
/// walk over tiles.
proof fn lemma_graph_walk_reach(map: DungeonMap, edges: Seq<(usize, usize)>, p: Seq<usize>, a: usize, b: usize)
    requires
        all_corridors(map, edges),
        graph_walk(edges, p, a, b),
        p.len() >= 2,
    ensures
        reachable(map, center_pos(map.rooms@[a as int]), center_pos(map.rooms@[b as int])),
    decreases p.len(),
{
    let n = p.len();
    let m = p[n - 2];
    assert(edge_between(edges, p[n - 2], p[n - 1]));
    lemma_edge_reach(map, edges, m, b);
    if n > 2 {
        let q = p.drop_last();
        assert forall|k: int| 0 <= k < q.len() - 1 implies edge_between(edges, #[trigger] q[k], q[k + 1]) by {
            assert(q[k] == p[k] && q[k + 1] == p[k + 1]);
            assert(edge_between(edges, p[k], p[k + 1]));
        }
        assert(graph_walk(edges, q, a, m));
        lemma_graph_walk_reach(map, edges, q, a, m);
        lemma_reach_trans(map, center_pos(map.rooms@[a as int]), center_pos(map.rooms@[m as int]), center_pos(map.rooms@[b as int]));
    }
}

/// With every room linked to room 0 and every edge a walkable corridor, the
/// center of every room can be walked to from the center of room 0.
pub proof fn lemma_rooms_reachable(map: DungeonMap, edges: Seq<(usize, usize)>)
    requires
        all_corridors(map, edges),
        map.rooms@.len() >= 2,
        forall|j: usize| j < map.rooms@.len() ==> #[trigger] linked(edges, 0, j),
    ensures
        forall|i: usize| i < map.rooms@.len() ==> #[trigger] reachable(
            map,
            center_pos(map.rooms@[0]),
            center_pos(map.rooms@[i as int]),
        ),
{
    assert(linked(edges, 0, 1usize));
    let p1 = choose|p: Seq<usize>| graph_walk(edges, p, 0, 1usize);
    if p1.len() < 2 {
        assert(p1[0] == p1[p1.len() - 1]);
    }
    lemma_graph_walk_reach(map, edges, p1, 0, 1);
    assert forall|i: usize| i < map.rooms@.len() implies #[trigger] reachable(
        map,
        center_pos(map.rooms@[0]),
        center_pos(map.rooms@[i as int]),
    ) by {
        if i == 0 {
            lemma_reach_sym(map, center_pos(map.rooms@[0]), center_pos(map.rooms@[1]));
            lemma_reach_trans(map, center_pos(map.rooms@[0]), center_pos(map.rooms@[1]), center_pos(map.rooms@[0]));
        } else {
            assert(linked(edges, 0, i));
            let p = choose|p: Seq<usize>| graph_walk(edges, p, 0, i);
            if p.len() < 2 {
                assert(p[0] == p[p.len() - 1]);
            }
            lemma_graph_walk_reach(map, edges, p, 0, i);
        }
    }
}

} // verus!
