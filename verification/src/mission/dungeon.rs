//! Dungeon maps: tiles, rooms and the grid queries that the simulation uses.

use vstd::prelude::*;

use super::connectivity::{
    all_corridors, all_linked, center_pos, lemma_all_linked_extend, lemma_join_groups, lemma_linked_refl, lemma_rooms_reachable,
    linked,
};
use super::pathfinding::reachable;
use crate::rng::{random_index, random_ratio, random_u32, random_u32_inclusive};
use rand::rngs::StdRng;

verus! {

/// Tile types in the dungeon grid.
#[derive(Debug, Clone, Copy, PartialEq, Eq, Structural)]
pub enum Tile {
    Wall,
    Floor,
    Door,
    Corridor,
}

/// What kind of room this is.
#[derive(Debug, Clone, Copy, PartialEq, Eq, Structural)]
pub enum RoomType {
    Normal,
    Entrance,
    Boss,
    Treasure,
}

/// A room in the dungeon: a rectangle of the grid.
#[derive(Debug, Clone, Copy)]
pub struct Room {
    pub x: u32,
    pub y: u32,
    pub w: u32,
    pub h: u32,
    pub room_type: RoomType,
}

/// A grid position `(x, y)`.
pub type Pos = (u32, u32);

impl Room {
    /// The center tile of the room, as integers.
    pub open spec fn spec_center(&self) -> (int, int) {
        (self.x + self.w / 2, self.y + self.h / 2)
    }

    /// Whether `(x, y)` lies inside the room's rectangle.
    pub open spec fn contains(&self, x: int, y: int) -> bool {
        self.x <= x < self.x + self.w && self.y <= y < self.y + self.h
    }

    /// The center tile of the room.
    pub fn center(&self) -> (c: Pos)
        requires
            self.x + self.w / 2 <= u32::MAX,
            self.y + self.h / 2 <= u32::MAX,
        ensures
            c.0 == self.spec_center().0,
            c.1 == self.spec_center().1,
    {
        (self.x + self.w / 2, self.y + self.h / 2)
    }
}

/// A generated dungeon: a row-major grid of tiles plus the rooms carved in it.
#[derive(Debug, Clone)]
pub struct DungeonMap {
    pub width: u32,
    pub height: u32,
    pub tiles: Vec<Tile>,
    pub rooms: Vec<Room>,
}

/// Whether a tile can be walked on.
pub open spec fn tile_walkable(t: Tile) -> bool {
    t == Tile::Floor || t == Tile::Door || t == Tile::Corridor
}

/// Row-major index of a cell.
pub open spec fn cell(width: u32, p: Pos) -> int {
    p.1 as int * width as int + p.0 as int
}

/// Two positions are four-neighbours.
pub open spec fn adjacent(p: Pos, q: Pos) -> bool {
    ||| (p.0 == q.0 && (p.1 + 1 == q.1 || q.1 + 1 == p.1))
    ||| (p.1 == q.1 && (p.0 + 1 == q.0 || q.0 + 1 == p.0))
}

/// Manhattan distance between two positions.
pub open spec fn manhattan(a: Pos, b: Pos) -> int {
    (if a.0 >= b.0 { a.0 - b.0 } else { b.0 - a.0 }) + (if a.1 >= b.1 { a.1 - b.1 } else { b.1 - a.1 })
}

/// The cell index of an in-bounds position lies inside the grid.
pub proof fn lemma_cell_in_grid(width: u32, height: u32, p: Pos)
    requires
        p.0 < width,
        p.1 < height,
    ensures
        0 <= cell(width, p) < (width as int) * (height as int),
{
    assert((p.1 as int) * (width as int) + (p.0 as int) < (width as int) * (height as int)) by (nonlinear_arith)
        requires
            p.0 < width,
            p.1 < height,
    ;
    assert(p.1 as int * width as int >= 0) by (nonlinear_arith);
}

/// Distinct in-bounds positions have distinct cell indices.
pub proof fn lemma_cell_injective(width: u32, p: Pos, q: Pos)
    requires
        p.0 < width,
        q.0 < width,
        cell(width, p) == cell(width, q),
    ensures
        p == q,
{
    if p.1 < q.1 {
        assert(p.1 as int * width as int + width as int <= q.1 as int * width as int) by (nonlinear_arith)
            requires
                p.1 < q.1,
        ;
    } else if q.1 < p.1 {
        assert(q.1 as int * width as int + width as int <= p.1 as int * width as int) by (nonlinear_arith)
            requires
                q.1 < p.1,
        ;
    }
}

impl DungeonMap {
    /// Well-formed: the tile vector covers the grid, whose size fits in `u32`.
    pub open spec fn wf(&self) -> bool {
        &&& self.tiles@.len() == self.width as int * self.height as int
        &&& self.width as int * self.height as int <= u32::MAX
    }

    /// Whether `(x, y)` lies on the grid.
    pub open spec fn in_bounds(&self, p: Pos) -> bool {
        p.0 < self.width && p.1 < self.height
    }

    /// The tile at `p`: out of bounds reads as a wall.
    pub open spec fn tile_at(&self, p: Pos) -> Tile {
        if self.in_bounds(p) {
            self.tiles@[cell(self.width, p)]
        } else {
            Tile::Wall
        }
    }

    /// Whether `p` is an in-bounds, non-wall tile.
    pub open spec fn walkable(&self, p: Pos) -> bool {
        tile_walkable(self.tile_at(p))
    }

    /// The tiles after setting `p` to `t` (nothing changes out of bounds).
    pub open spec fn tiles_after_set(&self, p: Pos, t: Tile) -> Seq<Tile> {
        if self.in_bounds(p) {
            self.tiles@.update(cell(self.width, p), t)
        } else {
            self.tiles@
        }
    }

    /// Get the tile at (x, y). Returns Wall if out of bounds.
    pub fn get(&self, x: u32, y: u32) -> (t: Tile)
        requires
            self.wf(),
        ensures
            t == self.tile_at((x, y)),
    {
        if x >= self.width || y >= self.height {
            return Tile::Wall;
        }
        proof {
            lemma_cell_in_grid(self.width, self.height, (x, y));
        }
        self.tiles[(y * self.width + x) as usize]
    }

    /// Set the tile at (x, y); nothing happens out of bounds.
    pub fn set(&mut self, x: u32, y: u32, tile: Tile)
        requires
            old(self).wf(),
        ensures
            final(self).wf(),
            final(self).tiles@ == old(self).tiles_after_set((x, y), tile),
            final(self).width == old(self).width,
            final(self).height == old(self).height,
            final(self).rooms@ == old(self).rooms@,
    {
        if x < self.width && y < self.height {
            proof {
                lemma_cell_in_grid(self.width, self.height, (x, y));
            }
            let i = (y * self.width + x) as usize;
            self.tiles.set(i, tile);
        }
    }

    /// Check if a position is walkable (not a wall).
    pub fn is_walkable(&self, x: u32, y: u32) -> (b: bool)
        requires
            self.wf(),
        ensures
            b == self.walkable((x, y)),
    {
        let t = self.get(x, y);
        match t {
            Tile::Floor | Tile::Door | Tile::Corridor => true,
            Tile::Wall => false,
        }
    }

    /// Find which room contains a given position, if any: the first such room.
    pub fn room_at(&self, x: u32, y: u32) -> (r: Option<usize>)
        ensures
            match r {
                Some(i) => i < self.rooms@.len() && self.rooms@[i as int].contains(x as int, y as int)
                    && forall|j: int| 0 <= j < i ==> !self.rooms@[j].contains(x as int, y as int),
                None => forall|j: int|
                    0 <= j < self.rooms@.len() ==> !#[trigger] self.rooms@[j].contains(x as int, y as int),
            },
    {
        let mut i: usize = 0;
        while i < self.rooms.len()
            invariant
                i <= self.rooms@.len(),
                forall|j: int| 0 <= j < i ==> !#[trigger] self.rooms@[j].contains(x as int, y as int),
            decreases self.rooms@.len() - i,
        {
            let r = &self.rooms[i];
            if x >= r.x && (x as u64) < r.x as u64 + r.w as u64 && y >= r.y && (y as u64) < r.y as u64
                + r.h as u64 {
                return Some(i);
            }
            i += 1;
        }
        None
    }

    /// Index of the first entrance room, if any.
    pub open spec fn spec_entrance_index(&self) -> Option<int> {
        if exists|i: int| 0 <= i < self.rooms@.len() && self.rooms@[i].room_type == RoomType::Entrance {
            Some(
                choose|i: int|
                    0 <= i < self.rooms@.len() && self.rooms@[i].room_type == RoomType::Entrance && forall|
                        j: int,
                    | 0 <= j < i ==> self.rooms@[j].room_type != RoomType::Entrance,
            )
        } else {
            None
        }
    }

    /// Position of the first entrance room among the rooms.
    pub fn entrance_index(&self) -> (r: Option<usize>)
        ensures
            match r {
                Some(i) => i < self.rooms@.len() && self.rooms@[i as int].room_type == RoomType::Entrance
                    && forall|j: int| 0 <= j < i ==> self.rooms@[j].room_type != RoomType::Entrance,
                None => forall|j: int|
                    0 <= j < self.rooms@.len() ==> self.rooms@[j].room_type != RoomType::Entrance,
            },
    {
        let mut i: usize = 0;
        while i < self.rooms.len()
            invariant
                i <= self.rooms@.len(),
                forall|j: int| 0 <= j < i ==> self.rooms@[j].room_type != RoomType::Entrance,
            decreases self.rooms@.len() - i,
        {
            if self.rooms[i].room_type == RoomType::Entrance {
                return Some(i);
            }
            i += 1;
        }
        None
    }

    /// Get the entrance room: the first room whose type is `Entrance`.
    pub fn entrance_room(&self) -> (r: Option<&Room>)
        ensures
            match r {
                Some(room) => exists|i: int|
                    0 <= i < self.rooms@.len() && self.rooms@[i] == *room && room.room_type
                        == RoomType::Entrance && forall|j: int|
                        0 <= j < i ==> self.rooms@[j].room_type != RoomType::Entrance,
                None => forall|j: int|
                    0 <= j < self.rooms@.len() ==> self.rooms@[j].room_type != RoomType::Entrance,
            },
    {
        match self.entrance_index() {
            Some(i) => Some(&self.rooms[i]),
            None => None,
        }
    }
}

/// A rectangle of the grid that generation works in.
pub open spec fn rect_in(x: u32, y: u32, w: u32, h: u32, width: u32, height: u32) -> bool {
    x as int + w as int <= width as int && y as int + h as int <= height as int
}

/// A room lies strictly inside the grid (a wall border all around) and is at
/// least 4 by 4.
pub open spec fn room_ok(r: Room, width: u32, height: u32) -> bool {
    &&& 1 <= r.x
    &&& 1 <= r.y
    &&& r.x as int + r.w as int + 1 <= width as int
    &&& r.y as int + r.h as int + 1 <= height as int
    &&& 4 <= r.w
    &&& 4 <= r.h
}

/// Every room lies inside the grid.
pub open spec fn rooms_ok(rooms: Seq<Room>, width: u32, height: u32) -> bool {
    forall|i: int| 0 <= i < rooms.len() ==> room_ok(#[trigger] rooms[i], width, height)
}

/// A grid small enough for every generation computation.
pub open spec fn grid_fits(width: u32, height: u32) -> bool {
    &&& width as int * height as int <= u32::MAX
    &&& width < 0x8000_0000
    &&& height < 0x8000_0000
}

/// A well-formed map, small enough for generation, with every room inside
/// the grid.
pub open spec fn grid_ok(map: DungeonMap) -> bool {
    &&& map.wf()
    &&& grid_fits(map.width, map.height)
    &&& rooms_ok(map.rooms@, map.width, map.height)
}

/// No tile is a door yet.
pub open spec fn no_doors(map: DungeonMap) -> bool {
    forall|i: int| 0 <= i < map.tiles@.len() ==> map.tiles@[i] != Tile::Door
}

/// A map that generation can work on: a grid as above, before any door.
pub open spec fn gen_ok(map: DungeonMap) -> bool {
    &&& grid_ok(map)
    &&& no_doors(map)
}

/// Walkable tiles stay walkable, and room floor stays floor.
pub open spec fn keeps_walkable(before: DungeonMap, after: DungeonMap) -> bool {
    forall|p: Pos|
        #![trigger after.tile_at(p)]
        (before.walkable(p) ==> after.walkable(p)) && (before.tile_at(p) == Tile::Floor ==> after.tile_at(p)
            == Tile::Floor)
}

/// A node of the binary space partition.
pub struct BspNode {
    pub x: u32,
    pub y: u32,
    pub w: u32,
    pub h: u32,
    pub left: Option<Box<BspNode>>,
    pub right: Option<Box<BspNode>>,
    pub room_idx: Option<usize>,
}

impl BspNode {
    /// Every node of the tree lies inside the box `[x0, x1) x [y0, y1)`.
    pub open spec fn inside(&self, x0: int, y0: int, x1: int, y1: int) -> bool
        decreases self,
    {
        &&& x0 <= self.x
        &&& self.x + self.w <= x1
        &&& y0 <= self.y
        &&& self.y + self.h <= y1
        &&& match self.left {
            Some(l) => l.inside(x0, y0, x1, y1),
            None => true,
        }
        &&& match self.right {
            Some(r) => r.inside(x0, y0, x1, y1),
            None => true,
        }
    }

    /// The room indices of the tree, in pre-order.
    pub open spec fn room_indices(&self) -> Seq<usize>
        decreases self,
    {
        (match self.room_idx {
            Some(i) => seq![i],
            None => Seq::empty(),
        }) + (match self.left {
            Some(l) => l.room_indices(),
            None => Seq::empty(),
        }) + (match self.right {
            Some(r) => r.room_indices(),
            None => Seq::empty(),
        })
    }

    /// Every room index in the tree is below `n`.
    pub open spec fn rooms_below(&self, n: nat) -> bool
        decreases self,
    {
        &&& match self.room_idx {
            Some(i) => i < n,
            None => true,
        }
        &&& match self.left {
            Some(l) => l.rooms_below(n),
            None => true,
        }
        &&& match self.right {
            Some(r) => r.rooms_below(n),
            None => true,
        }
    }

    /// Every node is a leaf or has two children, and only leaves hold rooms.
    pub open spec fn full(&self) -> bool
        decreases self,
    {
        &&& (self.left is Some <==> self.right is Some)
        &&& (self.left is Some ==> self.room_idx is None)
        &&& match self.left {
            Some(l) => l.full(),
            None => true,
        }
        &&& match self.right {
            Some(r) => r.full(),
            None => true,
        }
    }

    /// The two children of every node lie inside it, on either side of a
    /// vertical or a horizontal cut.
    pub open spec fn halves_apart(&self) -> bool
        decreases self,
    {
        &&& match (self.left, self.right) {
            (Some(l), Some(r)) => {
                &&& l.x >= self.x && l.y >= self.y && l.x + l.w <= self.x + self.w && l.y + l.h <= self.y + self.h
                &&& r.x >= self.x && r.y >= self.y && r.x + r.w <= self.x + self.w && r.y + r.h <= self.y + self.h
                &&& (l.x + l.w <= r.x || l.y + l.h <= r.y)
            },
            _ => true,
        }
        &&& match self.left {
            Some(l) => l.halves_apart(),
            None => true,
        }
        &&& match self.right {
            Some(r) => r.halves_apart(),
            None => true,
        }
    }

    /// The tree holds no room yet.
    pub open spec fn roomless(&self) -> bool
        decreases self,
    {
        &&& self.room_idx is None
        &&& match self.left {
            Some(l) => l.roomless(),
            None => true,
        }
        &&& match self.right {
            Some(r) => r.roomless(),
            None => true,
        }
    }
}

pub proof fn lemma_rooms_below_mono(node: BspNode, n: nat, m: nat)
    requires
        node.rooms_below(n),
        n <= m,
    ensures
        node.rooms_below(m),
    decreases node,
{
    match node.left {
        Some(l) => lemma_rooms_below_mono(*l, n, m),
        None => {},
    }
    match node.right {
        Some(r) => lemma_rooms_below_mono(*r, n, m),
        None => {},
    }
}

pub proof fn lemma_roomless_rooms_below(node: BspNode, n: nat)
    requires
        node.roomless(),
    ensures
        node.rooms_below(n),
    decreases node,
{
    match node.left {
        Some(l) => lemma_roomless_rooms_below(*l, n),
        None => {},
    }
    match node.right {
        Some(r) => lemma_roomless_rooms_below(*r, n),
        None => {},
    }
}

/// Leaves are not split below this size.
pub const MIN_LEAF_SIZE: u32 = 8;

/// Rooms are at least this big.
pub const MIN_ROOM_SIZE: u32 = 4;

/// Gap between a room and the edge of its leaf.
pub const ROOM_PADDING: u32 = 1;

/// Extra corridors added on top of the spanning tree, in percent of the
/// room count less one, so dungeons have loops.
pub const LOOP_EDGE_PERCENT: usize = 15;

/// The smallest `k` with `2^k >= n`.
pub open spec fn ceil_log2(n: nat) -> nat
    decreases n,
{
    if n <= 1 {
        0
    } else {
        1 + ceil_log2(((n + 1) / 2) as nat)
    }
}

/// The smallest `k` with `2^k >= n` (0 for n <= 1).
pub fn ceil_log2_u32(n: u32) -> (k: u32)
    ensures
        k == ceil_log2(n as nat),
        k <= 32,
{
    let mut m: u64 = n as u64;
    let mut k: u32 = 0;
    proof {
        lemma_ceil_log2_u32(n);
    }
    while m > 1
        invariant
            k + ceil_log2(m as nat) == ceil_log2(n as nat),
            m <= n,
            ceil_log2(n as nat) <= 32,
        decreases m,
    {
        m = (m + 1) / 2;
        k += 1;
    }
    k
}

/// `2^j`.
pub open spec fn two_pow(j: nat) -> nat
    decreases j,
{
    if j == 0 {
        1
    } else {
        2 * two_pow((j - 1) as nat)
    }
}

proof fn lemma_ceil_log2_le(n: nat, j: nat)
    requires
        n <= two_pow(j),
    ensures
        ceil_log2(n) <= j,
    decreases j,
{
    if n > 1 {
        assert(j >= 1);
        assert(two_pow(j) == 2 * two_pow((j - 1) as nat));
        lemma_ceil_log2_le(((n + 1) / 2) as nat, (j - 1) as nat);
    }
}

proof fn lemma_ceil_log2_u32(n: u32)
    ensures
        ceil_log2(n as nat) <= 32,
{
    reveal_with_fuel(two_pow, 33);
    assert(two_pow(32) == 0x1_0000_0000);
    lemma_ceil_log2_le(n as nat, 32);
}

proof fn lemma_inside_widen(node: BspNode, x0: int, y0: int, x1: int, y1: int, a0: int, b0: int, a1: int, b1: int)
    requires
        node.inside(x0, y0, x1, y1),
        a0 <= x0,
        b0 <= y0,
        x1 <= a1,
        y1 <= b1,
    ensures
        node.inside(a0, b0, a1, b1),
    decreases node,
{
    match node.left {
        Some(l) => lemma_inside_widen(*l, x0, y0, x1, y1, a0, b0, a1, b1),
        None => {},
    }
    match node.right {
        Some(r) => lemma_inside_widen(*r, x0, y0, x1, y1, a0, b0, a1, b1),
        None => {},
    }
}

/// The node is cut by a horizontal line into a top and a bottom half, each
/// spanning its width and at least `MIN_LEAF_SIZE` tall.
pub open spec fn cut_rows(r: BspNode) -> bool {
    match r.left {
        Some(a) => match r.right {
            Some(b) => {
                &&& a.x == r.x && a.w == r.w && b.x == r.x && b.w == r.w
                &&& a.y == r.y && b.y == r.y + a.h && a.h + b.h == r.h
                &&& a.h >= MIN_LEAF_SIZE && b.h >= MIN_LEAF_SIZE
            },
            None => false,
        },
        None => false,
    }
}

/// The node is cut by a vertical line into a left and a right half, each
/// spanning its height and at least `MIN_LEAF_SIZE` wide.
pub open spec fn cut_cols(r: BspNode) -> bool {
    match r.left {
        Some(a) => match r.right {
            Some(b) => {
                &&& a.y == r.y && a.h == r.h && b.y == r.y && b.h == r.h
                &&& a.x == r.x && b.x == r.x + a.w && a.w + b.w == r.w
                &&& a.w >= MIN_LEAF_SIZE && b.w >= MIN_LEAF_SIZE
            },
            None => false,
        },
        None => false,
    }
}

/// A node at `depth` is split while the depth is below `max_depth` and one
/// side is at least twice `MIN_LEAF_SIZE`.
pub open spec fn splittable(w: u32, h: u32, depth: int, max_depth: int) -> bool {
    depth < max_depth && (w >= MIN_LEAF_SIZE * 2 || h >= MIN_LEAF_SIZE * 2)
}

/// The tree a split makes, from a node at `depth`: a splittable node is cut
/// across its longer side (a node too narrow to cut in columns is cut in
/// rows and the other way round; one more than a quarter wider than tall in
/// columns, one more than a quarter taller than wide in rows; a roughly
/// square one either way), and each half is split the same way one level
/// deeper; any other node is left a leaf. No node below the root holds a
/// room.
pub open spec fn bsp_split(r: BspNode, depth: int, max_depth: int) -> bool
    decreases r,
{
    if splittable(r.w, r.h, depth, max_depth) {
        &&& (r.w < MIN_LEAF_SIZE * 2 ==> cut_rows(r))
        &&& (r.w >= MIN_LEAF_SIZE * 2 && r.h < MIN_LEAF_SIZE * 2 ==> cut_cols(r))
        &&& (r.w >= MIN_LEAF_SIZE * 2 && r.h >= MIN_LEAF_SIZE * 2 && r.w * 4 > r.h * 5 ==> cut_cols(r))
        &&& (r.w >= MIN_LEAF_SIZE * 2 && r.h >= MIN_LEAF_SIZE * 2 && r.w * 5 < r.h * 4 ==> cut_rows(r))
        &&& (cut_rows(r) || cut_cols(r))
        &&& match r.left {
            Some(l) => l.room_idx is None && bsp_split(*l, depth + 1, max_depth),
            None => false,
        }
        &&& match r.right {
            Some(b) => b.room_idx is None && bsp_split(*b, depth + 1, max_depth),
            None => false,
        }
    } else {
        r.left is None && r.right is None
    }
}

/// A leaf with no room yet.
fn leaf(x: u32, y: u32, w: u32, h: u32) -> (n: BspNode)
    ensures
        n.x == x && n.y == y && n.w == w && n.h == h,
        n.left is None && n.right is None && n.room_idx is None,
{
    BspNode { x, y, w, h, left: None, right: None, room_idx: None }
}

/// Recursively split a leaf into two halves, alternating on the longer side,
/// until `max_depth` or until the halves would be too small.
fn split_node(node: BspNode, depth: u32, max_depth: u32, rng: &mut StdRng) -> (r: BspNode)
    requires
        node.left is None,
        node.right is None,
        node.x as int + node.w as int <= u32::MAX,
        node.y as int + node.h as int <= u32::MAX,
    ensures
        r.x == node.x && r.y == node.y && r.w == node.w && r.h == node.h,
        r.room_idx == node.room_idx,
        r.inside(node.x as int, node.y as int, node.x + node.w, node.y + node.h),
        node.room_idx is None ==> r.roomless(),
        node.room_idx is None ==> r.full(),
        r.halves_apart(),
        bsp_split(r, depth as int, max_depth as int),
    decreases max_depth - depth,
{
    if depth >= max_depth {
        return node;
    }
    if node.w < MIN_LEAF_SIZE * 2 && node.h < MIN_LEAF_SIZE * 2 {
        return node;
    }
    // Decide split direction: a much wider node is cut vertically, a much
    // taller one horizontally, a roughly square one at random.
    let split_horizontal = if node.w < MIN_LEAF_SIZE * 2 {
        true
    } else if node.h < MIN_LEAF_SIZE * 2 {
        false
    } else if (node.w as u64) * 4 > (node.h as u64) * 5 {
        false
    } else if (node.w as u64) * 5 < (node.h as u64) * 4 {
        true
    } else {
        random_ratio(rng, 1, 2)
    };
    let x = node.x;
    let y = node.y;
    let w = node.w;
    let h = node.h;
    if split_horizontal {
        if h < MIN_LEAF_SIZE * 2 {
            return node;
        }
        let split = random_u32(rng, MIN_LEAF_SIZE, h - MIN_LEAF_SIZE + 1);
        let left = split_node(leaf(x, y, w, split), depth + 1, max_depth, rng);
        let right = split_node(leaf(x, y + split, w, h - split), depth + 1, max_depth, rng);
        proof {
            lemma_inside_widen(left, x as int, y as int, x + w, y + split, x as int, y as int, x + w, y + h);
            lemma_inside_widen(right, x as int, y + split, x + w, y + h, x as int, y as int, x + w, y + h);
        }
        BspNode { x, y, w, h, left: Some(Box::new(left)), right: Some(Box::new(right)), room_idx: node.room_idx }
    } else {
        if w < MIN_LEAF_SIZE * 2 {
            return node;
        }
        let split = random_u32(rng, MIN_LEAF_SIZE, w - MIN_LEAF_SIZE + 1);
        let left = split_node(leaf(x, y, split, h), depth + 1, max_depth, rng);
        let right = split_node(leaf(x + split, y, w - split, h), depth + 1, max_depth, rng);
        proof {
            lemma_inside_widen(left, x as int, y as int, x + split, y + h, x as int, y as int, x + w, y + h);
            lemma_inside_widen(right, x + split, y as int, x + w, y + h, x as int, y as int, x + w, y + h);
        }
        BspNode { x, y, w, h, left: Some(Box::new(left)), right: Some(Box::new(right)), room_idx: node.room_idx }
    }
}

/// Setting a walkable tile keeps every walkable tile walkable, and keeps the
/// map fit for generation.
proof fn lemma_set_walkable(before: DungeonMap, after: DungeonMap, p: Pos, t: Tile)
    requires
        gen_ok(before),
        after.wf(),
        after.width == before.width,
        after.height == before.height,
        after.rooms@ == before.rooms@,
        after.tiles@ == before.tiles_after_set(p, t),
        tile_walkable(t),
        t != Tile::Door,
        t == Tile::Floor || before.tile_at(p) != Tile::Floor,
    ensures
        gen_ok(after),
        keeps_walkable(before, after),
        before.in_bounds(p) ==> after.walkable(p),
{
    assert forall|q: Pos| #[trigger] after.tile_at(q) == (if before.in_bounds(p) && q == p { t } else { before.tile_at(q) }) by {
        lemma_tile_after_set(before, after, p, t, q);
    }
    if before.in_bounds(p) {
        lemma_cell_in_grid(before.width, before.height, p);
    }
    lemma_set_no_door(before, after, p, t);
}

/// The tile at `q` once `p` is set to `t`.
proof fn lemma_tile_after_set(before: DungeonMap, after: DungeonMap, p: Pos, t: Tile, q: Pos)
    requires
        before.wf(),
        after.width == before.width,
        after.height == before.height,
        after.tiles@ == before.tiles_after_set(p, t),
    ensures
        after.tile_at(q) == (if before.in_bounds(p) && q == p { t } else { before.tile_at(q) }),
{
    if before.in_bounds(q) && before.in_bounds(p) && q != p {
        lemma_cell_in_grid(before.width, before.height, q);
        lemma_cell_in_grid(before.width, before.height, p);
        if cell(before.width, q) == cell(before.width, p) {
            lemma_cell_injective(before.width, q, p);
        }
    }
    if before.in_bounds(p) {
        lemma_cell_in_grid(before.width, before.height, p);
    }
    if before.in_bounds(q) {
        lemma_cell_in_grid(before.width, before.height, q);
    }
}

/// Setting a tile other than a door leaves no door.
proof fn lemma_set_no_door(before: DungeonMap, after: DungeonMap, p: Pos, t: Tile)
    requires
        before.wf(),
        no_doors(before),
        after.tiles@ == before.tiles_after_set(p, t),
        t != Tile::Door,
    ensures
        no_doors(after),
{
    if before.in_bounds(p) {
        lemma_cell_in_grid(before.width, before.height, p);
    }
    assert forall|i: int| 0 <= i < after.tiles@.len() implies after.tiles@[i] != Tile::Door by {
        if before.in_bounds(p) && i == cell(before.width, p) {
        } else {
            assert(after.tiles@[i] == before.tiles@[i]);
        }
    }
}

/// The indices `lo, lo + 1, ..., hi - 1`.
pub open spec fn index_range(lo: int, hi: int) -> Seq<usize> {
    Seq::new((hi - lo) as nat, |k: int| (lo + k) as usize)
}

/// Room `r` lies in the box at `(x, y)` of size `w` by `h`.
pub open spec fn room_in_box(r: Room, x: int, y: int, w: int, h: int) -> bool {
    x <= r.x && r.x + r.w <= x + w && y <= r.y && r.y + r.h <= y + h
}

/// Two rooms share no tile.
pub open spec fn rects_apart(a: Room, b: Room) -> bool {
    a.x + a.w <= b.x || b.x + b.w <= a.x || a.y + a.h <= b.y || b.y + b.h <= a.y
}

/// The rooms from `lo` to `hi` share no tile with one another.
pub open spec fn rooms_apart(rooms: Seq<Room>, lo: int, hi: int) -> bool {
    forall|i: int, j: int| lo <= i < hi && lo <= j < hi && i != j ==> #[trigger] rects_apart(rooms[i], rooms[j])
}

/// Every tile of room `r` is floor.
pub open spec fn room_floored(map: DungeonMap, r: Room) -> bool {
    forall|x: u32, y: u32| r.x <= x < r.x + r.w && r.y <= y < r.y + r.h ==> #[trigger] map.tile_at((x, y)) == Tile::Floor
}

/// Every tile of every room is floor.
pub open spec fn rooms_floored(map: DungeonMap) -> bool {
    forall|i: int| 0 <= i < map.rooms@.len() ==> #[trigger] room_floored(map, map.rooms@[i])
}

proof fn lemma_floored_kept(a: DungeonMap, b: DungeonMap, r: Room)
    requires
        room_floored(a, r),
        keeps_walkable(a, b),
    ensures
        room_floored(b, r),
{
    assert forall|x: u32, y: u32| r.x <= x < r.x + r.w && r.y <= y < r.y + r.h implies #[trigger] b.tile_at((x, y))
        == Tile::Floor by {
        assert(a.tile_at((x, y)) == Tile::Floor);
    }
}

/// A leaf this big gets a room: at least `MIN_ROOM_SIZE` each way inside
/// its padding.
pub open spec fn leaf_fits(w: u32, h: u32) -> bool {
    w >= MIN_ROOM_SIZE + ROOM_PADDING * 2 && h >= MIN_ROOM_SIZE + ROOM_PADDING * 2
}

/// `r` is `node` with a room index on every leaf that fits a room and on no
/// other node, its boxes and shape unchanged.
pub open spec fn rooms_given(r: BspNode, node: BspNode) -> bool
    decreases node,
{
    &&& r.x == node.x && r.y == node.y && r.w == node.w && r.h == node.h
    &&& match node.left {
        Some(nl) => match node.right {
            Some(nr) => match r.left {
                Some(rl) => match r.right {
                    Some(rr) => r.room_idx is None && rooms_given(*rl, *nl) && rooms_given(*rr, *nr),
                    None => false,
                },
                None => false,
            },
            None => false,
        },
        None => r.left is None && r.right is None && (r.room_idx is Some <==> leaf_fits(node.w, node.h)),
    }
}

/// A plain room, at least `MIN_ROOM_SIZE` each way, inside the padding of
/// the leaf at `(x, y)` of size `w` by `h`.
pub open spec fn room_in_leaf(room: Room, x: int, y: int, w: int, h: int) -> bool {
    &&& x + ROOM_PADDING <= room.x && room.x + room.w + ROOM_PADDING <= x + w
    &&& y + ROOM_PADDING <= room.y && room.y + room.h + ROOM_PADDING <= y + h
    &&& room.w >= MIN_ROOM_SIZE && room.h >= MIN_ROOM_SIZE
    &&& room.room_type == RoomType::Normal
}

/// Every room index in the tree names a room lying in that node's leaf.
pub open spec fn rooms_match(r: BspNode, rooms: Seq<Room>) -> bool
    decreases r,
{
    &&& match r.room_idx {
        Some(i) => i < rooms.len() && room_in_leaf(rooms[i as int], r.x as int, r.y as int, r.w as int, r.h as int),
        None => true,
    }
    &&& match r.left {
        Some(l) => rooms_match(*l, rooms),
        None => true,
    }
    &&& match r.right {
        Some(b) => rooms_match(*b, rooms),
        None => true,
    }
}

proof fn lemma_rooms_match_extend(r: BspNode, a: Seq<Room>, b: Seq<Room>)
    requires
        rooms_match(r, a),
        a.len() <= b.len(),
        b.subrange(0, a.len() as int) == a,
    ensures
        rooms_match(r, b),
    decreases r,
{
    match r.room_idx {
        Some(i) => {
            assert(b[i as int] == b.subrange(0, a.len() as int)[i as int]);
        },
        None => {},
    }
    match r.left {
        Some(l) => lemma_rooms_match_extend(*l, a, b),
        None => {},
    }
    match r.right {
        Some(rr) => lemma_rooms_match_extend(*rr, a, b),
        None => {},
    }
}

/// Tile `p` lies in room `r`.
pub open spec fn covers(r: Room, p: Pos) -> bool {
    r.x <= p.0 < r.x + r.w && r.y <= p.1 < r.y + r.h
}

/// Every tile that differs between the maps lies in one of the rooms from
/// `lo` to `hi` of `after`.
pub open spec fn only_rooms_carved(before: DungeonMap, after: DungeonMap, lo: int, hi: int) -> bool {
    forall|p: Pos|
        #![trigger after.tile_at(p)]
        after.tile_at(p) != before.tile_at(p) ==> exists|i: int| lo <= i < hi && #[trigger] covers(after.rooms@[i], p)
}

/// Carve a room in every leaf that is big enough.
fn create_rooms(node: BspNode, map: &mut DungeonMap, rng: &mut StdRng) -> (r: BspNode)
    requires
        gen_ok(*old(map)),
        node.inside(0, 0, old(map).width as int, old(map).height as int),
        node.rooms_below(old(map).rooms@.len()),
        node.full(),
        node.roomless(),
        node.halves_apart(),
        rooms_floored(*old(map)),
    ensures
        r.full(),
        r.room_indices() == index_range(old(map).rooms@.len() as int, final(map).rooms@.len() as int),
        rooms_floored(*final(map)),
        forall|i: int| old(map).rooms@.len() <= i < final(map).rooms@.len() ==> #[trigger] room_in_box(
            final(map).rooms@[i], node.x as int, node.y as int, node.w as int, node.h as int),
        rooms_apart(final(map).rooms@, old(map).rooms@.len() as int, final(map).rooms@.len() as int),
        gen_ok(*final(map)),
        final(map).width == old(map).width,
        final(map).height == old(map).height,
        final(map).rooms@.len() >= old(map).rooms@.len(),
        final(map).rooms@.subrange(0, old(map).rooms@.len() as int) == old(map).rooms@,
        r.inside(0, 0, final(map).width as int, final(map).height as int),
        r.rooms_below(final(map).rooms@.len()),
        keeps_walkable(*old(map), *final(map)),
        rooms_given(r, node),
        rooms_match(r, final(map).rooms@),
        only_rooms_carved(*old(map), *final(map), old(map).rooms@.len() as int, final(map).rooms@.len() as int),
    decreases node,
{
    let ghost m0 = *map;
    let ghost nd = node;
    let BspNode { x, y, w, h, left, right, room_idx } = node;
    if left.is_some() || right.is_some() {
        let new_left = match left {
            Some(l) => {
                let nl = create_rooms(*l, map, rng);
                Some(Box::new(nl))
            },
            None => None,
        };
        let ghost m1 = *map;
        let new_right = match right {
            Some(rr) => {
                proof {
                    lemma_rooms_below_mono(*rr, m0.rooms@.len(), m1.rooms@.len());
                }
                let nr = create_rooms(*rr, map, rng);
                Some(Box::new(nr))
            },
            None => None,
        };
        let ghost gl = new_left;
        proof {
            match gl {
                Some(l) => lemma_rooms_below_mono(*l, m1.rooms@.len(), map.rooms@.len()),
                None => {},
            }
            assert(map.rooms@.subrange(0, m0.rooms@.len() as int) =~= m1.rooms@.subrange(0, m0.rooms@.len() as int));
            lemma_keeps_walkable_trans(m0, m1, *map);
            let n0 = m0.rooms@.len() as int;
            let n1 = m1.rooms@.len() as int;
            let n2 = map.rooms@.len() as int;
            assert forall|i: int| n0 <= i < n1 implies map.rooms@[i] == m1.rooms@[i] by {
                assert(map.rooms@.subrange(0, n1)[i] == m1.rooms@[i]);
            }
            match gl {
                Some(l) => lemma_rooms_match_extend(*l, m1.rooms@, map.rooms@),
                None => {},
            }
            assert forall|p: Pos| #![trigger map.tile_at(p)] map.tile_at(p) != m0.tile_at(p) implies exists|i: int|
                n0 <= i < n2 && #[trigger] covers(map.rooms@[i], p) by {
                if m1.tile_at(p) != m0.tile_at(p) {
                    let i = choose|i: int| n0 <= i < n1 && #[trigger] covers(m1.rooms@[i], p);
                    assert(covers(map.rooms@[i], p));
                } else {
                    assert(map.tile_at(p) != m1.tile_at(p));
                }
            }
            match (nd.left, nd.right) {
                (Some(l), Some(rr)) => {
                    assert forall|i: int| n0 <= i < n2 implies #[trigger] room_in_box(
                        map.rooms@[i], x as int, y as int, w as int, h as int) by {
                        if i < n1 {
                            assert(room_in_box(m1.rooms@[i], l.x as int, l.y as int, l.w as int, l.h as int));
                        } else {
                            assert(room_in_box(map.rooms@[i], rr.x as int, rr.y as int, rr.w as int, rr.h as int));
                        }
                    }
                    assert forall|i: int, j: int| n0 <= i < n2 && n0 <= j < n2 && i != j implies #[trigger] rects_apart(
                        map.rooms@[i], map.rooms@[j]) by {
                        if i < n1 && j < n1 {
                            assert(rects_apart(m1.rooms@[i], m1.rooms@[j]));
                        } else if i >= n1 && j >= n1 {
                        } else if i < n1 {
                            assert(room_in_box(m1.rooms@[i], l.x as int, l.y as int, l.w as int, l.h as int));
                            assert(room_in_box(map.rooms@[j], rr.x as int, rr.y as int, rr.w as int, rr.h as int));
                        } else {
                            assert(room_in_box(m1.rooms@[j], l.x as int, l.y as int, l.w as int, l.h as int));
                            assert(room_in_box(map.rooms@[i], rr.x as int, rr.y as int, rr.w as int, rr.h as int));
                        }
                    }
                },
                _ => {},
            }
        }
        BspNode { x, y, w, h, left: new_left, right: new_right, room_idx }
    } else {
        // Leaf node: create a room
        let max_w = if w >= ROOM_PADDING * 2 {
            w - ROOM_PADDING * 2
        } else {
            0
        };
        let max_h = if h >= ROOM_PADDING * 2 {
            h - ROOM_PADDING * 2
        } else {
            0
        };
        if max_w < MIN_ROOM_SIZE || max_h < MIN_ROOM_SIZE {
            return BspNode { x, y, w, h, left, right, room_idx };
        }
        let room_w = random_u32_inclusive(rng, MIN_ROOM_SIZE, max_w);
        let room_h = random_u32_inclusive(rng, MIN_ROOM_SIZE, max_h);
        let room_x = x + ROOM_PADDING + random_u32_inclusive(rng, 0, max_w - room_w);
        let room_y = y + ROOM_PADDING + random_u32_inclusive(rng, 0, max_h - room_h);
        let room = Room { x: room_x, y: room_y, w: room_w, h: room_h, room_type: RoomType::Normal };

        // Carve room into map
        let mut ry = room_y;
        while ry < room_y + room_h
            invariant
                gen_ok(*map),
                map.width == m0.width,
                map.height == m0.height,
                map.rooms@ == m0.rooms@,
                keeps_walkable(m0, *map),
                room_y <= ry <= room_y + room_h,
                room_y + room_h + 1 <= m0.height,
                room_x + room_w + 1 <= m0.width,
                rooms_floored(*map),
                forall|xx: u32, yy: u32| room_x <= xx < room_x + room_w && room_y <= yy < ry ==> #[trigger] map.tile_at(
                    (xx, yy),
                ) == Tile::Floor,
                forall|p: Pos| #![trigger map.tile_at(p)] map.tile_at(p) != m0.tile_at(p) ==> covers(room, p),
                room.x == room_x && room.y == room_y && room.w == room_w && room.h == room_h,
            decreases room_y + room_h - ry,
        {
            let mut rx = room_x;
            while rx < room_x + room_w
                invariant
                    gen_ok(*map),
                    map.width == m0.width,
                    map.height == m0.height,
                    map.rooms@ == m0.rooms@,
                    keeps_walkable(m0, *map),
                    room_x <= rx <= room_x + room_w,
                    room_y <= ry < room_y + room_h,
                    room_y + room_h + 1 <= m0.height,
                    room_x + room_w + 1 <= m0.width,
                    rooms_floored(*map),
                    forall|xx: u32, yy: u32| room_x <= xx < room_x + room_w && room_y <= yy < ry ==> #[trigger] map.tile_at(
                        (xx, yy),
                    ) == Tile::Floor,
                    forall|xx: u32| room_x <= xx < rx ==> #[trigger] map.tile_at((xx, ry)) == Tile::Floor,
                    forall|p: Pos| #![trigger map.tile_at(p)] map.tile_at(p) != m0.tile_at(p) ==> covers(room, p),
                    room.x == room_x && room.y == room_y && room.w == room_w && room.h == room_h,
                decreases room_x + room_w - rx,
            {
                let ghost before = *map;
                map.set(rx, ry, Tile::Floor);
                proof {
                    lemma_set_walkable(before, *map, (rx, ry), Tile::Floor);
                    lemma_keeps_walkable_trans(m0, before, *map);
                    lemma_tile_after_set(before, *map, (rx, ry), Tile::Floor, (rx, ry));
                    assert forall|i: int| 0 <= i < map.rooms@.len() implies #[trigger] room_floored(*map, map.rooms@[i]) by {
                        assert(room_floored(before, before.rooms@[i]));
                        lemma_floored_kept(before, *map, map.rooms@[i]);
                    }
                    assert forall|xx: u32, yy: u32| room_x <= xx < room_x + room_w && room_y <= yy < ry implies #[trigger] map.tile_at(
                        (xx, yy),
                    ) == Tile::Floor by {
                        assert(before.tile_at((xx, yy)) == Tile::Floor);
                    }
                    assert forall|xx: u32| room_x <= xx < rx + 1 implies #[trigger] map.tile_at((xx, ry)) == Tile::Floor by {
                        if xx < rx {
                            assert(before.tile_at((xx, ry)) == Tile::Floor);
                        }
                    }
                    assert forall|p: Pos| #![trigger map.tile_at(p)] map.tile_at(p) != m0.tile_at(p) implies covers(room, p) by {
                        lemma_tile_after_set(before, *map, (rx, ry), Tile::Floor, p);
                        if p.0 == rx && p.1 == ry {
                            assert(room_x <= p.0 < room_x + room_w && room_y <= p.1 < room_y + room_h);
                        } else {
                            assert(before.tile_at(p) != m0.tile_at(p));
                        }
                    }
                }
                rx += 1;
            }
            ry += 1;
        }
        let idx = map.rooms.len();
        let ghost before_push = *map;
        map.rooms.push(room);
        proof {
            assert(map.rooms@.subrange(0, m0.rooms@.len() as int) =~= m0.rooms@);
            assert forall|i: int| 0 <= i < map.rooms@.len() implies room_ok(
                #[trigger] map.rooms@[i],
                map.width,
                map.height,
            ) by {
                if i < m0.rooms@.len() {
                    assert(map.rooms@[i] == m0.rooms@[i]);
                }
            }
            assert forall|p: Pos|
                #![trigger map.tile_at(p)]
                (m0.walkable(p) ==> map.walkable(p)) && (m0.tile_at(p) == Tile::Floor ==> map.tile_at(p) == Tile::Floor) by {
                let tb = before_push.tile_at(p);
                assert(map.tile_at(p) == before_push.tile_at(p));
            }
            assert forall|i: int| 0 <= i < map.rooms@.len() implies #[trigger] room_floored(*map, map.rooms@[i]) by {
                if i < m0.rooms@.len() {
                    assert(map.rooms@[i] == before_push.rooms@[i]);
                    assert(room_floored(before_push, before_push.rooms@[i]));
                    assert forall|xx: u32, yy: u32| map.rooms@[i].x <= xx < map.rooms@[i].x + map.rooms@[i].w
                        && map.rooms@[i].y <= yy < map.rooms@[i].y + map.rooms@[i].h implies #[trigger] map.tile_at((xx, yy))
                        == Tile::Floor by {
                        assert(before_push.tile_at((xx, yy)) == Tile::Floor);
                    }
                } else {
                    assert(map.rooms@[i] == room);
                    assert forall|xx: u32, yy: u32| room.x <= xx < room.x + room.w && room.y <= yy < room.y + room.h implies #[trigger] map.tile_at(
                        (xx, yy),
                    ) == Tile::Floor by {
                        assert(before_push.tile_at((xx, yy)) == Tile::Floor);
                    }
                }
            }
        }
        proof {
            assert(map.rooms@[idx as int] == room);
            assert forall|p: Pos| #![trigger map.tile_at(p)] map.tile_at(p) != m0.tile_at(p) implies exists|i: int|
                m0.rooms@.len() <= i < map.rooms@.len() && #[trigger] covers(map.rooms@[i], p) by {
                assert(map.tile_at(p) == before_push.tile_at(p));
                assert(covers(map.rooms@[idx as int], p));
            }
        }
        BspNode { x, y, w, h, left, right, room_idx: Some(idx) }
    }
}

/// The center of every room is floor.
pub open spec fn centers_floored(map: DungeonMap) -> bool {
    forall|i: int| 0 <= i < map.rooms@.len() ==> #[trigger] map.tile_at(center_pos(map.rooms@[i])) == Tile::Floor
}

proof fn lemma_floored_centers(map: DungeonMap)
    requires
        gen_ok(map),
        rooms_floored(map),
    ensures
        centers_floored(map),
{
    assert forall|i: int| 0 <= i < map.rooms@.len() implies #[trigger] map.tile_at(center_pos(map.rooms@[i])) == Tile::Floor by {
        let r = map.rooms@[i];
        assert(room_ok(r, map.width, map.height));
        assert(room_floored(map, r));
        let c = center_pos(r);
        assert(r.x <= c.0 < r.x + r.w && r.y <= c.1 < r.y + r.h);
    }
}

proof fn lemma_centers_kept(a: DungeonMap, b: DungeonMap)
    requires
        centers_floored(a),
        keeps_walkable(a, b),
        a.rooms@ == b.rooms@,
    ensures
        centers_floored(b),
{
    assert forall|i: int| 0 <= i < b.rooms@.len() implies #[trigger] b.tile_at(center_pos(b.rooms@[i])) == Tile::Floor by {
        assert(a.tile_at(center_pos(a.rooms@[i])) == Tile::Floor);
    }
}

/// Walling a tile of room `i` other than its center keeps every center
/// floor, the rooms sharing no tile.
proof fn lemma_wall_spares_centers(before: DungeonMap, after: DungeonMap, c: Pos, i: int)
    requires
        gen_ok(before),
        after.width == before.width,
        after.height == before.height,
        after.rooms@ == before.rooms@,
        after.tiles@ == before.tiles_after_set(c, Tile::Wall),
        centers_floored(before),
        rooms_apart(before.rooms@, 0, before.rooms@.len() as int),
        0 <= i < before.rooms@.len(),
        before.rooms@[i].x <= c.0 < before.rooms@[i].x + before.rooms@[i].w,
        before.rooms@[i].y <= c.1 < before.rooms@[i].y + before.rooms@[i].h,
        c != center_pos(before.rooms@[i]),
    ensures
        centers_floored(after),
{
    assert forall|j: int| 0 <= j < after.rooms@.len() implies #[trigger] after.tile_at(center_pos(after.rooms@[j])) == Tile::Floor by {
        let r = before.rooms@[j];
        assert(room_ok(r, before.width, before.height));
        lemma_tile_after_set(before, after, c, Tile::Wall, center_pos(r));
        assert(before.tile_at(center_pos(r)) == Tile::Floor);
        if j != i {
            assert(rects_apart(before.rooms@[i], r));
        }
    }
}

/// How deep the corners of a room are cut: two tiles when its shorter side
/// is at least 8, one when it is at least 6, none below.
pub open spec fn notch_depth(r: Room) -> int {
    let m = if r.w < r.h { r.w } else { r.h };
    if m >= 8 {
        2
    } else if m >= 6 {
        1
    } else {
        0
    }
}

/// How far tile `p` of room `r` is from the nearer of the left and right
/// edges, and from the nearer of the top and bottom edges.
pub open spec fn edge_depths(r: Room, p: Pos) -> (int, int) {
    let l = p.0 - r.x;
    let rr = r.x + r.w - 1 - p.0;
    let t = p.1 - r.y;
    let b = r.y + r.h - 1 - p.1;
    (if l < rr { l } else { rr }, if t < b { t } else { b })
}

/// Tile `p` lies in a corner notch of room `r`: inside the room, within the
/// notch depth of a side edge and of the top or bottom edge.
pub open spec fn in_notch(r: Room, p: Pos) -> bool {
    &&& covers(r, p)
    &&& edge_depths(r, p).0 < notch_depth(r)
    &&& edge_depths(r, p).1 < notch_depth(r)
}

/// Every corner-notch tile of room `r` is wall.
pub open spec fn notch_walled(map: DungeonMap, r: Room) -> bool {
    forall|p: Pos| in_notch(r, p) ==> #[trigger] map.tile_at(p) == Tile::Wall
}

/// Every corner-notch tile of room `r` is as it was.
pub open spec fn notch_kept(before: DungeonMap, after: DungeonMap, r: Room) -> bool {
    forall|p: Pos| in_notch(r, p) ==> #[trigger] after.tile_at(p) == before.tile_at(p)
}

/// Setting an in-bounds tile to wall changes that tile only.
proof fn lemma_set_wall_at(before: DungeonMap, after: DungeonMap, c: Pos)
    requires
        before.wf(),
        before.in_bounds(c),
        after.width == before.width,
        after.height == before.height,
        after.tiles@ == before.tiles_after_set(c, Tile::Wall),
    ensures
        forall|q: Pos| #![trigger after.tile_at(q)] after.tile_at(q) == (if q == c { Tile::Wall } else { before.tile_at(q) }),
{
    assert forall|q: Pos| #![trigger after.tile_at(q)] after.tile_at(q) == (if q == c { Tile::Wall } else { before.tile_at(q) }) by {
        lemma_tile_after_set(before, after, c, Tile::Wall, q);
    }
}

/// Carve the corners of the chosen rooms back to wall: each chosen room at
/// least 6 tiles across loses its corners, two deep from 8 tiles across;
/// every other tile stays as it was.
pub fn carve_chosen_corners(map: &mut DungeonMap, chosen: &Vec<bool>)
    requires
        gen_ok(*old(map)),
        centers_floored(*old(map)),
        rooms_apart(old(map).rooms@, 0, old(map).rooms@.len() as int),
        chosen@.len() == old(map).rooms@.len(),
    ensures
        gen_ok(*final(map)),
        final(map).width == old(map).width,
        final(map).height == old(map).height,
        final(map).rooms@ == old(map).rooms@,
        centers_floored(*final(map)),
        forall|p: Pos|
            #![trigger final(map).tile_at(p)]
            final(map).tile_at(p) != old(map).tile_at(p) ==> final(map).tile_at(p) == Tile::Wall && exists|i: int|
                0 <= i < old(map).rooms@.len() && chosen@[i] && #[trigger] in_notch(old(map).rooms@[i], p),
        forall|i: int| 0 <= i < old(map).rooms@.len() && chosen@[i] ==> notch_walled(*final(map), #[trigger] old(map).rooms@[i]),
        forall|i: int|
            0 <= i < old(map).rooms@.len() && !chosen@[i] ==> notch_kept(*old(map), *final(map), #[trigger] old(map).rooms@[i]),
{
    let ghost m0 = *map;
    let n = map.rooms.len();
    let mut i: usize = 0;
    while i < n
        invariant
            gen_ok(*map),
            map.width == m0.width,
            map.height == m0.height,
            map.rooms@ == m0.rooms@,
            n == m0.rooms@.len(),
            i <= n,
            centers_floored(*map),
            rooms_apart(m0.rooms@, 0, n as int),
            chosen@.len() == n,
            forall|p: Pos|
                #![trigger map.tile_at(p)]
                map.tile_at(p) != m0.tile_at(p) ==> map.tile_at(p) == Tile::Wall && exists|j: int|
                    0 <= j < i && chosen@[j] && #[trigger] in_notch(m0.rooms@[j], p),
            forall|j: int| 0 <= j < i && chosen@[j] ==> notch_walled(*map, #[trigger] m0.rooms@[j]),
            forall|j: int| 0 <= j < i && !chosen@[j] ==> notch_kept(m0, *map, #[trigger] m0.rooms@[j]),
        decreases n - i,
    {
        let ghost mi = *map;
        let room = map.rooms[i];
        assert(room_ok(map.rooms@[i as int], map.width, map.height));
        let min_dim = if room.w < room.h {
            room.w
        } else {
            room.h
        };
        if min_dim < 6 || !chosen[i] {
            proof {
                assert forall|p: Pos| in_notch(room, p) implies #[trigger] map.tile_at(p) == m0.tile_at(p) by {
                    if map.tile_at(p) != m0.tile_at(p) {
                        let j = choose|j: int| 0 <= j < i && chosen@[j] && #[trigger] in_notch(m0.rooms@[j], p);
                        assert(rects_apart(m0.rooms@[j], m0.rooms@[i as int]));
                    }
                }
                assert(notch_kept(m0, *map, m0.rooms@[i as int]));
                if chosen@[i as int] {
                    assert(min_dim < 6);
                    assert forall|p: Pos| in_notch(room, p) implies #[trigger] map.tile_at(p) == Tile::Wall by {
                        assert(notch_depth(room) == 0);
                    }
                }
                assert(chosen@[i as int] ==> notch_walled(*map, m0.rooms@[i as int]));
            }
            i += 1;
            continue ;
        }
        let notch: u32 = if min_dim >= 8 {
            2
        } else {
            1
        };
        assert(notch == notch_depth(room));
        let mut dy: u32 = 0;
        while dy < notch
            invariant
                gen_ok(*map),
                map.width == m0.width,
                map.height == m0.height,
                map.rooms@ == m0.rooms@,
                room_ok(room, m0.width, m0.height),
                notch <= 2,
                notch == notch_depth(room),
                room.w >= 6,
                room.h >= 6,
                dy <= notch,
                i < n,
                n == m0.rooms@.len(),
                room == m0.rooms@[i as int],
                centers_floored(*map),
                rooms_apart(m0.rooms@, 0, n as int),
                mi.width == m0.width,
                mi.height == m0.height,
                forall|p: Pos|
                    #![trigger map.tile_at(p)]
                    map.tile_at(p) != mi.tile_at(p) ==> map.tile_at(p) == Tile::Wall && in_notch(room, p),
                forall|p: Pos| #![trigger map.tile_at(p)] in_notch(room, p) && edge_depths(room, p).1 < dy ==> map.tile_at(p) == Tile::Wall,
            decreases notch - dy,
        {
            let mut dx: u32 = 0;
            while dx < notch
                invariant
                    gen_ok(*map),
                    map.width == m0.width,
                    map.height == m0.height,
                    map.rooms@ == m0.rooms@,
                    room_ok(room, m0.width, m0.height),
                    notch <= 2,
                    notch == notch_depth(room),
                    room.w >= 6,
                    room.h >= 6,
                    dx <= notch,
                    dy < notch,
                    i < n,
                    n == m0.rooms@.len(),
                    room == m0.rooms@[i as int],
                    centers_floored(*map),
                    rooms_apart(m0.rooms@, 0, n as int),
                    mi.width == m0.width,
                    mi.height == m0.height,
                    forall|p: Pos|
                        #![trigger map.tile_at(p)]
                        map.tile_at(p) != mi.tile_at(p) ==> map.tile_at(p) == Tile::Wall && in_notch(room, p),
                    forall|p: Pos|
                        #![trigger map.tile_at(p)]
                        in_notch(room, p) && (edge_depths(room, p).1 < dy || (edge_depths(room, p).1 == dy
                            && edge_depths(room, p).0 < dx)) ==> map.tile_at(p) == Tile::Wall,
                decreases notch - dx,
            {
                let x0 = room.x + dx;
                let x1 = room.x + room.w - 1 - dx;
                let y0 = room.y + dy;
                let y1 = room.y + room.h - 1 - dy;
                let ghost b0 = *map;
                map.set(x0, y0, Tile::Wall);
                proof {
                    lemma_set_wall_at(b0, *map, (x0, y0));
                    lemma_set_no_door(b0, *map, (x0, y0), Tile::Wall);
                    lemma_wall_spares_centers(b0, *map, (x0, y0), i as int);
                }
                let ghost b1 = *map;
                map.set(x1, y0, Tile::Wall);
                proof {
                    lemma_set_wall_at(b1, *map, (x1, y0));
                    lemma_set_no_door(b1, *map, (x1, y0), Tile::Wall);
                    lemma_wall_spares_centers(b1, *map, (x1, y0), i as int);
                }
                let ghost b2 = *map;
                map.set(x0, y1, Tile::Wall);
                proof {
                    lemma_set_wall_at(b2, *map, (x0, y1));
                    lemma_set_no_door(b2, *map, (x0, y1), Tile::Wall);
                    lemma_wall_spares_centers(b2, *map, (x0, y1), i as int);
                }
                let ghost b3 = *map;
                map.set(x1, y1, Tile::Wall);
                proof {
                    lemma_set_wall_at(b3, *map, (x1, y1));
                    lemma_set_no_door(b3, *map, (x1, y1), Tile::Wall);
                    lemma_wall_spares_centers(b3, *map, (x1, y1), i as int);
                    assert(in_notch(room, (x0, y0)) && in_notch(room, (x1, y0)) && in_notch(room, (x0, y1)) && in_notch(room, (x1, y1)));
                    assert forall|p: Pos| #![trigger map.tile_at(p)] map.tile_at(p) != mi.tile_at(p) implies map.tile_at(p)
                        == Tile::Wall && in_notch(room, p) by {
                        assert(b1.tile_at(p) == (if p == (x0, y0) { Tile::Wall } else { b0.tile_at(p) }));
                        assert(b2.tile_at(p) == (if p == (x1, y0) { Tile::Wall } else { b1.tile_at(p) }));
                        assert(b3.tile_at(p) == (if p == (x0, y1) { Tile::Wall } else { b2.tile_at(p) }));
                    }
                    assert forall|p: Pos|
                        #![trigger map.tile_at(p)]
                        in_notch(room, p) && (edge_depths(room, p).1 < dy || (edge_depths(room, p).1 == dy
                            && edge_depths(room, p).0 < dx + 1)) implies map.tile_at(p) == Tile::Wall by {
                        assert(b1.tile_at(p) == (if p == (x0, y0) { Tile::Wall } else { b0.tile_at(p) }));
                        assert(b2.tile_at(p) == (if p == (x1, y0) { Tile::Wall } else { b1.tile_at(p) }));
                        assert(b3.tile_at(p) == (if p == (x0, y1) { Tile::Wall } else { b2.tile_at(p) }));
                        if edge_depths(room, p).1 == dy && edge_depths(room, p).0 == dx {
                            assert(p.0 == x0 || p.0 == x1);
                            assert(p.1 == y0 || p.1 == y1);
                        } else {
                            assert(b0.tile_at(p) == Tile::Wall);
                        }
                    }
                }
                dx += 1;
            }
            dy += 1;
        }
        proof {
            assert forall|p: Pos|
                #![trigger map.tile_at(p)]
                map.tile_at(p) != m0.tile_at(p) implies map.tile_at(p) == Tile::Wall && exists|j: int|
                    0 <= j < i + 1 && chosen@[j] && #[trigger] in_notch(m0.rooms@[j], p) by {
                if mi.tile_at(p) != m0.tile_at(p) {
                    let j = choose|j: int| 0 <= j < i && chosen@[j] && #[trigger] in_notch(m0.rooms@[j], p);
                    if map.tile_at(p) != mi.tile_at(p) {
                        assert(rects_apart(m0.rooms@[j], m0.rooms@[i as int]));
                    }
                } else {
                    assert(in_notch(m0.rooms@[i as int], p));
                }
            }
            assert forall|j: int| 0 <= j < i implies notch_kept(mi, *map, #[trigger] m0.rooms@[j]) by {
                assert forall|p: Pos| in_notch(m0.rooms@[j], p) implies #[trigger] map.tile_at(p) == mi.tile_at(p) by {
                    if map.tile_at(p) != mi.tile_at(p) {
                        assert(rects_apart(m0.rooms@[j], m0.rooms@[i as int]));
                    }
                }
            }
            assert forall|j: int| 0 <= j < i + 1 && chosen@[j] implies notch_walled(*map, #[trigger] m0.rooms@[j]) by {
                if j < i {
                    assert(notch_walled(mi, m0.rooms@[j]));
                    assert(notch_kept(mi, *map, m0.rooms@[j]));
                    assert forall|p: Pos| in_notch(m0.rooms@[j], p) implies #[trigger] map.tile_at(p) == Tile::Wall by {
                        assert(mi.tile_at(p) == Tile::Wall);
                    }
                } else {
                    assert forall|p: Pos| in_notch(room, p) implies #[trigger] map.tile_at(p) == Tile::Wall by {
                        assert(edge_depths(room, p).1 < dy);
                    }
                }
            }
            assert forall|j: int| 0 <= j < i + 1 && !chosen@[j] implies notch_kept(m0, *map, #[trigger] m0.rooms@[j]) by {
                assert(j < i);
                assert(notch_kept(m0, mi, m0.rooms@[j]));
                assert(notch_kept(mi, *map, m0.rooms@[j]));
                assert forall|p: Pos| in_notch(m0.rooms@[j], p) implies #[trigger] map.tile_at(p) == m0.tile_at(p) by {
                    assert(mi.tile_at(p) == m0.tile_at(p));
                }
            }
        }
        i += 1;
    }
}

/// Carve the corners of large rooms back to wall so not every room reads as
/// a plain rectangle: each room at least 6 tiles across loses its corners
/// with even chance (one draw per such room, in room order), two deep from 8
/// tiles across. Which rooms lose them is drawn at random; every other tile
/// stays as it was.
fn carve_room_corners(map: &mut DungeonMap, rng: &mut StdRng)
    requires
        gen_ok(*old(map)),
        centers_floored(*old(map)),
        rooms_apart(old(map).rooms@, 0, old(map).rooms@.len() as int),
    ensures
        gen_ok(*final(map)),
        final(map).width == old(map).width,
        final(map).height == old(map).height,
        final(map).rooms@ == old(map).rooms@,
        centers_floored(*final(map)),
        forall|p: Pos|
            #![trigger final(map).tile_at(p)]
            final(map).tile_at(p) != old(map).tile_at(p) ==> final(map).tile_at(p) == Tile::Wall && exists|i: int|
                0 <= i < old(map).rooms@.len() && #[trigger] in_notch(old(map).rooms@[i], p),
        forall|i: int|
            0 <= i < old(map).rooms@.len() ==> notch_walled(*final(map), #[trigger] old(map).rooms@[i]) || notch_kept(
                *old(map),
                *final(map),
                old(map).rooms@[i],
            ),
{
    let n = map.rooms.len();
    let mut chosen: Vec<bool> = Vec::new();
    let mut i: usize = 0;
    while i < n
        invariant
            n == map.rooms@.len(),
            i <= n,
            chosen@.len() == i,
        decreases n - i,
    {
        let room = map.rooms[i];
        let min_dim = if room.w < room.h {
            room.w
        } else {
            room.h
        };
        if min_dim >= 6 {
            chosen.push(random_ratio(rng, 1, 2));
        } else {
            chosen.push(false);
        }
        i += 1;
    }
    carve_chosen_corners(map, &chosen);
}

/// Append the room indices of a subtree, in pre-order.
fn collect_room_indices(node: &BspNode, out: &mut Vec<usize>)
    ensures
        final(out)@ == old(out)@ + node.room_indices(),
    decreases node,
{
    let ghost o0 = out@;
    match node.room_idx {
        Some(idx) => out.push(idx),
        None => {},
    }
    let ghost o1 = out@;
    match &node.left {
        Some(l) => collect_room_indices(l, out),
        None => {},
    }
    let ghost o2 = out@;
    match &node.right {
        Some(r) => collect_room_indices(r, out),
        None => {},
    }
    proof {
        let nd = *node;
        let a = match nd.room_idx {
            Some(i) => seq![i],
            None => Seq::<usize>::empty(),
        };
        let b = match nd.left {
            Some(l) => l.room_indices(),
            None => Seq::<usize>::empty(),
        };
        let c = match nd.right {
            Some(r) => r.room_indices(),
            None => Seq::<usize>::empty(),
        };
        assert(o1 =~= o0 + a);
        assert(o2 =~= o1 + b);
        assert(out@ =~= o2 + c);
        assert(node.room_indices() == a + b + c);
        assert(out@ =~= o0 + (a + b + c));
    }
}

proof fn lemma_room_indices_below(node: BspNode, n: nat)
    requires
        node.rooms_below(n),
    ensures
        forall|k: int| 0 <= k < node.room_indices().len() ==> node.room_indices()[k] < n,
    decreases node,
{
    let a = match node.room_idx {
        Some(i) => seq![i],
        None => Seq::<usize>::empty(),
    };
    let b = match node.left {
        Some(l) => l.room_indices(),
        None => Seq::<usize>::empty(),
    };
    let c = match node.right {
        Some(r) => r.room_indices(),
        None => Seq::<usize>::empty(),
    };
    match node.left {
        Some(l) => lemma_room_indices_below(*l, n),
        None => {},
    }
    match node.right {
        Some(r) => lemma_room_indices_below(*r, n),
        None => {},
    }
    assert(node.room_indices() == a + b + c);
    assert forall|k: int| 0 <= k < node.room_indices().len() implies node.room_indices()[k] < n by {
        if k < a.len() {
        } else if k < a.len() + b.len() {
            assert(node.room_indices()[k] == b[k - a.len()]);
        } else {
            assert(node.room_indices()[k] == c[k - a.len() - b.len()]);
        }
    }
}

/// Squared distance between the centers of two rooms.
pub open spec fn center_dist2(a: Room, b: Room) -> int {
    let (ax, ay) = a.spec_center();
    let (bx, by) = b.spec_center();
    (ax - bx) * (ax - bx) + (ay - by) * (ay - by)
}

/// Room coordinates small enough for squared distances in a `u64`.
pub open spec fn rooms_small(rooms: Seq<Room>) -> bool {
    forall|i: int|
        0 <= i < rooms.len() ==> (#[trigger] rooms[i]).x + rooms[i].w < 0x8000_0000 && rooms[i].y
            + rooms[i].h < 0x8000_0000
}

/// Squared distance between the centers of two rooms.
fn room_dist2(a: &Room, b: &Room) -> (d: u64)
    requires
        a.x + a.w < 0x8000_0000,
        a.y + a.h < 0x8000_0000,
        b.x + b.w < 0x8000_0000,
        b.y + b.h < 0x8000_0000,
    ensures
        d == center_dist2(*a, *b),
        d <= 0x8000_0000_0000_0000,
{
    let (ax, ay) = a.center();
    let (bx, by) = b.center();
    let dx: u64 = if ax >= bx {
        (ax - bx) as u64
    } else {
        (bx - ax) as u64
    };
    let dy: u64 = if ay >= by {
        (ay - by) as u64
    } else {
        (by - ay) as u64
    };
    assert(dx * dx <= 0x4000_0000_0000_0000) by (nonlinear_arith)
        requires
            dx < 0x8000_0000,
    ;
    assert(dy * dy <= 0x4000_0000_0000_0000) by (nonlinear_arith)
        requires
            dy < 0x8000_0000,
    ;
    assert(dx * dx == (ax - bx) * (ax - bx)) by (nonlinear_arith)
        requires
            dx == ax - bx || dx == bx - ax,
    ;
    assert(dy * dy == (ay - by) * (ay - by)) by (nonlinear_arith)
        requires
            dy == ay - by || dy == by - ay,
    ;
    dx * dx + dy * dy
}

/// Find the pair of rooms (one from each set) whose centers are closest:
/// the first closest pair, scanning `left` then `right`.
pub fn nearest_room_pair(rooms: &Vec<Room>, left: &Vec<usize>, right: &Vec<usize>) -> (r: (usize, usize))
    requires
        left@.len() > 0,
        right@.len() > 0,
        forall|k: int| 0 <= k < left@.len() ==> #[trigger] left@[k] < rooms@.len(),
        forall|k: int| 0 <= k < right@.len() ==> #[trigger] right@[k] < rooms@.len(),
        rooms_small(rooms@),
    ensures
        exists|a: int, b: int|
            0 <= a < left@.len() && 0 <= b < right@.len() && left@[a] == r.0 && right@[b] == r.1 && (
            forall|c: int, d: int|
                #![trigger left@[c], right@[d]]
                0 <= c < left@.len() && 0 <= d < right@.len() ==> center_dist2(
                    rooms@[r.0 as int],
                    rooms@[r.1 as int],
                ) <= center_dist2(rooms@[left@[c] as int], rooms@[right@[d] as int]) && ((c < a || (c
                    == a && d < b)) ==> center_dist2(rooms@[r.0 as int], rooms@[r.1 as int])
                    < center_dist2(rooms@[left@[c] as int], rooms@[right@[d] as int]))),
{
    let mut best = (left[0], right[0]);
    let mut best_dist: u64 = u64::MAX;
    let ghost mut ba: int = 0;
    let ghost mut bb: int = 0;
    let mut i: usize = 0;
    while i < left.len()
        invariant
            rooms_small(rooms@),
            forall|k: int| 0 <= k < left@.len() ==> #[trigger] left@[k] < rooms@.len(),
            forall|k: int| 0 <= k < right@.len() ==> #[trigger] right@[k] < rooms@.len(),
            right@.len() > 0,
            i <= left@.len(),
            0 <= ba < left@.len(),
            0 <= bb < right@.len(),
            best == (left@[ba], right@[bb]),
            i == 0 ==> best_dist == u64::MAX,
            i > 0 ==> best_dist == center_dist2(rooms@[best.0 as int], rooms@[best.1 as int]) && ba < i
                && best_dist <= 0x8000_0000_0000_0000,
            forall|c: int, d: int|
                #![trigger left@[c], right@[d]]
                0 <= c < i && 0 <= d < right@.len() ==> best_dist <= center_dist2(
                    rooms@[left@[c] as int],
                    rooms@[right@[d] as int],
                ) && ((c < ba || (c == ba && d < bb)) ==> best_dist < center_dist2(
                    rooms@[left@[c] as int],
                    rooms@[right@[d] as int],
                )),
        decreases left@.len() - i,
    {
        let li = left[i];
        let mut j: usize = 0;
        while j < right.len()
            invariant
                rooms_small(rooms@),
                forall|k: int| 0 <= k < left@.len() ==> #[trigger] left@[k] < rooms@.len(),
                forall|k: int| 0 <= k < right@.len() ==> #[trigger] right@[k] < rooms@.len(),
                i < left@.len(),
                li == left@[i as int],
                j <= right@.len(),
                0 <= ba < left@.len(),
                0 <= bb < right@.len(),
                best == (left@[ba], right@[bb]),
                best_dist == u64::MAX || (best_dist == center_dist2(rooms@[best.0 as int], rooms@[best.1 as int])
                    && best_dist <= 0x8000_0000_0000_0000),
                best_dist == u64::MAX <==> (i == 0 && j == 0),
                (i > 0 || j > 0) ==> (ba < i || (ba == i && bb < j)),
                forall|c: int, d: int|
                    #![trigger left@[c], right@[d]]
                    ((0 <= c < i && 0 <= d < right@.len()) || (c == i && 0 <= d < j)) ==> best_dist
                        <= center_dist2(rooms@[left@[c] as int], rooms@[right@[d] as int]) && ((c < ba || (c
                        == ba && d < bb)) ==> best_dist < center_dist2(
                        rooms@[left@[c] as int],
                        rooms@[right@[d] as int],
                    )),
            decreases right@.len() - j,
        {
            let ri = right[j];
            assert(ri == right@[j as int]);
            let dist = room_dist2(&rooms[li], &rooms[ri]);
            assert(dist == center_dist2(rooms@[left@[i as int] as int], rooms@[right@[j as int] as int]));
            let ghost old_best = best_dist;
            if dist < best_dist {
                best_dist = dist;
                best = (li, ri);
                proof {
                    ba = i as int;
                    bb = j as int;
                }
            }
            proof {
                assert(best_dist <= dist);
                assert(ba < i || (ba == i && bb < j + 1));
            }
            j += 1;
        }
        i += 1;
    }
    best
}

/// Every tile of a horizontal segment is walkable.
pub open spec fn h_segment_walkable(map: DungeonMap, x1: u32, x2: u32, y: u32) -> bool {
    forall|x: u32|
        (x1 <= x <= x2 || x2 <= x <= x1) ==> #[trigger] map.walkable((x, y))
}

/// Every tile of a vertical segment is walkable.
pub open spec fn v_segment_walkable(map: DungeonMap, y1: u32, y2: u32, x: u32) -> bool {
    forall|y: u32|
        (y1 <= y <= y2 || y2 <= y <= y1) ==> #[trigger] map.walkable((x, y))
}

/// An L-shaped corridor between two points is walkable, bending at one of
/// its two corners.
pub open spec fn l_path_walkable(map: DungeonMap, x1: u32, y1: u32, x2: u32, y2: u32) -> bool {
    ||| (h_segment_walkable(map, x1, x2, y1) && v_segment_walkable(map, y1, y2, x2))
    ||| (v_segment_walkable(map, y1, y2, x1) && h_segment_walkable(map, x1, x2, y2))
}

proof fn lemma_keeps_walkable_trans(a: DungeonMap, b: DungeonMap, c: DungeonMap)
    requires
        keeps_walkable(a, b),
        keeps_walkable(b, c),
    ensures
        keeps_walkable(a, c),
{
    assert forall|p: Pos|
        #![trigger c.tile_at(p)]
        (a.walkable(p) ==> c.walkable(p)) && (a.tile_at(p) == Tile::Floor ==> c.tile_at(p) == Tile::Floor) by {
        let tb = b.tile_at(p);
        let tc = c.tile_at(p);
    }
}

proof fn lemma_l_path_kept(a: DungeonMap, b: DungeonMap, x1: u32, y1: u32, x2: u32, y2: u32)
    requires
        keeps_walkable(a, b),
        l_path_walkable(a, x1, y1, x2, y2),
    ensures
        l_path_walkable(b, x1, y1, x2, y2),
{
    if h_segment_walkable(a, x1, x2, y1) && v_segment_walkable(a, y1, y2, x2) {
        assert forall|x: u32| (x1 <= x <= x2 || x2 <= x <= x1) implies #[trigger] b.walkable((x, y1)) by {
            assert(a.walkable((x, y1)));
        }
        assert forall|y: u32| (y1 <= y <= y2 || y2 <= y <= y1) implies #[trigger] b.walkable((x2, y)) by {
            assert(a.walkable((x2, y)));
        }
    } else {
        assert forall|x: u32| (x1 <= x <= x2 || x2 <= x <= x1) implies #[trigger] b.walkable((x, y2)) by {
            assert(a.walkable((x, y2)));
        }
        assert forall|y: u32| (y1 <= y <= y2 || y2 <= y <= y1) implies #[trigger] b.walkable((x1, y)) by {
            assert(a.walkable((x1, y)));
        }
    }
}

/// Turn the walls of a horizontal segment into corridor.
fn carve_h_line(map: &mut DungeonMap, x1: u32, x2: u32, y: u32)
    requires
        gen_ok(*old(map)),
        x1 < old(map).width,
        x2 < old(map).width,
        y < old(map).height,
    ensures
        gen_ok(*final(map)),
        final(map).width == old(map).width,
        final(map).height == old(map).height,
        final(map).rooms@ == old(map).rooms@,
        keeps_walkable(*old(map), *final(map)),
        h_segment_walkable(*final(map), x1, x2, y),
{
    let ghost m0 = *map;
    let (start, end) = if x1 < x2 {
        (x1, x2)
    } else {
        (x2, x1)
    };
    let mut x = start;
    while x <= end
        invariant
            gen_ok(*map),
            map.width == m0.width,
            map.height == m0.height,
            map.rooms@ == m0.rooms@,
            keeps_walkable(m0, *map),
            start <= x <= end + 1,
            end < m0.width,
            y < m0.height,
            forall|z: u32| start <= z < x ==> #[trigger] map.walkable((z, y)),
        decreases end + 1 - x,
    {
        if map.get(x, y) == Tile::Wall {
            let ghost before = *map;
            map.set(x, y, Tile::Corridor);
            proof {
                lemma_set_walkable(before, *map, (x, y), Tile::Corridor);
                lemma_keeps_walkable_trans(m0, before, *map);
                assert forall|z: u32| start <= z < x implies #[trigger] map.walkable((z, y)) by {
                    assert(before.walkable((z, y)));
                }
            }
        }
        x += 1;
    }
}

/// Turn the walls of a vertical segment into corridor.
fn carve_v_line(map: &mut DungeonMap, y1: u32, y2: u32, x: u32)
    requires
        gen_ok(*old(map)),
        y1 < old(map).height,
        y2 < old(map).height,
        x < old(map).width,
    ensures
        gen_ok(*final(map)),
        final(map).width == old(map).width,
        final(map).height == old(map).height,
        final(map).rooms@ == old(map).rooms@,
        keeps_walkable(*old(map), *final(map)),
        v_segment_walkable(*final(map), y1, y2, x),
{
    let ghost m0 = *map;
    let (start, end) = if y1 < y2 {
        (y1, y2)
    } else {
        (y2, y1)
    };
    let mut y = start;
    while y <= end
        invariant
            gen_ok(*map),
            map.width == m0.width,
            map.height == m0.height,
            map.rooms@ == m0.rooms@,
            keeps_walkable(m0, *map),
            start <= y <= end + 1,
            end < m0.height,
            x < m0.width,
            forall|z: u32| start <= z < y ==> #[trigger] map.walkable((x, z)),
        decreases end + 1 - y,
    {
        if map.get(x, y) == Tile::Wall {
            let ghost before = *map;
            map.set(x, y, Tile::Corridor);
            proof {
                lemma_set_walkable(before, *map, (x, y), Tile::Corridor);
                lemma_keeps_walkable_trans(m0, before, *map);
                assert forall|z: u32| start <= z < y implies #[trigger] map.walkable((x, z)) by {
                    assert(before.walkable((x, z)));
                }
            }
        }
        y += 1;
    }
}

/// Carve an L-shaped corridor between two points, going horizontal or
/// vertical first at random.
fn carve_corridor(map: &mut DungeonMap, x1: u32, y1: u32, x2: u32, y2: u32, rng: &mut StdRng)
    requires
        gen_ok(*old(map)),
        x1 < old(map).width,
        x2 < old(map).width,
        y1 < old(map).height,
        y2 < old(map).height,
    ensures
        gen_ok(*final(map)),
        final(map).width == old(map).width,
        final(map).height == old(map).height,
        final(map).rooms@ == old(map).rooms@,
        keeps_walkable(*old(map), *final(map)),
        l_path_walkable(*final(map), x1, y1, x2, y2),
{
    let ghost m0 = *map;
    let horizontal_first = random_ratio(rng, 1, 2);
    if horizontal_first {
        carve_h_line(map, x1, x2, y1);
        let ghost m1 = *map;
        carve_v_line(map, y1, y2, x2);
        proof {
            lemma_keeps_walkable_trans(m0, m1, *map);
            assert forall|x: u32| (x1 <= x <= x2 || x2 <= x <= x1) implies #[trigger] map.walkable((x, y1)) by {
                assert(m1.walkable((x, y1)));
            }
        }
    } else {
        carve_v_line(map, y1, y2, x1);
        let ghost m1 = *map;
        carve_h_line(map, x1, x2, y2);
        proof {
            lemma_keeps_walkable_trans(m0, m1, *map);
            assert forall|y: u32| (y1 <= y <= y2 || y2 <= y <= y1) implies #[trigger] map.walkable((x1, y)) by {
                assert(m1.walkable((x1, y)));
            }
        }
    }
}

/// Every edge joins two existing rooms.
pub open spec fn edges_valid(edges: Seq<(usize, usize)>, n: nat) -> bool {
    forall|k: int| 0 <= k < edges.len() ==> (#[trigger] edges[k]).0 < n && edges[k].1 < n
}

/// The L-shaped corridor between the centers of rooms `a` and `b` is walkable.
pub open spec fn corridor_ok(map: DungeonMap, a: usize, b: usize) -> bool {
    let (ax, ay) = map.rooms@[a as int].spec_center();
    let (bx, by) = map.rooms@[b as int].spec_center();
    l_path_walkable(map, ax as u32, ay as u32, bx as u32, by as u32)
}

/// Every edge has a walkable corridor between its rooms' centers.
pub open spec fn corridors_ok(map: DungeonMap, edges: Seq<(usize, usize)>) -> bool {
    forall|k: int| 0 <= k < edges.len() ==> corridor_ok(map, (#[trigger] edges[k]).0, edges[k].1)
}

proof fn lemma_corridors_kept(a: DungeonMap, b: DungeonMap, edges: Seq<(usize, usize)>)
    requires
        keeps_walkable(a, b),
        a.rooms@ == b.rooms@,
        corridors_ok(a, edges),
    ensures
        corridors_ok(b, edges),
{
    assert forall|k: int| 0 <= k < edges.len() implies corridor_ok(b, (#[trigger] edges[k]).0, edges[k].1) by {
        let (ax, ay) = a.rooms@[edges[k].0 as int].spec_center();
        let (bx, by) = a.rooms@[edges[k].1 as int].spec_center();
        assert(corridor_ok(a, edges[k].0, edges[k].1));
        lemma_l_path_kept(a, b, ax as u32, ay as u32, bx as u32, by as u32);
    }
}

/// Carve a corridor between the centers of rooms `a` and `b` and record the edge.
fn link_rooms(map: &mut DungeonMap, edges: &mut Vec<(usize, usize)>, a: usize, b: usize, rng: &mut StdRng)
    requires
        gen_ok(*old(map)),
        a < old(map).rooms@.len(),
        b < old(map).rooms@.len(),
        edges_valid(old(edges)@, old(map).rooms@.len()),
        corridors_ok(*old(map), old(edges)@),
    ensures
        gen_ok(*final(map)),
        final(map).width == old(map).width,
        final(map).height == old(map).height,
        final(map).rooms@ == old(map).rooms@,
        keeps_walkable(*old(map), *final(map)),
        final(edges)@ == old(edges)@.push((a, b)),
        edges_valid(final(edges)@, final(map).rooms@.len()),
        corridors_ok(*final(map), final(edges)@),
{
    let ghost m0 = *map;
    proof {
        assert(room_ok(map.rooms@[a as int], map.width, map.height));
        assert(room_ok(map.rooms@[b as int], map.width, map.height));
    }
    let (lx, ly) = map.rooms[a].center();
    let (rx, ry) = map.rooms[b].center();
    carve_corridor(map, lx, ly, rx, ry, rng);
    let ghost e0 = edges@;
    edges.push((a, b));
    proof {
        lemma_corridors_kept(m0, *map, e0);
        assert forall|k: int| 0 <= k < edges@.len() implies corridor_ok(*map, (#[trigger] edges@[k]).0, edges@[k].1) by {
            if k < e0.len() {
                assert(edges@[k] == e0[k]);
            }
        }
    }
}

/// Connect the rooms of each pair of sibling subtrees through their closest
/// pair of rooms, so corridors stay short instead of lancing across the map.
fn connect_rooms(node: &BspNode, map: &mut DungeonMap, edges: &mut Vec<(usize, usize)>, rng: &mut StdRng)
    requires
        gen_ok(*old(map)),
        node.rooms_below(old(map).rooms@.len()),
        node.full(),
        edges_valid(old(edges)@, old(map).rooms@.len()),
        corridors_ok(*old(map), old(edges)@),
    ensures
        gen_ok(*final(map)),
        final(map).width == old(map).width,
        final(map).height == old(map).height,
        final(map).rooms@ == old(map).rooms@,
        keeps_walkable(*old(map), *final(map)),
        final(edges)@.len() >= old(edges)@.len(),
        final(edges)@.subrange(0, old(edges)@.len() as int) == old(edges)@,
        edges_valid(final(edges)@, final(map).rooms@.len()),
        corridors_ok(*final(map), final(edges)@),
        all_linked(final(edges)@, node.room_indices()),
    decreases node,
{
    let ghost m0 = *map;
    let ghost e0 = edges@;
    if let (Some(left), Some(right)) = (&node.left, &node.right) {
        connect_rooms(left, map, edges, rng);
        let ghost m1 = *map;
        let ghost e1 = edges@;
        connect_rooms(right, map, edges, rng);
        let ghost m2 = *map;
        let ghost e2 = edges@;
        proof {
            lemma_keeps_walkable_trans(m0, m1, m2);
            assert(e2.subrange(0, e0.len() as int) =~= e1.subrange(0, e0.len() as int));
            lemma_all_linked_extend(e1, e2, left.room_indices());
            assert(node.room_indices() =~= left.room_indices() + right.room_indices());
        }
        let mut left_rooms: Vec<usize> = Vec::new();
        let mut right_rooms: Vec<usize> = Vec::new();
        collect_room_indices(left, &mut left_rooms);
        collect_room_indices(right, &mut right_rooms);
        if left_rooms.len() == 0 || right_rooms.len() == 0 {
            proof {
                if left_rooms@.len() == 0 {
                    assert(node.room_indices() =~= right.room_indices());
                } else {
                    assert(node.room_indices() =~= left.room_indices());
                }
            }
            return;
        }
        proof {
            lemma_room_indices_below(**left, map.rooms@.len());
            lemma_room_indices_below(**right, map.rooms@.len());
            assert(left_rooms@ =~= left.room_indices());
            assert(right_rooms@ =~= right.room_indices());
            assert forall|i: int| 0 <= i < map.rooms@.len() implies (#[trigger] map.rooms@[i]).x + map.rooms@[i].w
                < 0x8000_0000 && map.rooms@[i].y + map.rooms@[i].h < 0x8000_0000 by {
                assert(room_ok(map.rooms@[i], map.width, map.height));
            }
        }
        let (li, ri) = nearest_room_pair(&map.rooms, &left_rooms, &right_rooms);
        let ghost e3 = edges@;
        link_rooms(map, edges, li, ri, rng);
        proof {
            lemma_keeps_walkable_trans(m0, m2, *map);
            assert(edges@.subrange(0, e0.len() as int) =~= e2.subrange(0, e0.len() as int));
            assert(edges@.subrange(0, e3.len() as int) =~= e3);
            lemma_all_linked_extend(e3, edges@, left.room_indices());
            lemma_all_linked_extend(e3, edges@, right.room_indices());
            let a = choose|a: int, b: int| 0 <= a < left_rooms@.len() && 0 <= b < right_rooms@.len() && left_rooms@[a] == li && right_rooms@[b] == ri;
            let (ia, ib) = a;
            assert(edges@[edges@.len() - 1] == (li, ri));
            assert(edge_between(edges@, li, ri));
            lemma_join_groups(edges@, left.room_indices(), right.room_indices(), ia, ib);
        }
    } else {
        proof {
            match node.room_idx {
                Some(i) => {
                    assert(node.room_indices() =~= seq![i]);
                    lemma_linked_refl(edges@, i);
                },
                None => {
                    assert(node.room_indices() =~= Seq::<usize>::empty());
                },
            }
        }
    }
}

/// Whether the corridor tile at `(x, y)` is a doorway: it touches room floor
/// along its travel direction and has walls on both perpendicular sides.
pub open spec fn is_doorway(map: DungeonMap, x: u32, y: u32) -> bool {
    let left = map.tile_at((if x == 0 { u32::MAX } else { (x - 1) as u32 }, y));
    let right = map.tile_at(((x + 1) as u32, y));
    let up = map.tile_at((x, if y == 0 { u32::MAX } else { (y - 1) as u32 }));
    let down = map.tile_at((x, (y + 1) as u32));
    ||| ((left == Tile::Floor || right == Tile::Floor) && up == Tile::Wall && down == Tile::Wall)
    ||| ((up == Tile::Floor || down == Tile::Floor) && left == Tile::Wall && right == Tile::Wall)
}

/// Some four-neighbour of `p` is room floor (off-grid ones read as walls).
pub open spec fn floor_beside(map: DungeonMap, p: Pos) -> bool {
    ||| map.tile_at((if p.0 == 0 { u32::MAX } else { (p.0 - 1) as u32 }, p.1)) == Tile::Floor
    ||| map.tile_at(((p.0 + 1) as u32, p.1)) == Tile::Floor
    ||| map.tile_at((p.0, if p.1 == 0 { u32::MAX } else { (p.1 - 1) as u32 })) == Tile::Floor
    ||| map.tile_at((p.0, (p.1 + 1) as u32)) == Tile::Floor
}

/// A tile after door placement.
pub open spec fn door_placed(map: DungeonMap, p: Pos) -> Tile {
    if map.tile_at(p) == Tile::Corridor && is_doorway(map, p.0, p.1) {
        Tile::Door
    } else {
        map.tile_at(p)
    }
}

/// Turn corridor tiles into doors where they pass through a room wall.
fn place_doors(map: &mut DungeonMap)
    requires
        gen_ok(*old(map)),
    ensures
        grid_ok(*final(map)),
        final(map).width == old(map).width,
        final(map).height == old(map).height,
        final(map).rooms@ == old(map).rooms@,
        forall|p: Pos| #[trigger] final(map).tile_at(p) == door_placed(*old(map), p),
        keeps_walkable(*old(map), *final(map)),
{
    let ghost m0 = *map;
    let mut doors: Vec<Pos> = Vec::new();
    let mut y: u32 = 0;
    while y < map.height
        invariant
            *map == m0,
            gen_ok(m0),
            y <= m0.height,
            forall|p: Pos| #[trigger] doors@.contains(p) <==> (m0.in_bounds(p) && p.1 < y && m0.tile_at(p)
                == Tile::Corridor && is_doorway(m0, p.0, p.1)),
        decreases m0.height - y,
    {
        let mut x: u32 = 0;
        while x < map.width
            invariant
                *map == m0,
                gen_ok(m0),
                y < m0.height,
                x <= m0.width,
                forall|p: Pos| #[trigger] doors@.contains(p) <==> (m0.in_bounds(p) && (p.1 < y || (p.1 == y
                    && p.0 < x)) && m0.tile_at(p) == Tile::Corridor && is_doorway(m0, p.0, p.1)),
            decreases m0.width - x,
        {
            if map.get(x, y) == Tile::Corridor {
                let left = map.get(x.wrapping_sub(1), y);
                let right = map.get(x + 1, y);
                let up = map.get(x, y.wrapping_sub(1));
                let down = map.get(x, y + 1);
                let horizontal_doorway = (left == Tile::Floor || right == Tile::Floor) && up == Tile::Wall
                    && down == Tile::Wall;
                let vertical_doorway = (up == Tile::Floor || down == Tile::Floor) && left == Tile::Wall
                    && right == Tile::Wall;
                proof {
                    assert(x == 0 ==> x.wrapping_sub(1) == u32::MAX);
                    assert(x > 0 ==> x.wrapping_sub(1) == x - 1);
                    assert(y == 0 ==> y.wrapping_sub(1) == u32::MAX);
                    assert(y > 0 ==> y.wrapping_sub(1) == y - 1);
                }
                if horizontal_doorway || vertical_doorway {
                    let ghost d0 = doors@;
                    doors.push((x, y));
                    proof {
                        assert forall|p: Pos| #[trigger] doors@.contains(p) <==> (d0.contains(p) || p == (x, y)) by {
                            if p == (x, y) {
                                assert(doors@[d0.len() as int] == p);
                            }
                            if doors@.contains(p) && p != (x, y) {
                                let k = choose|k: int| 0 <= k < doors@.len() && doors@[k] == p;
                                assert(d0[k] == p);
                            }
                            if d0.contains(p) {
                                let k = choose|k: int| 0 <= k < d0.len() && d0[k] == p;
                                assert(doors@[k] == p);
                            }
                        }
                    }
                }
            }
            x += 1;
        }
        y += 1;
    }
    let mut k: usize = 0;
    while k < doors.len()
        invariant
            grid_ok(*map),
            map.width == m0.width,
            map.height == m0.height,
            map.rooms@ == m0.rooms@,
            gen_ok(m0),
            k <= doors@.len(),
            forall|p: Pos| #[trigger] doors@.contains(p) <==> (m0.in_bounds(p) && m0.tile_at(p)
                == Tile::Corridor && is_doorway(m0, p.0, p.1)),
            forall|p: Pos| #[trigger] map.tile_at(p) == if doors@.subrange(0, k as int).contains(p) {
                Tile::Door
            } else {
                m0.tile_at(p)
            },
        decreases doors@.len() - k,
    {
        let (dx, dy) = doors[k];
        let ghost before = *map;
        let ghost dk = doors@[k as int];
        assert(doors@.contains(dk));
        map.set(dx, dy, Tile::Door);
        proof {
            assert forall|p: Pos| #[trigger] map.tile_at(p) == if doors@.subrange(0, k + 1).contains(p) {
                Tile::Door
            } else {
                m0.tile_at(p)
            } by {
                assert(doors@.subrange(0, k + 1) =~= doors@.subrange(0, k as int).push(dk));
                if p == dk {
                    lemma_cell_in_grid(m0.width, m0.height, p);
                    assert(doors@.subrange(0, k + 1)[k as int] == p);
                    assert(doors@.subrange(0, k + 1).contains(p));
                } else {
                    assert(before.tile_at(p) == map.tile_at(p)) by {
                        if m0.in_bounds(p) {
                            lemma_cell_in_grid(m0.width, m0.height, p);
                            lemma_cell_in_grid(m0.width, m0.height, dk);
                            if cell(m0.width, p) == cell(m0.width, dk) {
                                lemma_cell_injective(m0.width, p, dk);
                            }
                        }
                    }
                    assert(doors@.subrange(0, k + 1).contains(p) <==> doors@.subrange(0, k as int).contains(p));
                }
            }
        }
        k += 1;
    }
    proof {
        assert(doors@.subrange(0, doors@.len() as int) =~= doors@);
        assert forall|p: Pos| #[trigger] map.tile_at(p) == door_placed(m0, p) by {
        }
        assert forall|p: Pos| m0.walkable(p) implies #[trigger] map.walkable(p) by {
            assert(map.tile_at(p) == door_placed(m0, p));
        }
    }
}

/// Rooms `a` and `b` are already joined by an edge, in either direction.
pub open spec fn is_connected(edges: Seq<(usize, usize)>, a: usize, b: usize) -> bool {
    exists|k: int| 0 <= k < edges.len() && (edges[k] == (a, b) || edges[k] == (b, a))
}

/// Whether rooms `a` and `b` are already joined by an edge.
fn connected(edges: &Vec<(usize, usize)>, a: usize, b: usize) -> (r: bool)
    ensures
        r == is_connected(edges@, a, b),
{
    let mut k: usize = 0;
    while k < edges.len()
        invariant
            k <= edges@.len(),
            forall|j: int| 0 <= j < k ==> !(edges@[j] == (a, b) || edges@[j] == (b, a)),
        decreases edges@.len() - k,
    {
        let (x, y) = edges[k];
        if (x == a && y == b) || (x == b && y == a) {
            assert(edges@[k as int] == (a, b) || edges@[k as int] == (b, a));
            return true;
        }
        k += 1;
    }
    false
}

/// Candidate loop edges are ordered by squared center distance, then by room indices.
pub open spec fn key_lt(p: (u64, usize, usize), q: (u64, usize, usize)) -> bool {
    p.0 < q.0 || (p.0 == q.0 && (p.1 < q.1 || (p.1 == q.1 && p.2 < q.2)))
}

/// The ordering key of the pair `(a, b)`.
pub open spec fn pair_key(rooms: Seq<Room>, a: usize, b: usize) -> (u64, usize, usize) {
    (center_dist2(rooms[a as int], rooms[b as int]) as u64, a, b)
}

/// `(a, b)` is a pair of rooms, `a < b`, not yet joined.
pub open spec fn loop_candidate(edges: Seq<(usize, usize)>, n: nat, a: usize, b: usize) -> bool {
    a < b < n && !is_connected(edges, a, b)
}

fn key_less(p: (u64, usize, usize), q: (u64, usize, usize)) -> (r: bool)
    ensures
        r == key_lt(p, q),
{
    p.0 < q.0 || (p.0 == q.0 && (p.1 < q.1 || (p.1 == q.1 && p.2 < q.2)))
}

/// Index of the entry with the smallest key.
fn argmin_key(v: &Vec<(u64, usize, usize)>) -> (i: usize)
    requires
        v@.len() > 0,
    ensures
        i < v@.len(),
        forall|j: int| 0 <= j < v@.len() && j != i ==> !key_lt(#[trigger] v@[j], v@[i as int]),
{
    let mut best: usize = 0;
    let mut k: usize = 1;
    while k < v.len()
        invariant
            0 <= best < k <= v@.len(),
            forall|j: int| 0 <= j < k && j != best ==> !key_lt(#[trigger] v@[j], v@[best as int]),
        decreases v@.len() - k,
    {
        if key_less(v[k], v[best]) {
            best = k;
        }
        k += 1;
    }
    best
}

/// Add extra corridors between nearby rooms that aren't already connected,
/// so the dungeon graph has loops instead of being a strict tree: the
/// closest unconnected pairs, `ceil(15% of (rooms - 1))` of them.
pub fn add_loop_corridors(map: &mut DungeonMap, edges: &mut Vec<(usize, usize)>, rng: &mut StdRng)
    requires
        gen_ok(*old(map)),
        edges_valid(old(edges)@, old(map).rooms@.len()),
        corridors_ok(*old(map), old(edges)@),
    ensures
        gen_ok(*final(map)),
        final(map).width == old(map).width,
        final(map).height == old(map).height,
        final(map).rooms@ == old(map).rooms@,
        keeps_walkable(*old(map), *final(map)),
        edges_valid(final(edges)@, final(map).rooms@.len()),
        corridors_ok(*final(map), final(edges)@),
        final(edges)@.len() >= old(edges)@.len(),
        final(edges)@.subrange(0, old(edges)@.len() as int) == old(edges)@,
        ({
            let n = old(map).rooms@.len();
            let e0 = old(edges)@;
            let added = final(edges)@.subrange(e0.len() as int, final(edges)@.len() as int);
            let rooms = old(map).rooms@;
            let extra = ((n - 1) * LOOP_EDGE_PERCENT + 99) / 100;
            &&& n < 3 ==> added.len() == 0
            &&& n >= 3 ==> {
                &&& added.len() <= extra
                &&& forall|k: int| 0 <= k < added.len() ==> loop_candidate(e0, n, (#[trigger] added[k]).0, added[k].1)
                &&& forall|k: int, l: int|
                    0 <= k < l < added.len() ==> key_lt(
                        pair_key(rooms, (#[trigger] added[k]).0, added[k].1),
                        pair_key(rooms, (#[trigger] added[l]).0, added[l].1),
                    )
                &&& forall|a: usize, b: usize|
                    #![trigger loop_candidate(e0, n, a, b)]
                    loop_candidate(e0, n, a, b) && !added.contains((a, b)) ==> added.len() == extra && forall|k: int|
                        0 <= k < added.len() ==> key_lt(
                            pair_key(rooms, (#[trigger] added[k]).0, added[k].1),
                            pair_key(rooms, a, b),
                        )
            }
        }),
{
    let ghost m0 = *map;
    let ghost e0 = edges@;
    let n = map.rooms.len();
    if n < 3 {
        assert(edges@.subrange(e0.len() as int, edges@.len() as int).len() == 0);
        assert(edges@.subrange(0, e0.len() as int) =~= e0);
        return;
    }
    let extra128: u128 = (((n as u128) - 1) * (LOOP_EDGE_PERCENT as u128) + 99) / 100;
    assert(extra128 <= n);
    let extra: usize = extra128 as usize;
    proof {
        assert forall|i: int| 0 <= i < map.rooms@.len() implies (#[trigger] map.rooms@[i]).x + map.rooms@[i].w
            < 0x8000_0000 && map.rooms@[i].y + map.rooms@[i].h < 0x8000_0000 by {
            assert(room_ok(map.rooms@[i], map.width, map.height));
        }
    }
    let ghost rooms = m0.rooms@;
    // All unconnected pairs, with their squared center distance.
    let mut candidates: Vec<(u64, usize, usize)> = Vec::new();
    let mut a: usize = 0;
    while a < n
        invariant
            *map == m0,
            edges@ == e0,
            n == rooms.len(),
            rooms == m0.rooms@,
            rooms_small(rooms),
            a <= n,
            forall|k: int| 0 <= k < candidates@.len() ==> {
                let c = #[trigger] candidates@[k];
                &&& c == pair_key(rooms, c.1, c.2)
                &&& loop_candidate(e0, n as nat, c.1, c.2)
                &&& c.1 < a
            },
            forall|k: int, l: int| 0 <= k < l < candidates@.len() ==> (#[trigger] candidates@[k]) != #[trigger] candidates@[l],
            forall|x: usize, y: usize|
                #![trigger loop_candidate(e0, n as nat, x, y)]
                loop_candidate(e0, n as nat, x, y) && x < a ==> candidates@.contains(pair_key(rooms, x, y)),
        decreases n - a,
    {
        let mut b: usize = a + 1;
        while b < n
            invariant
                *map == m0,
                edges@ == e0,
                n == rooms.len(),
                rooms == m0.rooms@,
                rooms_small(rooms),
                a < n,
                a + 1 <= b <= n,
                forall|k: int| 0 <= k < candidates@.len() ==> {
                    let c = #[trigger] candidates@[k];
                    &&& c == pair_key(rooms, c.1, c.2)
                    &&& loop_candidate(e0, n as nat, c.1, c.2)
                    &&& (c.1 < a || (c.1 == a && c.2 < b))
                },
                forall|k: int, l: int| 0 <= k < l < candidates@.len() ==> (#[trigger] candidates@[k]) != #[trigger] candidates@[l],
                forall|x: usize, y: usize|
                    #![trigger loop_candidate(e0, n as nat, x, y)]
                    loop_candidate(e0, n as nat, x, y) && (x < a || (x == a && y < b))
                        ==> candidates@.contains(pair_key(rooms, x, y)),
            decreases n - b,
        {
            if !connected(edges, a, b) {
                let d = room_dist2(&map.rooms[a], &map.rooms[b]);
                let ghost c0 = candidates@;
                candidates.push((d, a, b));
                proof {
                    assert(candidates@[c0.len() as int] == pair_key(rooms, a, b));
                    assert forall|x: usize, y: usize|
                        #![trigger loop_candidate(e0, n as nat, x, y)]
                        loop_candidate(e0, n as nat, x, y) && (x < a || (x == a && y < b + 1))
                            implies candidates@.contains(pair_key(rooms, x, y)) by {
                        if x == a && y == b {
                            assert(candidates@[c0.len() as int] == pair_key(rooms, x, y));
                        } else {
                            assert(c0.contains(pair_key(rooms, x, y)));
                            let k = choose|k: int| 0 <= k < c0.len() && c0[k] == pair_key(rooms, x, y);
                            assert(candidates@[k] == c0[k]);
                        }
                    }
                    assert forall|k: int, l: int| 0 <= k < l < candidates@.len() implies (#[trigger] candidates@[k]) != #[trigger] candidates@[l] by {
                        if l == c0.len() {
                            assert(candidates@[k] == c0[k]);
                        } else {
                            assert(candidates@[k] == c0[k]);
                            assert(candidates@[l] == c0[l]);
                        }
                    }
                }
            }
            b += 1;
        }
        a += 1;
    }
    // Take the closest ones first.
    let ghost all = candidates@;
    let mut taken: usize = 0;
    while taken < extra && candidates.len() > 0
        invariant
            gen_ok(*map),
            map.width == m0.width,
            map.height == m0.height,
            map.rooms@ == m0.rooms@,
            keeps_walkable(m0, *map),
            edges_valid(edges@, n as nat),
            corridors_ok(*map, edges@),
            n == rooms.len(),
            rooms == m0.rooms@,
            n >= 3,
            taken <= extra,
            forall|k: int, l: int| 0 <= k < l < candidates@.len() ==> (#[trigger] candidates@[k]) != #[trigger] candidates@[l],
            edges@.len() == e0.len() + taken,
            edges@.subrange(0, e0.len() as int) == e0,
            ({
                let added = edges@.subrange(e0.len() as int, edges@.len() as int);
                &&& forall|k: int| 0 <= k < candidates@.len() ==> {
                    let c = #[trigger] candidates@[k];
                    &&& c == pair_key(rooms, c.1, c.2)
                    &&& loop_candidate(e0, n as nat, c.1, c.2)
                    &&& !added.contains((c.1, c.2))
                    &&& forall|j: int| 0 <= j < added.len() ==> key_lt(
                        pair_key(rooms, (#[trigger] added[j]).0, added[j].1),
                        c,
                    )
                }
                &&& forall|k: int| 0 <= k < added.len() ==> loop_candidate(e0, n as nat, (#[trigger] added[k]).0, added[k].1)
                &&& forall|k: int, l: int|
                    0 <= k < l < added.len() ==> key_lt(
                        pair_key(rooms, (#[trigger] added[k]).0, added[k].1),
                        pair_key(rooms, (#[trigger] added[l]).0, added[l].1),
                    )
                &&& forall|x: usize, y: usize|
                    #![trigger loop_candidate(e0, n as nat, x, y)]
                    loop_candidate(e0, n as nat, x, y) ==> candidates@.contains(pair_key(rooms, x, y))
                        || added.contains((x, y))
            }),
        decreases extra - taken,
    {
        let i = argmin_key(&candidates);
        let ghost c0 = candidates@;
        let ghost ed0 = edges@;
        let ghost added0 = ed0.subrange(e0.len() as int, ed0.len() as int);
        let c = candidates.remove(i);
        let ghost m1 = *map;
        link_rooms(map, edges, c.1, c.2, rng);
        taken += 1;
        proof {
            lemma_keeps_walkable_trans(m0, m1, *map);
            let added = edges@.subrange(e0.len() as int, edges@.len() as int);
            assert(added =~= added0.push((c.1, c.2)));
            assert(edges@.subrange(0, e0.len() as int) =~= e0);
            assert(c == c0[i as int]);
            // the chosen pair is below every remaining one, and distinct from them
            assert forall|k: int| 0 <= k < candidates@.len() implies {
                let cc = #[trigger] candidates@[k];
                &&& cc == pair_key(rooms, cc.1, cc.2)
                &&& loop_candidate(e0, n as nat, cc.1, cc.2)
                &&& !added.contains((cc.1, cc.2))
                &&& forall|j: int| 0 <= j < added.len() ==> key_lt(pair_key(rooms, (#[trigger] added[j]).0, added[j].1), cc)
            } by {
                let kk = if k < i { k } else { k + 1 };
                assert(candidates@[k] == c0[kk]);
                let cc = c0[kk];
                assert(!key_lt(cc, c));
                assert(cc != c) by {
                    assert(kk != i);
                    if kk < i {
                        assert(c0[kk] != c0[i as int]);
                    } else {
                        assert(c0[i as int] != c0[kk]);
                    }
                }
                assert(key_lt(c, cc));
                assert(!added0.contains((cc.1, cc.2)));
                if added.contains((cc.1, cc.2)) {
                    let j = choose|j: int| 0 <= j < added.len() && added[j] == (cc.1, cc.2);
                    if j < added0.len() {
                        assert(added0[j] == (cc.1, cc.2));
                    } else {
                        assert((c.1, c.2) == (cc.1, cc.2));
                    }
                }
                assert forall|j: int| 0 <= j < added.len() implies key_lt(pair_key(rooms, (#[trigger] added[j]).0, added[j].1), cc) by {
                    if j < added0.len() {
                        assert(added[j] == added0[j]);
                    } else {
                        assert(added[j] == (c.1, c.2));
                    }
                }
            }
            assert forall|k: int, l: int| 0 <= k < l < candidates@.len() implies (#[trigger] candidates@[k]) != #[trigger] candidates@[l] by {
                let kk = if k < i { k } else { k + 1 };
                let ll = if l < i { l } else { l + 1 };
                assert(candidates@[k] == c0[kk]);
                assert(candidates@[l] == c0[ll]);
            }
            assert forall|k: int| 0 <= k < added.len() implies loop_candidate(e0, n as nat, (#[trigger] added[k]).0, added[k].1) by {
                if k < added0.len() {
                    assert(added[k] == added0[k]);
                }
            }
            assert forall|k: int, l: int|
                0 <= k < l < added.len() implies key_lt(
                    pair_key(rooms, (#[trigger] added[k]).0, added[k].1),
                    pair_key(rooms, (#[trigger] added[l]).0, added[l].1),
                ) by {
                assert(added[k] == added0[k]);
                if l < added0.len() {
                    assert(added[l] == added0[l]);
                } else {
                    assert(added[l] == (c.1, c.2));
                }
            }
            assert forall|x: usize, y: usize|
                #![trigger loop_candidate(e0, n as nat, x, y)]
                loop_candidate(e0, n as nat, x, y) implies candidates@.contains(pair_key(rooms, x, y))
                    || added.contains((x, y)) by {
                if c0.contains(pair_key(rooms, x, y)) {
                    let k = choose|k: int| 0 <= k < c0.len() && c0[k] == pair_key(rooms, x, y);
                    if k == i {
                        assert(added[added.len() - 1] == (x, y));
                    } else if k < i {
                        assert(candidates@[k] == c0[k]);
                    } else {
                        assert(candidates@[k - 1] == c0[k]);
                    }
                } else {
                    assert(added0.contains((x, y)));
                    let j = choose|j: int| 0 <= j < added0.len() && added0[j] == (x, y);
                    assert(added[j] == (x, y));
                }
            }
        }
    }
    proof {
        let added = edges@.subrange(e0.len() as int, edges@.len() as int);
        assert forall|x: usize, y: usize|
            #![trigger loop_candidate(e0, n as nat, x, y)]
            loop_candidate(e0, n as nat, x, y) && !added.contains((x, y)) implies added.len() == extra && forall|k: int|
                0 <= k < added.len() ==> key_lt(pair_key(rooms, (#[trigger] added[k]).0, added[k].1), pair_key(rooms, x, y)) by {
            assert(candidates@.contains(pair_key(rooms, x, y)));
            let k = choose|k: int| 0 <= k < candidates@.len() && candidates@[k] == pair_key(rooms, x, y);
            assert(candidates@[k] == pair_key(rooms, x, y));
        }
    }
}


/// An edge joins `a` and `b`, in either direction.
pub open spec fn edge_between(edges: Seq<(usize, usize)>, a: usize, b: usize) -> bool {
    exists|k: int| 0 <= k < edges.len() && (edges[k] == (a, b) || edges[k] == (b, a))
}

/// `p` is a walk over the room graph from room 0 to room `i`.
pub open spec fn room_walk(edges: Seq<(usize, usize)>, p: Seq<usize>, i: usize) -> bool {
    &&& p.len() >= 1
    &&& p[0] == 0
    &&& p[p.len() - 1] == i
    &&& forall|k: int| 0 <= k < p.len() - 1 ==> edge_between(edges, #[trigger] p[k], p[k + 1])
}

/// `d` is the fewest edges on a walk from room 0 to room `i`.
pub open spec fn is_room_dist(edges: Seq<(usize, usize)>, i: usize, d: nat) -> bool {
    &&& exists|p: Seq<usize>| room_walk(edges, p, i) && p.len() == d + 1
    &&& forall|p: Seq<usize>| room_walk(edges, p, i) ==> p.len() >= d + 1
}

/// The graph distance from room 0 to room `i`, if `i` is reachable.
pub open spec fn room_dist(edges: Seq<(usize, usize)>, i: usize) -> Option<nat> {
    if exists|d: nat| is_room_dist(edges, i, d) {
        Some(choose|d: nat| is_room_dist(edges, i, d))
    } else {
        None
    }
}

/// The distances of rooms `0..n` from room 0 (`usize::MAX` when unreachable).
pub open spec fn room_dists(edges: Seq<(usize, usize)>, n: nat) -> Seq<usize> {
    Seq::new(n, |i: int| match room_dist(edges, i as usize) {
        Some(d) => d as usize,
        None => usize::MAX,
    })
}

proof fn lemma_room_dist_unique(edges: Seq<(usize, usize)>, i: usize, d: nat)
    requires
        is_room_dist(edges, i, d),
    ensures
        room_dist(edges, i) == Some(d),
{
    let c = choose|c: nat| is_room_dist(edges, i, c);
    assert(is_room_dist(edges, i, c));
    let p = choose|p: Seq<usize>| room_walk(edges, p, i) && p.len() == d + 1;
    let q = choose|q: Seq<usize>| room_walk(edges, q, i) && q.len() == c + 1;
    assert(q.len() >= d + 1);
    assert(p.len() >= c + 1);
}


/// How many rooms the search has not reached yet.
pub open spec fn count_unreached(s: Seq<usize>) -> nat
    decreases s.len(),
{
    if s.len() == 0 {
        0
    } else {
        count_unreached(s.drop_last()) + (if s.last() == usize::MAX { 1nat } else { 0nat })
    }
}

proof fn lemma_count_unreached_all(s: Seq<usize>)
    requires
        forall|j: int| 0 <= j < s.len() ==> s[j] == usize::MAX,
    ensures
        count_unreached(s) == s.len(),
    decreases s.len(),
{
    if s.len() > 0 {
        lemma_count_unreached_all(s.drop_last());
    }
}

proof fn lemma_count_unreached_update(s: Seq<usize>, i: int, v: usize)
    requires
        0 <= i < s.len(),
        s[i] == usize::MAX,
    ensures
        count_unreached(s) >= 1,
        v != usize::MAX ==> count_unreached(s.update(i, v)) + 1 == count_unreached(s),
    decreases s.len(),
{
    let t = s.update(i, v);
    if i == s.len() - 1 {
        assert(t.drop_last() =~= s.drop_last());
    } else {
        lemma_count_unreached_update(s.drop_last(), i, v);
        assert(t.drop_last() =~= s.drop_last().update(i, v));
    }
}

/// Every edge from a room at a distance below `level` leads to a room at
/// most one step farther.
pub open spec fn settled_below(edges: Seq<(usize, usize)>, dist: Seq<usize>, level: int) -> bool {
    forall|j: int| 0 <= j < edges.len() ==> {
        let e = #[trigger] edges[j];
        &&& (dist[e.0 as int] < level ==> dist[e.1 as int] <= dist[e.0 as int] + 1)
        &&& (dist[e.1 as int] < level ==> dist[e.0 as int] <= dist[e.1 as int] + 1)
    }
}

proof fn lemma_walk_push(edges: Seq<(usize, usize)>, p: Seq<usize>, a: usize, b: usize)
    requires
        room_walk(edges, p, a),
        edge_between(edges, a, b),
    ensures
        room_walk(edges, p.push(b), b),
{
    let q = p.push(b);
    assert forall|k: int| 0 <= k < q.len() - 1 implies edge_between(edges, #[trigger] q[k], q[k + 1]) by {
        if k < p.len() - 1 {
            assert(q[k] == p[k] && q[k + 1] == p[k + 1]);
        } else {
            assert(q[k] == a && q[k + 1] == b);
        }
    }
}

/// Along a walk from room 0, when every reached room's neighbours are reached
/// at most one step farther, the room at position `k` is reached within `k`.
proof fn lemma_walk_bound(edges: Seq<(usize, usize)>, dist: Seq<usize>, level: int, p: Seq<usize>, i: usize, k: int)
    requires
        room_walk(edges, p, i),
        0 <= k < p.len(),
        dist.len() > 0,
        dist[0] == 0,
        edges_valid(edges, dist.len()),
        settled_below(edges, dist, level),
        forall|v: int| 0 <= v < dist.len() && dist[v] != usize::MAX ==> dist[v] < level,
        level <= usize::MAX,
        level < usize::MAX || count_unreached(dist) == 0,
    ensures
        p[k] < dist.len(),
        dist[p[k] as int] != usize::MAX,
        dist[p[k] as int] <= k,
    decreases k,
{
    if k > 0 {
        lemma_walk_bound(edges, dist, level, p, i, k - 1);
        let a = p[k - 1];
        let b = p[k];
        assert(edge_between(edges, a, b));
        let j = choose|j: int| 0 <= j < edges.len() && (edges[j] == (a, b) || edges[j] == (b, a));
        let e = edges[j];
        assert(e.0 < dist.len() && e.1 < dist.len());
        if dist[b as int] == usize::MAX {
            lemma_count_unreached_update(dist, b as int, 0);
        }
    }
}

/// With every reached room settled and a shortest-known walk to each, the
/// distances are exactly the graph distances.
proof fn lemma_dists_exact(edges: Seq<(usize, usize)>, dist: Seq<usize>, walks: Seq<Seq<usize>>, level: int)
    requires
        0 < dist.len() <= usize::MAX,
        dist[0] == 0,
        walks.len() == dist.len(),
        edges_valid(edges, dist.len()),
        settled_below(edges, dist, level),
        level <= usize::MAX,
        level < usize::MAX || count_unreached(dist) == 0,
        forall|v: int| 0 <= v < dist.len() && dist[v] != usize::MAX ==> dist[v] < level,
        forall|v: int|
            0 <= v < dist.len() && dist[v] != usize::MAX ==> room_walk(edges, #[trigger] walks[v], v as usize)
                && walks[v].len() == dist[v] + 1,
    ensures
        dist == room_dists(edges, dist.len()),
{
    let n = dist.len();
    assert forall|i: int| 0 <= i < n implies #[trigger] dist[i] == room_dists(edges, n)[i] by {
        if dist[i] != usize::MAX {
            let d = dist[i] as nat;
            assert(room_walk(edges, walks[i], i as usize) && walks[i].len() == d + 1);
            assert forall|p: Seq<usize>| room_walk(edges, p, i as usize) implies p.len() >= d + 1 by {
                lemma_walk_bound(edges, dist, level, p, i as usize, p.len() - 1);
                assert(p[p.len() - 1] == i as usize);
            }
            assert(is_room_dist(edges, i as usize, d));
            lemma_room_dist_unique(edges, i as usize, d);
        } else {
            assert forall|d: nat| !#[trigger] is_room_dist(edges, i as usize, d) by {
                if is_room_dist(edges, i as usize, d) {
                    let p = choose|p: Seq<usize>| room_walk(edges, p, i as usize) && p.len() == d + 1;
                    lemma_walk_bound(edges, dist, level, p, i as usize, p.len() - 1);
                    assert(p[p.len() - 1] == i as usize);
                }
            }
        }
    }
    assert(dist =~= room_dists(edges, n));
}

/// Graph distances from room 0 over the corridor graph, by breadth-first
/// layers (`usize::MAX` for a room no corridor reaches).
#[verifier::spinoff_prover]
#[verifier::rlimit(40)]
pub fn room_distances(n: usize, edges: &Vec<(usize, usize)>) -> (dist: Vec<usize>)
    requires
        n >= 1,
        edges_valid(edges@, n as nat),
    ensures
        dist@ == room_dists(edges@, n as nat),
{
    let mut dist: Vec<usize> = Vec::new();
    let mut i: usize = 0;
    while i < n
        invariant
            i <= n,
            dist@.len() == i,
            forall|j: int| 0 <= j < i ==> dist@[j] == usize::MAX,
        decreases n - i,
    {
        dist.push(usize::MAX);
        i += 1;
    }
    proof {
        lemma_count_unreached_all(dist@);
        lemma_count_unreached_update(dist@, 0, 0);
    }
    dist.set(0, 0);
    let ghost mut walks: Seq<Seq<usize>> = Seq::new(n as nat, |v: int| seq![0usize]);
    assert(room_walk(edges@, walks[0], 0));
    let mut level: usize = 0;
    loop
        invariant
            n >= 1,
            edges_valid(edges@, n as nat),
            dist@.len() == n,
            dist@[0] == 0,
            walks.len() == n,
            count_unreached(dist@) + level + 1 <= n,
            forall|v: int| 0 <= v < n && dist@[v] != usize::MAX ==> dist@[v] <= level,
            exists|v: int| 0 <= v < n && dist@[v] == level,
            settled_below(edges@, dist@, level as int),
            forall|v: int|
                0 <= v < n && dist@[v] != usize::MAX ==> room_walk(edges@, #[trigger] walks[v], v as usize)
                    && walks[v].len() == dist@[v] + 1,
        decreases count_unreached(dist@),
    {
        let ghost count0 = count_unreached(dist@);
        let ghost dist0 = dist@;
        proof {
            if exists|v: int| 0 <= v < n && dist@[v] == level + 1 {
                let v = choose|v: int| 0 <= v < n && dist@[v] == level + 1;
                if dist@[v] == usize::MAX {
                    lemma_count_unreached_update(dist@, v, 0);
                }
            }
        }
        let mut grew = false;
        let mut k: usize = 0;
        while k < edges.len()
            invariant
                n >= 1,
                edges_valid(edges@, n as nat),
                dist@.len() == n,
                dist@[0] == 0,
                walks.len() == n,
                count0 + level + 1 <= n,
                k <= edges@.len(),
                forall|v: int| 0 <= v < n && dist0[v] != usize::MAX ==> dist0[v] <= level,
                forall|v: int| 0 <= v < n && dist@[v] != usize::MAX ==> dist@[v] <= level + 1,
                forall|v: int| 0 <= v < n && dist0[v] != usize::MAX ==> #[trigger] dist@[v] == dist0[v],
                forall|v: int| 0 <= v < n && dist0[v] == usize::MAX && dist@[v] != usize::MAX ==> #[trigger] dist@[v] == level + 1,
                grew <==> exists|v: int| 0 <= v < n && dist@[v] == level + 1,
                grew ==> count_unreached(dist@) < count0,
                count_unreached(dist@) <= count0,
                settled_below(edges@, dist@, level as int),
                forall|j: int| 0 <= j < k ==> {
                    let e = #[trigger] edges@[j];
                    &&& (dist@[e.0 as int] == level ==> dist@[e.1 as int] <= level + 1)
                    &&& (dist@[e.1 as int] == level ==> dist@[e.0 as int] <= level + 1)
                },
                forall|v: int|
                    0 <= v < n && dist@[v] != usize::MAX ==> room_walk(edges@, #[trigger] walks[v], v as usize)
                        && walks[v].len() == dist@[v] + 1,
            decreases edges@.len() - k,
        {
            let (a, b) = edges[k];
            assert(edges@[k as int] == (a, b));
            let ghost before = dist@;
            if dist[a] == level && dist[b] == usize::MAX {
                proof {
                    lemma_count_unreached_update(dist@, b as int, (level + 1) as usize);
                    assert(edge_between(edges@, a, b));
                    lemma_walk_push(edges@, walks[a as int], a, b);
                    walks = walks.update(b as int, walks[a as int].push(b));
                }
                dist.set(b, level + 1);
                grew = true;
            } else if dist[b] == level && dist[a] == usize::MAX {
                proof {
                    lemma_count_unreached_update(dist@, a as int, (level + 1) as usize);
                    assert(edge_between(edges@, b, a));
                    lemma_walk_push(edges@, walks[b as int], b, a);
                    walks = walks.update(a as int, walks[b as int].push(a));
                }
                dist.set(a, level + 1);
                grew = true;
            }
            proof {
                assert forall|j: int| 0 <= j < edges@.len() implies {
                    let e = #[trigger] edges@[j];
                    &&& (dist@[e.0 as int] < level ==> dist@[e.1 as int] <= dist@[e.0 as int] + 1)
                    &&& (dist@[e.1 as int] < level ==> dist@[e.0 as int] <= dist@[e.1 as int] + 1)
                } by {
                    let e = edges@[j];
                    assert(before[e.0 as int] == dist0[e.0 as int] || before[e.0 as int] == level + 1 || before[e.0 as int] == usize::MAX);
                }
            }
            k += 1;
        }
        if !grew {
            proof {
                assert forall|v: int| 0 <= v < n && dist@[v] != usize::MAX implies dist@[v] < level + 1 by {
                    if dist0[v] == usize::MAX {
                        assert(dist@[v] == level + 1);
                    }
                }
                lemma_dists_exact(edges@, dist@, walks, level + 1);
            }
            return dist;
        }
        level += 1;
    }
}


/// Whether the search reached a room.
pub open spec fn reached(d: usize) -> bool {
    d != usize::MAX
}

/// `b` is where the boss goes: the reached room other than the entrance that
/// lies farthest from it, the last such room on a tie; the last room when no
/// other room was reached.
pub open spec fn is_boss_room(dist: Seq<usize>, b: int) -> bool {
    if exists|i: int| 1 <= i < dist.len() && reached(#[trigger] dist[i]) {
        &&& 1 <= b < dist.len()
        &&& reached(dist[b])
        &&& forall|j: int| 1 <= j < dist.len() && reached(#[trigger] dist[j]) ==> dist[j] <= dist[b]
        &&& forall|j: int| b < j < dist.len() && reached(#[trigger] dist[j]) ==> dist[j] < dist[b]
    } else {
        b == dist.len() - 1
    }
}

/// The boss room for these distances.
pub open spec fn boss_room(dist: Seq<usize>) -> int {
    choose|b: int| is_boss_room(dist, b)
}

pub proof fn lemma_boss_room_unique(dist: Seq<usize>, b: int)
    requires
        is_boss_room(dist, b),
    ensures
        boss_room(dist) == b,
{
    let c = boss_room(dist);
    assert(is_boss_room(dist, c));
    if exists|i: int| 1 <= i < dist.len() && reached(#[trigger] dist[i]) {
        if c < b {
            assert(reached(dist[b]) && reached(dist[c]));
        } else if b < c {
            assert(reached(dist[b]) && reached(dist[c]));
        }
    }
}

/// The room the boss goes in: the farthest reached room from the entrance.
fn pick_boss_room(dist: &Vec<usize>) -> (b: usize)
    requires
        dist@.len() >= 2,
    ensures
        is_boss_room(dist@, b as int),
        b as int == boss_room(dist@),
{
    let n = dist.len();
    let mut best: Option<usize> = None;
    let mut i: usize = 1;
    while i < n
        invariant
            1 <= i <= n,
            n == dist@.len(),
            best is None <==> !(exists|j: int| 1 <= j < i && reached(#[trigger] dist@[j])),
            best matches Some(b) ==> {
                &&& 1 <= b < i
                &&& reached(dist@[b as int])
                &&& forall|j: int| 1 <= j < i && reached(#[trigger] dist@[j]) ==> dist@[j] <= dist@[b as int]
                &&& forall|j: int| b < j < i && reached(#[trigger] dist@[j]) ==> dist@[j] < dist@[b as int]
            },
        decreases n - i,
    {
        if dist[i] != usize::MAX {
            match best {
                None => {
                    best = Some(i);
                },
                Some(b) => {
                    if dist[i] >= dist[b] {
                        best = Some(i);
                    }
                },
            }
        }
        i += 1;
    }
    let r = match best {
        Some(b) => b,
        None => n - 1,
    };
    proof {
        lemma_boss_room_unique(dist@, r as int);
    }
    r
}

/// The farthest distance of a reached room (0 when none is).
pub open spec fn max_reached(dist: Seq<usize>) -> nat
    decreases dist.len(),
{
    if dist.len() == 0 {
        0
    } else {
        let m = max_reached(dist.drop_last());
        let d = dist.last();
        if reached(d) && d > m {
            d as nat
        } else {
            m
        }
    }
}

proof fn lemma_max_reached_bound(dist: Seq<usize>)
    ensures
        forall|i: int| 0 <= i < dist.len() && reached(dist[i]) ==> dist[i] <= max_reached(dist),
        max_reached(dist) == 0 || exists|i: int| 0 <= i < dist.len() && reached(dist[i]) && dist[i] == max_reached(dist),
    decreases dist.len(),
{
    if dist.len() > 0 {
        let s = dist.drop_last();
        lemma_max_reached_bound(s);
        assert forall|i: int| 0 <= i < dist.len() && reached(dist[i]) implies dist[i] <= max_reached(dist) by {
            if i < s.len() {
                assert(dist[i] == s[i]);
            }
        }
        if max_reached(dist) != 0 && max_reached(dist) == max_reached(s) {
            let i = choose|i: int| 0 <= i < s.len() && reached(s[i]) && s[i] == max_reached(s);
            assert(dist[i] == s[i]);
        }
    }
}

/// The farthest distance of a reached room.
fn farthest_reached(dist: &Vec<usize>) -> (m: usize)
    ensures
        m == max_reached(dist@),
{
    let mut m: usize = 0;
    let mut i: usize = 0;
    while i < dist.len()
        invariant
            i <= dist@.len(),
            m == max_reached(dist@.take(i as int)),
        decreases dist@.len() - i,
    {
        assert(dist@.take(i as int + 1).drop_last() =~= dist@.take(i as int));
        let d = dist[i];
        if d != usize::MAX && d > m {
            m = d;
        }
        i += 1;
    }
    assert(dist@.take(dist@.len() as int) =~= dist@);
    m
}

/// How far a distance lies from the target distance.
pub open spec fn offset(d: usize, target: nat) -> nat {
    if d >= target {
        (d - target) as nat
    } else {
        (target - d) as nat
    }
}

fn offset_of(d: usize, target: usize) -> (r: usize)
    ensures
        r == offset(d, target as nat),
{
    if d >= target {
        d - target
    } else {
        target - d
    }
}

/// A room the treasure may go in: reached, neither the entrance nor the boss's.
pub open spec fn treasure_candidate(dist: Seq<usize>, boss: int, i: int) -> bool {
    1 <= i < dist.len() && i != boss && reached(dist[i])
}

/// A candidate whose distance lies as close to half the farthest distance as
/// any candidate's.
pub open spec fn is_mid_room(dist: Seq<usize>, boss: int, i: int) -> bool {
    let target = max_reached(dist) / 2;
    &&& treasure_candidate(dist, boss, i)
    &&& forall|j: int| #[trigger] treasure_candidate(dist, boss, j) ==> offset(dist[i], target) <= offset(dist[j], target)
}

/// The treasure candidates closest to mid-distance, in room order.
fn mid_rooms(dist: &Vec<usize>, boss: usize) -> (mid: Vec<usize>)
    ensures
        forall|k: int, l: int| 0 <= k < l < mid@.len() ==> mid@[k] < mid@[l],
        forall|k: int| 0 <= k < mid@.len() ==> is_mid_room(dist@, boss as int, #[trigger] mid@[k] as int),
        forall|i: int| #[trigger] is_mid_room(dist@, boss as int, i) ==> mid@.contains(i as usize),
        (exists|i: int| #[trigger] treasure_candidate(dist@, boss as int, i)) ==> mid@.len() > 0,
{
    let n = dist.len();
    let target = farthest_reached(dist) / 2;
    let ghost tg = max_reached(dist@) / 2;
    // The smallest offset of any candidate.
    let mut best: Option<usize> = None;
    let mut i: usize = 1;
    while i < n
        invariant
            n == dist@.len(),
            target == tg,
            tg == max_reached(dist@) / 2,
            1 <= i <= n || n == 0,
            best is None <==> !(exists|j: int| 1 <= j < i && #[trigger] treasure_candidate(dist@, boss as int, j)),
            best matches Some(o) ==> {
                &&& exists|j: int| 1 <= j < i && #[trigger] treasure_candidate(dist@, boss as int, j) && offset(dist@[j], tg) == o
                &&& forall|j: int| 1 <= j < i && #[trigger] treasure_candidate(dist@, boss as int, j) ==> o <= offset(dist@[j], tg)
            },
        decreases n - i,
    {
        if i != boss && dist[i] != usize::MAX {
            let o = offset_of(dist[i], target);
            assert(treasure_candidate(dist@, boss as int, i as int));
            match best {
                None => {
                    best = Some(o);
                },
                Some(b) => {
                    if o < b {
                        best = Some(o);
                    }
                },
            }
        }
        i += 1;
    }
    let mut mid: Vec<usize> = Vec::new();
    match best {
        None => {
            proof {
                assert forall|j: int| #[trigger] is_mid_room(dist@, boss as int, j) implies mid@.contains(j as usize) by {
                    assert(treasure_candidate(dist@, boss as int, j));
                }
            }
            mid
        },
        Some(o) => {
            let mut i: usize = 1;
            while i < n
                invariant
                    n == dist@.len(),
                    target == tg,
                    tg == max_reached(dist@) / 2,
                    1 <= i <= n,
                    exists|j: int| 1 <= j < n && #[trigger] treasure_candidate(dist@, boss as int, j) && offset(dist@[j], tg) == o,
                    forall|j: int| 1 <= j < n && #[trigger] treasure_candidate(dist@, boss as int, j) ==> o <= offset(dist@[j], tg),
                    forall|k: int| 0 <= k < mid@.len() ==> #[trigger] mid@[k] < i,
                    forall|k: int, l: int| 0 <= k < l < mid@.len() ==> mid@[k] < mid@[l],
                    forall|k: int| 0 <= k < mid@.len() ==> is_mid_room(dist@, boss as int, #[trigger] mid@[k] as int),
                    forall|j: int| 1 <= j < i && #[trigger] is_mid_room(dist@, boss as int, j) ==> mid@.contains(j as usize),
                decreases n - i,
            {
                if i != boss && dist[i] != usize::MAX && offset_of(dist[i], target) == o {
                    let ghost m0 = mid@;
                    proof {
                        assert forall|j: int| #[trigger] treasure_candidate(dist@, boss as int, j) implies offset(dist@[i as int], tg) <= offset(dist@[j], tg) by {
                        }
                    }
                    mid.push(i);
                    proof {
                        assert(mid@[m0.len() as int] == i);
                        assert(is_mid_room(dist@, boss as int, i as int));
                        assert forall|k: int| 0 <= k < mid@.len() implies is_mid_room(dist@, boss as int, #[trigger] mid@[k] as int) by {
                            if k < m0.len() {
                                assert(mid@[k] == m0[k]);
                            }
                        }
                        assert forall|j: int| 1 <= j < i + 1 && #[trigger] is_mid_room(dist@, boss as int, j) implies mid@.contains(j as usize) by {
                            if j < i {
                                let k = choose|k: int| 0 <= k < m0.len() && m0[k] == j as usize;
                                assert(mid@[k] == m0[k]);
                            } else {
                                assert(mid@[m0.len() as int] == j as usize);
                            }
                        }
                    }
                } else {
                    proof {
                        assert forall|j: int| 1 <= j < i + 1 && #[trigger] is_mid_room(dist@, boss as int, j) implies mid@.contains(j as usize) by {
                            if j == i {
                                let w = choose|w: int| 1 <= w < n && #[trigger] treasure_candidate(dist@, boss as int, w) && offset(dist@[w], tg) == o;
                                assert(treasure_candidate(dist@, boss as int, w));
                                assert(offset(dist@[j], tg) <= offset(dist@[w], tg));
                            }
                        }
                    }
                }
                i += 1;
            }
            proof {
                assert forall|j: int| #[trigger] is_mid_room(dist@, boss as int, j) implies mid@.contains(j as usize) by {
                    assert(treasure_candidate(dist@, boss as int, j));
                }
                let w = choose|w: int| 1 <= w < n && #[trigger] treasure_candidate(dist@, boss as int, w) && offset(dist@[w], tg) == o;
                assert(is_mid_room(dist@, boss as int, w));
                assert(mid@.contains(w as usize));
            }
            mid
        },
    }
}


/// The type a room ends up with: the entrance, the boss's, the treasure's, or
/// the one it had.
pub open spec fn assigned_type(old_type: RoomType, i: int, boss: int, treasure: int) -> RoomType {
    if i == 0 {
        RoomType::Entrance
    } else if i == boss {
        RoomType::Boss
    } else if i == treasure {
        RoomType::Treasure
    } else {
        old_type
    }
}

/// Where the treasure goes: a mid-distance room when there are more than three
/// rooms and any candidate; nowhere (`-1`) otherwise.
pub open spec fn treasure_ok(dist: Seq<usize>, boss: int, t: int) -> bool {
    if dist.len() > 3 && exists|i: int| #[trigger] treasure_candidate(dist, boss, i) {
        is_mid_room(dist, boss, t)
    } else {
        t == -1
    }
}

/// The boss room among `n` rooms joined by `edges` (`-1` for fewer than two rooms).
pub open spec fn boss_of(edges: Seq<(usize, usize)>, n: nat) -> int {
    if n >= 2 {
        boss_room(room_dists(edges, n))
    } else {
        -1
    }
}

/// The rooms after their types are assigned, with the treasure in room `t`:
/// the same rectangles, room 0 the entrance, the boss in the farthest room.
pub open spec fn types_assigned(before: Seq<Room>, after: Seq<Room>, edges: Seq<(usize, usize)>, t: int) -> bool {
    let n = before.len();
    let boss = boss_of(edges, n);
    &&& after.len() == n
    &&& n >= 2 ==> is_boss_room(room_dists(edges, n), boss)
    &&& treasure_ok(room_dists(edges, n), boss, t)
    &&& forall|i: int| 0 <= i < n ==> {
        let r = #[trigger] after[i];
        &&& r.x == before[i].x && r.y == before[i].y && r.w == before[i].w && r.h == before[i].h
        &&& r.room_type == assigned_type(before[i].room_type, i, boss, t)
    }
}

fn set_room_type(map: &mut DungeonMap, i: usize, t: RoomType)
    requires
        i < old(map).rooms@.len(),
    ensures
        final(map).width == old(map).width,
        final(map).height == old(map).height,
        final(map).tiles@ == old(map).tiles@,
        final(map).rooms@ == old(map).rooms@.update(i as int, Room { room_type: t, ..old(map).rooms@[i as int] }),
{
    let mut r = map.rooms[i];
    r.room_type = t;
    map.rooms.set(i, r);
}

/// Mark room 0 as the entrance, the room farthest from it over the corridor
/// graph as the boss's, and, with more than three rooms, one of the rooms
/// closest to half that distance as the treasure room.
pub fn assign_room_types(map: &mut DungeonMap, edges: &Vec<(usize, usize)>, rng: &mut StdRng)
    requires
        edges_valid(edges@, old(map).rooms@.len()),
    ensures
        final(map).width == old(map).width,
        final(map).height == old(map).height,
        final(map).tiles@ == old(map).tiles@,
        exists|t: int| types_assigned(old(map).rooms@, final(map).rooms@, edges@, t),
{
    let ghost r0 = map.rooms@;
    let n = map.rooms.len();
    if n == 0 {
        assert(types_assigned(r0, map.rooms@, edges@, -1));
        return;
    }
    set_room_type(map, 0, RoomType::Entrance);
    if n == 1 {
        assert(types_assigned(r0, map.rooms@, edges@, -1));
        return;
    }
    let dist = room_distances(n, edges);
    let boss = pick_boss_room(&dist);
    set_room_type(map, boss, RoomType::Boss);
    let ghost r1 = map.rooms@;
    if n > 3 {
        let mid = mid_rooms(&dist, boss);
        if mid.len() > 0 {
            let k = random_index(rng, mid.len());
            let t = mid[k];
            proof {
                assert(is_mid_room(dist@, boss as int, mid@[k as int] as int));
            }
            set_room_type(map, t, RoomType::Treasure);
            assert(types_assigned(r0, map.rooms@, edges@, t as int));
            return;
        }
    }
    assert(types_assigned(r0, map.rooms@, edges@, -1));
}

/// Every leaf of the tree is large enough for a room.
pub open spec fn all_leaves_fit(n: BspNode) -> bool
    decreases n,
{
    &&& (n.left is None && n.right is None ==> leaf_fits(n.w, n.h))
    &&& match n.left {
        Some(l) => all_leaves_fit(*l),
        None => true,
    }
    &&& match n.right {
        Some(r) => all_leaves_fit(*r),
        None => true,
    }
}

/// A split tree whose root is at least 6 by 6 has every leaf at least 6 by
/// 6: each cut leaves both halves at least `MIN_LEAF_SIZE` across it.
proof fn lemma_split_leaves_fit(r: BspNode, depth: int, max_depth: int)
    requires
        bsp_split(r, depth, max_depth),
        r.w >= 6,
        r.h >= 6,
    ensures
        all_leaves_fit(r),
    decreases r,
{
    if splittable(r.w, r.h, depth, max_depth) {
        match r.left {
            Some(l) => lemma_split_leaves_fit(*l, depth + 1, max_depth),
            None => {},
        }
        match r.right {
            Some(b) => lemma_split_leaves_fit(*b, depth + 1, max_depth),
            None => {},
        }
    }
}

/// Where every leaf fits a room, every subtree holds at least one.
proof fn lemma_rooms_given_nonempty(r: BspNode, node: BspNode)
    requires
        rooms_given(r, node),
        all_leaves_fit(node),
        node.full(),
    ensures
        r.room_indices().len() >= 1,
    decreases node,
{
    match node.left {
        Some(nl) => match node.right {
            Some(nr) => match r.left {
                Some(rl) => {
                    lemma_rooms_given_nonempty(*rl, *nl);
                },
                None => {},
            },
            None => {},
        },
        None => {},
    }
}

/// Every room a tree names was made a plain room.
proof fn lemma_rooms_match_normal(r: BspNode, rooms: Seq<Room>, k: usize)
    requires
        rooms_match(r, rooms),
        r.room_indices().contains(k),
    ensures
        k < rooms.len(),
        rooms[k as int].room_type == RoomType::Normal,
    decreases r,
{
    let own: Seq<usize> = match r.room_idx {
        Some(i) => seq![i],
        None => Seq::empty(),
    };
    let ls: Seq<usize> = match r.left {
        Some(l) => l.room_indices(),
        None => Seq::empty(),
    };
    let rs: Seq<usize> = match r.right {
        Some(b) => b.room_indices(),
        None => Seq::empty(),
    };
    assert(r.room_indices() == own + ls + rs);
    let j = choose|j: int| 0 <= j < r.room_indices().len() && r.room_indices()[j] == k;
    if j < own.len() {
        assert(own[j] == k);
    } else if j < own.len() + ls.len() {
        assert(ls[j - own.len()] == k);
        match r.left {
            Some(l) => lemma_rooms_match_normal(*l, rooms, k),
            None => {},
        }
    } else {
        assert(rs[j - own.len() - ls.len()] == k);
        match r.right {
            Some(b) => lemma_rooms_match_normal(*b, rooms, k),
            None => {},
        }
    }
}

/// The rooms carved in a freshly split tree are all plain rooms, and there
/// are at least two of them when the root is cut and at least 6 by 6.
proof fn lemma_created_rooms(split_root: BspNode, made: BspNode, rooms: Seq<Room>, max_depth: int)
    requires
        bsp_split(split_root, 0, max_depth),
        split_root.full(),
        rooms_given(made, split_root),
        rooms_match(made, rooms),
        made.room_indices() == index_range(0, rooms.len() as int),
        max_depth >= 1,
        rooms.len() <= usize::MAX,
    ensures
        forall|k: int| 0 <= k < rooms.len() ==> #[trigger] rooms[k].room_type == RoomType::Normal,
        (split_root.w >= MIN_LEAF_SIZE * 2 || split_root.h >= MIN_LEAF_SIZE * 2) && split_root.w >= MIN_ROOM_SIZE
            + ROOM_PADDING * 2 && split_root.h >= MIN_ROOM_SIZE + ROOM_PADDING * 2 ==> rooms.len() >= 2,
{
    let n = rooms.len();
    assert forall|k: int| 0 <= k < n implies #[trigger] rooms[k].room_type == RoomType::Normal by {
        assert(index_range(0, n as int)[k] == k as usize);
        assert(made.room_indices()[k] == k as usize);
        assert(made.room_indices().contains(k as usize));
        lemma_rooms_match_normal(made, rooms, k as usize);
    }
    if (split_root.w >= MIN_LEAF_SIZE * 2 || split_root.h >= MIN_LEAF_SIZE * 2) && split_root.w >= MIN_ROOM_SIZE
        + ROOM_PADDING * 2 && split_root.h >= MIN_ROOM_SIZE + ROOM_PADDING * 2 {
        assert(splittable(split_root.w, split_root.h, 0, max_depth));
        lemma_split_leaves_fit(split_root, 0, max_depth);
        assert(cut_rows(split_root) || cut_cols(split_root));
        match split_root.left {
            Some(nl) => match split_root.right {
                Some(nr) => match made.left {
                    Some(rl) => match made.right {
                        Some(rr) => {
                            lemma_rooms_given_nonempty(*rl, *nl);
                            lemma_rooms_given_nonempty(*rr, *nr);
                            assert(made.room_indices() == Seq::<usize>::empty() + rl.room_indices() + rr.room_indices());
                            assert(made.room_indices().len() == n);
                        },
                        None => {},
                    },
                    None => {},
                },
                None => {},
            },
            None => {},
        }
    }
}

/// Room types assigned over plain rooms: only room 0 is the entrance, and
/// at most one room is the boss's and one the treasure room.
proof fn lemma_room_roles(before: Seq<Room>, after: Seq<Room>, edges: Seq<(usize, usize)>, t: int)
    requires
        types_assigned(before, after, edges, t),
        forall|k: int| 0 <= k < before.len() ==> #[trigger] before[k].room_type == RoomType::Normal,
    ensures
        forall|i: int| 1 <= i < after.len() ==> #[trigger] after[i].room_type != RoomType::Entrance,
        forall|i: int, j: int|
            0 <= i < after.len() && 0 <= j < after.len() && #[trigger] after[i].room_type == RoomType::Boss
                && #[trigger] after[j].room_type == RoomType::Boss ==> i == j,
        forall|i: int, j: int|
            0 <= i < after.len() && 0 <= j < after.len() && #[trigger] after[i].room_type == RoomType::Treasure
                && #[trigger] after[j].room_type == RoomType::Treasure ==> i == j,
{
    let n = before.len();
    let boss = boss_of(edges, n);
    assert forall|i: int| 0 <= i < n implies #[trigger] after[i].room_type == assigned_type(RoomType::Normal, i, boss, t) by {
        assert(before[i].room_type == RoomType::Normal);
    }
}

/// Generate a dungeon map by binary space partition: split the grid, carve a
/// room in each large enough leaf, join sibling subtrees by corridors, add a
/// few loops, set doors, and assign the entrance, boss and treasure rooms.
#[verifier::spinoff_prover]
#[verifier::rlimit(60)]
pub fn generate_dungeon(width: u32, height: u32, target_rooms: u32, rng: &mut StdRng) -> (map: DungeonMap)
    requires
        grid_fits(width, height),
    ensures
        grid_ok(map),
        map.width == width,
        map.height == height,
        map.rooms@.len() >= 1 ==> map.rooms@[0].room_type == RoomType::Entrance,
        map.rooms@.len() >= 2 ==> exists|b: int| 1 <= b < map.rooms@.len() && map.rooms@[b].room_type == RoomType::Boss,
        map.rooms@.len() >= 2 ==> forall|i: usize| i < map.rooms@.len() ==> #[trigger] reachable(
            map,
            center_pos(map.rooms@[0]),
            center_pos(map.rooms@[i as int]),
        ),
        forall|i: int| 0 <= i < map.rooms@.len() ==> #[trigger] map.tile_at(center_pos(map.rooms@[i])) == Tile::Floor,
        forall|p: Pos| #[trigger] map.tile_at(p) == Tile::Door ==> floor_beside(map, p),
        forall|i: int| 1 <= i < map.rooms@.len() ==> #[trigger] map.rooms@[i].room_type != RoomType::Entrance,
        forall|i: int, j: int|
            0 <= i < map.rooms@.len() && 0 <= j < map.rooms@.len() && #[trigger] map.rooms@[i].room_type == RoomType::Boss
                && #[trigger] map.rooms@[j].room_type == RoomType::Boss ==> i == j,
        forall|i: int, j: int|
            0 <= i < map.rooms@.len() && 0 <= j < map.rooms@.len() && #[trigger] map.rooms@[i].room_type == RoomType::Treasure
                && #[trigger] map.rooms@[j].room_type == RoomType::Treasure ==> i == j,
        (width >= MIN_LEAF_SIZE * 2 || height >= MIN_LEAF_SIZE * 2) && width >= MIN_ROOM_SIZE + ROOM_PADDING * 2
            && height >= MIN_ROOM_SIZE + ROOM_PADDING * 2 ==> map.rooms@.len() >= 2,
{
    let size = (width * height) as usize;
    let mut tiles: Vec<Tile> = Vec::new();
    let mut i: usize = 0;
    while i < size
        invariant
            i <= size,
            size == width as int * height as int,
            tiles@.len() == i,
            forall|j: int| 0 <= j < i ==> tiles@[j] == Tile::Wall,
        decreases size - i,
    {
        tiles.push(Tile::Wall);
        i += 1;
    }
    let mut map = DungeonMap { width, height, tiles, rooms: Vec::new() };

    // Build the partition tree, deep enough for the target room count.
    let max_depth = ceil_log2_u32(target_rooms) + 1;
    let root = split_node(leaf(0, 0, width, height), 0, max_depth, rng);
    proof {
        lemma_roomless_rooms_below(root, 0);
    }
    let ghost split_root = root;
    let root = create_rooms(root, &mut map, rng);
    let ghost made = root;
    let room_count = map.rooms.len();
    proof {
        assert(map.rooms@.len() == room_count);
        lemma_created_rooms(split_root, made, map.rooms@, max_depth as int);
    }
    let ghost created = map;

    // Carve corners of large rooms before the corridors, so a corridor
    // through a carved corner opens it again.
    proof {
        lemma_floored_centers(map);
    }
    carve_room_corners(&mut map, rng);

    let ghost m_carved = map;
    let mut edges: Vec<(usize, usize)> = Vec::new();
    connect_rooms(&root, &mut map, &mut edges, rng);
    proof {
        lemma_centers_kept(m_carved, map);
    }
    let ghost e1 = edges@;
    add_loop_corridors(&mut map, &mut edges, rng);
    let ghost m2 = map;
    proof {
        lemma_centers_kept(m_carved, map);
    }
    place_doors(&mut map);
    proof {
        lemma_corridors_kept(m2, map, edges@);
        lemma_centers_kept(m2, map);
    }
    let ghost before = map;
    assign_room_types(&mut map, &edges, rng);
    proof {
        assert forall|p: Pos| #[trigger] map.tile_at(p) == Tile::Door implies floor_beside(map, p) by {
            assert forall|q: Pos| #[trigger] map.tile_at(q) == before.tile_at(q) by {}
            assert(before.tile_at(p) == door_placed(m2, p));
            if m2.in_bounds(p) {
                lemma_cell_in_grid(m2.width, m2.height, p);
                assert(m2.tiles@[cell(m2.width, p)] != Tile::Door);
            }
            let l = (if p.0 == 0 { u32::MAX } else { (p.0 - 1) as u32 }, p.1);
            let r = ((p.0 + 1) as u32, p.1);
            let u = (p.0, if p.1 == 0 { u32::MAX } else { (p.1 - 1) as u32 });
            let d = (p.0, (p.1 + 1) as u32);
            assert(before.tile_at(l) == door_placed(m2, l));
            assert(before.tile_at(r) == door_placed(m2, r));
            assert(before.tile_at(u) == door_placed(m2, u));
            assert(before.tile_at(d) == door_placed(m2, d));
            assert(map.tile_at(l) == before.tile_at(l));
            assert(map.tile_at(r) == before.tile_at(r));
            assert(map.tile_at(u) == before.tile_at(u));
            assert(map.tile_at(d) == before.tile_at(d));
        }
        let n = map.rooms@.len();
        assert forall|i: int| 0 <= i < n implies #[trigger] map.tile_at(center_pos(map.rooms@[i])) == Tile::Floor by {
            assert(before.tile_at(center_pos(before.rooms@[i])) == Tile::Floor);
            assert(map.rooms@[i].spec_center() == before.rooms@[i].spec_center());
        }
        lemma_all_linked_extend(e1, edges@, index_range(0, n as int));
        assert forall|j: usize| j < n implies #[trigger] linked(edges@, 0, j) by {
            assert(index_range(0, n as int)[0] == 0);
            assert(index_range(0, n as int)[j as int] == j);
        }
        let t = choose|t: int| types_assigned(before.rooms@, map.rooms@, edges@, t);
        assert forall|k: int| 0 <= k < edges@.len() implies corridor_ok(map, (#[trigger] edges@[k]).0, edges@[k].1) by {
            let (a, b) = edges@[k];
            assert(corridor_ok(before, a, b));
            assert(map.rooms@[a as int].spec_center() == before.rooms@[a as int].spec_center());
            assert(map.rooms@[b as int].spec_center() == before.rooms@[b as int].spec_center());
            let (ax, ay) = before.rooms@[a as int].spec_center();
            let (bx, by) = before.rooms@[b as int].spec_center();
            assert forall|p: Pos| before.walkable(p) == #[trigger] map.walkable(p) by {}
            assert(l_path_walkable(map, ax as u32, ay as u32, bx as u32, by as u32));
        }
        assert(all_corridors(map, edges@));
        if n >= 2 {
            lemma_rooms_reachable(map, edges@);
        }
    }
    proof {
        let t = choose|t: int| types_assigned(before.rooms@, map.rooms@, edges@, t);
        assert forall|i: int| 0 <= i < map.rooms@.len() implies room_ok(#[trigger] map.rooms@[i], map.width, map.height) by {
            assert(room_ok(before.rooms@[i], map.width, map.height));
        }
        if map.rooms@.len() >= 2 {
            let d = room_dists(edges@, map.rooms@.len());
            let b = boss_room(d);
            assert(is_boss_room(d, b));
            assert(map.rooms@[b].room_type == RoomType::Boss);
        }
        assert(before.rooms@ == created.rooms@);
        lemma_room_roles(before.rooms@, map.rooms@, edges@, t);
    }
    map
}


impl DungeonMap {
    /// Pick a random walkable tile inside a room. Room rectangles may hold
    /// walls (carved corners), so spawn positions come from here rather than
    /// from the rectangle; a room with no walkable tile gives its center.
    /// `None` when there is no such room.
    pub fn random_walkable_in_room(&self, room_idx: usize, rng: &mut StdRng) -> (r: Option<Pos>)
        requires
            self.wf(),
            room_idx < self.rooms@.len() ==> {
                let room = self.rooms@[room_idx as int];
                room.x + room.w <= u32::MAX && room.y + room.h <= u32::MAX
            },
        ensures
            r is None <==> room_idx >= self.rooms@.len(),
            r matches Some(p) ==> {
                let room = self.rooms@[room_idx as int];
                if exists|q: Pos| room.contains(q.0 as int, q.1 as int) && #[trigger] self.walkable(q) {
                    room.contains(p.0 as int, p.1 as int) && self.walkable(p)
                } else {
                    p.0 == room.spec_center().0 && p.1 == room.spec_center().1
                }
            },
    {
        if room_idx >= self.rooms.len() {
            return None;
        }
        let room = self.rooms[room_idx];
        let mut walkable: Vec<Pos> = Vec::new();
        let mut y = room.y;
        while y < room.y + room.h
            invariant
                self.wf(),
                room == self.rooms@[room_idx as int],
                room.x + room.w <= u32::MAX,
                room.y + room.h <= u32::MAX,
                room.y <= y <= room.y + room.h,
                forall|k: int| 0 <= k < walkable@.len() ==> room.contains((#[trigger] walkable@[k]).0 as int, walkable@[k].1 as int)
                    && self.walkable(walkable@[k]),
                walkable@.len() == 0 ==> forall|q: Pos| room.contains(q.0 as int, q.1 as int) && q.1 < y ==> !#[trigger] self.walkable(q),
            decreases room.y + room.h - y,
        {
            let mut x = room.x;
            while x < room.x + room.w
                invariant
                    self.wf(),
                    room == self.rooms@[room_idx as int],
                    room.x + room.w <= u32::MAX,
                    room.y + room.h <= u32::MAX,
                    room.y <= y < room.y + room.h,
                    room.x <= x <= room.x + room.w,
                    forall|k: int| 0 <= k < walkable@.len() ==> room.contains((#[trigger] walkable@[k]).0 as int, walkable@[k].1 as int)
                        && self.walkable(walkable@[k]),
                    walkable@.len() == 0 ==> forall|q: Pos| room.contains(q.0 as int, q.1 as int) && (q.1 < y || (q.1 == y && q.0 < x)) ==> !#[trigger] self.walkable(q),
                decreases room.x + room.w - x,
            {
                if self.is_walkable(x, y) {
                    walkable.push((x, y));
                }
                x += 1;
            }
            y += 1;
        }
        if walkable.len() == 0 {
            return Some(room.center());
        }
        let k = random_index(rng, walkable.len());
        Some(walkable[k])
    }
}

} // verus!
