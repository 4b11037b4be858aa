//! Autotiling: which tile of the dungeon tileset draws each grid cell.

use vstd::prelude::*;

use super::dungeon::{tile_walkable, DungeonMap, Tile};

verus! {

/// The void tile: solid rock, or outside the dungeon.
pub const VOID_TILE: u32 = 19;

/// Inner-corner wall with floor to the south-east.
pub const INNER_CORNER_SE: u32 = 6;

/// Inner-corner wall with floor to the south-west.
pub const INNER_CORNER_SW: u32 = 8;

/// Inner-corner wall with floor to the north-east.
pub const INNER_CORNER_NE: u32 = 30;

/// Inner-corner wall with floor to the north-west.
pub const INNER_CORNER_NW: u32 = 31;

/// The floor tile variants, picked per cell for variety.
pub open spec fn floor_tiles() -> Seq<u32> {
    seq![13u32, 14, 15, 16, 25, 26, 27, 28, 37, 38, 39, 40]
}

/// The wall tile for each 4-bit mask of walkable neighbours (1 north,
/// 2 east, 4 south, 8 west).
pub open spec fn wall_cardinal() -> Seq<u32> {
    seq![19u32, 49, 12, 48, 1, 21, 0, 10, 17, 53, 20, 34, 5, 32, 11, 33]
}

/// The floor variant index a cell hashes to.
pub open spec fn floor_hash(x: u32, y: u32) -> u32 {
    (x.wrapping_mul(7) ^ y.wrapping_mul(13)).wrapping_add(x ^ y)
}

/// Whether the cell at `(x, y)` (which may be off the grid) can be walked on.
pub open spec fn walkable_at(map: DungeonMap, x: int, y: int) -> bool {
    0 <= x < map.width && 0 <= y < map.height && tile_walkable(map.tiles@[y * map.width + x])
}

/// The bitmask of walkable four-neighbours of `(x, y)`.
pub open spec fn cardinal_mask(map: DungeonMap, x: int, y: int) -> int {
    (if walkable_at(map, x, y - 1) { 1int } else { 0 }) + (if walkable_at(map, x + 1, y) { 2int } else { 0 })
        + (if walkable_at(map, x, y + 1) { 4int } else { 0 }) + (if walkable_at(map, x - 1, y) { 8int } else { 0 })
}

/// The tile that draws `(x, y)`: a floor variant for walkable cells; for a
/// wall, the tile its walkable four-neighbours select, else an inner corner
/// for a walkable diagonal (south-east, south-west, north-east, north-west in
/// that order), else the void.
pub open spec fn autotile(map: DungeonMap, x: u32, y: u32) -> u32 {
    if tile_walkable(map.tile_at((x, y))) {
        floor_tiles()[(floor_hash(x, y) % 12) as int]
    } else if cardinal_mask(map, x as int, y as int) != 0 {
        wall_cardinal()[cardinal_mask(map, x as int, y as int)]
    } else if walkable_at(map, x + 1, y + 1) {
        INNER_CORNER_SE
    } else if walkable_at(map, x - 1, y + 1) {
        INNER_CORNER_SW
    } else if walkable_at(map, x + 1, y - 1) {
        INNER_CORNER_NE
    } else if walkable_at(map, x - 1, y - 1) {
        INNER_CORNER_NW
    } else {
        VOID_TILE
    }
}

fn floor_tile(i: u32) -> (t: u32)
    requires
        i < 12,
    ensures
        t == floor_tiles()[i as int],
{
    match i {
        0 => 13,
        1 => 14,
        2 => 15,
        3 => 16,
        4 => 25,
        5 => 26,
        6 => 27,
        7 => 28,
        8 => 37,
        9 => 38,
        10 => 39,
        _ => 40,
    }
}

fn wall_tile(mask: u32) -> (t: u32)
    requires
        mask < 16,
    ensures
        t == wall_cardinal()[mask as int],
{
    match mask {
        0 => 19,
        1 => 49,
        2 => 12,
        3 => 48,
        4 => 1,
        5 => 21,
        6 => 0,
        7 => 10,
        8 => 17,
        9 => 53,
        10 => 20,
        11 => 34,
        12 => 5,
        13 => 32,
        14 => 11,
        _ => 33,
    }
}

/// Whether the cell `(x + dx, y + dy)` can be walked on.
fn walkable_offset(map: &DungeonMap, x: u32, y: u32, dx: i64, dy: i64) -> (b: bool)
    requires
        map.wf(),
        -1 <= dx <= 1,
        -1 <= dy <= 1,
    ensures
        b == walkable_at(*map, x + dx, y + dy),
{
    let nx = x as i64 + dx;
    let ny = y as i64 + dy;
    if nx < 0 || ny < 0 || nx >= map.width as i64 || ny >= map.height as i64 {
        return false;
    }
    let b = map.is_walkable(nx as u32, ny as u32);
    assert(map.tile_at((nx as u32, ny as u32)) == map.tiles@[ny * map.width + nx]);
    b
}

/// The tileset tile that draws the cell at `(x, y)`.
pub fn autotile_index(map: &DungeonMap, x: u32, y: u32) -> (t: u32)
    requires
        map.wf(),
    ensures
        t == autotile(*map, x, y),
{
    let tile = map.get(x, y);
    match tile {
        Tile::Floor | Tile::Corridor | Tile::Door => {
            let hash = (x.wrapping_mul(7) ^ y.wrapping_mul(13)).wrapping_add(x ^ y);
            floor_tile(hash % 12)
        },
        Tile::Wall => {
            let mut mask: u32 = 0;
            if walkable_offset(map, x, y, 0, -1) {
                mask += 1;
            }
            if walkable_offset(map, x, y, 1, 0) {
                mask += 2;
            }
            if walkable_offset(map, x, y, 0, 1) {
                mask += 4;
            }
            if walkable_offset(map, x, y, -1, 0) {
                mask += 8;
            }
            if mask != 0 {
                return wall_tile(mask);
            }
            if walkable_offset(map, x, y, 1, 1) {
                return INNER_CORNER_SE;
            }
            if walkable_offset(map, x, y, -1, 1) {
                return INNER_CORNER_SW;
            }
            if walkable_offset(map, x, y, 1, -1) {
                return INNER_CORNER_NE;
            }
            if walkable_offset(map, x, y, -1, -1) {
                return INNER_CORNER_NW;
            }
            VOID_TILE
        },
    }
}

/// The idle animation frame after `current`, wrapping after the last of
/// `frame_count` frames.
pub fn next_frame(current: u32, frame_count: u32) -> (f: u32)
    requires
        frame_count > 0,
    ensures
        f == (current as int + 1) % (frame_count as int),
{
    ((current as u64 + 1) % (frame_count as u64)) as u32
}

} // verus!
