//! Tidying of shorelines: a pass over a chunk that looks at the four
//! neighbours of each tile and rewrites the tile where land meets water.

use super::array::TilePos;
use super::chunk::ChunkTiles;
use super::neighbors::{NeighborDirection, Neighbors};
use super::{CHUNK_TILES, CHUNK_TILES_SQ};
use crate::sprites::Tiles;
use vstd::prelude::*;

verus! {

/// Whether there is a tile on side `dir` and it is water.
pub open spec fn water_on(neighbors: Neighbors<Tiles>, dir: NeighborDirection) -> bool {
    neighbors.side(dir) is Some && neighbors.side(dir)->0.spec_is_water()
}

/// Whether there is a tile on side `dir` and it is land.
pub open spec fn land_on(neighbors: Neighbors<Tiles>, dir: NeighborDirection) -> bool {
    neighbors.side(dir) is Some && neighbors.side(dir)->0.spec_is_land()
}

/// Whether there is land on at least one side.
pub open spec fn any_land(neighbors: Neighbors<Tiles>) -> bool {
    land_on(neighbors, NeighborDirection::North) || land_on(neighbors, NeighborDirection::East)
        || land_on(neighbors, NeighborDirection::West) || land_on(
        neighbors,
        NeighborDirection::South,
    )
}

/// Whether there is water on at least one side.
pub open spec fn any_water(neighbors: Neighbors<Tiles>) -> bool {
    water_on(neighbors, NeighborDirection::North) || water_on(neighbors, NeighborDirection::East)
        || water_on(neighbors, NeighborDirection::West) || water_on(
        neighbors,
        NeighborDirection::South,
    )
}

/// Whether there is water on all four sides.
pub open spec fn all_water(neighbors: Neighbors<Tiles>) -> bool {
    water_on(neighbors, NeighborDirection::North) && water_on(neighbors, NeighborDirection::East)
        && water_on(neighbors, NeighborDirection::West) && water_on(
        neighbors,
        NeighborDirection::South,
    )
}

/// What becomes of a water tile: deep water next to land turns shallow.
pub open spec fn cleaned_water(tile: Tiles, neighbors: Neighbors<Tiles>) -> Tiles {
    if any_land(neighbors) && tile.spec_is_water_deep() {
        Tiles::WaterShallow
    } else {
        tile
    }
}

/// The beach that faces the water around it. Water to the north or south
/// decides between top and bottom, north first; water to the east or west
/// then picks the corner, east first. With water only to the east the
/// beach is the left one, with water only to the west the right one.
pub open spec fn beach_facing(neighbors: Neighbors<Tiles>) -> Tiles {
    let east = water_on(neighbors, NeighborDirection::East);
    let west = water_on(neighbors, NeighborDirection::West);
    if water_on(neighbors, NeighborDirection::North) {
        if east {
            Tiles::BeachTopRight
        } else if west {
            Tiles::BeachTopLeft
        } else {
            Tiles::BeachTop
        }
    } else if water_on(neighbors, NeighborDirection::South) {
        if east {
            Tiles::BeachBottomRight
        } else if west {
            Tiles::BeachBottomLeft
        } else {
            Tiles::BeachBottom
        }
    } else if east {
        Tiles::BeachLeft
    } else {
        Tiles::BeachRight
    }
}

/// What becomes of a sand tile: with no water around it stays as it is,
/// with water on all four sides it turns into shallow water, and else it
/// becomes the beach that faces the water.
pub open spec fn cleaned_sand(tile: Tiles, neighbors: Neighbors<Tiles>) -> Tiles {
    if !any_water(neighbors) {
        tile
    } else if all_water(neighbors) {
        Tiles::WaterShallow
    } else {
        beach_facing(neighbors)
    }
}

/// What becomes of a grass tile: with water on all four sides it turns into shallow water.
pub open spec fn cleaned_grass(tile: Tiles, neighbors: Neighbors<Tiles>) -> Tiles {
    if all_water(neighbors) {
        Tiles::WaterShallow
    } else {
        tile
    }
}

/// What becomes of a tile with the given neighbours. One rule applies,
/// chosen by what the tile is: sand, grass or water; any other tile stays.
pub open spec fn cleaned_tile(tile: Tiles, neighbors: Neighbors<Tiles>) -> Tiles {
    if tile.spec_is_sand() {
        cleaned_sand(tile, neighbors)
    } else if tile.spec_is_grass() {
        cleaned_grass(tile, neighbors)
    } else if tile.spec_is_water() {
        cleaned_water(tile, neighbors)
    } else {
        tile
    }
}

/// Whether side `dir` is to be marked: there is water on it where `water`
/// is set, land where it is not.
spec fn wanted_on(neighbors: Neighbors<Tiles>, dir: NeighborDirection, water: bool) -> bool {
    if water {
        water_on(neighbors, dir)
    } else {
        land_on(neighbors, dir)
    }
}

/// The mark of a side: `Some(true)` where it is wanted.
spec fn mark(wanted: bool) -> Option<bool> {
    if wanted {
        Some(true)
    } else {
        None
    }
}

/// The sides on which there is water (or, with `water` unset, land), each marked `true`.
fn marked(neighbors: &Neighbors<Tiles>, water: bool) -> (r: Neighbors<bool>)
    ensures
        r.north == mark(wanted_on(*neighbors, NeighborDirection::North, water)),
        r.east == mark(wanted_on(*neighbors, NeighborDirection::East, water)),
        r.west == mark(wanted_on(*neighbors, NeighborDirection::West, water)),
        r.south == mark(wanted_on(*neighbors, NeighborDirection::South, water)),
{
    let is_wanted = |t: Tiles| -> (r: bool)
        ensures
            r == (t.spec_is_water() == water),
        { t.is_water() == water };
    let is_true = |t: &bool| -> (r: bool)
        ensures
            r == *t,
        { *t };
    let flags = neighbors.map(is_wanted);
    let r = flags.filter(is_true);
    proof {
        let _ = (neighbors.side(NeighborDirection::North), flags.side(NeighborDirection::North));
        let _ = (neighbors.side(NeighborDirection::East), flags.side(NeighborDirection::East));
        let _ = (neighbors.side(NeighborDirection::West), flags.side(NeighborDirection::West));
        let _ = (neighbors.side(NeighborDirection::South), flags.side(NeighborDirection::South));
        assert(r.side(NeighborDirection::North) == r.north);
        assert(r.side(NeighborDirection::East) == r.east);
        assert(r.side(NeighborDirection::West) == r.west);
        assert(r.side(NeighborDirection::South) == r.south);
    }
    r
}

/// Applies the rule for water to `tile`: deep water next to land turns shallow.
pub fn cleanup_water(tile: &mut Tiles, neighbors: &Neighbors<Tiles>)
    ensures
        *final(tile) == cleaned_water(*old(tile), *neighbors),
{
    let land = marked(neighbors, false);
    proof {
        lemma_present_marks(land);
    }
    if !land.is_empty() && tile.is_water_deep() {
        *tile = Tiles::WaterShallow;
    }
}

/// Applies the rule for sand to `tile`: sand in the midst of water sinks, and
/// sand beside water becomes the beach that faces it.
pub fn cleanup_sand(tile: &mut Tiles, neighbors: &Neighbors<Tiles>)
    ensures
        *final(tile) == cleaned_sand(*old(tile), *neighbors),
{
    let water = marked(neighbors, true);
    proof {
        lemma_present_marks(water);
    }
    if water.is_empty() {
        return;
    }
    if water.len() == 4 {
        *tile = Tiles::WaterShallow;
        return;
    }
    if water.north.is_some() {
        if water.east.is_some() {
            *tile = Tiles::BeachTopRight;
        } else if water.west.is_some() {
            *tile = Tiles::BeachTopLeft;
        } else {
            *tile = Tiles::BeachTop;
        }
    } else if water.south.is_some() {
        if water.east.is_some() {
            *tile = Tiles::BeachBottomRight;
        } else if water.west.is_some() {
            *tile = Tiles::BeachBottomLeft;
        } else {
            *tile = Tiles::BeachBottom;
        }
    } else if water.east.is_some() {
        *tile = Tiles::BeachLeft;
    } else if water.west.is_some() {
        *tile = Tiles::BeachRight;
    }
}

/// Applies the rule for grass to `tile`: grass in the midst of water sinks.
pub fn cleanup_grass(tile: &mut Tiles, neighbors: &Neighbors<Tiles>)
    ensures
        *final(tile) == cleaned_grass(*old(tile), *neighbors),
{
    let water = marked(neighbors, true);
    proof {
        lemma_present_marks(water);
    }
    if water.len() == 4 {
        *tile = Tiles::WaterShallow;
    }
}

/// The number of neighbours that are there is the number of sides that are not `None`.
proof fn lemma_present_marks(marks: Neighbors<bool>)
    ensures
        marks.present().len() == (if marks.north is Some {
            1int
        } else {
            0
        }) + (if marks.east is Some {
            1int
        } else {
            0
        }) + (if marks.west is Some {
            1int
        } else {
            0
        }) + (if marks.south is Some {
            1int
        } else {
            0
        }),
{
    reveal_with_fuel(Neighbors::present_from, 5);
}

/// The grid after the pass has dealt with its first `n` places. The pass
/// goes through the places in storage order and writes each tile back
/// before it looks at the next, so a tile sees the neighbours before it as
/// they are after the pass and those after it as they were.
pub open spec fn cleaned_upto(grid: Seq<Tiles>, n: nat) -> Seq<Tiles>
    decreases n,
{
    if n == 0 {
        grid
    } else {
        let before = cleaned_upto(grid, (n - 1) as nat);
        let k = n - 1;
        before.update(
            k,
            cleaned_tile(
                before[k],
                Neighbors::spec_from_grid(before, k / (CHUNK_TILES_SQ as int), k % (CHUNK_TILES_SQ as int)),
            ),
        )
    }
}

/// The grid after one pass.
pub open spec fn cleaned(grid: Seq<Tiles>) -> Seq<Tiles> {
    cleaned_upto(grid, CHUNK_TILES as nat)
}

/// The grid after `passes` passes.
pub open spec fn cleaned_times(grid: Seq<Tiles>, passes: nat) -> Seq<Tiles>
    decreases passes,
{
    if passes == 0 {
        grid
    } else {
        cleaned(cleaned_times(grid, (passes - 1) as nat))
    }
}

/// Tidies the shorelines of a chunk in one pass over its tiles.
pub fn cleanup(tiles: &mut ChunkTiles)
    ensures
        final(tiles)@ == cleaned(old(tiles)@),
{
    let side: u32 = CHUNK_TILES_SQ as u32;
    let mut x: u32 = 0;
    while x < side
        invariant
            side == CHUNK_TILES_SQ,
            x <= side,
            tiles@ == cleaned_upto(old(tiles)@, (x * CHUNK_TILES_SQ) as nat),
        decreases side - x,
    {
        let mut y: u32 = 0;
        while y < side
            invariant
                side == CHUNK_TILES_SQ,
                x < side,
                y <= side,
                tiles@ == cleaned_upto(old(tiles)@, (x * CHUNK_TILES_SQ + y) as nat),
            decreases side - y,
        {
            let id = TilePos::new(x, y);
            let neighbors = Neighbors::from_chunk_tiles(id, tiles);
            let ghost before = tiles@;
            let ghost k = x * CHUNK_TILES_SQ + y;
            assert(k / (CHUNK_TILES_SQ as int) == x && k % (CHUNK_TILES_SQ as int) == y);
            match tiles.get_mut(id) {
                Some(tile) => {
                    if tile.is_sand() {
                        cleanup_sand(tile, &neighbors);
                    } else if tile.is_grass() {
                        cleanup_grass(tile, &neighbors);
                    } else if tile.is_water() {
                        cleanup_water(tile, &neighbors);
                    }
                },
                None => {},
            }
            assert(tiles@ == before.update(k, cleaned_tile(before[k], neighbors)));
            y += 1;
        }
        x += 1;
    }
}

/// Tidies the shorelines of a chunk in `passes` passes, one after the other.
pub fn cleanup_passes(tiles: &mut ChunkTiles, passes: u32)
    ensures
        final(tiles)@ == cleaned_times(old(tiles)@, passes as nat),
{
    let mut done: u32 = 0;
    while done < passes
        invariant
            done <= passes,
            tiles@ == cleaned_times(old(tiles)@, done as nat),
        decreases passes - done,
    {
        cleanup(tiles);
        done += 1;
    }
}

/// The neighbours of place `k` of `grid`, counted in storage order.
pub open spec fn neighbors_at(grid: Seq<Tiles>, k: int) -> Neighbors<Tiles> {
    Neighbors::spec_from_grid(grid, k / (CHUNK_TILES_SQ as int), k % (CHUNK_TILES_SQ as int))
}

/// The storage place of the neighbour of place `k` on side `dir`, where the grid reaches there.
spec fn place_beside(k: int, dir: NeighborDirection) -> Option<int> {
    let x = k / (CHUNK_TILES_SQ as int) + dir.spec_offset().x;
    let y = k % (CHUNK_TILES_SQ as int) + dir.spec_offset().y;
    if 0 <= x < CHUNK_TILES_SQ && 0 <= y < CHUNK_TILES_SQ {
        Some(x * CHUNK_TILES_SQ + y)
    } else {
        None
    }
}

/// Where place `q` is beside place `k` on side `dir`, `k` is beside `q` on
/// the side that faces `dir`, and each finds the other's tile there.
/// Where the grid ends on side `dir` of `k`, `k` has no neighbour there.
proof fn lemma_places_beside(grid: Seq<Tiles>, k: int, dir: NeighborDirection)
    requires
        grid.len() == CHUNK_TILES,
        0 <= k < CHUNK_TILES,
    ensures
        match place_beside(k, dir) {
            Some(q) => {
                &&& 0 <= q < CHUNK_TILES
                &&& q != k
                &&& place_beside(q, dir.opposite()) == Some(k)
                &&& neighbors_at(grid, k).side(dir) == Some(grid[q])
                &&& neighbors_at(grid, q).side(dir.opposite()) == Some(grid[k])
            },
            None => neighbors_at(grid, k).side(dir) is None,
        },
{
}

/// During a pass, the places already dealt with hold their final tiles
/// and the others still hold the tiles they began with.
proof fn lemma_pass_shape(grid: Seq<Tiles>, n: nat)
    requires
        grid.len() == CHUNK_TILES,
        n <= CHUNK_TILES,
    ensures
        cleaned_upto(grid, n).len() == CHUNK_TILES,
        forall|i: int| n <= i < CHUNK_TILES ==> #[trigger] cleaned_upto(grid, n)[i] == grid[i],
        forall|i: int|
            0 <= i < n ==> #[trigger] cleaned_upto(grid, n)[i] == cleaned_tile(
                grid[i],
                neighbors_at(cleaned_upto(grid, i as nat), i),
            ),
    decreases n,
{
    if n > 0 {
        lemma_pass_shape(grid, (n - 1) as nat);
        let before = cleaned_upto(grid, (n - 1) as nat);
        assert(before[n - 1] == grid[n - 1]);
    }
}

/// The tile at place `i` after the pass has dealt with its first `n` places.
proof fn lemma_pass_at(grid: Seq<Tiles>, n: nat, i: int)
    requires
        grid.len() == CHUNK_TILES,
        n <= CHUNK_TILES,
        0 <= i < CHUNK_TILES,
    ensures
        cleaned_upto(grid, n).len() == CHUNK_TILES,
        cleaned_upto(grid, n)[i] == (if i < n {
            cleaned_tile(grid[i], neighbors_at(cleaned_upto(grid, i as nat), i))
        } else {
            grid[i]
        }),
{
    lemma_pass_shape(grid, n);
}

/// Water stays water under the rules.
proof fn lemma_water_stays(tile: Tiles, neighbors: Neighbors<Tiles>)
    requires
        tile.spec_is_water(),
    ensures
        cleaned_tile(tile, neighbors).spec_is_water(),
{
}

/// Land stays land under the rules unless there is water on all four sides.
proof fn lemma_land_stays(tile: Tiles, neighbors: Neighbors<Tiles>, dir: NeighborDirection)
    requires
        tile.spec_is_land(),
        !water_on(neighbors, dir),
    ensures
        cleaned_tile(tile, neighbors).spec_is_land(),
{
}

/// How the neighbour on side `dir` of place `k` looks after a pass,
/// set against how it looked when the pass dealt with `k`: it is there
/// in both or in neither, water stays water, and beside a tile that
/// the pass leaves as land, land stays land too.
proof fn lemma_side_settles(grid: Seq<Tiles>, k: int, dir: NeighborDirection)
    requires
        grid.len() == CHUNK_TILES,
        0 <= k < CHUNK_TILES,
    ensures
        ({
            let after = neighbors_at(cleaned(grid), k);
            let during = neighbors_at(cleaned_upto(grid, k as nat), k);
            &&& after.side(dir) is Some <==> during.side(dir) is Some
            &&& water_on(during, dir) ==> water_on(after, dir)
            &&& cleaned(grid)[k].spec_is_land() ==> (water_on(after, dir) <==> water_on(during, dir))
        }),
{
    let done = cleaned(grid);
    let mid = cleaned_upto(grid, k as nat);
    lemma_pass_at(grid, CHUNK_TILES as nat, k);
    lemma_pass_at(grid, k as nat, k);
    lemma_places_beside(done, k, dir);
    lemma_places_beside(mid, k, dir);
    match place_beside(k, dir) {
        Some(q) => {
            let at_q = cleaned_upto(grid, q as nat);
            lemma_pass_at(grid, CHUNK_TILES as nat, q);
            lemma_pass_at(grid, k as nat, q);
            lemma_pass_at(grid, q as nat, q);
            assert(done[q] == cleaned_tile(grid[q], neighbors_at(at_q, q)));
            if q < k {
                assert(mid[q] == done[q]);
            } else {
                assert(mid[q] == grid[q]);
                lemma_pass_at(grid, q as nat, k);
                assert(at_q[k] == done[k]);
                lemma_places_beside(at_q, q, dir.opposite());
                assert(neighbors_at(at_q, q).side(dir.opposite()) == Some(done[k]));
                if grid[q].spec_is_water() {
                    lemma_water_stays(grid[q], neighbors_at(at_q, q));
                } else if done[k].spec_is_land() {
                    lemma_land_stays(grid[q], neighbors_at(at_q, q), dir.opposite());
                }
            }
        },
        None => {},
    }
}

/// The tile that a whole pass leaves at place `k`.
proof fn lemma_pass_result(grid: Seq<Tiles>, k: int)
    requires
        grid.len() == CHUNK_TILES,
        0 <= k < CHUNK_TILES,
    ensures
        cleaned(grid).len() == CHUNK_TILES,
        cleaned(grid)[k] == cleaned_tile(grid[k], neighbors_at(cleaned_upto(grid, k as nat), k)),
{
    lemma_pass_at(grid, CHUNK_TILES as nat, k);
}

/// A pass leaves every tile such that the rules, applied to it once more
/// among its new neighbours, would not change it.
proof fn lemma_tile_settled(grid: Seq<Tiles>, k: int)
    requires
        grid.len() == CHUNK_TILES,
        0 <= k < CHUNK_TILES,
    ensures
        cleaned_tile(cleaned(grid)[k], neighbors_at(cleaned(grid), k)) == cleaned(grid)[k],
{
    lemma_pass_result(grid, k);
    lemma_side_settles(grid, k, NeighborDirection::North);
    lemma_side_settles(grid, k, NeighborDirection::East);
    lemma_side_settles(grid, k, NeighborDirection::West);
    lemma_side_settles(grid, k, NeighborDirection::South);
}

/// A second pass changes nothing at any of its steps.
proof fn lemma_second_pass(grid: Seq<Tiles>, n: nat)
    requires
        grid.len() == CHUNK_TILES,
        n <= CHUNK_TILES,
    ensures
        cleaned_upto(cleaned(grid), n) == cleaned(grid),
    decreases n,
{
    if n > 0 {
        lemma_second_pass(grid, (n - 1) as nat);
        lemma_tile_settled(grid, n - 1);
        lemma_pass_result(grid, n - 1);
        assert(cleaned_upto(cleaned(grid), n) =~= cleaned(grid));
    }
}

/// One pass is enough: a pass over a grid that has had a pass changes nothing.
pub proof fn lemma_cleanup_idempotent(grid: Seq<Tiles>)
    requires
        grid.len() == CHUNK_TILES,
    ensures
        cleaned(cleaned(grid)) == cleaned(grid),
{
    lemma_second_pass(grid, CHUNK_TILES as nat);
}

/// Any number of passes, but none, leaves the grid as one pass does.
pub proof fn lemma_cleanup_passes(grid: Seq<Tiles>, passes: nat)
    requires
        grid.len() == CHUNK_TILES,
        passes >= 1,
    ensures
        cleaned_times(grid, passes) == cleaned(grid),
    decreases passes,
{
    if passes > 1 {
        lemma_cleanup_passes(grid, (passes - 1) as nat);
        lemma_cleanup_idempotent(grid);
    } else {
        assert(cleaned_times(grid, 0) == grid);
    }
}

} // verus!
