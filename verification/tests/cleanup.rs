use tileworld::sprites::Tiles;
use tileworld::tilemap::array::TilePos;
use tileworld::tilemap::chunk::ChunkTiles;
use tileworld::tilemap::cleanup::{
    cleanup, cleanup_grass, cleanup_passes, cleanup_sand, cleanup_water,
};
use tileworld::tilemap::neighbors::Neighbors;

const W: Option<Tiles> = Some(Tiles::WaterDeep);
const S: Option<Tiles> = Some(Tiles::WaterShallow);
const G: Option<Tiles> = Some(Tiles::Grass);
const B: Option<Tiles> = Some(Tiles::Beach);

fn around(
    north: Option<Tiles>,
    east: Option<Tiles>,
    west: Option<Tiles>,
    south: Option<Tiles>,
) -> Neighbors<Tiles> {
    Neighbors { north, east, west, south }
}

fn sand(tile: Tiles, n: Neighbors<Tiles>) -> Tiles {
    let mut tile = tile;
    cleanup_sand(&mut tile, &n);
    tile
}

fn grass(tile: Tiles, n: Neighbors<Tiles>) -> Tiles {
    let mut tile = tile;
    cleanup_grass(&mut tile, &n);
    tile
}

fn water(tile: Tiles, n: Neighbors<Tiles>) -> Tiles {
    let mut tile = tile;
    cleanup_water(&mut tile, &n);
    tile
}

fn filled(tile: Tiles) -> ChunkTiles {
    let mut tiles = ChunkTiles::default();
    for x in 0..50 {
        for y in 0..50 {
            tiles.set(TilePos::new(x, y), tile);
        }
    }
    tiles
}

fn at(tiles: &ChunkTiles, x: u32, y: u32) -> Tiles {
    *tiles.get(TilePos::new(x, y)).unwrap()
}

/// A grid with a bit of everything, the same on every call.
fn patchwork(salt: u32) -> ChunkTiles {
    let kinds = [
        Tiles::WaterDeep,
        Tiles::WaterDeep,
        Tiles::WaterShallow,
        Tiles::Beach,
        Tiles::Grass,
        Tiles::Grass1,
        Tiles::WaterDeep,
        Tiles::BeachTopLeft,
        Tiles::Void,
        Tiles::WaterDeep,
        Tiles::Grass2,
    ];
    let mut tiles = ChunkTiles::default();
    let mut state: u32 = salt.wrapping_mul(2_654_435_761).wrapping_add(12345);
    for x in 0..50 {
        for y in 0..50 {
            state = state.wrapping_mul(1_664_525).wrapping_add(1_013_904_223);
            tiles.set(TilePos::new(x, y), kinds[(state >> 24) as usize % kinds.len()]);
        }
    }
    tiles
}

#[test]
fn deep_water_next_to_land_turns_shallow() {
    assert_eq!(water(Tiles::WaterDeep, around(W, W, G, W)), Tiles::WaterShallow);
    assert_eq!(water(Tiles::WaterDeep, around(B, W, W, S)), Tiles::WaterShallow);
    assert_eq!(water(Tiles::WaterDeep, around(W, S, W, Some(Tiles::Void))), Tiles::WaterShallow);
    assert_eq!(water(Tiles::WaterDeep, around(None, Some(Tiles::Grass3), None, None)), Tiles::WaterShallow);
}

#[test]
fn deep_water_among_water_stays_deep() {
    assert_eq!(water(Tiles::WaterDeep, around(W, W, S, W)), Tiles::WaterDeep);
    assert_eq!(water(Tiles::WaterDeep, around(None, None, None, None)), Tiles::WaterDeep);
    assert_eq!(water(Tiles::WaterDeep, around(None, S, None, W)), Tiles::WaterDeep);
}

#[test]
fn shallow_water_stays_shallow() {
    assert_eq!(water(Tiles::WaterShallow, around(G, G, G, G)), Tiles::WaterShallow);
    assert_eq!(water(Tiles::WaterShallow, around(W, W, W, W)), Tiles::WaterShallow);
}

#[test]
fn sand_without_water_around_stays_as_it_is() {
    assert_eq!(sand(Tiles::Beach, around(G, G, B, G)), Tiles::Beach);
    assert_eq!(sand(Tiles::BeachTopLeft, around(G, None, B, None)), Tiles::BeachTopLeft);
    assert_eq!(sand(Tiles::BeachBottom, around(None, None, None, None)), Tiles::BeachBottom);
}

#[test]
fn sand_with_water_on_all_sides_turns_shallow() {
    assert_eq!(sand(Tiles::Beach, around(W, W, W, W)), Tiles::WaterShallow);
    assert_eq!(sand(Tiles::BeachRight, around(S, W, S, W)), Tiles::WaterShallow);
}

#[test]
fn sand_faces_water_to_the_north() {
    assert_eq!(sand(Tiles::Beach, around(W, G, G, G)), Tiles::BeachTop);
    assert_eq!(sand(Tiles::Beach, around(W, S, G, G)), Tiles::BeachTopRight);
    assert_eq!(sand(Tiles::Beach, around(W, G, S, G)), Tiles::BeachTopLeft);
    assert_eq!(sand(Tiles::Beach, around(S, None, None, None)), Tiles::BeachTop);
}

#[test]
fn sand_faces_water_to_the_south() {
    assert_eq!(sand(Tiles::Beach, around(G, G, G, W)), Tiles::BeachBottom);
    assert_eq!(sand(Tiles::Beach, around(G, S, G, W)), Tiles::BeachBottomRight);
    assert_eq!(sand(Tiles::Beach, around(G, G, S, W)), Tiles::BeachBottomLeft);
    assert_eq!(sand(Tiles::Beach, around(None, None, None, S)), Tiles::BeachBottom);
}

#[test]
fn sand_faces_water_to_one_side() {
    assert_eq!(sand(Tiles::Beach, around(G, W, G, G)), Tiles::BeachLeft);
    assert_eq!(sand(Tiles::Beach, around(G, G, W, G)), Tiles::BeachRight);
    assert_eq!(sand(Tiles::Beach, around(None, W, W, None)), Tiles::BeachLeft);
}

#[test]
fn north_goes_before_south_and_east_before_west() {
    assert_eq!(sand(Tiles::Beach, around(W, G, G, W)), Tiles::BeachTop);
    assert_eq!(sand(Tiles::Beach, around(W, W, W, G)), Tiles::BeachTopRight);
    assert_eq!(sand(Tiles::Beach, around(G, W, W, W)), Tiles::BeachBottomRight);
    assert_eq!(sand(Tiles::Beach, around(W, G, W, W)), Tiles::BeachTopLeft);
    assert_eq!(sand(Tiles::Beach, around(W, W, G, W)), Tiles::BeachTopRight);
}

#[test]
fn the_facing_beach_does_not_depend_on_the_beach_before() {
    for tile in [Tiles::Beach, Tiles::BeachTop, Tiles::BeachBottomLeft, Tiles::BeachRight] {
        assert_eq!(sand(tile, around(G, G, S, W)), Tiles::BeachBottomLeft);
    }
}

#[test]
fn grass_with_water_on_all_sides_turns_shallow() {
    assert_eq!(grass(Tiles::Grass, around(W, W, W, W)), Tiles::WaterShallow);
    assert_eq!(grass(Tiles::Grass2, around(S, S, W, S)), Tiles::WaterShallow);
}

#[test]
fn grass_with_land_or_an_edge_beside_it_stays() {
    assert_eq!(grass(Tiles::Grass, around(W, W, W, G)), Tiles::Grass);
    assert_eq!(grass(Tiles::Grass1, around(W, W, W, None)), Tiles::Grass1);
    assert_eq!(grass(Tiles::Grass3, around(B, W, W, W)), Tiles::Grass3);
    assert_eq!(grass(Tiles::Grass, around(None, None, None, None)), Tiles::Grass);
}

#[test]
fn a_pass_over_open_water_or_plain_land_changes_nothing() {
    for tile in [Tiles::WaterDeep, Tiles::WaterShallow, Tiles::Grass, Tiles::Beach, Tiles::Void] {
        let mut tiles = filled(tile);
        cleanup(&mut tiles);
        assert!(tiles.0 .0.iter().all(|t| *t == tile));
    }
}

#[test]
fn a_lone_grass_tile_in_deep_water_sinks() {
    let mut tiles = filled(Tiles::WaterDeep);
    tiles.set(TilePos::new(5, 5), Tiles::Grass);
    cleanup(&mut tiles);
    assert_eq!(at(&tiles, 5, 5), Tiles::WaterShallow);
    assert_eq!(at(&tiles, 4, 5), Tiles::WaterShallow);
    assert_eq!(at(&tiles, 5, 4), Tiles::WaterShallow);
    assert_eq!(at(&tiles, 5, 6), Tiles::WaterDeep);
    assert_eq!(at(&tiles, 6, 5), Tiles::WaterDeep);
    assert_eq!(tiles.0 .0.iter().filter(|t| **t == Tiles::WaterShallow).count(), 3);
    assert_eq!(tiles.0 .0.iter().filter(|t| **t == Tiles::WaterDeep).count(), 2497);
}

#[test]
fn a_lone_grass_tile_at_the_edge_stays() {
    let mut tiles = filled(Tiles::WaterDeep);
    tiles.set(TilePos::new(0, 5), Tiles::Grass);
    cleanup(&mut tiles);
    assert_eq!(at(&tiles, 0, 5), Tiles::Grass);
    assert_eq!(at(&tiles, 0, 4), Tiles::WaterShallow);
    assert_eq!(at(&tiles, 0, 6), Tiles::WaterShallow);
    assert_eq!(at(&tiles, 1, 5), Tiles::WaterShallow);
    assert_eq!(at(&tiles, 1, 4), Tiles::WaterDeep);
}

#[test]
fn a_strip_of_sand_gets_its_shoreline() {
    let mut tiles = filled(Tiles::WaterDeep);
    for x in 10..20 {
        for y in 10..13 {
            tiles.set(TilePos::new(x, y), Tiles::Beach);
        }
    }
    cleanup(&mut tiles);
    assert_eq!(at(&tiles, 15, 11), Tiles::Beach);
    assert_eq!(at(&tiles, 15, 12), Tiles::BeachTop);
    assert_eq!(at(&tiles, 15, 10), Tiles::BeachBottom);
    assert_eq!(at(&tiles, 10, 11), Tiles::BeachLeft);
    assert_eq!(at(&tiles, 19, 11), Tiles::BeachRight);
    assert_eq!(at(&tiles, 10, 12), Tiles::BeachTopRight);
    assert_eq!(at(&tiles, 19, 12), Tiles::BeachTopLeft);
    assert_eq!(at(&tiles, 10, 10), Tiles::BeachBottomRight);
    assert_eq!(at(&tiles, 19, 10), Tiles::BeachBottomLeft);
    assert_eq!(at(&tiles, 15, 13), Tiles::WaterShallow);
    assert_eq!(at(&tiles, 15, 9), Tiles::WaterShallow);
    assert_eq!(at(&tiles, 9, 11), Tiles::WaterShallow);
    assert_eq!(at(&tiles, 20, 11), Tiles::WaterShallow);
    assert_eq!(at(&tiles, 9, 9), Tiles::WaterDeep);
    assert_eq!(at(&tiles, 15, 14), Tiles::WaterDeep);
}

#[test]
fn a_second_pass_changes_nothing() {
    for salt in 0..20 {
        let mut tiles = patchwork(salt);
        let before = tiles;
        cleanup(&mut tiles);
        assert!(tiles.0 .0 != before.0 .0);
        let once = tiles;
        cleanup(&mut tiles);
        assert!(tiles.0 .0 == once.0 .0);
    }
}

#[test]
fn passes_run_one_after_the_other() {
    let start = patchwork(3);
    let mut none = start;
    cleanup_passes(&mut none, 0);
    assert!(none.0 .0 == start.0 .0);
    let mut once = start;
    cleanup(&mut once);
    let mut one = start;
    cleanup_passes(&mut one, 1);
    assert!(one.0 .0 == once.0 .0);
    let mut three = start;
    cleanup_passes(&mut three, 3);
    assert!(three.0 .0 == once.0 .0);
}

#[test]
fn a_pass_sees_earlier_tiles_as_it_left_them() {
    let mut tiles = filled(Tiles::WaterDeep);
    tiles.set(TilePos::new(5, 5), Tiles::Beach);
    tiles.set(TilePos::new(5, 6), Tiles::WaterShallow);
    cleanup(&mut tiles);
    assert_eq!(at(&tiles, 5, 5), Tiles::WaterShallow);
    assert_eq!(at(&tiles, 5, 4), Tiles::WaterShallow);
    assert_eq!(at(&tiles, 4, 5), Tiles::WaterShallow);
    assert_eq!(at(&tiles, 6, 5), Tiles::WaterDeep);
    assert_eq!(at(&tiles, 5, 7), Tiles::WaterDeep);
}
