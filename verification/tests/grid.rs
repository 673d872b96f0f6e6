use tileworld::sprites::Tiles;
use tileworld::tilemap::array::{TileArray, TilePos};
use tileworld::tilemap::chunk::ChunkTiles;
use tileworld::tilemap::{CHUNK_SIZE_SQ, CHUNK_TILES, CHUNK_TILES_SQ, TILE_SIZE};

#[test]
fn constants_fit_together() {
    assert_eq!(CHUNK_TILES_SQ, 50);
    assert_eq!(CHUNK_TILES, 2500);
    assert_eq!(CHUNK_SIZE_SQ, CHUNK_TILES_SQ as i64 * TILE_SIZE);
}

#[test]
fn of_fills_every_tile() {
    let grid = TileArray::of(Tiles::Grass);
    for x in 0..50 {
        for y in 0..50 {
            assert_eq!(grid.get(TilePos::new(x, y)), Some(&Tiles::Grass));
        }
    }
    assert_eq!(grid.0.len(), 2500);
}

#[test]
fn default_grid_holds_the_default_value() {
    let grid: TileArray<u32> = TileArray::default();
    assert!(grid.0.iter().all(|v| *v == 0));
    let tiles: TileArray<Tiles> = TileArray::default();
    assert!(tiles.0.iter().all(|t| *t == Tiles::Void));
}

#[test]
fn default_chunk_tiles_are_void() {
    let tiles = ChunkTiles::default();
    assert_eq!(tiles.get(TilePos::new(0, 0)), Some(&Tiles::Void));
    assert_eq!(tiles.get(TilePos::new(49, 49)), Some(&Tiles::Void));
    assert!(tiles.0 .0.iter().all(|t| *t == Tiles::Void));
}

#[test]
fn set_then_get_returns_the_tile() {
    let mut grid = TileArray::of(0u32);
    grid.set(TilePos::new(3, 4), 7);
    assert_eq!(grid.get(TilePos::new(3, 4)), Some(&7));
    assert_eq!(grid.get(TilePos::new(4, 3)), Some(&0));
    assert_eq!(grid.0.iter().filter(|v| **v == 7).count(), 1);
}

#[test]
fn storage_runs_column_by_column() {
    let mut grid = TileArray::of(0u32);
    grid.set(TilePos::new(3, 4), 7);
    assert_eq!(grid.0[3 * 50 + 4], 7);
    grid.set(TilePos::new(0, 49), 8);
    assert_eq!(grid.0[49], 8);
    grid.set(TilePos::new(49, 0), 9);
    assert_eq!(grid.0[2450], 9);
    grid.set(TilePos::new(49, 49), 10);
    assert_eq!(grid.0[2499], 10);
}

#[test]
fn get_outside_the_grid_is_none() {
    let grid = TileArray::of(1u8);
    assert_eq!(grid.get(TilePos::new(50, 0)), None);
    assert_eq!(grid.get(TilePos::new(0, 50)), None);
    assert_eq!(grid.get(TilePos::new(50, 50)), None);
    assert_eq!(grid.get(TilePos::new(u32::MAX, u32::MAX)), None);
    assert_eq!(grid.get(TilePos::new(u32::MAX, 0)), None);
}

#[test]
fn a_row_past_the_side_is_outside_even_where_storage_would_reach() {
    let mut grid = TileArray::of(1u8);
    assert_eq!(grid.get(TilePos::new(0, 60)), None);
    assert!(grid.get_mut(TilePos::new(1, 50)).is_none());
    grid.set(TilePos::new(0, 60), 9);
    assert!(grid.0.iter().all(|v| *v == 1));
}

#[test]
fn get_mut_outside_the_grid_is_none() {
    let mut grid = TileArray::of(1u8);
    assert!(grid.get_mut(TilePos::new(50, 0)).is_none());
    assert!(grid.get_mut(TilePos::new(0, 50)).is_none());
    assert!(grid.get_mut(TilePos::new(7, u32::MAX)).is_none());
}

#[test]
fn get_mut_writes_through() {
    let mut grid = TileArray::of(1u8);
    match grid.get_mut(TilePos::new(10, 20)) {
        Some(place) => *place = 5,
        None => panic!("the position lies on the grid"),
    }
    assert_eq!(grid.get(TilePos::new(10, 20)), Some(&5));
    assert_eq!(grid.0.iter().filter(|v| **v == 5).count(), 1);
}

#[test]
fn set_outside_the_grid_changes_nothing() {
    let mut grid = TileArray::of(1u8);
    grid.set(TilePos::new(50, 0), 9);
    grid.set(TilePos::new(0, 50), 9);
    grid.set(TilePos::new(u32::MAX, u32::MAX), 9);
    grid.set(TilePos::new(85_899_346, 0), 9);
    assert!(grid.0.iter().all(|v| *v == 1));
}

#[test]
fn chunk_tiles_set_outside_the_grid_changes_nothing() {
    let mut tiles = ChunkTiles::default();
    tiles.set(TilePos::new(50, 49), Tiles::Beach);
    tiles.set(TilePos::new(49, 50), Tiles::Beach);
    assert!(tiles.get(TilePos::new(50, 49)).is_none());
    assert!(tiles.get_mut(TilePos::new(49, 50)).is_none());
    assert!(tiles.0 .0.iter().all(|t| *t == Tiles::Void));
}

#[test]
fn chunk_tiles_set_get_and_get_mut_agree() {
    let mut tiles = ChunkTiles::default();
    tiles.set(TilePos::new(2, 3), Tiles::Beach);
    assert_eq!(tiles.get(TilePos::new(2, 3)), Some(&Tiles::Beach));
    if let Some(tile) = tiles.get_mut(TilePos::new(2, 3)) {
        *tile = Tiles::WaterDeep;
    }
    assert_eq!(tiles.get(TilePos::new(2, 3)), Some(&Tiles::WaterDeep));
}

#[test]
fn ordinals_follow_the_tiles_in_storage_order() {
    let mut tiles = ChunkTiles::default();
    tiles.set(TilePos::new(0, 1), Tiles::Grass);
    tiles.set(TilePos::new(1, 0), Tiles::WaterDeep);
    tiles.set(TilePos::new(49, 49), Tiles::BeachBottomRight);
    let ordinals = tiles.ordinals();
    assert_eq!(ordinals.len(), 2500);
    assert_eq!(ordinals[0], 0);
    assert_eq!(ordinals[1], 1);
    assert_eq!(ordinals[50], 5);
    assert_eq!(ordinals[2499], 15);
    assert_eq!(ordinals.iter().filter(|o| **o != 0).count(), 3);
}

#[test]
fn grids_are_copied_by_value() {
    let mut grid = TileArray::of(1u8);
    let copy = grid;
    grid.set(TilePos::new(0, 0), 2);
    assert_eq!(copy.get(TilePos::new(0, 0)), Some(&1));
    assert_eq!(grid.clone().get(TilePos::new(0, 0)), Some(&2));
}
