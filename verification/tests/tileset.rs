use tileworld::tileset::{texture_path, variants, TileSetTile, ASSETS_DIR};

fn tile(id: u32, user_type: Option<&str>) -> TileSetTile {
    TileSetTile { id, user_type: user_type.map(|name| name.to_string()) }
}

#[test]
fn each_typed_tile_gives_a_variant() {
    let tiles = vec![
        tile(0, Some("void")),
        tile(1, None),
        tile(2, Some("grass")),
        tile(3, Some("grass_1")),
        tile(7, Some("water_deep")),
        tile(8, None),
        tile(9, Some("beach_top_left")),
    ];
    let kinds = variants(&tiles);
    let got: Vec<(u32, &str, &str, bool)> = kinds
        .iter()
        .map(|k| (k.ordinal, k.name.as_str(), k.ident.as_str(), k.is_default))
        .collect();
    assert_eq!(
        got,
        vec![
            (0, "void", "Void", true),
            (2, "grass", "Grass", false),
            (3, "grass_1", "Grass1", false),
            (7, "water_deep", "WaterDeep", false),
            (9, "beach_top_left", "BeachTopLeft", false),
        ]
    );
}

#[test]
fn names_are_written_in_upper_camel_case() {
    let tiles = vec![
        tile(4, Some("water shallow-wave")),
        tile(5, Some("BeachBottomRight")),
        tile(6, Some("SHOUTY_SNAKE")),
    ];
    let kinds = variants(&tiles);
    assert_eq!(kinds[0].ident, "WaterShallowWave");
    assert_eq!(kinds[1].ident, "BeachBottomRight");
    assert_eq!(kinds[2].ident, "ShoutySnake");
    assert!(kinds.iter().all(|k| !k.is_default));
}

#[test]
fn a_tile_set_without_types_gives_no_variants() {
    assert!(variants(&Vec::new()).is_empty());
    assert!(variants(&vec![tile(0, None), tile(1, None)]).is_empty());
}

#[test]
fn the_texture_path_leaves_out_the_assets_folder() {
    assert_eq!(ASSETS_DIR, "assets/");
    assert_eq!(texture_path("assets/sprites/tiles.png"), "sprites/tiles.png");
    assert_eq!(texture_path("sprites/tiles.png"), "sprites/tiles.png");
    assert_eq!(texture_path("../assets/sprites/assets/tiles.png"), "../sprites/tiles.png");
    assert_eq!(texture_path(""), "");
}
