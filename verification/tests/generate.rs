use noise::{NoiseFn, Perlin};
use rand::{Rng, RngCore, SeedableRng};
use rand_xorshift::XorShiftRng;
use tileworld::sprites::Tiles;
use tileworld::tilemap::array::{TileArray, TilePos};
use tileworld::tilemap::chunk::{ChunkId, ChunkTiles};
use tileworld::tilemap::generate::{
    generate, generate_from_samples, sample_chunk, sample_coord, terrain, xor_shift_rng,
    GenerateConf, Terrain, BEACH_MAX, DEEP_WATER_MAX, INFINITY, ONE, SHALLOW_WATER_MAX, SIGN_BIT,
    WARM_UP_DRAWS,
};

struct FbmOne<T> {
    source: T,
    octaves: usize,
    frequency: f64,
    persistence: f64,
    lacunarity: f64,
}

impl<T: NoiseFn<f64, 2>> NoiseFn<f64, 2> for FbmOne<T> {
    fn get(&self, point: [f64; 2]) -> f64 {
        let mut point = [point[0] * self.frequency, point[1] * self.frequency];
        let mut result = 0.0;
        for x in 0..self.octaves {
            let mut signal = self.source.get(point);
            signal *= self.persistence.powi(x as i32);
            result += signal;
            point = [point[0] * self.lacunarity, point[1] * self.lacunarity];
        }
        result
    }
}

fn continents(conf: &GenerateConf) -> impl NoiseFn<f64, 2> {
    let continent_scale = f64::from_bits(conf.clamped_scale());
    let freq = 1.0 + (4.0 - 1.0) * continent_scale;
    let scale = 0.005 + (0.0005 - 0.005) * continent_scale;
    let fbm = FbmOne {
        source: Perlin::new(conf.seed),
        octaves: 6,
        frequency: freq,
        lacunarity: 2.25,
        persistence: 0.5,
    };
    let clamped = noise::Clamp::new(fbm).set_lower_bound(0.0).set_upper_bound(1.0);
    noise::ScalePoint::new(clamped).set_x_scale(scale).set_y_scale(scale)
}

fn samples_of(conf: &GenerateConf, id: ChunkId) -> TileArray<u64> {
    let field = continents(conf);
    let mut samples = TileArray::of(0u64);
    for x in 0..50 {
        for y in 0..50 {
            let pos = TilePos::new(x, y);
            let p = sample_coord(id, pos);
            samples.set(pos, field.get([p.0 as f64, p.1 as f64]).to_bits());
        }
    }
    samples
}

fn generated(conf: &GenerateConf, id: ChunkId) -> ChunkTiles {
    let field = continents(conf);
    let mut tiles = ChunkTiles::default();
    generate(conf, id, &|x: i64, y: i64| field.get([x as f64, y as f64]).to_bits(), &mut tiles);
    tiles
}

/// The generator of a chunk, built step by step from the words of its seed.
fn seeded_by_hand(seed: u32, x: i32, y: i32) -> XorShiftRng {
    let a = (x.unsigned_abs()).wrapping_mul(100);
    let b = (y.unsigned_abs()).wrapping_mul(100);
    let w = a.wrapping_mul(2).wrapping_add(b / 2);
    let mut bytes = [0u8; 16];
    bytes[0..4].copy_from_slice(&a.to_le_bytes());
    bytes[4..8].copy_from_slice(&b.to_le_bytes());
    bytes[8..12].copy_from_slice(&seed.to_le_bytes());
    bytes[12..16].copy_from_slice(&w.to_le_bytes());
    let mut rng = XorShiftRng::from_seed(bytes);
    for _ in 0..32 {
        rng.gen::<u64>();
    }
    rng
}

/// One step of the xorshift generator on four words; the word given out is the last.
fn step(s: [u32; 4]) -> [u32; 4] {
    let t = s[0] ^ (s[0] << 11);
    [s[1], s[2], s[3], s[3] ^ (s[3] >> 19) ^ (t ^ (t >> 8))]
}

fn conf(seed: u32, scale: f64) -> GenerateConf {
    GenerateConf { seed, continent_scale: scale.to_bits() }
}

#[test]
fn the_thresholds_are_the_encodings_of_their_numbers() {
    assert_eq!(DEEP_WATER_MAX, 0.1f64.to_bits());
    assert_eq!(SHALLOW_WATER_MAX, 0.2f64.to_bits());
    assert_eq!(BEACH_MAX, 0.25f64.to_bits());
    assert_eq!(ONE, 1.0f64.to_bits());
    assert_eq!(INFINITY, f64::INFINITY.to_bits());
    assert_eq!(SIGN_BIT, (-0.0f64).to_bits());
    assert_eq!(WARM_UP_DRAWS, 32);
}

#[test]
fn a_sample_on_a_threshold_falls_below_it() {
    assert_eq!(terrain(0.10f64.to_bits()), Terrain::WaterDeep);
    assert_eq!(terrain(0.20f64.to_bits()), Terrain::WaterShallow);
    assert_eq!(terrain(0.25f64.to_bits()), Terrain::Beach);
}

#[test]
fn a_sample_just_above_a_threshold_falls_above_it() {
    assert_eq!(terrain(0.10f64.to_bits() + 1), Terrain::WaterShallow);
    assert_eq!(terrain(0.20f64.to_bits() + 1), Terrain::Beach);
    assert_eq!(terrain(0.25f64.to_bits() + 1), Terrain::Grass);
    assert_eq!(terrain(0.10f64.to_bits() - 1), Terrain::WaterDeep);
    assert_eq!(terrain(0.20f64.to_bits() - 1), Terrain::WaterShallow);
    assert_eq!(terrain(0.25f64.to_bits() - 1), Terrain::Beach);
}

#[test]
fn terrain_of_plain_samples() {
    assert_eq!(terrain(0.0f64.to_bits()), Terrain::WaterDeep);
    assert_eq!(terrain(0.05f64.to_bits()), Terrain::WaterDeep);
    assert_eq!(terrain(0.15f64.to_bits()), Terrain::WaterShallow);
    assert_eq!(terrain(0.22f64.to_bits()), Terrain::Beach);
    assert_eq!(terrain(0.3f64.to_bits()), Terrain::Grass);
    assert_eq!(terrain(1.0f64.to_bits()), Terrain::Grass);
}

#[test]
fn terrain_of_odd_samples() {
    assert_eq!(terrain((-0.0f64).to_bits()), Terrain::WaterDeep);
    assert_eq!(terrain((-1.5f64).to_bits()), Terrain::WaterDeep);
    assert_eq!(terrain(f64::NEG_INFINITY.to_bits()), Terrain::WaterDeep);
    assert_eq!(terrain(f64::INFINITY.to_bits()), Terrain::Grass);
    assert_eq!(terrain(f64::NAN.to_bits()), Terrain::Grass);
    assert_eq!(terrain(f64::NAN.to_bits() | SIGN_BIT), Terrain::Grass);
    assert_eq!(terrain(f64::MIN_POSITIVE.to_bits()), Terrain::WaterDeep);
    assert_eq!(terrain(u64::MAX), Terrain::Grass);
}

#[test]
fn terrain_agrees_with_comparing_the_numbers() {
    let mut bits: u64 = 0;
    let mut count = 0;
    loop {
        for probe in [bits, bits | SIGN_BIT] {
            let v = f64::from_bits(probe);
            let expected = if v <= 0.1 {
                Terrain::WaterDeep
            } else if v <= 0.2 {
                Terrain::WaterShallow
            } else if v <= 0.25 {
                Terrain::Beach
            } else {
                Terrain::Grass
            };
            assert_eq!(terrain(probe), expected);
            count += 1;
        }
        match bits.checked_add(0x0000_7FF3_1234_5677) {
            Some(next) if next < SIGN_BIT => bits = next,
            _ => break,
        }
    }
    assert!(count > 100_000);
}

#[test]
fn clamped_scale_keeps_the_scale_in_the_unit_interval() {
    for (scale, expected) in [
        (0.0, 0.0),
        (0.5, 0.5),
        (1.0, 1.0),
        (1.0000001, 1.0),
        (7.0, 1.0),
        (f64::INFINITY, 1.0),
        (-0.25, 0.0),
        (f64::NEG_INFINITY, 0.0),
        (f64::MIN_POSITIVE, f64::MIN_POSITIVE),
    ] {
        assert_eq!(conf(1, scale).clamped_scale(), f64::to_bits(expected));
        assert_eq!(conf(1, scale).clamped_scale(), f64::clamp(scale, 0.0, 1.0).to_bits());
    }
    assert_eq!(conf(1, -0.0).clamped_scale(), f64::clamp(-0.0, 0.0, 1.0).to_bits());
    assert!(f64::from_bits(conf(1, f64::NAN).clamped_scale()).is_nan());
    assert_eq!(conf(1, f64::NAN).clamped_scale(), f64::NAN.to_bits());
}

#[test]
fn sample_coords_lay_chunks_side_by_side() {
    assert_eq!(sample_coord(ChunkId::new(0, 0), TilePos::new(0, 0)), (0, 0));
    assert_eq!(sample_coord(ChunkId::new(0, 0), TilePos::new(49, 7)), (49, 7));
    assert_eq!(sample_coord(ChunkId::new(1, 2), TilePos::new(0, 0)), (50, 100));
    assert_eq!(sample_coord(ChunkId::new(-1, -2), TilePos::new(49, 1)), (-1, -99));
    assert_eq!(
        sample_coord(ChunkId::new(i32::MAX, i32::MIN), TilePos::new(u32::MAX, 0)),
        (2147483647 * 50 + 4294967295, -2147483648 * 50)
    );
}

#[test]
fn the_chunk_generator_is_seeded_and_warmed_up() {
    for (seed, x, y) in [
        (0xdead, 0, 0),
        (0xdead, 3, -7),
        (0xdead, -3, 7),
        (1, 1, 1),
        (0, 5, 0),
        (u32::MAX, 123_456, -654_321),
        (42, 21_474_836, 21_474_837),
        (42, i32::MAX, i32::MIN),
        (42, i32::MIN, i32::MAX),
    ] {
        let mut ours = xor_shift_rng(&conf(seed, 1.0), x, y);
        let mut theirs = seeded_by_hand(seed, x, y);
        assert!(ours == theirs);
        for _ in 0..100 {
            assert_eq!(ours.next_u32(), theirs.next_u32());
        }
    }
}

#[test]
fn the_chunk_generator_depends_on_the_distance_of_a_coordinate_from_zero() {
    assert!(xor_shift_rng(&conf(7, 0.0), 3, -4) == xor_shift_rng(&conf(7, 1.0), -3, 4));
    assert!(xor_shift_rng(&conf(7, 0.0), 3, 4) != xor_shift_rng(&conf(7, 0.0), 4, 3));
    assert!(xor_shift_rng(&conf(7, 0.0), 3, 4) != xor_shift_rng(&conf(8, 0.0), 3, 4));
}

#[test]
fn the_chunk_generator_steps_as_xorshift_does() {
    let mut state = [300u32, 700, 0xdead, 300u32 * 2 + 700 / 2];
    for _ in 0..64 {
        state = step(state);
    }
    let mut rng = xor_shift_rng(&conf(0xdead, 1.0), 3, -7);
    for _ in 0..50 {
        state = step(state);
        assert_eq!(rng.next_u32(), state[3]);
    }
}

#[test]
fn a_seed_of_zeros_gets_the_stand_in_words() {
    let mut state = [0x0BAD_5EEDu32; 4];
    for _ in 0..64 {
        state = step(state);
    }
    let mut rng = xor_shift_rng(&conf(0, 1.0), 0, 0);
    for _ in 0..50 {
        state = step(state);
        assert_eq!(rng.next_u32(), state[3]);
    }
}

#[test]
fn grass_takes_one_draw_from_the_generator() {
    let mut ours = xor_shift_rng(&conf(9, 1.0), 1, 2);
    let mut theirs = seeded_by_hand(9, 1, 2);
    for _ in 0..5000 {
        let expected = match theirs.gen::<f32>() {
            v if v < 0.1 => Tiles::Grass1,
            v if v < 0.2 => Tiles::Grass2,
            _ => Tiles::Grass,
        };
        assert_eq!(Tiles::grass(&mut ours), expected);
    }
    assert!(ours == theirs);
}

#[test]
fn water_and_beach_follow_from_the_sample_alone() {
    let mut samples = TileArray::of(0.05f64.to_bits());
    samples.set(TilePos::new(0, 1), 0.15f64.to_bits());
    samples.set(TilePos::new(1, 0), 0.25f64.to_bits());
    samples.set(TilePos::new(49, 49), 0.1f64.to_bits());
    let mut tiles = ChunkTiles::default();
    generate_from_samples(&conf(5, 1.0), ChunkId::new(2, 3), &samples, &mut tiles);
    for x in 0..50 {
        for y in 0..50 {
            let expected = match (x, y) {
                (0, 1) => Tiles::WaterShallow,
                (1, 0) => Tiles::Beach,
                _ => Tiles::WaterDeep,
            };
            assert_eq!(tiles.get(TilePos::new(x, y)), Some(&expected));
        }
    }
}

#[test]
fn grass_tiles_take_their_draws_in_storage_order() {
    let id = ChunkId::new(-4, 9);
    let mut samples = TileArray::of(0.5f64.to_bits());
    for x in 0..50u32 {
        for y in 0..50u32 {
            if (x * 31 + y * 17) % 5 == 0 {
                samples.set(TilePos::new(x, y), 0.0f64.to_bits());
            }
        }
    }
    let mut tiles = ChunkTiles::default();
    generate_from_samples(&conf(77, 1.0), id, &samples, &mut tiles);
    let mut rng = seeded_by_hand(77, -4, 9);
    let mut grass = 0;
    for x in 0..50u32 {
        for y in 0..50u32 {
            let expected = if (x * 31 + y * 17) % 5 == 0 {
                Tiles::WaterDeep
            } else {
                grass += 1;
                match rng.gen::<f32>() {
                    v if v < 0.1 => Tiles::Grass1,
                    v if v < 0.2 => Tiles::Grass2,
                    _ => Tiles::Grass,
                }
            };
            assert_eq!(tiles.get(TilePos::new(x, y)), Some(&expected));
        }
    }
    assert_eq!(grass, 2000);
}

#[test]
fn generate_overwrites_what_the_chunk_held() {
    let conf = conf(3, 0.5);
    let id = ChunkId::new(1, 1);
    let samples = samples_of(&conf, id);
    let mut fresh = ChunkTiles::default();
    generate_from_samples(&conf, id, &samples, &mut fresh);
    let mut used = ChunkTiles::default();
    for x in 0..50 {
        for y in 0..50 {
            used.set(TilePos::new(x, y), Tiles::BeachTop);
        }
    }
    generate_from_samples(&conf, id, &samples, &mut used);
    assert!(fresh.0 .0 == used.0 .0);
    assert!(fresh.0 .0.iter().all(|t| *t != Tiles::BeachTop && *t != Tiles::Void));
}

#[test]
fn generate_twice_gives_the_same_tiles() {
    for (seed, scale, x, y) in [(0xdead, 1.0, 0, 0), (1, 0.0, -3, 8), (99, 0.3, 29, 29)] {
        let conf = conf(seed, scale);
        let id = ChunkId::new(x, y);
        let first = generated(&conf, id);
        let second = generated(&conf, id);
        assert!(first.0 .0 == second.0 .0);
        assert!(first.ordinals() == second.ordinals());
    }
}

#[test]
fn generate_matches_the_float_reading_of_the_rules() {
    for (seed, scale, cx, cy) in [(0xdead, 1.0, 0, 0), (0xdead, 1.0, 29, 29), (7, 0.25, -2, 5)] {
        let conf = conf(seed, scale);
        let id = ChunkId::new(cx, cy);
        let tiles = generated(&conf, id);
        let field = continents(&conf);
        let mut rng = seeded_by_hand(seed, cx, cy);
        for x in 0..50u32 {
            for y in 0..50u32 {
                let px = cx as f64 * 50.0 + x as f64;
                let py = cy as f64 * 50.0 + y as f64;
                let expected = match field.get([px, py]) {
                    v if v <= 0.1 => Tiles::WaterDeep,
                    v if v <= 0.2 => Tiles::WaterShallow,
                    v if v <= 0.25 => Tiles::Beach,
                    _ => match rng.gen::<f32>() {
                        v if v < 0.1 => Tiles::Grass1,
                        v if v < 0.2 => Tiles::Grass2,
                        _ => Tiles::Grass,
                    },
                };
                assert_eq!(tiles.get(TilePos::new(x, y)), Some(&expected));
            }
        }
    }
}

#[test]
fn the_origin_chunk_of_the_fixture_world_holds_every_terrain() {
    let conf = conf(0xdead, 1.0);
    let first = generated(&conf, ChunkId::new(0, 0));
    let second = generated(&conf, ChunkId::new(0, 0));
    let a = first.ordinals();
    let b = second.ordinals();
    assert_eq!(a.len(), 2500);
    assert!(a == b);
    let count = |tile: Tiles| first.0 .0.iter().filter(|t| **t == tile).count();
    assert!(count(Tiles::WaterDeep) >= 1);
    assert!(count(Tiles::WaterShallow) >= 1);
    assert!(count(Tiles::Beach) >= 1);
    assert!(count(Tiles::Grass) + count(Tiles::Grass1) + count(Tiles::Grass2) >= 1);
    assert_eq!(count(Tiles::WaterDeep), 21);
    assert_eq!(count(Tiles::WaterShallow), 157);
    assert_eq!(count(Tiles::Beach), 153);
    assert_eq!(count(Tiles::Grass), 1714);
    assert_eq!(count(Tiles::Grass1), 222);
    assert_eq!(count(Tiles::Grass2), 233);
    assert_eq!(count(Tiles::Void), 0);
}

#[test]
fn grass_variants_come_in_about_one_tenth_each() {
    let samples = TileArray::of(1.0f64.to_bits());
    let mut tiles = ChunkTiles::default();
    generate_from_samples(&conf(0xdead, 1.0), ChunkId::new(12, 34), &samples, &mut tiles);
    let count = |tile: Tiles| tiles.0 .0.iter().filter(|t| **t == tile).count();
    assert_eq!(count(Tiles::Grass) + count(Tiles::Grass1) + count(Tiles::Grass2), 2500);
    assert!(count(Tiles::Grass1) > 175 && count(Tiles::Grass1) < 325);
    assert!(count(Tiles::Grass2) > 175 && count(Tiles::Grass2) < 325);
}

#[test]
fn sample_chunk_asks_the_field_at_every_tile() {
    let id = ChunkId::new(-2, 3);
    let samples = sample_chunk(id, &|x: i64, y: i64| (x * 1000 + y) as u64);
    for x in 0..50u32 {
        for y in 0..50u32 {
            let expected = ((-100 + x as i64) * 1000 + (150 + y as i64)) as u64;
            assert_eq!(samples.get(TilePos::new(x, y)), Some(&expected));
        }
    }
}

#[test]
fn sample_chunk_asks_each_point_once_in_storage_order() {
    let asked = std::cell::RefCell::new(Vec::new());
    let id = ChunkId::new(1, 1);
    sample_chunk(id, &|x: i64, y: i64| {
        asked.borrow_mut().push((x, y));
        0
    });
    let asked = asked.into_inner();
    assert_eq!(asked.len(), 2500);
    assert_eq!(asked[0], (50, 50));
    assert_eq!(asked[1], (50, 51));
    assert_eq!(asked[50], (51, 50));
    assert_eq!(asked[2499], (99, 99));
}

#[test]
fn generate_is_sampling_followed_by_generation_from_the_samples() {
    let conf = conf(0xdead, 1.0);
    for id in [ChunkId::new(0, 0), ChunkId::new(29, 29), ChunkId::new(-3, 4)] {
        let mut from_samples = ChunkTiles::default();
        generate_from_samples(&conf, id, &samples_of(&conf, id), &mut from_samples);
        assert!(generated(&conf, id).0 .0 == from_samples.0 .0);
    }
}

#[test]
fn generate_30x30_image() {
    let dim = 30u32;
    let size = dim * 50;
    let conf = conf(0xdead, 1.0);
    let field = continents(&conf);
    let sample = |x: i64, y: i64| field.get([x as f64, y as f64]).to_bits();

    let mut image = vec![[0u8; 3]; (size * size) as usize];
    let mut other = 0usize;

    for cx in 0..dim {
        for cy in 0..dim {
            let mut tiles = ChunkTiles::default();

            generate(&conf, ChunkId::new(cx as i32, cy as i32), &sample, &mut tiles);

            for x in 0..50 {
                for y in 0..50 {
                    let tile = match tiles.get(TilePos::new(x, y)).unwrap() {
                        Tiles::Grass => [0, 255, 0],
                        Tiles::WaterDeep => [0, 0, 255],
                        Tiles::WaterShallow => [100, 100, 255],

                        Tiles::Void => [255, 0, 0],

                        _ => {
                            other += 1;
                            [0, 0, 0]
                        }
                    };

                    image[((cy * 50 + y) * size + cx * 50 + x) as usize] = tile;
                }
            }
        }
    }

    assert_eq!(image.len(), 1500 * 1500);
    assert!(image.iter().all(|pixel| *pixel != [255, 0, 0]));
    assert!(image.iter().any(|pixel| *pixel == [0, 255, 0]));
    assert!(image.iter().any(|pixel| *pixel == [0, 0, 255]));
    assert!(image.iter().any(|pixel| *pixel == [100, 100, 255]));
    assert_eq!(image.iter().filter(|pixel| **pixel == [0, 0, 0]).count(), other);
    assert!(other > 0);
}
