//! Terrain from noise: how the samples of a noise field become the tiles of a chunk.
//!
//! The noise field itself is computed outside this library. Samples come in
//! as IEEE 754 double-precision numbers in their 64-bit encoding, and the
//! thresholds below are encodings too.

use super::array::{TileArray, TilePos};
use super::chunk::{ChunkId, ChunkTiles};
use super::{CHUNK_TILES, CHUNK_TILES_SQ};
use crate::rng::{
    rng_from_seed, rng_gen_u64, xorshift_state, xorshift_steps, XorShiftState, ZERO_SEED_WORD,
};
use crate::sprites::Tiles;
use rand_xorshift::XorShiftRng;
use vstd::bytes::{lemma_auto_spec_u32_to_from_le_bytes, spec_u32_to_le_bytes, u32_to_le_bytes};
use vstd::prelude::*;

verus! {

/// The encoding with only the sign bit set: negative zero.
pub const SIGN_BIT: u64 = 0x8000_0000_0000_0000;

/// The encoding of positive infinity. A magnitude above it is not a number.
pub const INFINITY: u64 = 0x7FF0_0000_0000_0000;

/// The encoding of 1.
pub const ONE: u64 = 0x3FF0_0000_0000_0000;

/// The encoding of 0.1: samples up to it are deep water.
pub const DEEP_WATER_MAX: u64 = 0x3FB9_9999_9999_999A;

/// The encoding of 0.2: samples up to it, above deep water, are shallow water.
pub const SHALLOW_WATER_MAX: u64 = 0x3FC9_9999_9999_999A;

/// The encoding of 0.25: samples up to it, above shallow water, are beach.
pub const BEACH_MAX: u64 = 0x3FD0_0000_0000_0000;

/// How many 64-bit draws a fresh generator makes and drops before it is used.
pub const WARM_UP_DRAWS: usize = 32;

/// Whether `v` encodes no number.
pub open spec fn is_nan(v: u64) -> bool {
    v % SIGN_BIT > INFINITY
}

/// Whether the number that `v` encodes is at most the number that `limit`
/// encodes, for a `limit` that is positive and finite: `v` is a number, and
/// it is negative (or negative zero) or its encoding is at most `limit`.
pub open spec fn at_most(v: u64, limit: u64) -> bool {
    !is_nan(v) && (v >= SIGN_BIT || v <= limit)
}

fn is_at_most(v: u64, limit: u64) -> (r: bool)
    ensures
        r == at_most(v, limit),
{
    v % SIGN_BIT <= INFINITY && (v >= SIGN_BIT || v <= limit)
}

/// Tile map generation configuration.
#[derive(Clone, Copy, Debug)]
pub struct GenerateConf {
    /// The map seed.
    pub seed: u32,
    /// The continent scale defined as a value [0-1], in its 64-bit encoding.
    pub continent_scale: u64,
}

impl GenerateConf {
    /// The continent scale held to the unit interval: a negative scale
    /// counts as 0, one above 1 as 1. What is no number stays as it is.
    pub open spec fn spec_clamped_scale(&self) -> u64 {
        let v = self.continent_scale;
        if is_nan(v) {
            v
        } else if v > SIGN_BIT {
            0
        } else if SIGN_BIT > v > ONE {
            ONE
        } else {
            v
        }
    }

    /// The continent scale held to the unit interval.
    #[verifier::when_used_as_spec(spec_clamped_scale)]
    pub fn clamped_scale(&self) -> (r: u64)
        ensures
            r == self.spec_clamped_scale(),
    {
        let v = self.continent_scale;
        if v % SIGN_BIT > INFINITY {
            v
        } else if v > SIGN_BIT {
            0
        } else if v < SIGN_BIT && v > ONE {
            ONE
        } else {
            v
        }
    }
}

/// The kinds of ground that a sample can stand for.
#[derive(Clone, Copy, Debug, PartialEq, Eq, Hash, Structural)]
pub enum Terrain {
    WaterDeep,
    WaterShallow,
    Beach,
    Grass,
}

/// The ground that a sample stands for. The thresholds are tried in
/// order, each including its own value: up to 0.1 deep water, up to 0.2
/// shallow water, up to 0.25 beach, and grass for all the rest.
pub open spec fn spec_terrain(sample: u64) -> Terrain {
    if at_most(sample, DEEP_WATER_MAX) {
        Terrain::WaterDeep
    } else if at_most(sample, SHALLOW_WATER_MAX) {
        Terrain::WaterShallow
    } else if at_most(sample, BEACH_MAX) {
        Terrain::Beach
    } else {
        Terrain::Grass
    }
}

/// The ground that a sample stands for.
#[verifier::when_used_as_spec(spec_terrain)]
pub fn terrain(sample: u64) -> (r: Terrain)
    ensures
        r == spec_terrain(sample),
{
    if is_at_most(sample, DEEP_WATER_MAX) {
        Terrain::WaterDeep
    } else if is_at_most(sample, SHALLOW_WATER_MAX) {
        Terrain::WaterShallow
    } else if is_at_most(sample, BEACH_MAX) {
        Terrain::Beach
    } else {
        Terrain::Grass
    }
}

/// The point of the noise field that is sampled for the tile at `pos` of
/// chunk `chunk_id`: chunks lie side by side, one unit per tile.
pub open spec fn spec_sample_coord(chunk_id: ChunkId, pos: TilePos) -> (i64, i64) {
    (
        (chunk_id.x * CHUNK_TILES_SQ + pos.x) as i64,
        (chunk_id.y * CHUNK_TILES_SQ + pos.y) as i64,
    )
}

/// The point of the noise field that is sampled for the tile at `pos` of
/// chunk `chunk_id`.
#[verifier::when_used_as_spec(spec_sample_coord)]
pub fn sample_coord(chunk_id: ChunkId, pos: TilePos) -> (p: (i64, i64))
    ensures
        p == spec_sample_coord(chunk_id, pos),
        p.0 == chunk_id.x * CHUNK_TILES_SQ + pos.x,
        p.1 == chunk_id.y * CHUNK_TILES_SQ + pos.y,
{
    (
        chunk_id.x as i64 * CHUNK_TILES_SQ as i64 + pos.x as i64,
        chunk_id.y as i64 * CHUNK_TILES_SQ as i64 + pos.y as i64,
    )
}

/// Whether `samples` holds, for each tile of chunk `chunk_id`, a value
/// that `field` gives at the tile's point of the noise field.
pub open spec fn sampled_by<F: Fn(i64, i64) -> u64>(
    field: F,
    chunk_id: ChunkId,
    samples: Seq<u64>,
) -> bool {
    forall|pos: TilePos|
        pos.in_grid() ==> call_ensures(
            field,
            #[trigger] spec_sample_coord(chunk_id, pos),
            samples[pos.index()],
        )
}

/// Whether `field` can be asked at the point of every tile of chunk `chunk_id`.
pub open spec fn samples_chunk<F: Fn(i64, i64) -> u64>(field: F, chunk_id: ChunkId) -> bool {
    forall|pos: TilePos|
        pos.in_grid() ==> call_requires(field, #[trigger] spec_sample_coord(chunk_id, pos))
}

/// The samples of chunk `chunk_id`: for each tile, what `field` gives at
/// the tile's point of the noise field.
pub fn sample_chunk<F: Fn(i64, i64) -> u64>(chunk_id: ChunkId, field: &F) -> (samples: TileArray<u64>)
    requires
        samples_chunk(*field, chunk_id),
    ensures
        sampled_by(*field, chunk_id, samples@),
{
    let mut samples = TileArray::of(0u64);
    let side: u32 = CHUNK_TILES_SQ as u32;
    let mut x: u32 = 0;
    while x < side
        invariant
            side == CHUNK_TILES_SQ,
            x <= side,
            forall|pos: TilePos|
                pos.in_grid() ==> call_requires(field, #[trigger] spec_sample_coord(chunk_id, pos)),
            forall|pos: TilePos|
                pos.in_grid() && pos.x < x ==> call_ensures(
                    field,
                    #[trigger] spec_sample_coord(chunk_id, pos),
                    samples@[pos.index()],
                ),
        decreases side - x,
    {
        let mut y: u32 = 0;
        while y < side
            invariant
                side == CHUNK_TILES_SQ,
                x < side,
                y <= side,
                forall|pos: TilePos|
                    pos.in_grid() ==> call_requires(
                        field,
                        #[trigger] spec_sample_coord(chunk_id, pos),
                    ),
                forall|pos: TilePos|
                    pos.in_grid() && (pos.x < x || (pos.x == x && pos.y < y)) ==> call_ensures(
                        field,
                        #[trigger] spec_sample_coord(chunk_id, pos),
                        samples@[pos.index()],
                    ),
            decreases side - y,
        {
            let pos = TilePos::new(x, y);
            let (px, py) = sample_coord(chunk_id, pos);
            let ghost before = samples@;
            samples.set(pos, field(px, py));
            assert forall|other: TilePos|
                other.in_grid() && (other.x < x || (other.x == x && other.y < y + 1)) implies call_ensures(
                field,
                #[trigger] spec_sample_coord(chunk_id, other),
                samples@[other.index()],
            ) by {
                if other != pos {
                    assert(other.index() != pos.index());
                    assert(samples@[other.index()] == before[other.index()]);
                }
            }
            y += 1;
        }
        x += 1;
    }
    samples
}

/// The seed word that a chunk coordinate gives: a hundred times its
/// distance from zero, cut to 32 bits.
pub open spec fn seed_word(coord: i32) -> u32 {
    let distance = if coord < 0 {
        -coord
    } else {
        coord as int
    };
    ((distance * 100) % 0x1_0000_0000) as u32
}

/// The four seed words of the generator of chunk (`x`, `y`) under the map
/// seed `seed`: the words of `x` and of `y`, the map seed, and a mix of the
/// first two, twice the one plus half the other, cut to 32 bits.
pub open spec fn seed_words(seed: u32, x: i32, y: i32) -> Seq<u32> {
    let a = seed_word(x);
    let b = seed_word(y);
    seq![a, b, seed, (((2 * a) % 0x1_0000_0000 + b / 2) % 0x1_0000_0000) as u32]
}

/// The state of the generator of a chunk when it is handed out: seeded
/// with the chunk's four words, then warmed up.
pub open spec fn chunk_rng_state(seed: u32, x: i32, y: i32) -> XorShiftState {
    let words = seed_words(seed, x, y);
    let start = if words[0] == 0 && words[1] == 0 && words[2] == 0 && words[3] == 0 {
        XorShiftState { x: ZERO_SEED_WORD, y: ZERO_SEED_WORD, z: ZERO_SEED_WORD, w: ZERO_SEED_WORD }
    } else {
        XorShiftState { x: words[0], y: words[1], z: words[2], w: words[3] }
    };
    xorshift_steps(start, 2 * WARM_UP_DRAWS as nat)
}

fn coord_word(coord: i32) -> (word: u32)
    ensures
        word == seed_word(coord),
{
    let distance: u32 = if coord < 0 {
        (-(coord as i64)) as u32
    } else {
        coord as u32
    };
    distance.wrapping_mul(100)
}

/// The four bytes of `seed` that hold its word `i`.
spec fn word_bytes(seed: Seq<u8>, i: int) -> Seq<u8> {
    seed.subrange(4 * i, 4 * i + 4)
}

/// The sixteen seed bytes that hold four words, each least byte first.
fn seed_bytes(words: &[u32; 4]) -> (seed: [u8; 16])
    ensures
        forall|i: int| 0 <= i < 4 ==> #[trigger] word_bytes(seed@, i) == spec_u32_to_le_bytes(words[i]),
{
    let mut seed: [u8; 16] = [0u8;16];
    let mut i: usize = 0;
    while i < 4
        invariant
            i <= 4,
            forall|k: int|
                0 <= k < i ==> #[trigger] word_bytes(seed@, k) == spec_u32_to_le_bytes(words[k]),
        decreases 4 - i,
    {
        let bytes = u32_to_le_bytes(words[i]);
        let ghost before = seed@;
        let mut j: usize = 0;
        while j < 4
            invariant
                i < 4,
                j <= 4,
                bytes@.len() == 4,
                forall|k: int| 0 <= k < 4 * i ==> seed@[k] == before[k],
                forall|k: int| 0 <= k < j ==> seed@[4 * i + k] == bytes@[k],
            decreases 4 - j,
        {
            seed[4 * i + j] = bytes[j];
            j += 1;
        }
        proof {
            assert(word_bytes(seed@, i as int) =~= bytes@);
            assert forall|k: int| 0 <= k < i implies #[trigger] word_bytes(seed@, k)
                == spec_u32_to_le_bytes(words[k]) by {
                assert(word_bytes(seed@, k) =~= word_bytes(before, k));
            }
        }
        i += 1;
    }
    seed
}

/// The generator of chunk (`x`, `y`): seeded from the chunk's coordinates
/// and the map seed, and warmed up so that its first draws, which a seed
/// of few set bits makes poor, are not used.
pub fn xor_shift_rng(conf: &GenerateConf, x: i32, y: i32) -> (rng: XorShiftRng)
    ensures
        xorshift_state(rng) == chunk_rng_state(conf.seed, x, y),
{
    let a = coord_word(x);
    let b = coord_word(y);
    let z = conf.seed;
    let w = a.wrapping_mul(2).wrapping_add(b / 2);
    let words: [u32; 4] = [a, b, z, w];
    assert(words@ =~= seed_words(conf.seed, x, y));
    let seed = seed_bytes(&words);
    proof {
        lemma_auto_spec_u32_to_from_le_bytes();
        assert(seed@.subrange(0, 4) == word_bytes(seed@, 0));
        assert(seed@.subrange(4, 8) == word_bytes(seed@, 1));
        assert(seed@.subrange(8, 12) == word_bytes(seed@, 2));
        assert(seed@.subrange(12, 16) == word_bytes(seed@, 3));
    }
    let mut rng = rng_from_seed(seed);
    let ghost start = xorshift_state(rng);
    let mut i: usize = 0;
    while i < WARM_UP_DRAWS
        invariant
            i <= WARM_UP_DRAWS,
            xorshift_state(rng) == xorshift_steps(start, 2 * i as nat),
        decreases WARM_UP_DRAWS - i,
    {
        let _ = rng_gen_u64(&mut rng);
        proof {
            reveal_with_fuel(xorshift_steps, 3);
        }
        i += 1;
    }
    rng
}

/// How many of the first `n` samples stand for grass.
pub open spec fn grass_before(samples: Seq<u64>, n: int) -> nat
    decreases n,
{
    if n <= 0 {
        0
    } else {
        grass_before(samples, n - 1) + if spec_terrain(samples[n - 1]) == Terrain::Grass {
            1nat
        } else {
            0nat
        }
    }
}

/// The tile at storage place `i` of a chunk whose generator starts in
/// state `start`. Water and beach follow from the sample alone. Grass
/// takes its variant from the generator: the first grass tile in storage
/// order from the first draw, the second from the second, and so on.
pub open spec fn generated_tile(start: XorShiftState, samples: Seq<u64>, i: int) -> Tiles {
    match spec_terrain(samples[i]) {
        Terrain::WaterDeep => Tiles::WaterDeep,
        Terrain::WaterShallow => Tiles::WaterShallow,
        Terrain::Beach => Tiles::Beach,
        Terrain::Grass => Tiles::spec_grass_for(
            xorshift_steps(start, grass_before(samples, i) + 1).w,
        ),
    }
}

/// The tiles of chunk `chunk_id` under the map seed `seed`, from the
/// samples of its tiles.
pub open spec fn generated(seed: u32, chunk_id: ChunkId, samples: Seq<u64>) -> Seq<Tiles> {
    Seq::new(
        CHUNK_TILES as nat,
        |i: int| generated_tile(chunk_rng_state(seed, chunk_id.x, chunk_id.y), samples, i),
    )
}

/// Fills `chunk_tiles` with the terrain of chunk `chunk_id`, sampling
/// the noise field `field` at the point of every tile. The outcome
/// depends on nothing but the map seed, the chunk and what the field
/// gives: a field that gives one value at each point gives the same tiles
/// every time.
pub fn generate<F: Fn(i64, i64) -> u64>(
    conf: &GenerateConf,
    chunk_id: ChunkId,
    field: &F,
    chunk_tiles: &mut ChunkTiles,
)
    requires
        samples_chunk(*field, chunk_id),
    ensures
        exists|samples: Seq<u64>|
            #![trigger sampled_by(*field, chunk_id, samples)]
            samples.len() == CHUNK_TILES && sampled_by(*field, chunk_id, samples)
                && final(chunk_tiles)@ == generated(conf.seed, chunk_id, samples),
{
    let samples = sample_chunk(chunk_id, field);
    generate_from_samples(conf, chunk_id, &samples, chunk_tiles);
    assert(sampled_by(*field, chunk_id, samples@));
}

/// Fills `chunk_tiles` with the terrain of chunk `chunk_id`. `samples`
/// holds, for each tile, the sample of the noise field at that tile's
/// `sample_coord`. The outcome depends on nothing but the map seed, the
/// chunk and the samples: the same three give the same tiles.
pub fn generate_from_samples(
    conf: &GenerateConf,
    chunk_id: ChunkId,
    samples: &TileArray<u64>,
    chunk_tiles: &mut ChunkTiles,
)
    ensures
        final(chunk_tiles)@ == generated(conf.seed, chunk_id, samples@),
{
    let mut rng = xor_shift_rng(conf, chunk_id.x, chunk_id.y);
    let ghost start = xorshift_state(rng);
    let side: u32 = CHUNK_TILES_SQ as u32;
    let mut x: u32 = 0;
    while x < side
        invariant
            side == CHUNK_TILES_SQ,
            x <= side,
            xorshift_state(rng) == xorshift_steps(
                start,
                grass_before(samples@, x * CHUNK_TILES_SQ),
            ),
            forall|i: int|
                0 <= i < x * CHUNK_TILES_SQ ==> chunk_tiles@[i] == generated_tile(
                    start,
                    samples@,
                    i,
                ),
        decreases side - x,
    {
        let mut y: u32 = 0;
        while y < side
            invariant
                side == CHUNK_TILES_SQ,
                x < side,
                y <= side,
                xorshift_state(rng) == xorshift_steps(
                    start,
                    grass_before(samples@, x * CHUNK_TILES_SQ + y),
                ),
                forall|i: int|
                    0 <= i < x * CHUNK_TILES_SQ + y ==> chunk_tiles@[i] == generated_tile(
                        start,
                        samples@,
                        i,
                    ),
            decreases side - y,
        {
            let pos = TilePos::new(x, y);
            let sample = match samples.get(pos) {
                Some(value) => *value,
                None => 0,
            };
            let tile = match terrain(sample) {
                Terrain::WaterDeep => Tiles::WaterDeep,
                Terrain::WaterShallow => Tiles::WaterShallow,
                Terrain::Beach => Tiles::Beach,
                Terrain::Grass => Tiles::grass(&mut rng),
            };
            chunk_tiles.set(pos, tile);
            y += 1;
        }
        x += 1;
    }
    assert(chunk_tiles@ =~= generated(conf.seed, chunk_id, samples@));
}

/// Samples that agree on the first `n` tiles hold as much grass among them.
proof fn lemma_grass_before_agrees(a: Seq<u64>, b: Seq<u64>, n: int)
    requires
        forall|i: int| 0 <= i < n ==> a[i] == b[i],
    ensures
        grass_before(a, n) == grass_before(b, n),
    decreases n,
{
    if n > 0 {
        lemma_grass_before_agrees(a, b, n - 1);
    }
}

/// Generation is repeatable: where the noise field gives but one value at
/// each point of the chunk, any two samplings of the chunk give the same tiles.
pub proof fn lemma_generate_deterministic<F: Fn(i64, i64) -> u64>(
    field: F,
    seed: u32,
    chunk_id: ChunkId,
    first: Seq<u64>,
    second: Seq<u64>,
)
    requires
        sampled_by(field, chunk_id, first),
        sampled_by(field, chunk_id, second),
        forall|point: (i64, i64), a: u64, b: u64|
            call_ensures(field, point, a) && call_ensures(field, point, b) ==> a == b,
    ensures
        generated(seed, chunk_id, first) == generated(seed, chunk_id, second),
{
    assert forall|i: int| 0 <= i < CHUNK_TILES implies first[i] == second[i] by {
        let pos = TilePos {
            x: (i / (CHUNK_TILES_SQ as int)) as u32,
            y: (i % (CHUNK_TILES_SQ as int)) as u32,
        };
        assert(pos.in_grid() && pos.index() == i);
        let point = spec_sample_coord(chunk_id, pos);
        assert(call_ensures(field, point, first[i]) && call_ensures(field, point, second[i]));
    }
    let start = chunk_rng_state(seed, chunk_id.x, chunk_id.y);
    assert forall|i: int| 0 <= i < CHUNK_TILES implies generated_tile(start, first, i)
        == generated_tile(start, second, i) by {
        lemma_grass_before_agrees(first, second, i);
    }
    assert(generated(seed, chunk_id, first) =~= generated(seed, chunk_id, second));
}

} // verus!
