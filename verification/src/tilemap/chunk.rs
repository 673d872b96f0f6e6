//! Chunk identity and the set of chunks that are alive.

use super::array::{TileArray, TilePos};
use super::{CHUNK_SIZE_SQ, CHUNK_TILES};
use crate::sprites::Tiles;
use std::collections::HashMap;
use vstd::std_specs::hash::spec_hash_map_iter;
use vstd::std_specs::iter::IteratorSpec;
use vstd::prelude::*;

verus! {

/// A point of the world, in world units.
#[derive(Clone, Copy, Debug, PartialEq, Eq, Hash, Structural)]
pub struct WorldPoint {
    pub x: i64,
    pub y: i64,
}

/// An axis-aligned rectangle of the world, given by two opposite corners.
#[derive(Clone, Copy, Debug, PartialEq, Eq, Hash, Structural)]
pub struct WorldRect {
    pub min: WorldPoint,
    pub max: WorldPoint,
}

/// The coordinate of a chunk in the endless grid of chunks.
#[derive(Clone, Copy, Debug, PartialEq, Eq, Hash, Structural)]
pub struct ChunkId {
    pub x: i32,
    pub y: i32,
}

/// The chunk coordinate along one axis that holds the world coordinate
/// `coord`: the floor of `coord` over the chunk size, kept within `i32`.
pub open spec fn chunk_of(coord: int) -> int {
    let q = coord / (CHUNK_SIZE_SQ as int);
    if q < i32::MIN {
        i32::MIN as int
    } else if q > i32::MAX {
        i32::MAX as int
    } else {
        q
    }
}

/// The world coordinate along one axis at which chunk `id` begins: chunk 0 is
/// centred on the origin.
pub open spec fn world_of(id: int) -> int {
    id * CHUNK_SIZE_SQ - CHUNK_SIZE_SQ / 2
}

fn chunk_of_axis(coord: i64) -> (id: i32)
    ensures
        id == chunk_of(coord as int),
{
    let q: i64 = coord / CHUNK_SIZE_SQ;
    let r: i64 = coord % CHUNK_SIZE_SQ;
    let floor: i64 = if r < 0 {
        q - 1
    } else {
        q
    };
    if floor < i32::MIN as i64 {
        i32::MIN
    } else if floor > i32::MAX as i64 {
        i32::MAX
    } else {
        floor as i32
    }
}

impl ChunkId {
    /// The chunk at (`x`, `y`) of the grid of chunks.
    pub fn new(x: i32, y: i32) -> (id: ChunkId)
        ensures
            id.x == x,
            id.y == y,
    {
        ChunkId { x, y }
    }

    /// The chunk that holds the world point `coord`.
    pub fn from_world(coord: WorldPoint) -> (id: ChunkId)
        ensures
            id.x == chunk_of(coord.x as int),
            id.y == chunk_of(coord.y as int),
    {
        ChunkId { x: chunk_of_axis(coord.x), y: chunk_of_axis(coord.y) }
    }

    /// The corner of the chunk with the least coordinates.
    pub fn to_world(self) -> (p: WorldPoint)
        ensures
            p.x == world_of(self.x as int),
            p.y == world_of(self.y as int),
    {
        WorldPoint {
            x: self.x as i64 * CHUNK_SIZE_SQ - CHUNK_SIZE_SQ / 2,
            y: self.y as i64 * CHUNK_SIZE_SQ - CHUNK_SIZE_SQ / 2,
        }
    }

    /// The square of the world that the chunk covers.
    pub fn to_world_rect(self) -> (r: WorldRect)
        ensures
            r.min.x == world_of(self.x as int),
            r.min.y == world_of(self.y as int),
            r.max.x == r.min.x + CHUNK_SIZE_SQ,
            r.max.y == r.min.y + CHUNK_SIZE_SQ,
    {
        let min = self.to_world();
        let max = WorldPoint { x: min.x + CHUNK_SIZE_SQ, y: min.y + CHUNK_SIZE_SQ };
        WorldRect { min, max }
    }
}

/// The tiles of one chunk.
#[derive(Debug, Clone, Copy)]
pub struct ChunkTiles(pub TileArray<Tiles>);

impl View for ChunkTiles {
    type V = Seq<Tiles>;

    open spec fn view(&self) -> Seq<Tiles> {
        self.0@
    }
}

impl Default for ChunkTiles {
    fn default() -> (tiles: ChunkTiles)
        ensures
            tiles@.len() == CHUNK_TILES,
            forall|i: int| 0 <= i < CHUNK_TILES ==> tiles@[i] == Tiles::Void,
    {
        Self(TileArray::of(Tiles::Void))
    }
}

impl ChunkTiles {
    /// The tile at `pos`, or `None` where `pos` lies off the grid.
    pub fn get(&self, pos: TilePos) -> (r: Option<&Tiles>)
        ensures
            pos.in_grid() ==> r == Some(&self@[pos.index()]),
            !pos.in_grid() ==> r is None,
    {
        self.0.get(pos)
    }

    /// The place of the tile at `pos`, to write to, or `None` where `pos`
    /// lies off the grid.
    pub fn get_mut(&mut self, pos: TilePos) -> (r: Option<&mut Tiles>)
        ensures
            pos.in_grid() ==> r is Some && *r.unwrap() == old(self)@[pos.index()] && final(self)@
                == old(self)@.update(pos.index(), *final(r.unwrap())),
            !pos.in_grid() ==> r is None && *final(self) == *old(self),
    {
        self.0.get_mut(pos)
    }

    /// Puts `tile` at `pos`; does nothing where `pos` lies off the grid.
    pub fn set(&mut self, pos: TilePos, tile: Tiles)
        ensures
            pos.in_grid() ==> final(self)@ == old(self)@.update(pos.index(), tile),
            !pos.in_grid() ==> *final(self) == *old(self),
    {
        self.0.set(pos, tile)
    }
}

impl ChunkTiles {
    /// The tiles as the renderer takes them: for each tile, in storage
    /// order, its place on the tile sheet.
    pub fn ordinals(&self) -> (r: [u32; CHUNK_TILES])
        ensures
            forall|i: int| 0 <= i < CHUNK_TILES ==> r@[i] == self@[i].spec_ordinal(),
    {
        let mut r: [u32; CHUNK_TILES] = [0u32;CHUNK_TILES];
        let mut i: usize = 0;
        while i < CHUNK_TILES
            invariant
                i <= CHUNK_TILES,
                forall|k: int| 0 <= k < i ==> r@[k] == self@[k].spec_ordinal(),
            decreases CHUNK_TILES - i,
        {
            r[i] = self.0.0[i].ordinal();
            i += 1;
        }
        r
    }
}

/// The key under which the live set files a chunk: the two coordinates, each
/// moved into the unsigned range, side by side in one word.
pub open spec fn key_of(id: ChunkId) -> u64 {
    ((id.x - i32::MIN) * 0x1_0000_0000 + (id.y - i32::MIN)) as u64
}

/// The chunk that is filed under `key`.
pub open spec fn id_of(key: u64) -> ChunkId {
    ChunkId {
        x: (key / 0x1_0000_0000 + i32::MIN) as i32,
        y: (key % 0x1_0000_0000 + i32::MIN) as i32,
    }
}

/// Keys and chunk coordinates stand in one-to-one correspondence.
pub proof fn lemma_key_roundtrip(id: ChunkId, key: u64)
    ensures
        id_of(key_of(id)) == id,
        key_of(id_of(key)) == key,
{
}

fn pack(id: ChunkId) -> (key: u64)
    ensures
        key == key_of(id),
{
    let hi: u64 = (id.x as i64 - i32::MIN as i64) as u64;
    let lo: u64 = (id.y as i64 - i32::MIN as i64) as u64;
    hi * 0x1_0000_0000 + lo
}

fn unpack(key: u64) -> (id: ChunkId)
    ensures
        id == id_of(key),
{
    let hi: i64 = (key / 0x1_0000_0000) as i64;
    let lo: i64 = (key % 0x1_0000_0000) as i64;
    ChunkId { x: (hi + i32::MIN as i64) as i32, y: (lo + i32::MIN as i64) as i32 }
}

/// The chunks that are alive, each with the handle of what stands for it
/// outside the library.
pub struct Chunks {
    map: HashMap<u64, u64>,
}

impl View for Chunks {
    type V = Map<ChunkId, u64>;

    closed spec fn view(&self) -> Map<ChunkId, u64> {
        Map::new(|id: ChunkId| self.map@.contains_key(key_of(id)), |id: ChunkId| self.map@[key_of(id)])
    }
}

impl Default for Chunks {
    fn default() -> (chunks: Chunks)
        ensures
            chunks@ == Map::<ChunkId, u64>::empty(),
    {
        Chunks::new()
    }
}

impl Chunks {
    /// A live set without chunks.
    pub fn new() -> (chunks: Chunks)
        ensures
            chunks@ == Map::<ChunkId, u64>::empty(),
    {
        let chunks = Chunks { map: HashMap::new() };
        assert(chunks@ =~= Map::<ChunkId, u64>::empty());
        chunks
    }

    /// Whether chunk `id` is alive.
    pub fn contains_key(&self, id: &ChunkId) -> (r: bool)
        ensures
            r == self@.contains_key(*id),
    {
        self.map.contains_key(&pack(*id))
    }

    /// The handle of chunk `id`, if it is alive.
    pub fn get(&self, id: &ChunkId) -> (r: Option<u64>)
        ensures
            r == self@.get(*id),
    {
        match self.map.get(&pack(*id)) {
            Some(handle) => Some(*handle),
            None => None,
        }
    }

    /// Makes chunk `id` alive with `handle`; returns the handle it had before.
    pub fn insert(&mut self, id: ChunkId, handle: u64) -> (before: Option<u64>)
        ensures
            final(self)@ == old(self)@.insert(id, handle),
            before == old(self)@.get(id),
    {
        let before = self.map.insert(pack(id), handle);
        proof {
            assert forall|other: ChunkId| other != id implies key_of(other) != key_of(id) by {
                lemma_key_roundtrip(other, 0);
                lemma_key_roundtrip(id, 0);
            }
            assert(self@ =~= old(self)@.insert(id, handle));
        }
        before
    }

    /// Takes chunk `id` out of the live set; returns the handle it had.
    pub fn remove(&mut self, id: &ChunkId) -> (before: Option<u64>)
        ensures
            final(self)@ == old(self)@.remove(*id),
            before == old(self)@.get(*id),
    {
        let before = self.map.remove(&pack(*id));
        proof {
            assert forall|other: ChunkId| other != *id implies key_of(other) != key_of(*id) by {
                lemma_key_roundtrip(other, 0);
                lemma_key_roundtrip(*id, 0);
            }
            assert(self@ =~= old(self)@.remove(*id));
        }
        before
    }

    /// The number of live chunks.
    pub fn len(&self) -> (n: usize)
        ensures
            self@.dom().finite(),
            n == self@.dom().len(),
    {
        proof {
            let keys = self.map@.dom();
            let unfile = |key: u64| id_of(key);
            assert forall|a: u64, b: u64| id_of(a) == id_of(b) implies a == b by {
                lemma_key_roundtrip(id_of(a), a);
                lemma_key_roundtrip(id_of(b), b);
            }
            assert(vstd::relations::injective_on(unfile, keys));
            assert(keys.map(unfile) =~= self@.dom()) by {
                assert forall|id: ChunkId| keys.map(unfile).contains(id) <==> self@.dom().contains(
                    id,
                ) by {
                    lemma_key_roundtrip(id, 0);
                    if self@.dom().contains(id) {
                        assert(keys.contains(key_of(id)) && unfile(key_of(id)) == id);
                    }
                    if keys.map(unfile).contains(id) {
                        let key = choose|key: u64| keys.contains(key) && unfile(key) == id;
                        lemma_key_roundtrip(id, key);
                    }
                }
            }
            vstd::set_lib::lemma_map_size(keys, self@.dom(), unfile);
        }
        self.map.len()
    }

    /// Whether no chunk is alive.
    pub fn is_empty(&self) -> (r: bool)
        ensures
            r == (self@ == Map::<ChunkId, u64>::empty()),
    {
        let r = self.map.is_empty();
        proof {
            if r {
                assert(self@ =~= Map::<ChunkId, u64>::empty());
            } else {
                let key = choose|key: u64| self.map@.contains_key(key);
                lemma_key_roundtrip(id_of(key), key);
                assert(self@.contains_key(id_of(key)));
            }
        }
        r
    }

    /// The live chunks with their handles, each once, in no particular order.
    pub fn entries(&self) -> (all: Vec<(ChunkId, u64)>)
        ensures
            all@.no_duplicates(),
            forall|id: ChunkId, handle: u64|
                all@.contains((id, handle)) <==> self@.contains_pair(id, handle),
    {
        let mut all: Vec<(ChunkId, u64)> = Vec::new();
        let ghost listed = spec_hash_map_iter(&self.map).remaining();
        for pair in it: self.map.iter()
            invariant
                it.seq() == listed,
                all@.len() == it.index(),
                forall|i: int|
                    0 <= i < all@.len() ==> all@[i] == (id_of(*listed[i].0), *listed[i].1),
        {
            let (key, handle) = pair;
            all.push((unpack(*key), *handle));
        }
        proof {
            assert(all@.len() == listed.len());
            assert forall|id: ChunkId, handle: u64| self@.contains_pair(id, handle) implies all@.contains(
                (id, handle),
            ) by {
                let key = key_of(id);
                assert(self.map@.contains_key(key));
                assert(listed.contains((&key, &self.map@[key])));
                let i = choose|i: int| 0 <= i < listed.len() && listed[i] == (&key, &self.map@[key]);
                lemma_key_roundtrip(id, key);
                assert(all@[i] == (id, handle));
            }
            assert forall|id: ChunkId, handle: u64| all@.contains((id, handle)) implies self@.contains_pair(
                id,
                handle,
            ) by {
                let i = choose|i: int| 0 <= i < all@.len() && all@[i] == (id, handle);
                let key = *listed[i].0;
                assert(self.map@.contains_key(key));
                lemma_key_roundtrip(id, key);
            }
        }
        all
    }
}

} // verus!
