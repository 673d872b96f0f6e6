//! The four tiles next to a tile.

use super::array::TilePos;
use super::chunk::ChunkTiles;
use super::CHUNK_TILES_SQ;
use crate::sprites::Tiles;
use vstd::prelude::*;

verus! {

/// A step of one tile along an axis.
#[derive(Clone, Copy, Debug, PartialEq, Eq, Hash, Structural)]
pub struct TileOffset {
    pub x: i32,
    pub y: i32,
}

/// The side on which a neighbour lies. North is one step up the `y`
/// axis and south one step down; west is one step up the `x` axis and
/// east one step down.
#[derive(Clone, Copy, Debug, PartialEq, Eq, Hash, Structural)]
pub enum NeighborDirection {
    North,
    East,
    West,
    South,
}

impl NeighborDirection {
    /// The step from a tile to its neighbour on this side.
    pub open spec fn spec_offset(&self) -> TileOffset {
        match *self {
            Self::North => TileOffset { x: 0, y: 1 },
            Self::East => TileOffset { x: -1i32, y: 0 },
            Self::West => TileOffset { x: 1, y: 0 },
            Self::South => TileOffset { x: 0, y: -1i32 },
        }
    }

    /// The step from a tile to its neighbour on this side.
    #[verifier::when_used_as_spec(spec_offset)]
    pub fn offset(&self) -> (r: TileOffset)
        ensures
            r == self.spec_offset(),
    {
        match self {
            Self::North => TileOffset { x: 0, y: 1 },
            Self::East => TileOffset { x: -1, y: 0 },
            Self::West => TileOffset { x: 1, y: 0 },
            Self::South => TileOffset { x: 0, y: -1 },
        }
    }

    /// The position one step from `of` on this side, unless a coordinate
    /// would leave the range of `u32`.
    pub fn offset_of(&self, of: TilePos) -> (r: Option<TilePos>)
        ensures
            ({
                let x = of.x + self.spec_offset().x;
                let y = of.y + self.spec_offset().y;
                if 0 <= x <= u32::MAX && 0 <= y <= u32::MAX {
                    r == Some(TilePos { x: x as u32, y: y as u32 })
                } else {
                    r is None
                }
            }),
    {
        Some(
            match self {
                Self::North => TilePos { x: of.x, y: of.y.checked_add(1)? },
                Self::East => TilePos { x: of.x.checked_sub(1)?, y: of.y },
                Self::West => TilePos { x: of.x.checked_add(1)?, y: of.y },
                Self::South => TilePos { x: of.x, y: of.y.checked_sub(1)? },
            },
        )
    }
}

impl NeighborDirection {
    /// The side that faces this one.
    pub open spec fn opposite(self) -> NeighborDirection {
        match self {
            Self::North => Self::South,
            Self::East => Self::West,
            Self::West => Self::East,
            Self::South => Self::North,
        }
    }
}

/// Whether `b` is the position one step from `a` on side `dir`.
pub open spec fn beside(a: TilePos, dir: NeighborDirection, b: TilePos) -> bool {
    b.x == a.x + dir.spec_offset().x && b.y == a.y + dir.spec_offset().y
}

impl NeighborDirection {
    /// The four sides in the order in which neighbours are walked.
    pub const CLOCKWISE: [Self; 4] = [Self::North, Self::West, Self::South, Self::East];
}

/// The four sides in the order in which neighbours are walked.
pub open spec fn clockwise() -> Seq<NeighborDirection> {
    NeighborDirection::CLOCKWISE@
}

/// The tiles on the four sides of a tile; a side is `None` where the grid ends.
#[derive(Debug)]
pub struct Neighbors<T> {
    pub north: Option<T>,
    pub east: Option<T>,
    pub west: Option<T>,
    pub south: Option<T>,
}

impl<T: Copy> Clone for Neighbors<T> {
    fn clone(&self) -> (r: Self)
        ensures
            r == *self,
    {
        *self
    }
}

impl<T: Copy> Copy for Neighbors<T> {

}

impl<T> Default for Neighbors<T> {
    fn default() -> (r: Self)
        ensures
            r.north is None,
            r.east is None,
            r.west is None,
            r.south is None,
    {
        Self { north: None, east: None, west: None, south: None }
    }
}

impl<T> Neighbors<T> {
    /// The neighbour on side `dir`.
    pub open spec fn side(self, dir: NeighborDirection) -> Option<T> {
        match dir {
            NeighborDirection::North => self.north,
            NeighborDirection::East => self.east,
            NeighborDirection::West => self.west,
            NeighborDirection::South => self.south,
        }
    }

    /// These neighbours with the one on side `dir` replaced by `value`.
    pub open spec fn with_side(self, dir: NeighborDirection, value: Option<T>) -> Self {
        match dir {
            NeighborDirection::North => Neighbors { north: value, ..self },
            NeighborDirection::East => Neighbors { east: value, ..self },
            NeighborDirection::West => Neighbors { west: value, ..self },
            NeighborDirection::South => Neighbors { south: value, ..self },
        }
    }

    /// The neighbours that are there among the sides from place `from` of
    /// the walking order on, in that order.
    pub open spec fn present_from(self, from: int) -> Seq<T>
        decreases 4 - from,
    {
        if from < 0 || from >= 4 {
            Seq::empty()
        } else {
            match self.side(clockwise()[from]) {
                Some(value) => seq![value] + self.present_from(from + 1),
                None => self.present_from(from + 1),
            }
        }
    }

    /// The neighbours that are there, in walking order.
    pub open spec fn present(self) -> Seq<T> {
        self.present_from(0)
    }

    /// The neighbour on side `dir`, if there is one.
    pub fn get(&self, dir: NeighborDirection) -> (r: Option<&T>)
        ensures
            match self.side(dir) {
                Some(value) => r == Some(&value),
                None => r is None,
            },
    {
        match dir {
            NeighborDirection::North => self.north.as_ref(),
            NeighborDirection::East => self.east.as_ref(),
            NeighborDirection::West => self.west.as_ref(),
            NeighborDirection::South => self.south.as_ref(),
        }
    }

    /// The place of the neighbour on side `dir`, to write to.
    pub fn get_mut(&mut self, dir: NeighborDirection) -> (r: &mut Option<T>)
        ensures
            *r == old(self).side(dir),
            *final(self) == old(self).with_side(dir, *final(r)),
    {
        match dir {
            NeighborDirection::North => &mut self.north,
            NeighborDirection::East => &mut self.east,
            NeighborDirection::West => &mut self.west,
            NeighborDirection::South => &mut self.south,
        }
    }

    /// The neighbours that `f` makes of these, side by side.
    pub fn map<U, F>(self, f: F) -> (r: Neighbors<U>) where F: FnOnce(T) -> U + Copy
        requires
            forall|dir: NeighborDirection|
                self.side(dir) is Some ==> call_requires(f, (#[trigger] self.side(dir)->0,)),
        ensures
            forall|dir: NeighborDirection|
                match #[trigger] self.side(dir) {
                    Some(value) => r.side(dir) is Some && call_ensures(f, (value,), r.side(dir)->0),
                    None => r.side(dir) is None,
                },
    {
        proof {
            let _ = self.side(NeighborDirection::North);
            let _ = self.side(NeighborDirection::East);
            let _ = self.side(NeighborDirection::West);
            let _ = self.side(NeighborDirection::South);
        }
        Neighbors {
            north: self.north.map(f),
            east: self.east.map(f),
            west: self.west.map(f),
            south: self.south.map(f),
        }
    }

    /// These neighbours without those for which `f` says no.
    pub fn filter<F>(self, f: F) -> (r: Neighbors<T>) where F: FnOnce(&T) -> bool + Copy
        requires
            forall|dir: NeighborDirection|
                self.side(dir) is Some ==> call_requires(f, (&#[trigger] self.side(dir)->0,)),
        ensures
            forall|dir: NeighborDirection|
                match #[trigger] self.side(dir) {
                    Some(value) => (r.side(dir) == Some(value) && call_ensures(f, (&value,), true))
                        || (r.side(dir) is None && call_ensures(f, (&value,), false)),
                    None => r.side(dir) is None,
                },
    {
        proof {
            let _ = self.side(NeighborDirection::North);
            let _ = self.side(NeighborDirection::East);
            let _ = self.side(NeighborDirection::West);
            let _ = self.side(NeighborDirection::South);
        }
        Neighbors {
            north: keep_if(self.north, f),
            east: keep_if(self.east, f),
            west: keep_if(self.west, f),
            south: keep_if(self.south, f),
        }
    }

    /// The number of neighbours that are there.
    pub fn len(&self) -> (n: usize)
        ensures
            n == self.present().len(),
            n <= 4,
    {
        let mut n: usize = 0;
        let mut i: usize = 4;
        while i > 0
            invariant
                i <= 4,
                n == self.present_from(i as int).len(),
                n <= 4 - i,
            decreases i,
        {
            i -= 1;
            if self.get(NeighborDirection::CLOCKWISE[i]).is_some() {
                n += 1;
            }
        }
        n
    }

    /// Whether no neighbour is there.
    pub fn is_empty(&self) -> (r: bool)
        ensures
            r == (self.present().len() == 0),
    {
        self.len() == 0
    }

    /// All four neighbours in walking order, if all four are there.
    pub fn into_flat_array(self) -> (r: Option<[T; 4]>)
        ensures
            match r {
                Some(all) => self.north == Some(all[0]) && self.west == Some(all[1]) && self.south
                    == Some(all[2]) && self.east == Some(all[3]),
                None => self.north is None || self.west is None || self.south is None
                    || self.east is None,
            },
    {
        Some([self.north?, self.west?, self.south?, self.east?])
    }
}

/// `value`, unless `f` says no to what it holds.
fn keep_if<T, F>(value: Option<T>, f: F) -> (r: Option<T>) where F: FnOnce(&T) -> bool
    requires
        value is Some ==> call_requires(f, (&value->0,)),
    ensures
        match value {
            Some(inner) => (r == Some(inner) && call_ensures(f, (&inner,), true)) || (r is None
                && call_ensures(f, (&inner,), false)),
            None => r is None,
        },
{
    match value {
        Some(inner) => if f(&inner) {
            Some(inner)
        } else {
            None
        },
        None => None,
    }
}

impl<T> Neighbors<T> {
    /// A walk over the neighbours that are there, in walking order.
    pub fn iter(&self) -> (it: Iter<'_, T>)
        ensures
            it.remaining() == self.present(),
    {
        Iter { dir: 0, neighbors: self }
    }
}

impl Neighbors<Tiles> {
    /// The tile next to the place (`x`, `y`) of `grid` on side `dir`, if the grid reaches there.
    pub open spec fn spec_at(grid: Seq<Tiles>, x: int, y: int, dir: NeighborDirection) -> Option<
        Tiles,
    > {
        let nx = x + dir.spec_offset().x;
        let ny = y + dir.spec_offset().y;
        if 0 <= nx < CHUNK_TILES_SQ && 0 <= ny < CHUNK_TILES_SQ {
            Some(grid[nx * CHUNK_TILES_SQ + ny])
        } else {
            None
        }
    }

    /// The neighbours of the place (`x`, `y`) of `grid`.
    pub open spec fn spec_from_grid(grid: Seq<Tiles>, x: int, y: int) -> Neighbors<Tiles> {
        Neighbors {
            north: Self::spec_at(grid, x, y, NeighborDirection::North),
            east: Self::spec_at(grid, x, y, NeighborDirection::East),
            west: Self::spec_at(grid, x, y, NeighborDirection::West),
            south: Self::spec_at(grid, x, y, NeighborDirection::South),
        }
    }

    /// The neighbours of the tile at `tile_id` within its chunk. A side
    /// that lies beyond the edge of the chunk is `None`.
    pub fn from_chunk_tiles(tile_id: TilePos, chunk_tiles: &ChunkTiles) -> (r: Self)
        ensures
            r == Self::spec_from_grid(chunk_tiles@, tile_id.x as int, tile_id.y as int),
    {
        let mut neighbors = Self::default();
        let mut i: usize = 0;
        while i < 4
            invariant
                i <= 4,
                forall|k: int|
                    0 <= k < i ==> neighbors.side(#[trigger] clockwise()[k]) == Self::spec_at(
                        chunk_tiles@,
                        tile_id.x as int,
                        tile_id.y as int,
                        clockwise()[k],
                    ),
                forall|k: int| i <= k < 4 ==> neighbors.side(#[trigger] clockwise()[k]) is None,
            decreases 4 - i,
        {
            let dir = NeighborDirection::CLOCKWISE[i];
            if let Some(id) = dir.offset_of(tile_id) {
                if let Some(tile) = chunk_tiles.get(id) {
                    *neighbors.get_mut(dir) = Some(*tile);
                }
            }
            proof {
                assert(dir == clockwise()[i as int]);
                assert(forall|k: int| 0 <= k < 4 && k != i ==> clockwise()[k] != dir);
            }
            i += 1;
        }
        proof {
            assert(clockwise()[0] == NeighborDirection::North);
            assert(clockwise()[1] == NeighborDirection::West);
            assert(clockwise()[2] == NeighborDirection::South);
            assert(clockwise()[3] == NeighborDirection::East);
        }
        neighbors
    }
}

/// A walk over the neighbours that are there.
pub struct Iter<'a, T> {
    dir: usize,
    neighbors: &'a Neighbors<T>,
}

impl<'a, T> Iter<'a, T> {
    /// The neighbours still to come, in order.
    pub closed spec fn remaining(&self) -> Seq<T> {
        self.neighbors.present_from(self.dir as int)
    }

    /// The next neighbour that is there, or `None` when the walk is over.
    pub fn next(&mut self) -> (r: Option<&'a T>)
        ensures
            match r {
                Some(value) => old(self).remaining().len() > 0 && *value == old(self).remaining()[0]
                    && final(self).remaining() == old(self).remaining().drop_first(),
                None => old(self).remaining().len() == 0 && final(self).remaining().len() == 0,
            },
    {
        while self.dir < 4
            invariant
                self.neighbors == old(self).neighbors,
                self.remaining() == old(self).remaining(),
            decreases 4 - self.dir,
        {
            let val = self.neighbors.get(NeighborDirection::CLOCKWISE[self.dir]);
            self.dir += 1;
            if val.is_some() {
                proof {
                    let rest = self.remaining();
                    assert(old(self).remaining() == seq![*val.unwrap()] + rest);
                    assert(old(self).remaining().drop_first() =~= rest);
                }
                return val;
            }
        }
        None
    }
}

/// A walk over the neighbours that are there, which lets each be changed.
/// It holds the place of each neighbour until it hands it out; `dir`
/// counts the sides it has passed, in walking order.
pub struct IterMut<'a, T> {
    pub dir: usize,
    pub north: Option<&'a mut T>,
    pub west: Option<&'a mut T>,
    pub south: Option<&'a mut T>,
    pub east: Option<&'a mut T>,
}

impl<T> Neighbors<T> {
    /// A walk over the neighbours that are there, in walking order, which
    /// lets each be changed: what is written to a place that the walk
    /// holds or hands out is what these neighbours hold afterwards.
    pub fn iter_mut(&mut self) -> (it: IterMut<'_, T>)
        ensures
            it.dir == 0,
            it.remaining() == old(self).present(),
            match it.north {
                Some(place) => old(self).north == Some(*place) && final(self).north == Some(
                    *final(place),
                ),
                None => old(self).north is None && final(self).north is None,
            },
            match it.west {
                Some(place) => old(self).west == Some(*place) && final(self).west == Some(
                    *final(place),
                ),
                None => old(self).west is None && final(self).west is None,
            },
            match it.south {
                Some(place) => old(self).south == Some(*place) && final(self).south == Some(
                    *final(place),
                ),
                None => old(self).south is None && final(self).south is None,
            },
            match it.east {
                Some(place) => old(self).east == Some(*place) && final(self).east == Some(
                    *final(place),
                ),
                None => old(self).east is None && final(self).east is None,
            },
    {
        IterMut {
            dir: 0,
            north: self.north.as_mut(),
            west: self.west.as_mut(),
            south: self.south.as_mut(),
            east: self.east.as_mut(),
        }
    }
}

/// Neighbours that agree on the sides from place `from` of the walking
/// order on have the same neighbours present from there on.
proof fn lemma_present_from_agrees<T>(a: Neighbors<T>, b: Neighbors<T>, from: int)
    requires
        0 <= from,
        forall|k: int| from <= k < 4 ==> a.side(#[trigger] clockwise()[k]) == b.side(clockwise()[k]),
    ensures
        a.present_from(from) == b.present_from(from),
    decreases 4 - from,
{
    if from < 4 {
        lemma_present_from_agrees(a, b, from + 1);
        let _ = clockwise()[from];
    }
}

/// Where no neighbour is there from place `from` up to place `at`, and
/// one is there at `at`, the neighbours present from `from` on are
/// that one and then those present after `at`.
proof fn lemma_walk_step<T>(before: Neighbors<T>, after: Neighbors<T>, from: int, at: int)
    requires
        0 <= from <= at < 4,
        forall|k: int| from <= k < at ==> before.side(#[trigger] clockwise()[k]) is None,
        before.side(clockwise()[at]) is Some,
        forall|k: int| at < k < 4 ==> after.side(#[trigger] clockwise()[k]) == before.side(clockwise()[k]),
    ensures
        before.present_from(from).len() > 0,
        before.present_from(from)[0] == before.side(clockwise()[at])->0,
        before.present_from(from).drop_first() == after.present_from(at + 1),
    decreases at - from,
{
    if from < at {
        let _ = clockwise()[from];
        lemma_walk_step(before, after, from + 1, at);
    } else {
        lemma_present_from_agrees(before, after, at + 1);
        assert(before.present_from(from).drop_first() =~= after.present_from(at + 1));
    }
}

/// Where no neighbour is there from place `from` on, none is present from there on.
proof fn lemma_walk_end<T>(before: Neighbors<T>, after: Neighbors<T>, from: int)
    requires
        0 <= from <= 4,
        forall|k: int| from <= k < 4 ==> before.side(#[trigger] clockwise()[k]) is None,
    ensures
        before.present_from(from).len() == 0,
        after.present_from(4).len() == 0,
    decreases 4 - from,
{
    if from < 4 {
        let _ = clockwise()[from];
        lemma_walk_end(before, after, from + 1);
    }
}

impl<'a, T> IterMut<'a, T> {
    /// The place that the walk holds for the side at place `k` of the walking order.
    pub open spec fn place(self, k: int) -> Option<&'a mut T> {
        if k == 0 {
            self.north
        } else if k == 1 {
            self.west
        } else if k == 2 {
            self.south
        } else {
            self.east
        }
    }

    /// The first place of the walking order, from `dir` on, that the walk
    /// still holds; 4 where it holds none.
    pub open spec fn next_place(self) -> int {
        if self.dir <= 0 && self.north is Some {
            0
        } else if self.dir <= 1 && self.west is Some {
            1
        } else if self.dir <= 2 && self.south is Some {
            2
        } else if self.dir <= 3 && self.east is Some {
            3
        } else {
            4
        }
    }

    /// What the walk holds for place `k` once it has handed out its next
    /// neighbour: nothing for the places it has passed by then, and for
    /// the others what it held before.
    pub open spec fn passed(self, k: int) -> Option<&'a mut T> {
        if self.dir <= k <= self.next_place() {
            None
        } else {
            self.place(k)
        }
    }

    /// The values, as they are now, of what the walk holds.
    pub open spec fn values(self) -> Neighbors<T> {
        Neighbors {
            north: match self.north {
                Some(place) => Some(*place),
                None => None,
            },
            east: match self.east {
                Some(place) => Some(*place),
                None => None,
            },
            west: match self.west {
                Some(place) => Some(*place),
                None => None,
            },
            south: match self.south {
                Some(place) => Some(*place),
                None => None,
            },
        }
    }

    /// The values, as they are now, of the neighbours still to come, in order.
    pub open spec fn remaining(self) -> Seq<T> {
        self.values().present_from(self.dir as int)
    }

    /// The next neighbour that is there, or `None` when the walk is over.
    /// The walk hands out the place it held for that neighbour, and holds
    /// it no longer.
    pub fn next(&mut self) -> (r: Option<&'a mut T>)
        ensures
            r == old(self).place(old(self).next_place()) || (r is None && old(self).next_place() == 4),
            r is Some <==> old(self).next_place() < 4,
            final(self).dir == (if old(self).next_place() < 4 {
                old(self).next_place() + 1
            } else if old(self).dir < 4 {
                4
            } else {
                old(self).dir as int
            }),
            final(self).north == old(self).passed(0),
            final(self).west == old(self).passed(1),
            final(self).south == old(self).passed(2),
            final(self).east == old(self).passed(3),
            match r {
                Some(value) => old(self).remaining().len() > 0 && *value == old(self).remaining()[0]
                    && final(self).remaining() == old(self).remaining().drop_first(),
                None => old(self).remaining().len() == 0 && final(self).remaining().len() == 0,
            },
    {
        while self.dir < 4
            invariant
                old(self).dir <= self.dir,
                self.dir <= 4 || self.dir == old(self).dir,
                self.dir <= old(self).next_place() || self.dir == old(self).dir,
                forall|k: int| old(self).dir <= k < self.dir ==> old(self).place(k) is None,
                forall|k: int|
                    0 <= k < 4 ==> self.place(k) == (if old(self).dir <= k < self.dir {
                        None
                    } else {
                        old(self).place(k)
                    }),
            decreases 4 - self.dir,
        {
            let ghost at = self.dir as int;
            proof {
                let _ = (self.place(0), self.place(1), self.place(2), self.place(3));
                let _ = (old(self).place(0), old(self).place(1), old(self).place(2), old(self).place(3));
            }
            let val = match self.dir {
                0 => self.north.take(),
                1 => self.west.take(),
                2 => self.south.take(),
                _ => self.east.take(),
            };
            self.dir += 1;
            assert(val == old(self).place(at));
            if val.is_some() {
                proof {
                    assert(old(self).next_place() == at);
                    lemma_walk_step(old(self).values(), self.values(), old(self).dir as int, at);
                }
                return val;
            }
        }
        proof {
            let _ = (self.place(0), self.place(1), self.place(2), self.place(3));
            let _ = (old(self).place(0), old(self).place(1), old(self).place(2), old(self).place(3));
            if old(self).dir <= 4 {
                lemma_walk_end(old(self).values(), self.values(), old(self).dir as int);
            }
        }
        None
    }
}

/// Two tiles of one grid that lie side by side see each other on
/// opposite sides: `b` is beside `a` on side `dir` exactly when `a` is
/// beside `b` on the side that faces `dir`, and then each finds the
/// other's tile on that side.
pub proof fn lemma_neighbor_symmetry(
    grid: Seq<Tiles>,
    a: TilePos,
    b: TilePos,
    dir: NeighborDirection,
)
    requires
        a.in_grid(),
        b.in_grid(),
    ensures
        beside(a, dir, b) <==> beside(b, dir.opposite(), a),
        beside(a, dir, b) ==> Neighbors::spec_from_grid(grid, a.x as int, a.y as int).side(dir)
            == Some(grid[b.index()]),
        beside(a, dir, b) ==> Neighbors::spec_from_grid(grid, b.x as int, b.y as int).side(
            dir.opposite(),
        ) == Some(grid[a.index()]),
{
}

/// At the edge of the grid the neighbour across the edge is absent: where
/// the step from `a` on side `dir` leaves the grid, `a` has no neighbour
/// on that side.
pub proof fn lemma_no_neighbor_across_edge(grid: Seq<Tiles>, a: TilePos, dir: NeighborDirection)
    requires
        a.in_grid(),
        forall|b: TilePos| b.in_grid() ==> !beside(a, dir, b),
    ensures
        Neighbors::spec_from_grid(grid, a.x as int, a.y as int).side(dir) is None,
{
    let x = a.x + dir.spec_offset().x;
    let y = a.y + dir.spec_offset().y;
    if 0 <= x < CHUNK_TILES_SQ && 0 <= y < CHUNK_TILES_SQ {
        let b = TilePos { x: x as u32, y: y as u32 };
        assert(b.in_grid() && beside(a, dir, b));
    }
}

} // verus!
