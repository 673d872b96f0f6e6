//! The fixed-size grid of one chunk.

use super::{CHUNK_TILES, CHUNK_TILES_SQ};
use vstd::prelude::*;

verus! {

/// A position inside a chunk, counted in tiles from its corner.
#[derive(Clone, Copy, Debug, PartialEq, Eq, Hash, Structural)]
pub struct TilePos {
    pub x: u32,
    pub y: u32,
}

impl TilePos {
    /// The position (`x`, `y`).
    pub fn new(x: u32, y: u32) -> (pos: TilePos)
        ensures
            pos.x == x,
            pos.y == y,
    {
        TilePos { x, y }
    }

    /// Whether the position lies on the grid: both coordinates below the side length.
    pub open spec fn in_grid(self) -> bool {
        self.x < CHUNK_TILES_SQ && self.y < CHUNK_TILES_SQ
    }

    /// The place of the position in the grid's storage: columns of `x`, each
    /// holding its `y` values in order.
    pub open spec fn index(self) -> int {
        self.x * CHUNK_TILES_SQ + self.y
    }
}

/// One value for each tile of a chunk.
#[derive(Debug)]
pub struct TileArray<T>(pub [T; CHUNK_TILES]);

impl<T: Copy> Clone for TileArray<T> {
    fn clone(&self) -> (r: Self)
        ensures
            r == *self,
    {
        *self
    }
}

impl<T: Copy> Copy for TileArray<T> {

}

impl<T> View for TileArray<T> {
    type V = Seq<T>;

    open spec fn view(&self) -> Seq<T> {
        self.0@
    }
}

impl<T> TileArray<T> {
    /// The value stored for `pos`, or `None` where `pos` lies off the grid.
    pub fn get(&self, pos: TilePos) -> (r: Option<&T>)
        ensures
            pos.in_grid() ==> r == Some(&self@[pos.index()]),
            !pos.in_grid() ==> r is None,
    {
        match index(pos) {
            Some(i) => Some(&self.0[i]),
            None => None,
        }
    }

    /// The place of the value stored for `pos`, to write to, or `None`
    /// where `pos` lies off the grid.
    pub fn get_mut(&mut self, pos: TilePos) -> (r: Option<&mut T>)
        ensures
            pos.in_grid() ==> r is Some && *r.unwrap() == old(self)@[pos.index()] && final(self)@
                == old(self)@.update(pos.index(), *final(r.unwrap())),
            !pos.in_grid() ==> r is None && *final(self) == *old(self),
    {
        match index(pos) {
            Some(i) => Some(&mut self.0[i]),
            None => None,
        }
    }

    /// Stores `tile` for `pos`; does nothing where `pos` lies off the grid.
    pub fn set(&mut self, pos: TilePos, tile: T)
        ensures
            pos.in_grid() ==> final(self)@ == old(self)@.update(pos.index(), tile),
            !pos.in_grid() ==> *final(self) == *old(self),
    {
        if let Some(x) = self.get_mut(pos) {
            *x = tile;
        }
    }
}

impl<T: Copy> TileArray<T> {
    /// A grid that holds `tile` everywhere.
    pub fn of(tile: T) -> (r: Self)
        ensures
            r@.len() == CHUNK_TILES,
            forall|i: int| 0 <= i < CHUNK_TILES ==> r@[i] == tile,
    {
        Self([tile;CHUNK_TILES])
    }
}

impl<T: Copy + Default> Default for TileArray<T> {
    fn default() -> (r: Self)
        ensures
            r@.len() == CHUNK_TILES,
            call_ensures(T::default, (), r@[0]),
            forall|i: int| 0 <= i < CHUNK_TILES ==> #[trigger] r@[i] == r@[0],
    {
        Self::of(T::default())
    }
}

/// The storage index of `pos`, or `None` off the grid.
fn index(pos: TilePos) -> (r: Option<usize>)
    ensures
        pos.in_grid() ==> r == Some(pos.index() as usize) && 0 <= pos.index() < CHUNK_TILES,
        !pos.in_grid() ==> r is None,
{
    if (pos.x as usize) < CHUNK_TILES_SQ && (pos.y as usize) < CHUNK_TILES_SQ {
        Some(pos.x as usize * CHUNK_TILES_SQ + pos.y as usize)
    } else {
        None
    }
}

} // verus!
