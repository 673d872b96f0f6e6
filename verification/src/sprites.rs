//! The tile kinds of the tile sheet.

use crate::rng::{rng_gen_u32, thread_gen_u32, thread_rng, xorshift_state, xorshift_step};
use rand_xorshift::XorShiftRng;
use vstd::prelude::*;

verus! {

/// The kinds of tile on the tile sheet, in sheet order.
#[derive(Clone, Copy, Debug, PartialEq, Eq, PartialOrd, Ord, Hash, Structural)]
pub enum Tiles {
    /// Tile type `void` at index `0`
    Void,
    /// Tile type `grass` at index `1`
    Grass,
    /// Tile type `grass_1` at index `2`
    Grass1,
    /// Tile type `grass_2` at index `3`
    Grass2,
    /// Tile type `grass_3` at index `4`
    Grass3,
    /// Tile type `water_deep` at index `5`
    WaterDeep,
    /// Tile type `water_shallow` at index `6`
    WaterShallow,
    /// Tile type `beach` at index `7`
    Beach,
    /// Tile type `beach_top` at index `8`
    BeachTop,
    /// Tile type `beach_top_left` at index `9`
    BeachTopLeft,
    /// Tile type `beach_top_right` at index `10`
    BeachTopRight,
    /// Tile type `beach_right` at index `11`
    BeachRight,
    /// Tile type `beach_left` at index `12`
    BeachLeft,
    /// Tile type `beach_bottom` at index `13`
    BeachBottom,
    /// Tile type `beach_bottom_left` at index `14`
    BeachBottomLeft,
    /// Tile type `beach_bottom_right` at index `15`
    BeachBottomRight,
}

/// The number of tile kinds.
pub const TILE_KINDS: usize = 16;

/// The single-precision number nearest to one tenth is this many parts of `2^27`.
pub const TENTH: u32 = 13_421_773;

/// A sprite of one of the sheets.
pub enum Sprite {
    Tiles(Tiles),
}

impl Sprite {
    /// Gets the path to the spritesheet texture.
    pub fn path(&self) -> (path: &'static str)
        ensures
            path@ == "sprites/tiles.png"@,
    {
        match self {
            Self::Tiles(_) => Tiles::path(),
        }
    }
}

impl Default for Tiles {
    fn default() -> (tile: Tiles)
        ensures
            tile == Tiles::Void,
    {
        Tiles::Void
    }
}

impl Tiles {
    /// Gets all sprites.
    pub const ALL: [Tiles; 16] = [
        Tiles::Void,
        Tiles::Grass,
        Tiles::Grass1,
        Tiles::Grass2,
        Tiles::Grass3,
        Tiles::WaterDeep,
        Tiles::WaterShallow,
        Tiles::Beach,
        Tiles::BeachTop,
        Tiles::BeachTopLeft,
        Tiles::BeachTopRight,
        Tiles::BeachRight,
        Tiles::BeachLeft,
        Tiles::BeachBottom,
        Tiles::BeachBottomLeft,
        Tiles::BeachBottomRight,
    ];

    /// The tile kind at position `ordinal` of the tile sheet, if there is one.
    pub fn from_ordinal(ordinal: u32) -> (tile: Option<Tiles>)
        ensures
            match tile {
                Some(t) => t.spec_ordinal() == ordinal,
                None => ordinal >= TILE_KINDS,
            },
    {
        if (ordinal as usize) < TILE_KINDS {
            Some(Self::ALL[ordinal as usize])
        } else {
            None
        }
    }

    /// The position of a tile kind on the tile sheet.
    pub open spec fn spec_ordinal(&self) -> u32 {
        match *self {
            Tiles::Void => 0,
            Tiles::Grass => 1,
            Tiles::Grass1 => 2,
            Tiles::Grass2 => 3,
            Tiles::Grass3 => 4,
            Tiles::WaterDeep => 5,
            Tiles::WaterShallow => 6,
            Tiles::Beach => 7,
            Tiles::BeachTop => 8,
            Tiles::BeachTopLeft => 9,
            Tiles::BeachTopRight => 10,
            Tiles::BeachRight => 11,
            Tiles::BeachLeft => 12,
            Tiles::BeachBottom => 13,
            Tiles::BeachBottomLeft => 14,
            Tiles::BeachBottomRight => 15,
        }
    }

    /// Whether the tile is grass, of any variant.
    pub open spec fn spec_is_grass(&self) -> bool {
        *self == Tiles::Grass || *self == Tiles::Grass1 || *self == Tiles::Grass2 || *self
            == Tiles::Grass3
    }

    /// Whether the tile is sand: the plain beach or one of the eight beaches that face water.
    pub open spec fn spec_is_sand(&self) -> bool {
        7 <= self.spec_ordinal() <= 15
    }

    /// Whether the tile is deep water.
    pub open spec fn spec_is_water_deep(&self) -> bool {
        *self == Tiles::WaterDeep
    }

    /// Whether the tile is shallow water.
    pub open spec fn spec_is_water_shallow(&self) -> bool {
        *self == Tiles::WaterShallow
    }

    /// Whether the tile is water, deep or shallow.
    pub open spec fn spec_is_water(&self) -> bool {
        self.spec_is_water_deep() || self.spec_is_water_shallow()
    }

    /// Whether the tile is land: anything but water.
    pub open spec fn spec_is_land(&self) -> bool {
        !self.spec_is_water()
    }

    /// The position of this tile kind on the tile sheet.
    #[verifier::when_used_as_spec(spec_ordinal)]
    pub fn ordinal(&self) -> (n: u32)
        ensures
            n == self.spec_ordinal(),
            n < TILE_KINDS,
    {
        match *self {
            Tiles::Void => 0,
            Tiles::Grass => 1,
            Tiles::Grass1 => 2,
            Tiles::Grass2 => 3,
            Tiles::Grass3 => 4,
            Tiles::WaterDeep => 5,
            Tiles::WaterShallow => 6,
            Tiles::Beach => 7,
            Tiles::BeachTop => 8,
            Tiles::BeachTopLeft => 9,
            Tiles::BeachTopRight => 10,
            Tiles::BeachRight => 11,
            Tiles::BeachLeft => 12,
            Tiles::BeachBottom => 13,
            Tiles::BeachBottomLeft => 14,
            Tiles::BeachBottomRight => 15,
        }
    }

    /// Whether the tile is grass, of any variant.
    #[verifier::when_used_as_spec(spec_is_grass)]
    pub fn is_grass(&self) -> (r: bool)
        ensures
            r == self.spec_is_grass(),
    {
        matches!(self, Self::Grass | Self::Grass1 | Self::Grass2 | Self::Grass3)
    }

    /// Whether the tile is sand.
    #[verifier::when_used_as_spec(spec_is_sand)]
    pub fn is_sand(&self) -> (r: bool)
        ensures
            r == self.spec_is_sand(),
    {
        matches!(
            self,
            Self::Beach
                | Self::BeachTop
                | Self::BeachTopLeft
                | Self::BeachTopRight
                | Self::BeachRight
                | Self::BeachLeft
                | Self::BeachBottom
                | Self::BeachBottomLeft
                | Self::BeachBottomRight
        )
    }

    /// Whether the tile is land: anything but water.
    #[verifier::when_used_as_spec(spec_is_land)]
    pub fn is_land(&self) -> (r: bool)
        ensures
            r == self.spec_is_land(),
    {
        !self.is_water()
    }

    /// Whether the tile is water, deep or shallow.
    #[verifier::when_used_as_spec(spec_is_water)]
    pub fn is_water(&self) -> (r: bool)
        ensures
            r == self.spec_is_water(),
    {
        self.is_water_deep() || self.is_water_shallow()
    }

    /// Whether the tile is deep water.
    #[verifier::when_used_as_spec(spec_is_water_deep)]
    pub fn is_water_deep(&self) -> (r: bool)
        ensures
            r == self.spec_is_water_deep(),
    {
        matches!(self, Self::WaterDeep)
    }

    /// Whether the tile is shallow water.
    #[verifier::when_used_as_spec(spec_is_water_shallow)]
    pub fn is_water_shallow(&self) -> (r: bool)
        ensures
            r == self.spec_is_water_shallow(),
    {
        matches!(self, Self::WaterShallow)
    }

    /// Gets the path to the tile set image.
    pub fn path() -> (path: &'static str)
        ensures
            path@ == "sprites/tiles.png"@,
    {
        "sprites/tiles.png"
    }

    /// The grass that a draw of 32 random bits picks. The upper 24 bits
    /// of the draw, `k`, stand for the fraction `k / 2^24` of the unit
    /// interval. Below the single-precision tenth, `TENTH / 2^27`, the
    /// grass is `Grass1`; from there to below twice that, `Grass2`; else
    /// plain `Grass`. So about one draw in ten gives each variant.
    pub open spec fn spec_grass_for(draw: u32) -> Tiles {
        let k = draw / 256;
        if 8 * k < TENTH {
            Tiles::Grass1
        } else if 4 * k < TENTH {
            Tiles::Grass2
        } else {
            Tiles::Grass
        }
    }

    /// The grass that a draw of 32 random bits picks.
    #[verifier::when_used_as_spec(spec_grass_for)]
    pub fn grass_for(draw: u32) -> (tile: Tiles)
        ensures
            tile == Self::spec_grass_for(draw),
    {
        let k: u32 = draw / 256;
        if 8 * k < TENTH {
            Tiles::Grass1
        } else if 4 * k < TENTH {
            Tiles::Grass2
        } else {
            Tiles::Grass
        }
    }

    /// A grass tile picked by the next draw of `rng`.
    pub fn grass(rng: &mut XorShiftRng) -> (tile: Tiles)
        ensures
            xorshift_state(*final(rng)) == xorshift_step(xorshift_state(*old(rng))),
            tile == Self::spec_grass_for(xorshift_state(*final(rng)).w),
    {
        Self::grass_for(rng_gen_u32(rng))
    }

    /// A grass tile picked by a draw of the thread's own generator.
    pub fn grass_thread_rng() -> (tile: Tiles)
        ensures
            tile == Tiles::Grass || tile == Tiles::Grass1 || tile == Tiles::Grass2,
    {
        let mut rng = thread_rng();
        Self::grass_for(thread_gen_u32(&mut rng))
    }
}

/// `ALL` lists the tile kinds in sheet order: each stands at its own place.
pub proof fn lemma_all_in_sheet_order(i: int)
    requires
        0 <= i < TILE_KINDS,
    ensures
        Tiles::ALL@[i].spec_ordinal() == i,
{
}

/// No two tile kinds share a place on the tile sheet.
pub proof fn lemma_ordinal_names_the_kind(a: Tiles, b: Tiles)
    requires
        a.spec_ordinal() == b.spec_ordinal(),
    ensures
        a == b,
{
}

/// Every tile kind is of exactly one sort: grass, sand, water, or void.
pub proof fn lemma_one_sort_each(tile: Tiles)
    ensures
        tile.spec_is_grass() || tile.spec_is_sand() || tile.spec_is_water() || tile == Tiles::Void,
        !(tile.spec_is_grass() && tile.spec_is_sand()),
        !(tile.spec_is_grass() && tile.spec_is_water()),
        !(tile.spec_is_sand() && tile.spec_is_water()),
        tile == Tiles::Void ==> !tile.spec_is_grass() && !tile.spec_is_sand() && tile.spec_is_land(),
{
}

} // verus!
