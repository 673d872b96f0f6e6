//! How the tile kinds follow from a tile set: each tile of the set that
//! its designer gave a type name becomes one kind, named after that type
//! and numbered by the tile's slot.

use heck::ToUpperCamelCase;
use vstd::prelude::*;

verus! {

/// A tile of a tile set: its slot and the type name that its designer gave it, if any.
#[derive(Debug)]
pub struct TileSetTile {
    pub id: u32,
    pub user_type: Option<String>,
}

/// A tile kind to be.
#[derive(Debug)]
pub struct TileVariant {
    /// The slot of the tile in the tile set.
    pub ordinal: u32,
    /// The type name of the tile.
    pub name: String,
    /// The name of the kind: the type name in upper camel case.
    pub ident: String,
    /// Whether this is the kind that a tile has by default: the one of slot 0.
    pub is_default: bool,
}

impl TileVariant {
    /// The tile kind for the tile in slot `ordinal` with the type name
    /// `name`, written `ident` as a kind.
    pub fn new(ordinal: u32, name: String, ident: String) -> (kind: TileVariant)
        ensures
            kind.ordinal == ordinal,
            kind.name == name,
            kind.ident == ident,
            kind.is_default == (ordinal == 0),
    {
        TileVariant { ordinal, name, ident, is_default: ordinal == 0 }
    }
}

/// The folder that holds the assets, as it stands at the start of a tile set's image path.
pub const ASSETS_DIR: &'static str = "assets/";

/// `name` in upper camel case, as `heck` writes it.
pub uninterp spec fn upper_camel_case(name: Seq<char>) -> Seq<char>;

/// `text` with every match of the pattern replaced by `with`, for a
/// pattern that is not empty. Matches are looked for from the left, and
/// after a match the search goes on behind it, so matches do not overlap.
/// (With an empty pattern this is `text` itself.)
pub open spec fn replaced(text: Seq<char>, pattern: Seq<char>, with: Seq<char>) -> Seq<char>
    decreases text.len(),
{
    if pattern.len() == 0 || text.len() < pattern.len() {
        text
    } else if text.subrange(0, pattern.len() as int) == pattern {
        with + replaced(text.subrange(pattern.len() as int, text.len() as int), pattern, with)
    } else {
        seq![text[0]] + replaced(text.subrange(1, text.len() as int), pattern, with)
    }
}

/// `ToUpperCamelCase::to_upper_camel_case` of `heck` on a string slice.
/// The result depends on the characters of `name` alone.
#[verifier::external_body]
pub(crate) fn to_upper_camel_case(name: &str) -> (ident: String)
    ensures
        ident@ == upper_camel_case(name@),
{
    name.to_upper_camel_case()
}

/// `str::replace` of the standard library with a string slice that is
/// not empty as the pattern: a new string in which every match of the
/// pattern, taken from the left without overlap, is replaced by `with`.
#[verifier::external_body]
pub(crate) fn replace(text: &str, pattern: &str, with: &str) -> (r: String)
    requires
        pattern@.len() > 0,
    ensures
        r@ == replaced(text@, pattern@, with@),
{
    text.replace(pattern, with)
}

/// The tiles among the first `n` of `tiles` that have a type name, in order.
pub open spec fn typed_tiles(tiles: Seq<TileSetTile>, n: int) -> Seq<TileSetTile>
    decreases n,
{
    if n <= 0 {
        Seq::empty()
    } else if tiles[n - 1].user_type is Some {
        typed_tiles(tiles, n - 1).push(tiles[n - 1])
    } else {
        typed_tiles(tiles, n - 1)
    }
}

/// Whether `variant` is the tile kind that `tile` gives.
pub open spec fn is_variant_of(variant: TileVariant, tile: TileSetTile) -> bool {
    &&& tile.user_type is Some
    &&& variant.ordinal == tile.id
    &&& variant.name@ == tile.user_type->0@
    &&& variant.ident@ == upper_camel_case(tile.user_type->0@)
    &&& variant.is_default == (tile.id == 0)
}

/// The tile kinds of a tile set: one for each tile with a type name, in
/// the order of the tiles.
pub fn variants(tiles: &Vec<TileSetTile>) -> (kinds: Vec<TileVariant>)
    ensures
        kinds@.len() == typed_tiles(tiles@, tiles@.len() as int).len(),
        forall|i: int|
            0 <= i < kinds@.len() ==> is_variant_of(
                #[trigger] kinds@[i],
                typed_tiles(tiles@, tiles@.len() as int)[i],
            ),
{
    let mut kinds: Vec<TileVariant> = Vec::new();
    let mut n: usize = 0;
    while n < tiles.len()
        invariant
            n <= tiles.len(),
            kinds@.len() == typed_tiles(tiles@, n as int).len(),
            forall|i: int|
                0 <= i < kinds@.len() ==> is_variant_of(
                    #[trigger] kinds@[i],
                    typed_tiles(tiles@, n as int)[i],
                ),
        decreases tiles.len() - n,
    {
        let tile = &tiles[n];
        if let Some(name) = &tile.user_type {
            let ident = to_upper_camel_case(name.as_str());
            kinds.push(TileVariant::new(tile.id, name.clone(), ident));
        }
        n += 1;
    }
    kinds
}

/// The path of the tile sheet as the program loads it: the image path of
/// the tile set without the assets folder.
pub fn texture_path(source: &str) -> (path: String)
    ensures
        path@ == replaced(source@, ASSETS_DIR@, ""@),
{
    proof {
        reveal_strlit("assets/");
    }
    replace(source, ASSETS_DIR, "")
}

} // verus!
