use vstd::prelude::*;

use crate::tile::Terrain;
use crate::tile::Tile;

verus! {

/// The sentinel id of the null domino; every real domino has an id in 1..=48.
pub const NULL_ID: u8 = 100;

/// A two-terrain tile pair. Ids 1..=48 are the real dominoes of the deck;
/// an id outside that range (the sentinel `NULL_ID`) denotes "no domino":
/// an empty draft slot or no queued domino.
#[derive(Clone, Copy, PartialEq, Eq, Structural, Debug)]
pub struct Domino {
    pub id: u8,
    pub tile_a: Tile,
    pub tile_b: Tile,
}

impl Domino {
    /// A real domino: id in range and both halves carry land.
    pub open spec fn wf(self) -> bool {
        &&& 1 <= self.id <= 48
        &&& self.tile_a.terrain.is_land()
        &&& self.tile_b.terrain.is_land()
        &&& self.tile_a.wf()
        &&& self.tile_b.wf()
    }

    pub open spec fn spec_is_null(self) -> bool {
        self.id == NULL_ID
    }

    pub fn new(id: u8, tile_a: Tile, tile_b: Tile) -> (d: Domino)
        requires
            1 <= id <= 48,
            tile_a.terrain.is_land(),
            tile_b.terrain.is_land(),
            tile_a.wf(),
            tile_b.wf(),
        ensures
            d == (Domino { id, tile_a, tile_b }),
            d.wf(),
    {
        Domino { id, tile_a, tile_b }
    }

    /// The null domino: the sentinel id with two empty halves.
    pub fn null() -> (d: Domino)
        ensures
            d.spec_is_null(),
            d == (Domino { id: NULL_ID, tile_a: Tile { terrain: Terrain::Empty, crowns: 0u8 }, tile_b: Tile { terrain: Terrain::Empty, crowns: 0u8 } }),
    {
        Domino { id: NULL_ID, tile_a: Tile::empty(), tile_b: Tile::empty() }
    }

    pub fn is_null(&self) -> (r: bool)
        ensures
            r == self.spec_is_null(),
    {
        self.id == NULL_ID
    }

    pub fn id(&self) -> (r: u8)
        ensures
            r == self.id,
    {
        self.id
    }

    /// The terrain of half 1 (`tile_a`) or half 2 (`tile_b`).
    pub fn get_tile_type(&self, n: usize) -> (t: Terrain)
        requires
            n == 1 || n == 2,
        ensures
            n == 1 ==> t == self.tile_a.terrain,
            n == 2 ==> t == self.tile_b.terrain,
    {
        if n == 1 {
            self.tile_a.terrain
        } else {
            self.tile_b.terrain
        }
    }

    /// Half 1 (`tile_a`) or half 2 (`tile_b`).
    pub fn get_tile(&self, n: usize) -> (t: Tile)
        requires
            n == 1 || n == 2,
        ensures
            n == 1 ==> t == self.tile_a,
            n == 2 ==> t == self.tile_b,
    {
        if n == 1 {
            self.tile_a
        } else {
            self.tile_b
        }
    }
}

} // verus!
