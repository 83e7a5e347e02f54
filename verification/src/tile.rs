use vstd::prelude::*;

verus! {

/// The kind of land on one half of a domino or on one grid cell.
/// `Castle` marks the fixed centre cell of a kingdom; `Empty` marks an
/// unoccupied grid cell (and the halves of the null domino).
#[derive(Clone, Copy, PartialEq, Eq, Structural, Debug)]
pub enum Terrain {
    Grass,
    Wheat,
    Forest,
    Swamp,
    Water,
    Mine,
    Castle,
    Empty,
}

impl Terrain {
    /// True of the terrains a domino half may carry: real land,
    /// neither the castle nor the empty marker.
    pub open spec fn is_land(self) -> bool {
        self != Terrain::Castle && self != Terrain::Empty
    }
}

/// One square of land: a terrain and a crown count in 0..=3.
#[derive(Clone, Copy, PartialEq, Eq, Structural, Debug)]
pub struct Tile {
    pub terrain: Terrain,
    pub crowns: u8,
}

impl Tile {
    pub open spec fn wf(self) -> bool {
        self.crowns <= 3
    }

    pub fn new(terrain: Terrain, crowns: u8) -> (t: Tile)
        requires
            crowns <= 3,
        ensures
            t == (Tile { terrain, crowns }),
    {
        Tile { terrain, crowns }
    }

    /// The tile of an unoccupied grid cell.
    pub fn empty() -> (t: Tile)
        ensures
            t == (Tile { terrain: Terrain::Empty, crowns: 0u8 }),
    {
        Tile { terrain: Terrain::Empty, crowns: 0 }
    }

    pub fn get_type(&self) -> (t: Terrain)
        ensures
            t == self.terrain,
    {
        self.terrain
    }
}

} // verus!
