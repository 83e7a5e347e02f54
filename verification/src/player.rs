use vstd::prelude::*;
use vstd::string::StringExecFns;

use crate::domino::Domino;
use crate::grid::BuildRotation;
use crate::grid::Grid;
use crate::tile::Terrain;
use crate::tile::Tile;

verus! {

/// One player: an identity in 1..=4, a display name, the domino currently
/// queued for placement (possibly null), and the player's own kingdom.
/// The grid is created once and mutated only through this player's own
/// placement.
pub struct Player {
    id: u8,
    name: String,
    placing: Domino,
    grid: Grid,
}

impl Player {
    pub closed spec fn spec_id(self) -> u8 {
        self.id
    }

    pub closed spec fn spec_name(self) -> Seq<char> {
        self.name@
    }

    /// The domino queued for placement; the null domino when none is.
    pub closed spec fn spec_placing(self) -> Domino {
        self.placing
    }

    pub closed spec fn spec_grid(self) -> Grid {
        self.grid
    }

    pub open spec fn wf(self) -> bool {
        &&& 1 <= self.spec_id() <= 4
        &&& self.spec_grid().wf()
        &&& self.spec_placing().wf() || self.spec_placing().spec_is_null()
    }

    /// A fresh player: nothing queued, and a kingdom holding only the
    /// castle at the centre of its coordinate space.
    pub fn new(id: u8, name: &str) -> (p: Player)
        requires
            1 <= id <= 4,
        ensures
            p.wf(),
            p.spec_id() == id,
            p.spec_name() == name@,
            p.spec_placing().spec_is_null(),
            forall|r: int, c: int| #[trigger] p.spec_grid().occupied(r, c) <==> (r == 4 && c == 4),
            p.spec_grid().cell(4, 4) == (Tile { terrain: Terrain::Castle, crowns: 0u8 }),
            p.spec_grid().spec_min_row() == 4 && p.spec_grid().spec_max_row() == 4,
            p.spec_grid().spec_min_col() == 4 && p.spec_grid().spec_max_col() == 4,
            p.spec_grid().placements().len() == 0,
            forall|rot: BuildRotation, r: int, c: int| 0 <= r < 9 && 0 <= c < 9
                ==> !p.spec_grid().socket_flag(rot, r, c),
    {
        Player {
            id,
            name: <String as StringExecFns>::from_str(name),
            placing: Domino::null(),
            grid: Grid::new(),
        }
    }

    pub fn id(&self) -> (r: u8)
        ensures
            r == self.spec_id(),
    {
        self.id
    }

    pub fn name(&self) -> (r: &String)
        ensures
            r@ == self.spec_name(),
    {
        &self.name
    }

    pub fn grid(&self) -> (g: &Grid)
        ensures
            *g == self.spec_grid(),
    {
        &self.grid
    }

    pub fn placing(&self) -> (d: Domino)
        ensures
            d == self.spec_placing(),
    {
        self.placing
    }

    /// True when the player holds nothing to place, as in the first round
    /// of the game.
    pub fn is_not_placing(&self) -> (r: bool)
        ensures
            r == self.spec_placing().spec_is_null(),
    {
        self.placing.is_null()
    }

    /// Queues the domino the player just picked for their next placement.
    pub fn update_last_picked(&mut self, d: Domino)
        requires
            d.wf(),
        ensures
            final(self).spec_placing() == d,
            final(self).spec_id() == old(self).spec_id(),
            final(self).spec_name() == old(self).spec_name(),
            final(self).spec_grid() == old(self).spec_grid(),
            old(self).wf() ==> final(self).wf(),
    {
        self.placing = d;
    }

    /// Recomputes the queued domino's legal sockets on this player's grid.
    /// Returns false when no rotation offers a socket: the forced pass.
    pub fn compute_placements(&mut self) -> (has: bool)
        requires
            old(self).wf(),
            old(self).spec_placing().wf(),
        ensures
            final(self).wf(),
            final(self).spec_id() == old(self).spec_id(),
            final(self).spec_name() == old(self).spec_name(),
            final(self).spec_placing() == old(self).spec_placing(),
            final(self).spec_grid().cells() == old(self).spec_grid().cells(),
            final(self).spec_grid().placements() == old(self).spec_grid().placements(),
            final(self).spec_grid().spec_min_row() == old(self).spec_grid().spec_min_row(),
            final(self).spec_grid().spec_max_row() == old(self).spec_grid().spec_max_row(),
            final(self).spec_grid().spec_min_col() == old(self).spec_grid().spec_min_col(),
            final(self).spec_grid().spec_max_col() == old(self).spec_grid().spec_max_col(),
            forall|rot: BuildRotation, r: int, c: int| 0 <= r < 9 && 0 <= c < 9
                ==> final(self).spec_grid().socket_flag(rot, r, c)
                    == old(self).spec_grid().spec_socket_ok(old(self).spec_placing(), rot, r, c),
            has == exists|rot: BuildRotation, r: int, c: int| 0 <= r < 9 && 0 <= c < 9
                && old(self).spec_grid().spec_socket_ok(old(self).spec_placing(), rot, r, c),
    {
        let d = self.placing;
        self.grid.compute_sockets(&d)
    }

    /// Commits the queued domino to this player's grid at an accepted
    /// socket and clears the queue.
    pub fn commit_placement(&mut self, rot: BuildRotation, r: usize, c: usize)
        requires
            old(self).wf(),
            old(self).spec_placing().wf(),
            old(self).spec_grid().spec_socket_ok(old(self).spec_placing(), rot, r as int, c as int),
        ensures
            final(self).wf(),
            final(self).spec_id() == old(self).spec_id(),
            final(self).spec_name() == old(self).spec_name(),
            final(self).spec_placing().spec_is_null(),
            final(self).spec_grid().cells()
                == old(self).spec_grid().place_cells(old(self).spec_placing(), rot, r as int, c as int),
            final(self).spec_grid().placements()
                == old(self).spec_grid().placements().push(
                    crate::grid::Placement {
                        domino_id: old(self).spec_placing().id,
                        row: r,
                        col: c,
                        rotation: rot,
                    }),
    {
        let d = self.placing;
        self.grid.commit(&d, rot, r, c);
        self.placing = Domino::null();
    }

    /// Drops the queued domino without placing it: the forced pass when no
    /// socket is legal in any rotation. The grid is untouched.
    pub fn discard_placing(&mut self)
        ensures
            final(self).spec_placing().spec_is_null(),
            final(self).spec_id() == old(self).spec_id(),
            final(self).spec_name() == old(self).spec_name(),
            final(self).spec_grid() == old(self).spec_grid(),
            old(self).wf() ==> final(self).wf(),
    {
        self.placing = Domino::null();
    }
}

} // verus!
