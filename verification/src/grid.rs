use vstd::prelude::*;

use crate::domino::Domino;
use crate::tile::Terrain;
use crate::tile::Tile;

verus! {

/// The castle sits at the centre of the 9-by-9 coordinate space: enough
/// margin to grow a five-cell kingdom in any compass direction.
pub const CASTLE_ROW: usize = 4;

pub const CASTLE_COL: usize = 4;

/// The final kingdom must fit this many cells per axis.
pub const MAX_SPAN: usize = 5;

/// The four rotations of a domino: each fixes where the second half sits
/// relative to the first (a coordinate delta, shared by the socket search
/// and by commits).
#[allow(non_camel_case_types)]
#[derive(Clone, Copy, PartialEq, Eq, Structural, Debug)]
pub enum BuildRotation {
    UP,
    DOWN,
    LEFT,
    RIGHT,
}

impl BuildRotation {
    /// Row offset of the second half's cell from the first half's cell.
    pub open spec fn spec_drow(self) -> int {
        match self {
            BuildRotation::UP => 1,
            BuildRotation::DOWN => -1,
            BuildRotation::LEFT => 0,
            BuildRotation::RIGHT => 0,
        }
    }

    /// Column offset of the second half's cell from the first half's cell.
    pub open spec fn spec_dcol(self) -> int {
        match self {
            BuildRotation::UP => 0,
            BuildRotation::DOWN => 0,
            BuildRotation::LEFT => 1,
            BuildRotation::RIGHT => -1,
        }
    }

    /// Cycles through the four rotations.
    pub fn next(&self) -> (r: BuildRotation)
        ensures
            r == (match self {
                BuildRotation::UP => BuildRotation::DOWN,
                BuildRotation::DOWN => BuildRotation::LEFT,
                BuildRotation::LEFT => BuildRotation::RIGHT,
                BuildRotation::RIGHT => BuildRotation::UP,
            }),
    {
        match self {
            BuildRotation::UP => BuildRotation::DOWN,
            BuildRotation::DOWN => BuildRotation::LEFT,
            BuildRotation::LEFT => BuildRotation::RIGHT,
            BuildRotation::RIGHT => BuildRotation::UP,
        }
    }

    /// The deltas as executable values.
    pub fn deltas(&self) -> (d: (i8, i8))
        ensures
            d.0 as int == self.spec_drow(),
            d.1 as int == self.spec_dcol(),
    {
        match self {
            BuildRotation::UP => (1, 0),
            BuildRotation::DOWN => (-1, 0),
            BuildRotation::LEFT => (0, 1),
            BuildRotation::RIGHT => (0, -1),
        }
    }
}

pub open spec fn in_board(r: int, c: int) -> bool {
    0 <= r < 9 && 0 <= c < 9
}

/// A socket map with nothing on offer.
fn empty_flags() -> (v: Vec<bool>)
    ensures
        v@.len() == 81,
        forall|m: int| 0 <= m < 81 ==> !v@[m],
{
    let mut v: Vec<bool> = Vec::new();
    let mut m: usize = 0;
    while m < 81
        invariant
            0 <= m <= 81,
            v@.len() == m,
            forall|k: int| 0 <= k < m ==> !v@[k],
        decreases 81 - m,
    {
        v.push(false);
        m = m + 1;
    }
    v
}

/// Row-major position of a cell in the tile list.
pub open spec fn cell_index(r: int, c: int) -> int {
    r * 9 + c
}

pub open spec fn imin(a: int, b: int) -> int {
    if a < b { a } else { b }
}

pub open spec fn imax(a: int, b: int) -> int {
    if a > b { a } else { b }
}

/// One committed domino, recorded for display: the first half's cell and
/// the rotation that fixes the second half's cell.
#[derive(Clone, Copy, PartialEq, Eq, Structural, Debug)]
pub struct Placement {
    pub domino_id: u8,
    pub row: usize,
    pub col: usize,
    pub rotation: BuildRotation,
}

/// One player's kingdom: a 9-by-9 occupancy map with the castle fixed at
/// the centre, the bounding box of the occupied cells, and the four
/// rotation-indexed socket maps of the most recent socket computation.
pub struct Grid {
    tile_map: Vec<Tile>,
    up_map: Vec<bool>,
    down_map: Vec<bool>,
    left_map: Vec<bool>,
    right_map: Vec<bool>,
    placed: Vec<Placement>,
    min_row: usize,
    max_row: usize,
    min_col: usize,
    max_col: usize,
}

impl Grid {
    /// The 81 tiles, row-major.
    pub closed spec fn cells(self) -> Seq<Tile> {
        self.tile_map@
    }

    pub open spec fn cell(self, r: int, c: int) -> Tile {
        self.cells()[cell_index(r, c)]
    }

    pub open spec fn occupied(self, r: int, c: int) -> bool {
        in_board(r, c) && self.cell(r, c).terrain != Terrain::Empty
    }

    pub closed spec fn spec_min_row(self) -> int { self.min_row as int }

    pub closed spec fn spec_max_row(self) -> int { self.max_row as int }

    pub closed spec fn spec_min_col(self) -> int { self.min_col as int }

    pub closed spec fn spec_max_col(self) -> int { self.max_col as int }

    /// The socket map of one rotation, as filled by the last socket
    /// computation.
    pub closed spec fn socket_map(self, rot: BuildRotation) -> Seq<bool> {
        match rot {
            BuildRotation::UP => self.up_map@,
            BuildRotation::DOWN => self.down_map@,
            BuildRotation::LEFT => self.left_map@,
            BuildRotation::RIGHT => self.right_map@,
        }
    }

    pub open spec fn socket_flag(self, rot: BuildRotation, r: int, c: int) -> bool {
        self.socket_map(rot)[cell_index(r, c)]
    }

    /// The committed dominoes, in commit order.
    pub closed spec fn placements(self) -> Seq<Placement> {
        self.placed@
    }

    pub open spec fn wf(self) -> bool {
        &&& self.cells().len() == 81
        &&& self.socket_map(BuildRotation::UP).len() == 81
        &&& self.socket_map(BuildRotation::DOWN).len() == 81
        &&& self.socket_map(BuildRotation::LEFT).len() == 81
        &&& self.socket_map(BuildRotation::RIGHT).len() == 81
        &&& 0 <= self.spec_min_row() <= self.spec_max_row() < 9
        &&& 0 <= self.spec_min_col() <= self.spec_max_col() < 9
        &&& self.spec_max_row() - self.spec_min_row() < MAX_SPAN
        &&& self.spec_max_col() - self.spec_min_col() < MAX_SPAN
        &&& self.cell(4, 4).terrain == Terrain::Castle
        &&& forall|r: int, c: int| #[trigger] self.occupied(r, c)
            ==> self.spec_min_row() <= r <= self.spec_max_row()
                && self.spec_min_col() <= c <= self.spec_max_col()
    }

    /// An occupied cell whose terrain equals the wanted one, the castle
    /// matching any terrain (the wildcard anchor).
    pub open spec fn anchor_matches(self, r: int, c: int, want: Terrain) -> bool {
        in_board(r, c) && (self.cell(r, c).terrain == want
            || self.cell(r, c).terrain == Terrain::Castle)
    }

    /// Some orthogonal neighbour of the cell is a matching anchor.
    pub open spec fn side_anchored(self, r: int, c: int, want: Terrain) -> bool {
        ||| self.anchor_matches(r - 1, c, want)
        ||| self.anchor_matches(r + 1, c, want)
        ||| self.anchor_matches(r, c - 1, want)
        ||| self.anchor_matches(r, c + 1, want)
    }

    /// The bounding box united with the two cells of a candidate placement,
    /// measured against the opposite extreme, stays within the final
    /// kingdom footprint on both axes.
    pub open spec fn bbox_ok(self, r: int, c: int, r2: int, c2: int) -> bool {
        &&& imax(self.spec_max_row(), imax(r, r2)) - imin(self.spec_min_row(), imin(r, r2))
            < MAX_SPAN
        &&& imax(self.spec_max_col(), imax(c, c2)) - imin(self.spec_min_col(), imin(c, c2))
            < MAX_SPAN
    }

    /// A legal attachment of the domino at rotation `rot` with its first
    /// half on cell (r, c): both target cells lie on the board and are
    /// empty, the grown bounding box keeps the footprint, and one of the
    /// halves sits orthogonally next to an anchor of its own terrain (or
    /// next to the castle).
    pub open spec fn spec_socket_ok(self, d: Domino, rot: BuildRotation, r: int, c: int) -> bool {
        let r2 = r + rot.spec_drow();
        let c2 = c + rot.spec_dcol();
        &&& in_board(r, c)
        &&& in_board(r2, c2)
        &&& !self.occupied(r, c)
        &&& !self.occupied(r2, c2)
        &&& self.bbox_ok(r, c, r2, c2)
        &&& (self.side_anchored(r, c, d.tile_a.terrain)
            || self.side_anchored(r2, c2, d.tile_b.terrain))
    }

    /// The tiles after writing the domino's two halves into a socket.
    pub open spec fn place_cells(self, d: Domino, rot: BuildRotation, r: int, c: int) -> Seq<Tile> {
        self.cells()
            .update(cell_index(r, c), d.tile_a)
            .update(cell_index(r + rot.spec_drow(), c + rot.spec_dcol()), d.tile_b)
    }

    /// A fresh kingdom: only the castle cell is occupied, at the centre,
    /// and no socket map offers anything before the first socket
    /// computation.
    pub fn new() -> (g: Grid)
        ensures
            g.wf(),
            forall|r: int, c: int| #[trigger] g.occupied(r, c) <==> (r == 4 && c == 4),
            g.cell(4, 4) == (Tile { terrain: Terrain::Castle, crowns: 0u8 }),
            g.spec_min_row() == 4 && g.spec_max_row() == 4,
            g.spec_min_col() == 4 && g.spec_max_col() == 4,
            g.placements() == Seq::<Placement>::empty(),
            forall|rot: BuildRotation, r: int, c: int| 0 <= r < 9 && 0 <= c < 9
                ==> !g.socket_flag(rot, r, c),
    {
        let mut tile_map: Vec<Tile> = Vec::new();
        let mut k: usize = 0;
        while k < 81
            invariant
                0 <= k <= 81,
                tile_map@.len() == k,
                forall|m: int| 0 <= m < k
                    ==> #[trigger] tile_map@[m] == (Tile { terrain: Terrain::Empty, crowns: 0u8 }),
            decreases 81 - k,
        {
            tile_map.push(Tile::empty());
            k = k + 1;
        }
        tile_map[40] = Tile::new(Terrain::Castle, 0);
        let up_map = empty_flags();
        let down_map = empty_flags();
        let left_map = empty_flags();
        let right_map = empty_flags();
        let g = Grid {
            tile_map,
            up_map,
            down_map,
            left_map,
            right_map,
            placed: Vec::new(),
            min_row: CASTLE_ROW,
            max_row: CASTLE_ROW,
            min_col: CASTLE_COL,
            max_col: CASTLE_COL,
        };
        proof {
            assert forall|r: int, c: int| #[trigger] g.occupied(r, c) implies (r == 4 && c == 4) by {
                if in_board(r, c) && cell_index(r, c) != 40 {
                    assert(g.cells()[cell_index(r, c)]
                        == (Tile { terrain: Terrain::Empty, crowns: 0u8 }));
                }
                lemma_cell_index_injective(r, c, 4, 4);
            }
            assert(g.occupied(4, 4));
        }
        g
    }

    /// True where the wanted terrain (or the castle) sits on the cell.
    fn matches_at(&self, r: usize, c: usize, want: Terrain) -> (b: bool)
        requires
            self.wf(),
            r < 9,
            c < 9,
        ensures
            b == self.anchor_matches(r as int, c as int, want),
    {
        let t = self.tile_map[r * 9 + c].terrain;
        t == want || t == Terrain::Castle
    }

    /// True where some orthogonal neighbour matches the wanted terrain.
    fn side_anchored_exec(&self, r: usize, c: usize, want: Terrain) -> (b: bool)
        requires
            self.wf(),
            r < 9,
            c < 9,
        ensures
            b == self.side_anchored(r as int, c as int, want),
    {
        let mut b = false;
        if r > 0 {
            b = b || self.matches_at(r - 1, c, want);
        }
        if r < 8 {
            b = b || self.matches_at(r + 1, c, want);
        }
        if c > 0 {
            b = b || self.matches_at(r, c - 1, want);
        }
        if c < 8 {
            b = b || self.matches_at(r, c + 1, want);
        }
        b
    }

    /// Decides one candidate socket: the executable form of
    /// `spec_socket_ok`.
    pub fn socket_ok(&self, d: &Domino, rot: BuildRotation, r: usize, c: usize) -> (b: bool)
        requires
            self.wf(),
            r < 9,
            c < 9,
        ensures
            b == self.spec_socket_ok(*d, rot, r as int, c as int),
    {
        let (dr, dc) = rot.deltas();
        let r2i: i32 = r as i32 + dr as i32;
        let c2i: i32 = c as i32 + dc as i32;
        if r2i < 0 || r2i > 8 || c2i < 0 || c2i > 8 {
            return false;
        }
        let r2 = r2i as usize;
        let c2 = c2i as usize;
        if self.tile_map[r * 9 + c].terrain != Terrain::Empty {
            return false;
        }
        if self.tile_map[r2 * 9 + c2].terrain != Terrain::Empty {
            return false;
        }
        // Bounding box union, measured against the opposite extreme.
        let mut nmin_r = self.min_row;
        if r < nmin_r { nmin_r = r; }
        if r2 < nmin_r { nmin_r = r2; }
        let mut nmax_r = self.max_row;
        if r > nmax_r { nmax_r = r; }
        if r2 > nmax_r { nmax_r = r2; }
        let mut nmin_c = self.min_col;
        if c < nmin_c { nmin_c = c; }
        if c2 < nmin_c { nmin_c = c2; }
        let mut nmax_c = self.max_col;
        if c > nmax_c { nmax_c = c; }
        if c2 > nmax_c { nmax_c = c2; }
        if nmax_r - nmin_r >= MAX_SPAN || nmax_c - nmin_c >= MAX_SPAN {
            return false;
        }
        self.side_anchored_exec(r, c, d.tile_a.terrain)
            || self.side_anchored_exec(r2, c2, d.tile_b.terrain)
    }

    /// The socket map of one rotation, together with whether any socket of
    /// that rotation was accepted.
    fn build_map_for(&self, d: &Domino, rot: BuildRotation) -> (res: (Vec<bool>, bool))
        requires
            self.wf(),
        ensures
            res.0@.len() == 81,
            forall|r: int, c: int| 0 <= r < 9 && 0 <= c < 9
                ==> res.0@[cell_index(r, c)] == self.spec_socket_ok(*d, rot, r, c),
            res.1 == exists|r: int, c: int| 0 <= r < 9 && 0 <= c < 9
                && self.spec_socket_ok(*d, rot, r, c),
    {
        let mut m: Vec<bool> = Vec::new();
        let mut any = false;
        let mut r: usize = 0;
        while r < 9
            invariant
                self.wf(),
                0 <= r <= 9,
                m@.len() == r * 9,
                forall|a: int, b: int| 0 <= a < r && 0 <= b < 9
                    ==> m@[cell_index(a, b)] == self.spec_socket_ok(*d, rot, a, b),
                any == exists|a: int, b: int| 0 <= a < r && 0 <= b < 9
                    && self.spec_socket_ok(*d, rot, a, b),
            decreases 9 - r,
        {
            let mut c: usize = 0;
            while c < 9
                invariant
                    self.wf(),
                    0 <= r < 9,
                    0 <= c <= 9,
                    m@.len() == r * 9 + c,
                    forall|a: int, b: int| 0 <= a < r && 0 <= b < 9
                        ==> m@[cell_index(a, b)] == self.spec_socket_ok(*d, rot, a, b),
                    forall|b: int| 0 <= b < c
                        ==> m@[cell_index(r as int, b)] == self.spec_socket_ok(*d, rot, r as int, b),
                    any == exists|a: int, b: int| (0 <= a < r && 0 <= b < 9
                            || a == r && 0 <= b < c)
                        && self.spec_socket_ok(*d, rot, a, b),
                decreases 9 - c,
            {
                let ok = self.socket_ok(d, rot, r, c);
                m.push(ok);
                any = any || ok;
                c = c + 1;
            }
            r = r + 1;
        }
        (m, any)
    }

    /// Recomputes, for a queued domino, every legal attachment position
    /// across the four rotations, recording them as boolean flags on the
    /// four rotation-indexed socket maps. Returns false when no rotation
    /// offers any socket: the domino cannot be placed.
    pub fn compute_sockets(&mut self, d: &Domino) -> (has: bool)
        requires
            old(self).wf(),
        ensures
            final(self).wf(),
            final(self).cells() == old(self).cells(),
            final(self).placements() == old(self).placements(),
            final(self).spec_min_row() == old(self).spec_min_row(),
            final(self).spec_max_row() == old(self).spec_max_row(),
            final(self).spec_min_col() == old(self).spec_min_col(),
            final(self).spec_max_col() == old(self).spec_max_col(),
            forall|rot: BuildRotation, r: int, c: int| 0 <= r < 9 && 0 <= c < 9
                ==> final(self).socket_flag(rot, r, c) == old(self).spec_socket_ok(*d, rot, r, c),
            has == exists|rot: BuildRotation, r: int, c: int| 0 <= r < 9 && 0 <= c < 9
                && old(self).spec_socket_ok(*d, rot, r, c),
    {
        let (um, ua) = self.build_map_for(d, BuildRotation::UP);
        let (dm, da) = self.build_map_for(d, BuildRotation::DOWN);
        let (lm, la) = self.build_map_for(d, BuildRotation::LEFT);
        let (rm, ra) = self.build_map_for(d, BuildRotation::RIGHT);
        self.up_map = um;
        self.down_map = dm;
        self.left_map = lm;
        self.right_map = rm;
        let has = ua || da || la || ra;
        proof {
            assert forall|a: int, b: int| #[trigger] final(self).occupied(a, b)
                implies final(self).spec_min_row() <= a <= final(self).spec_max_row()
                    && final(self).spec_min_col() <= b <= final(self).spec_max_col() by {
                assert(old(self).occupied(a, b));
            }
            assert forall|rot: BuildRotation, r: int, c: int| 0 <= r < 9 && 0 <= c < 9
                implies final(self).socket_flag(rot, r, c)
                    == old(self).spec_socket_ok(*d, rot, r, c) by {
                match rot {
                    BuildRotation::UP => {},
                    BuildRotation::DOWN => {},
                    BuildRotation::LEFT => {},
                    BuildRotation::RIGHT => {},
                }
            }
            if has {
                if ua {
                    let (r, c) = choose|r: int, c: int| 0 <= r < 9 && 0 <= c < 9
                        && old(self).spec_socket_ok(*d, BuildRotation::UP, r, c);
                    assert(old(self).spec_socket_ok(*d, BuildRotation::UP, r, c));
                } else if da {
                    let (r, c) = choose|r: int, c: int| 0 <= r < 9 && 0 <= c < 9
                        && old(self).spec_socket_ok(*d, BuildRotation::DOWN, r, c);
                    assert(old(self).spec_socket_ok(*d, BuildRotation::DOWN, r, c));
                } else if la {
                    let (r, c) = choose|r: int, c: int| 0 <= r < 9 && 0 <= c < 9
                        && old(self).spec_socket_ok(*d, BuildRotation::LEFT, r, c);
                    assert(old(self).spec_socket_ok(*d, BuildRotation::LEFT, r, c));
                } else {
                    let (r, c) = choose|r: int, c: int| 0 <= r < 9 && 0 <= c < 9
                        && old(self).spec_socket_ok(*d, BuildRotation::RIGHT, r, c);
                    assert(old(self).spec_socket_ok(*d, BuildRotation::RIGHT, r, c));
                }
            } else {
                assert forall|rot: BuildRotation, r: int, c: int| 0 <= r < 9 && 0 <= c < 9
                    implies !old(self).spec_socket_ok(*d, rot, r, c) by {
                    match rot {
                        BuildRotation::UP => {},
                        BuildRotation::DOWN => {},
                        BuildRotation::LEFT => {},
                        BuildRotation::RIGHT => {},
                    }
                }
            }
        }
        has
    }

    /// Writes both halves of the domino into an accepted socket: the first
    /// half on (r, c), the second on the rotation-determined neighbour.
    /// This is the sole mutator of committed grid state; the bounding box
    /// grows to the union of its previous extent and the two new cells, and
    /// the castle cell is never touched.
    pub fn commit(&mut self, d: &Domino, rot: BuildRotation, r: usize, c: usize)
        requires
            old(self).wf(),
            d.wf(),
            old(self).spec_socket_ok(*d, rot, r as int, c as int),
        ensures
            final(self).wf(),
            final(self).cells() == old(self).place_cells(*d, rot, r as int, c as int),
            final(self).cell(4, 4) == old(self).cell(4, 4),
            final(self).spec_min_row()
                == imin(old(self).spec_min_row(), imin(r as int, r + rot.spec_drow())),
            final(self).spec_max_row()
                == imax(old(self).spec_max_row(), imax(r as int, r + rot.spec_drow())),
            final(self).spec_min_col()
                == imin(old(self).spec_min_col(), imin(c as int, c + rot.spec_dcol())),
            final(self).spec_max_col()
                == imax(old(self).spec_max_col(), imax(c as int, c + rot.spec_dcol())),
            final(self).placements() == old(self).placements().push(
                Placement { domino_id: d.id, row: r, col: c, rotation: rot }),
            final(self).socket_map(BuildRotation::UP) == old(self).socket_map(BuildRotation::UP),
            final(self).socket_map(BuildRotation::DOWN) == old(self).socket_map(BuildRotation::DOWN),
            final(self).socket_map(BuildRotation::LEFT) == old(self).socket_map(BuildRotation::LEFT),
            final(self).socket_map(BuildRotation::RIGHT) == old(self).socket_map(BuildRotation::RIGHT),
    {
        let (dr, dc) = rot.deltas();
        let r2 = (r as i32 + dr as i32) as usize;
        let c2 = (c as i32 + dc as i32) as usize;
        self.tile_map[r * 9 + c] = d.tile_a;
        self.tile_map[r2 * 9 + c2] = d.tile_b;
        if r < self.min_row { self.min_row = r; }
        if r2 < self.min_row { self.min_row = r2; }
        if r > self.max_row { self.max_row = r; }
        if r2 > self.max_row { self.max_row = r2; }
        if c < self.min_col { self.min_col = c; }
        if c2 < self.min_col { self.min_col = c2; }
        if c > self.max_col { self.max_col = c; }
        if c2 > self.max_col { self.max_col = c2; }
        self.placed.push(Placement { domino_id: d.id, row: r, col: c, rotation: rot });
        proof {
            let pre = *old(self);
            let post = *final(self);
            let ri = r as int;
            let ci = c as int;
            let r2i = ri + rot.spec_drow();
            let c2i = ci + rot.spec_dcol();
            // The two target cells were empty, so neither is the castle.
            assert(pre.occupied(4, 4));
            lemma_cell_index_injective(4, 4, 4, 4);
            assert(cell_index(ri, ci) != cell_index(4, 4)) by {
                if cell_index(ri, ci) == cell_index(4, 4) {
                    lemma_cell_index_injective(ri, ci, 4, 4);
                }
            }
            assert(cell_index(r2i, c2i) != cell_index(4, 4)) by {
                if cell_index(r2i, c2i) == cell_index(4, 4) {
                    lemma_cell_index_injective(r2i, c2i, 4, 4);
                }
            }
            // Every occupied cell of the grown grid lies in the grown box.
            assert forall|a: int, b: int| #[trigger] post.occupied(a, b)
                implies post.spec_min_row() <= a <= post.spec_max_row()
                    && post.spec_min_col() <= b <= post.spec_max_col() by {
                if cell_index(a, b) == cell_index(ri, ci) {
                    lemma_cell_index_injective(a, b, ri, ci);
                } else if cell_index(a, b) == cell_index(r2i, c2i) {
                    lemma_cell_index_injective(a, b, r2i, c2i);
                } else {
                    assert(pre.occupied(a, b));
                }
            }
        }
    }
}

/// A full copy of the occupancy map that one accepted socket would produce,
/// labelled with that socket: a derived view for a non-human decision
/// policy, never aliasing committed grid state.
pub struct Snapshot {
    pub rotation: BuildRotation,
    pub row: usize,
    pub col: usize,
    pub map: Vec<Tile>,
}

impl Grid {
    /// A copy of the tiles with the domino written into one socket.
    fn place_map(&self, d: &Domino, rot: BuildRotation, r: usize, c: usize) -> (m: Vec<Tile>)
        requires
            self.wf(),
            self.spec_socket_ok(*d, rot, r as int, c as int),
        ensures
            m@ == self.place_cells(*d, rot, r as int, c as int),
    {
        let mut m: Vec<Tile> = Vec::new();
        let mut k: usize = 0;
        while k < 81
            invariant
                self.wf(),
                0 <= k <= 81,
                m@ == self.cells().take(k as int),
            decreases 81 - k,
        {
            m.push(self.tile_map[k]);
            proof {
                assert(m@ =~= self.cells().take(k + 1));
            }
            k = k + 1;
        }
        proof {
            assert(m@ =~= self.cells());
        }
        let (dr, dc) = rot.deltas();
        let r2 = (r as i32 + dr as i32) as usize;
        let c2 = (c as i32 + dc as i32) as usize;
        m[r * 9 + c] = d.tile_a;
        m[r2 * 9 + c2] = d.tile_b;
        m
    }

    /// Appends one snapshot per accepted socket of one rotation, scanning
    /// the board row by row. Earlier entries stay untouched.
    fn push_snapshots_for(&self, d: &Domino, rot: BuildRotation, out: &mut Vec<Snapshot>)
        requires
            self.wf(),
        ensures
            final(out)@.len() >= old(out)@.len(),
            forall|k: int| 0 <= k < old(out)@.len()
                ==> #[trigger] final(out)@[k] == old(out)@[k],
            forall|k: int| old(out)@.len() <= k < final(out)@.len() ==> {
                let s = #[trigger] final(out)@[k];
                &&& s.rotation == rot
                &&& self.spec_socket_ok(*d, rot, s.row as int, s.col as int)
                &&& s.map@ == self.place_cells(*d, rot, s.row as int, s.col as int)
            },
            forall|r: int, c: int| 0 <= r < 9 && 0 <= c < 9
                    && self.spec_socket_ok(*d, rot, r, c)
                ==> exists|k: int| old(out)@.len() <= k < final(out)@.len()
                    && (#[trigger] final(out)@[k]).row == r && final(out)@[k].col == c,
            forall|k1: int, k2: int| old(out)@.len() <= k1 < k2 < final(out)@.len()
                ==> (#[trigger] final(out)@[k1]).row * 9 + final(out)@[k1].col
                    < (#[trigger] final(out)@[k2]).row * 9 + final(out)@[k2].col,
    {
        let ghost n0 = out@.len();
        let mut r: usize = 0;
        while r < 9
            invariant
                self.wf(),
                0 <= r <= 9,
                out@.len() >= n0,
                forall|k: int| 0 <= k < n0 ==> #[trigger] out@[k] == old(out)@[k],
                forall|k: int| n0 <= k < out@.len() ==> {
                    let s = #[trigger] out@[k];
                    &&& s.rotation == rot
                    &&& self.spec_socket_ok(*d, rot, s.row as int, s.col as int)
                    &&& s.map@ == self.place_cells(*d, rot, s.row as int, s.col as int)
                },
                forall|a: int, b: int| 0 <= a < r && 0 <= b < 9
                        && self.spec_socket_ok(*d, rot, a, b)
                    ==> exists|k: int| n0 <= k < out@.len()
                        && (#[trigger] out@[k]).row == a && out@[k].col == b,
                forall|k: int| n0 <= k < out@.len()
                    ==> (#[trigger] out@[k]).row * 9 + out@[k].col < r * 9,
                forall|k1: int, k2: int| n0 <= k1 < k2 < out@.len()
                    ==> (#[trigger] out@[k1]).row * 9 + out@[k1].col
                        < (#[trigger] out@[k2]).row * 9 + out@[k2].col,
            decreases 9 - r,
        {
            let mut c: usize = 0;
            while c < 9
                invariant
                    self.wf(),
                    0 <= r < 9,
                    0 <= c <= 9,
                    out@.len() >= n0,
                    forall|k: int| 0 <= k < n0 ==> #[trigger] out@[k] == old(out)@[k],
                    forall|k: int| n0 <= k < out@.len() ==> {
                        let s = #[trigger] out@[k];
                        &&& s.rotation == rot
                        &&& self.spec_socket_ok(*d, rot, s.row as int, s.col as int)
                        &&& s.map@ == self.place_cells(*d, rot, s.row as int, s.col as int)
                    },
                    forall|a: int, b: int| (0 <= a < r && 0 <= b < 9 || a == r && 0 <= b < c)
                            && self.spec_socket_ok(*d, rot, a, b)
                        ==> exists|k: int| n0 <= k < out@.len()
                            && (#[trigger] out@[k]).row == a && out@[k].col == b,
                    forall|k: int| n0 <= k < out@.len()
                        ==> (#[trigger] out@[k]).row * 9 + out@[k].col < r * 9 + c,
                    forall|k1: int, k2: int| n0 <= k1 < k2 < out@.len()
                        ==> (#[trigger] out@[k1]).row * 9 + out@[k1].col
                            < (#[trigger] out@[k2]).row * 9 + out@[k2].col,
                decreases 9 - c,
            {
                let ghost out_pre = out@;
                if self.socket_ok(d, rot, r, c) {
                    let map = self.place_map(d, rot, r, c);
                    out.push(Snapshot { rotation: rot, row: r, col: c, map });
                }
                proof {
                    // Earlier witnesses survive the push untouched.
                    assert forall|a: int, b: int|
                            (0 <= a < r && 0 <= b < 9 || a == r && 0 <= b < c + 1)
                            && self.spec_socket_ok(*d, rot, a, b)
                        implies exists|k: int| n0 <= k < out@.len()
                            && (#[trigger] out@[k]).row == a && out@[k].col == b by {
                        if a == r && b == c {
                            assert(out@[out@.len() - 1].row == a && out@[out@.len() - 1].col == b);
                        } else {
                            let k = choose|k: int| n0 <= k < out_pre.len()
                                && (#[trigger] out_pre[k]).row == a && out_pre[k].col == b;
                            assert(out@[k] == out_pre[k]);
                        }
                    }
                }
                c = c + 1;
            }
            r = r + 1;
        }
    }

    /// For every accepted socket of the queued domino, across all four
    /// rotations, a full copy of the occupancy map that committing there
    /// would produce. Purely derived: committed state is not touched.
    pub fn bot_maps(&self, d: &Domino) -> (out: Vec<Snapshot>)
        requires
            self.wf(),
        ensures
            forall|k: int| 0 <= k < out@.len() ==> {
                let s = #[trigger] out@[k];
                &&& self.spec_socket_ok(*d, s.rotation, s.row as int, s.col as int)
                &&& s.map@ == self.place_cells(*d, s.rotation, s.row as int, s.col as int)
            },
            forall|rot: BuildRotation, r: int, c: int| 0 <= r < 9 && 0 <= c < 9
                    && self.spec_socket_ok(*d, rot, r, c)
                ==> exists|k: int| 0 <= k < out@.len()
                    && (#[trigger] out@[k]).rotation == rot
                    && out@[k].row == r && out@[k].col == c,
            out@.len() > 0 <==> exists|rot: BuildRotation, r: int, c: int|
                0 <= r < 9 && 0 <= c < 9 && self.spec_socket_ok(*d, rot, r, c),
            forall|k1: int, k2: int| 0 <= k1 < k2 < out@.len()
                ==> (#[trigger] out@[k1]).rotation != (#[trigger] out@[k2]).rotation
                    || out@[k1].row != out@[k2].row || out@[k1].col != out@[k2].col,
    {
        let mut out: Vec<Snapshot> = Vec::new();
        self.push_snapshots_for(d, BuildRotation::UP, &mut out);
        let ghost o1 = out@;
        self.push_snapshots_for(d, BuildRotation::DOWN, &mut out);
        let ghost o2 = out@;
        self.push_snapshots_for(d, BuildRotation::LEFT, &mut out);
        let ghost o3 = out@;
        self.push_snapshots_for(d, BuildRotation::RIGHT, &mut out);
        proof {
            assert forall|k: int| 0 <= k < o3.len() implies out@[k] == o3[k] by {}
            assert forall|k: int| 0 <= k < o2.len() implies out@[k] == o2[k] by {}
            assert forall|k: int| 0 <= k < o1.len() implies out@[k] == o1[k] by {}
            assert forall|rot: BuildRotation, r: int, c: int| 0 <= r < 9 && 0 <= c < 9
                    && self.spec_socket_ok(*d, rot, r, c)
                implies exists|k: int| 0 <= k < out@.len()
                    && (#[trigger] out@[k]).rotation == rot
                    && out@[k].row == r && out@[k].col == c by {
                match rot {
                    BuildRotation::UP => {
                        let k = choose|k: int| 0 <= k < o1.len()
                            && (#[trigger] o1[k]).row == r && o1[k].col == c;
                        assert(out@[k] == o1[k]);
                        assert(out@[k].rotation == rot && out@[k].row == r && out@[k].col == c);
                    },
                    BuildRotation::DOWN => {
                        let k = choose|k: int| o1.len() <= k < o2.len()
                            && (#[trigger] o2[k]).row == r && o2[k].col == c;
                        assert(out@[k] == o2[k]);
                        assert(out@[k].rotation == rot && out@[k].row == r && out@[k].col == c);
                    },
                    BuildRotation::LEFT => {
                        let k = choose|k: int| o2.len() <= k < o3.len()
                            && (#[trigger] o3[k]).row == r && o3[k].col == c;
                        assert(out@[k] == o3[k]);
                        assert(out@[k].rotation == rot && out@[k].row == r && out@[k].col == c);
                    },
                    BuildRotation::RIGHT => {
                        let k = choose|k: int| o3.len() <= k < out@.len()
                            && (#[trigger] out@[k]).row == r && out@[k].col == c;
                        assert(out@[k].rotation == rot && out@[k].row == r && out@[k].col == c);
                    },
                }
            }
            if out@.len() > 0 {
                let s = out@[0];
                assert(self.spec_socket_ok(*d, s.rotation, s.row as int, s.col as int));
            }
        }
        out
    }

    /// The socket map of the `UP` rotation, for display.
    pub fn get_up_map(&self) -> (m: &Vec<bool>)
        ensures
            m@ == self.socket_map(BuildRotation::UP),
    {
        &self.up_map
    }

    /// The socket map of the `DOWN` rotation, for display.
    pub fn get_down_map(&self) -> (m: &Vec<bool>)
        ensures
            m@ == self.socket_map(BuildRotation::DOWN),
    {
        &self.down_map
    }

    /// The socket map of the `LEFT` rotation, for display.
    pub fn get_left_map(&self) -> (m: &Vec<bool>)
        ensures
            m@ == self.socket_map(BuildRotation::LEFT),
    {
        &self.left_map
    }

    /// The socket map of the `RIGHT` rotation, for display.
    pub fn get_right_map(&self) -> (m: &Vec<bool>)
        ensures
            m@ == self.socket_map(BuildRotation::RIGHT),
    {
        &self.right_map
    }

    /// The committed dominoes in commit order, for display.
    pub fn domino_map(&self) -> (p: &Vec<Placement>)
        ensures
            p@ == self.placements(),
    {
        &self.placed
    }

    /// The tile on one cell.
    pub fn tile_at(&self, r: usize, c: usize) -> (t: Tile)
        requires
            self.wf(),
            r < 9,
            c < 9,
        ensures
            t == self.cell(r as int, c as int),
    {
        self.tile_map[r * 9 + c]
    }

    /// The occupied bounding box, as (min_row, max_row, min_col, max_col).
    pub fn bounding_box(&self) -> (b: (usize, usize, usize, usize))
        ensures
            b.0 as int == self.spec_min_row(),
            b.1 as int == self.spec_max_row(),
            b.2 as int == self.spec_min_col(),
            b.3 as int == self.spec_max_col(),
    {
        (self.min_row, self.max_row, self.min_col, self.max_col)
    }
}

/// The committed state of two grids is the same: tiles, bounding box and
/// placement history. The derived socket maps may differ.
pub open spec fn grid_committed_eq(a: Grid, b: Grid) -> bool {
    &&& a.cells() == b.cells()
    &&& a.placements() == b.placements()
    &&& a.spec_min_row() == b.spec_min_row()
    &&& a.spec_max_row() == b.spec_max_row()
    &&& a.spec_min_col() == b.spec_min_col()
    &&& a.spec_max_col() == b.spec_max_col()
}

/// On a fresh kingdom every real domino has a legal socket: the cell right
/// of the castle anchors on the castle itself (the wildcard), with the
/// second half one cell further right, well within the footprint.
pub proof fn lemma_fresh_grid_has_socket(g: Grid, d: Domino)
    requires
        g.wf(),
        d.wf(),
        forall|r: int, c: int| #[trigger] g.occupied(r, c) <==> (r == 4 && c == 4),
        g.spec_min_row() == 4 && g.spec_max_row() == 4,
        g.spec_min_col() == 4 && g.spec_max_col() == 4,
    ensures
        g.spec_socket_ok(d, BuildRotation::LEFT, 4, 5),
{
    assert(!g.occupied(4, 5) && !g.occupied(4, 6));
    assert(g.anchor_matches(4, 4, d.tile_a.terrain));
}

/// Once a domino is committed, neither of the two cells it filled is
/// offered again: no later socket computation accepts a socket whose first
/// half would sit on either cell, for any domino and any rotation.
pub proof fn lemma_commit_closes_cells(
    pre: Grid,
    post: Grid,
    d: Domino,
    rot: BuildRotation,
    r: int,
    c: int,
    d2: Domino,
    rot2: BuildRotation,
)
    requires
        pre.wf(),
        d.wf(),
        pre.spec_socket_ok(d, rot, r, c),
        post.cells() == pre.place_cells(d, rot, r, c),
    ensures
        !post.spec_socket_ok(d2, rot2, r, c),
        !post.spec_socket_ok(d2, rot2, r + rot.spec_drow(), c + rot.spec_dcol()),
{
    let r2 = r + rot.spec_drow();
    let c2 = c + rot.spec_dcol();
    assert(cell_index(r, c) != cell_index(r2, c2)) by {
        if cell_index(r, c) == cell_index(r2, c2) {
            lemma_cell_index_injective(r, c, r2, c2);
        }
    }
    assert(post.cell(r, c) == d.tile_a);
    assert(post.cell(r2, c2) == d.tile_b);
    assert(post.occupied(r, c));
    assert(post.occupied(r2, c2));
}

/// Two distinct cells never share a row-major position.
pub proof fn lemma_cell_index_injective(r1: int, c1: int, r2: int, c2: int)
    requires
        in_board(r1, c1),
        in_board(r2, c2),
        cell_index(r1, c1) == cell_index(r2, c2),
    ensures
        r1 == r2 && c1 == c2,
{
}

} // verus!
