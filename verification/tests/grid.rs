use kingdomino::domino::Domino;
use kingdomino::grid::{BuildRotation, Grid};
use kingdomino::tile::{Terrain, Tile};

fn wheat_domino(id: u8) -> Domino {
    Domino::new(id, Tile::new(Terrain::Wheat, 0), Tile::new(Terrain::Wheat, 0))
}

#[test]
fn fresh_grid_offers_sockets_next_to_the_castle() {
    let mut g = Grid::new();
    let d = wheat_domino(1);
    // The castle anchors any terrain, so a fresh grid always has room.
    assert!(g.socket_ok(&d, BuildRotation::LEFT, 4, 5));
    let has = g.compute_sockets(&d);
    assert!(has);
    // The flag maps mirror the per-cell decision.
    assert!(g.get_left_map()[4 * 9 + 5]);
    // A cell far from the castle has no anchor: no socket there.
    assert!(!g.socket_ok(&d, BuildRotation::LEFT, 0, 0));
    assert!(!g.get_left_map()[0]);
    // The castle cell itself is occupied: never a socket.
    assert!(!g.socket_ok(&d, BuildRotation::LEFT, 4, 4));
}

#[test]
fn terrain_must_match_its_own_half() {
    let mut g = Grid::new();
    let wheat = wheat_domino(1);
    // Stretch wheat to the right of the castle: (4,5) and (4,6).
    assert!(g.socket_ok(&wheat, BuildRotation::LEFT, 4, 5));
    g.commit(&wheat, BuildRotation::LEFT, 4, 5);
    let forest = Domino::new(3, Tile::new(Terrain::Forest, 0), Tile::new(Terrain::Forest, 0));
    // A forest domino cannot attach to the wheat pair at (4,7) — its only
    // neighbour there is wheat — but it can still attach to the castle.
    assert!(!g.socket_ok(&forest, BuildRotation::LEFT, 4, 7));
    assert!(g.socket_ok(&forest, BuildRotation::UP, 5, 4));
    // A wheat domino does attach at (4,7), next to its own terrain.
    let wheat2 = wheat_domino(2);
    assert!(g.socket_ok(&wheat2, BuildRotation::LEFT, 4, 7));
}

#[test]
fn five_cell_bound_blocks_growth_past_the_opposite_extreme() {
    let mut g = Grid::new();
    let w1 = wheat_domino(1);
    let w2 = wheat_domino(2);
    // Grow the kingdom to columns 4..=8: a full 5-cell span.
    g.commit(&w1, BuildRotation::LEFT, 4, 5);
    g.commit(&w2, BuildRotation::LEFT, 4, 7);
    let (min_r, max_r, min_c, max_c) = g.bounding_box();
    assert_eq!((min_r, max_r, min_c, max_c), (4, 4, 4, 8));
    let w3 = wheat_domino(13);
    // Any placement reaching column 3 or lower would span more than five
    // cells against the opposite extreme at column 8: rejected, even
    // though the cells are empty and the castle is adjacent.
    assert!(!g.socket_ok(&w3, BuildRotation::LEFT, 4, 2));
    assert!(!g.socket_ok(&w3, BuildRotation::UP, 4, 3));
    // Growth along the rows is still fine.
    assert!(g.socket_ok(&w3, BuildRotation::UP, 5, 4));
    let mut g2 = g;
    let has = g2.compute_sockets(&w3);
    assert!(has);
    // No socket anywhere on columns 0..=3 in any rotation.
    for r in 0..9 {
        for c in 0..4 {
            assert!(!g2.get_up_map()[r * 9 + c]);
            assert!(!g2.get_down_map()[r * 9 + c]);
            assert!(!g2.get_left_map()[r * 9 + c]);
            assert!(!g2.get_right_map()[r * 9 + c]);
        }
    }
}

#[test]
fn commit_writes_both_halves_and_stops_reoffering_the_cells() {
    let mut g = Grid::new();
    let d = Domino::new(14, Tile::new(Terrain::Wheat, 0), Tile::new(Terrain::Water, 0));
    assert!(g.socket_ok(&d, BuildRotation::LEFT, 4, 5));
    g.commit(&d, BuildRotation::LEFT, 4, 5);
    assert_eq!(g.tile_at(4, 5).terrain, Terrain::Wheat);
    assert_eq!(g.tile_at(4, 6).terrain, Terrain::Water);
    // The castle is untouched.
    assert_eq!(g.tile_at(4, 4).terrain, Terrain::Castle);
    // The just-filled cells are no longer offered, for any domino.
    let d2 = wheat_domino(2);
    let has = g.compute_sockets(&d2);
    assert!(has);
    for rot in [BuildRotation::UP, BuildRotation::DOWN, BuildRotation::LEFT,
        BuildRotation::RIGHT] {
        assert!(!g.socket_ok(&d2, rot, 4, 5));
        assert!(!g.socket_ok(&d2, rot, 4, 6));
    }
    assert!(!g.get_left_map()[4 * 9 + 5]);
    assert!(!g.get_up_map()[4 * 9 + 6]);
    // The commit is on record.
    let placed = g.domino_map();
    assert_eq!(placed.len(), 1);
    assert_eq!(placed[0].domino_id, 14);
    assert_eq!((placed[0].row, placed[0].col), (4, 5));
    assert_eq!(placed[0].rotation, BuildRotation::LEFT);
}

#[test]
fn snapshots_cover_every_accepted_socket() {
    let g = Grid::new();
    let d = Domino::new(23, Tile::new(Terrain::Wheat, 1), Tile::new(Terrain::Mine, 0));
    let snaps = g.bot_maps(&d);
    assert!(!snaps.is_empty());
    // On a fresh grid the accepted sockets are exactly the placements
    // where one half touches the castle: six per rotation.
    assert_eq!(snaps.len(), 24);
    for s in &snaps {
        // Each snapshot is the grid plus the two written halves.
        let i1 = s.row * 9 + s.col;
        assert_eq!(s.map[i1].terrain, Terrain::Wheat);
        assert_eq!(s.map[i1].crowns, 1);
        assert_eq!(s.map[4 * 9 + 4].terrain, Terrain::Castle);
        let occupied = s.map.iter().filter(|t| t.terrain != Terrain::Empty).count();
        assert_eq!(occupied, 3);
    }
    // The committed grid itself is untouched.
    assert_eq!(g.domino_map().len(), 0);
    for r in 0..9 {
        for c in 0..9 {
            if (r, c) != (4, 4) {
                assert_eq!(g.tile_at(r, c).terrain, Terrain::Empty);
            }
        }
    }
}

#[test]
fn rotation_cycle_and_deltas() {
    let r0 = BuildRotation::UP;
    let r1 = r0.next();
    let r2 = r1.next();
    let r3 = r2.next();
    assert_eq!(r1, BuildRotation::DOWN);
    assert_eq!(r2, BuildRotation::LEFT);
    assert_eq!(r3, BuildRotation::RIGHT);
    assert_eq!(r3.next(), BuildRotation::UP);
    assert_eq!(BuildRotation::UP.deltas(), (1, 0));
    assert_eq!(BuildRotation::DOWN.deltas(), (-1, 0));
    assert_eq!(BuildRotation::LEFT.deltas(), (0, 1));
    assert_eq!(BuildRotation::RIGHT.deltas(), (0, -1));
}
