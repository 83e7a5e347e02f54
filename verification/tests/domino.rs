use kingdomino::domino::{Domino, NULL_ID};
use kingdomino::tile::{Terrain, Tile};

#[test]
fn null_domino_is_null_and_real_ones_are_not() {
    let n = Domino::null();
    assert!(n.is_null());
    assert_eq!(n.id(), NULL_ID);
    assert_eq!(n.tile_a.terrain, Terrain::Empty);
    let d = Domino::new(7, Tile::new(Terrain::Water, 0), Tile::new(Terrain::Water, 0));
    assert!(!d.is_null());
    assert_eq!(d.id(), 7);
}

#[test]
fn tiles_are_fetched_by_half() {
    let d = Domino::new(40, Tile::new(Terrain::Mine, 1), Tile::new(Terrain::Wheat, 0));
    assert_eq!(d.get_tile_type(1), Terrain::Mine);
    assert_eq!(d.get_tile_type(2), Terrain::Wheat);
    assert_eq!(d.get_tile(1).crowns, 1);
    assert_eq!(d.get_tile(2).crowns, 0);
    let t = Tile::new(Terrain::Grass, 2);
    assert_eq!(t.get_type(), Terrain::Grass);
    assert_eq!(Tile::empty().get_type(), Terrain::Empty);
}
