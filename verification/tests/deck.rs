use kingdomino::deck::{domino_for_id, Deck, DECK_SIZE};
use kingdomino::error::GameError;
use kingdomino::tile::Terrain;

#[test]
fn initial_deck_holds_48() {
    let deck = Deck::initial();
    assert_eq!(deck.len(), DECK_SIZE);
    assert!(!deck.is_empty());
}

#[test]
fn catalog_entries_match_the_fixed_set() {
    let d1 = domino_for_id(1);
    assert_eq!(d1.id, 1);
    assert_eq!(d1.tile_a.terrain, Terrain::Wheat);
    assert_eq!(d1.tile_a.crowns, 0);
    assert_eq!(d1.tile_b.terrain, Terrain::Wheat);
    assert_eq!(d1.tile_b.crowns, 0);

    let d19 = domino_for_id(19);
    assert_eq!(d19.tile_a.terrain, Terrain::Wheat);
    assert_eq!(d19.tile_a.crowns, 1);
    assert_eq!(d19.tile_b.terrain, Terrain::Forest);
    assert_eq!(d19.tile_b.crowns, 0);

    let d45 = domino_for_id(45);
    assert_eq!(d45.tile_a.terrain, Terrain::Mine);
    assert_eq!(d45.tile_a.crowns, 2);

    let d48 = domino_for_id(48);
    assert_eq!(d48.tile_a.terrain, Terrain::Wheat);
    assert_eq!(d48.tile_b.terrain, Terrain::Mine);
    assert_eq!(d48.tile_b.crowns, 3);
}

#[test]
fn pick_random_48_times_is_distinct_then_empty_then_fails() {
    let mut deck = Deck::initial();
    let mut seen = [false; 49];
    for _ in 0..48 {
        let d = deck.pick_random().expect("the deck still holds dominoes");
        let id = d.id as usize;
        assert!((1..=48).contains(&id));
        assert!(!seen[id], "id {} came out twice", id);
        seen[id] = true;
    }
    assert!(deck.is_empty());
    assert_eq!(deck.len(), 0);
    // The 49th draw fails.
    assert_eq!(deck.pick_random(), Err(GameError::EmptyDeck));
    // And every id came out exactly once.
    for id in 1..=48 {
        assert!(seen[id]);
    }
}

#[test]
fn new_draft_consumes_four_and_leaves_the_rest() {
    let mut deck = Deck::initial();
    let draft = deck.new_draft().expect("a full deck covers a draft");
    assert_eq!(deck.len(), 44);
    let mut seen = [false; 49];
    for d in draft.iter() {
        assert!(!seen[d.id as usize]);
        seen[d.id as usize] = true;
    }
    // The remaining pool holds exactly the other 44 ids.
    for _ in 0..44 {
        let d = deck.pick_random().expect("44 dominoes remain");
        assert!(!seen[d.id as usize], "id {} was both drafted and drawn", d.id);
        seen[d.id as usize] = true;
    }
    for id in 1..=48 {
        assert!(seen[id]);
    }
    assert!(deck.is_empty());
}

#[test]
fn new_draft_from_a_small_deck_is_rejected() {
    let mut deck = Deck::initial();
    for _ in 0..45 {
        deck.pick_random().expect("still nonempty");
    }
    assert_eq!(deck.len(), 3);
    assert!(matches!(deck.new_draft(), Err(GameError::DeckTooSmall)));
    assert_eq!(deck.len(), 3);
}
