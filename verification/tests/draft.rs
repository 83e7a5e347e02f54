use kingdomino::deck::Deck;
use kingdomino::error::GameError;

#[test]
fn new_draft_is_strictly_ascending() {
    // Several fresh games: every draft comes out sorted strictly
    // ascending by id, so its four ids are distinct.
    for _ in 0..20 {
        let mut deck = Deck::initial();
        let draft = deck.new_draft().expect("full deck");
        let ds = draft.iter();
        assert_eq!(ds.len(), 4);
        for w in ds.windows(2) {
            assert!(w[0].id < w[1].id);
        }
    }
}

#[test]
fn drafts_keep_ascending_all_game_long() {
    let mut deck = Deck::initial();
    for _ in 0..12 {
        let draft = deck.new_draft().expect("deck still covers a draft");
        let ds = draft.iter();
        for w in ds.windows(2) {
            assert!(w[0].id < w[1].id);
        }
    }
    assert!(deck.is_empty());
}

#[test]
fn pick_claims_a_slot_once() {
    let mut deck = Deck::initial();
    let mut draft = deck.new_draft().expect("full deck");
    let offered = draft.iter();
    assert!(!draft.is_complete());
    assert!(draft.pickable(1));
    let got = draft.pick(1, 2).expect("slot 1 is unclaimed");
    assert_eq!(got.id, offered[1].id);
    assert_eq!(draft.player_on(1), Some(2));
    assert!(!draft.pickable(1));
    // A second claim of the same slot is rejected, whoever asks.
    assert_eq!(draft.pick(1, 3), Err(GameError::SlotAlreadyClaimed));
    assert_eq!(draft.player_on(1), Some(2));
    // An out-of-range slot is rejected.
    assert_eq!(draft.pick(4, 1), Err(GameError::SlotOutOfRange));
    assert_eq!(draft.pick(17, 1), Err(GameError::SlotOutOfRange));
}

#[test]
fn draft_completes_after_four_claims() {
    let mut deck = Deck::initial();
    let mut draft = deck.new_draft().expect("full deck");
    draft.pick(0, 1).unwrap();
    assert!(!draft.is_complete());
    draft.pick(1, 2).unwrap();
    draft.pick(2, 3).unwrap();
    assert!(!draft.is_complete());
    draft.pick(3, 4).unwrap();
    assert!(draft.is_complete());
}

#[test]
fn reorder_follows_claim_order() {
    let mut deck = Deck::initial();
    let mut draft = deck.new_draft().expect("full deck");
    // Claim order: slot 2 by player 1, slot 0 by player 2, slot 3 by
    // player 3, slot 1 by player 4.
    draft.pick(2, 1).unwrap();
    draft.pick(0, 2).unwrap();
    draft.pick(3, 3).unwrap();
    draft.pick(1, 4).unwrap();
    let prio = draft.reorder(&vec![1, 2, 3, 4]).expect("complete, all claimants known");
    assert_eq!(prio, vec![2, 4, 1, 3]);
}

#[test]
fn reorder_rejects_an_incomplete_draft() {
    let mut deck = Deck::initial();
    let mut draft = deck.new_draft().expect("full deck");
    draft.pick(0, 1).unwrap();
    assert_eq!(draft.reorder(&vec![1, 2, 3, 4]), Err(GameError::DraftIncomplete));
}

#[test]
fn reorder_rejects_an_unknown_claimant() {
    let mut deck = Deck::initial();
    let mut draft = deck.new_draft().expect("full deck");
    draft.pick(0, 1).unwrap();
    draft.pick(1, 2).unwrap();
    draft.pick(2, 3).unwrap();
    draft.pick(3, 9).unwrap();
    assert_eq!(draft.reorder(&vec![1, 2, 3, 4]), Err(GameError::MissingClaimant));
}
