use kingdomino::controller::{Controller, GameEvent, Phase, StepOutcome};
use kingdomino::grid::BuildRotation;
use kingdomino::turn::Turn;

#[test]
fn initiate_controller() {
    // Starting a game many times: the first draft never holds a null
    // domino, comes sorted, and the state is the first pick of round one.
    for _ in 0..100 {
        let controller = Controller::new();
        assert_eq!(controller.phase(), Phase::Picking(Turn::Prio1));
        assert_eq!(controller.round(), 1);
        assert!(controller.place_draft().is_none());
        let draft = controller.pick_draft().as_ref().expect("a fresh game offers a draft");
        let ds = draft.iter();
        assert_eq!(ds.len(), 4);
        for d in &ds {
            assert!(!d.is_null());
            assert!((1..=48).contains(&d.id));
        }
        for w in ds.windows(2) {
            assert!(w[0].id < w[1].id);
        }
        assert!(!controller.game_over());
    }
}

#[test]
fn round_one_is_pick_only_and_reorders_by_claim() {
    let mut c = Controller::new();
    // Claim order: P1 takes slot 2, P2 slot 0, P3 slot 3, P4 slot 1.
    assert_eq!(c.update(GameEvent::PickSlot(2)), StepOutcome::Picked);
    assert_eq!(c.phase(), Phase::Picking(Turn::Prio2));
    assert_eq!(c.round(), 1);
    assert_eq!(c.update(GameEvent::PickSlot(0)), StepOutcome::Picked);
    assert_eq!(c.phase(), Phase::Picking(Turn::Prio3));
    assert_eq!(c.update(GameEvent::PickSlot(3)), StepOutcome::Picked);
    assert_eq!(c.phase(), Phase::Picking(Turn::Prio4));
    assert_eq!(c.round(), 1);
    // Nobody entered Placing so far; the fourth pick rotates the round.
    assert_eq!(c.update(GameEvent::PickSlot(1)), StepOutcome::Picked);
    assert_eq!(c.phase(), Phase::Picking(Turn::Prio1));
    assert_eq!(c.round(), 2);
    // The completed draft became the place draft; a fresh pick draft is
    // drawn, fully unclaimed.
    let place = c.place_draft().as_ref().expect("the claimed draft was promoted");
    assert!(place.is_complete());
    let pick = c.pick_draft().as_ref().expect("the deck still covers a draft");
    assert!(!pick.is_complete());
    for s in 0..4 {
        assert_eq!(pick.player_on(s), None);
    }
    // Priority follows claim order: [slot0, slot1, slot2, slot3] were
    // claimed by players 2, 4, 1, 3.
    assert_eq!(c.player_at(0).id(), 2);
    assert_eq!(c.player_at(1).id(), 4);
    assert_eq!(c.player_at(2).id(), 1);
    assert_eq!(c.player_at(3).id(), 3);
    // Every player still holds the domino they picked, queued.
    for j in 0..4 {
        assert!(!c.player_at(j).is_not_placing());
    }
}

#[test]
fn events_that_do_not_fit_are_ignored() {
    let mut c = Controller::new();
    // Placing input during picking: a no-op.
    assert_eq!(
        c.update(GameEvent::PlaceAt(BuildRotation::UP, 4, 5)),
        StepOutcome::Ignored
    );
    assert_eq!(c.phase(), Phase::Picking(Turn::Prio1));
    // An out-of-range slot: a no-op.
    assert_eq!(c.update(GameEvent::PickSlot(9)), StepOutcome::Ignored);
    // A slot already claimed: a no-op for the next player.
    assert_eq!(c.update(GameEvent::PickSlot(0)), StepOutcome::Picked);
    assert_eq!(c.update(GameEvent::PickSlot(0)), StepOutcome::Ignored);
    assert_eq!(c.phase(), Phase::Picking(Turn::Prio2));
}

#[test]
fn second_round_alternates_pick_and_place() {
    let mut c = Controller::new();
    for s in 0..4 {
        assert_eq!(c.update(GameEvent::PickSlot(s)), StepOutcome::Picked);
    }
    assert_eq!(c.phase(), Phase::Picking(Turn::Prio1));
    assert_eq!(c.round(), 2);
    // Priority kept identity order: claims were made in slot order.
    assert_eq!(c.player_at(0).id(), 1);
    // The first player of round two picks, then places.
    assert_eq!(c.update(GameEvent::PickSlot(0)), StepOutcome::Picked);
    assert_eq!(c.phase(), Phase::Placing(Turn::Prio1));
    // A cell with no anchor is refused; next to the castle it works.
    assert_eq!(
        c.update(GameEvent::PlaceAt(BuildRotation::LEFT, 0, 0)),
        StepOutcome::Ignored
    );
    assert_eq!(c.phase(), Phase::Placing(Turn::Prio1));
    assert_eq!(
        c.update(GameEvent::PlaceAt(BuildRotation::LEFT, 4, 5)),
        StepOutcome::Placed
    );
    assert_eq!(c.phase(), Phase::Picking(Turn::Prio2));
    // The domino landed on that player's grid and the queue is clear.
    assert_eq!(c.player_at(0).grid().domino_map().len(), 1);
    assert!(c.player_at(0).is_not_placing());
}

#[test]
fn a_full_game_reaches_game_over() {
    let mut c = Controller::new();
    // Round one: four picks.
    for s in 0..4 {
        assert_eq!(c.update(GameEvent::PickSlot(s)), StepOutcome::Picked);
    }
    // Eleven more rounds of pick-and-place; players place wherever their
    // grid accepts, scanning the socket maps.
    while !c.game_over() {
        match c.phase() {
            Phase::Picking(_) => {
                let mut picked = false;
                for s in 0..4 {
                    match c.update(GameEvent::PickSlot(s)) {
                        StepOutcome::Ignored => {},
                        _ => {
                            picked = true;
                            break;
                        },
                    }
                }
                assert!(picked || c.game_over());
            },
            Phase::Placing(t) => {
                let rotations = [BuildRotation::UP, BuildRotation::DOWN, BuildRotation::LEFT,
                    BuildRotation::RIGHT];
                let mut done = false;
                'outer: for rot in rotations {
                    let map = match rot {
                        BuildRotation::UP => c.player_at(t.idx()).grid().get_up_map().clone(),
                        BuildRotation::DOWN => c.player_at(t.idx()).grid().get_down_map().clone(),
                        BuildRotation::LEFT => c.player_at(t.idx()).grid().get_left_map().clone(),
                        BuildRotation::RIGHT => {
                            c.player_at(t.idx()).grid().get_right_map().clone()
                        },
                    };
                    for r in 0..9 {
                        for col in 0..9 {
                            if map[r * 9 + col] {
                                assert_eq!(
                                    c.update(GameEvent::PlaceAt(rot, r, col)),
                                    StepOutcome::Placed
                                );
                                done = true;
                                break 'outer;
                            }
                        }
                    }
                }
                // Placing is only entered with at least one legal socket.
                assert!(done);
            },
        }
    }
    // Option (b) game end: the deck is exhausted, both drafts resolved,
    // and nobody holds a queued domino.
    assert_eq!(c.deck().len(), 0);
    assert_eq!(c.round(), 13);
    for j in 0..4 {
        assert!(c.player_at(j).is_not_placing());
    }
}
