use vstd::prelude::*;

verus! {

/// The non-recoverable caller-contract failures of the rules engine.
/// Each names the operation that was invoked outside its contract;
/// none is a reachable game state.
#[derive(Clone, Copy, PartialEq, Eq, Structural, Debug)]
pub enum GameError {
    /// A draw was attempted from an empty deck.
    EmptyDeck,
    /// A draft was requested from a deck holding fewer than four dominoes.
    DeckTooSmall,
    /// A draft slot index outside 0..=3 was named.
    SlotOutOfRange,
    /// A draft slot that already carries a claim was claimed again.
    SlotAlreadyClaimed,
    /// A reorder was requested of a draft that is not fully claimed.
    DraftIncomplete,
    /// A claimant id of a completed draft matches none of the players.
    MissingClaimant,
}

} // verus!
