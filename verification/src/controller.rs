use vstd::prelude::*;
use vstd::pervasive::unreached;

use crate::deck::Deck;
use crate::domino::Domino;
use crate::draft::Draft;
use crate::grid::grid_committed_eq;
use crate::grid::BuildRotation;
use crate::grid::Placement;
use crate::player::Player;
use crate::tile::Terrain;
use crate::tile::Tile;
use crate::turn::Turn;

verus! {

/// The controller's state: which half of a subturn is waiting for input,
/// and the priority position whose turn it is.
#[derive(Clone, Copy, PartialEq, Eq, Structural, Debug)]
pub enum Phase {
    Picking(Turn),
    Placing(Turn),
}

/// One external input event: the controller steps once per event, and an
/// event that does not fit the current phase is a no-op for that tick.
#[derive(Clone, Copy, PartialEq, Eq, Structural, Debug)]
pub enum GameEvent {
    /// The active player asks to claim this slot of the pick draft.
    PickSlot(usize),
    /// The active player asks to place the queued domino with its first
    /// half on this cell, at this rotation.
    PlaceAt(BuildRotation, usize, usize),
}

/// What one step did with its event.
#[derive(Clone, Copy, PartialEq, Eq, Structural, Debug)]
pub enum StepOutcome {
    /// The event did not fit the state: nothing changed.
    Ignored,
    /// A draft slot was claimed.
    Picked,
    /// A draft slot was claimed, and the domino was dropped at once
    /// because no socket is legal in any rotation: the forced pass.
    Discarded,
    /// The queued domino was committed to the active player's grid.
    Placed,
}

/// Distinct player ids.
pub open spec fn players_distinct(s: Seq<Player>) -> bool {
    forall|i: int, j: int| 0 <= i < j < s.len() ==> s[i].spec_id() != s[j].spec_id()
}

/// Some player of the list carries the id.
pub open spec fn players_have_id(s: Seq<Player>, id: u8) -> bool {
    exists|k: int| 0 <= k < s.len() && s[k].spec_id() == id
}

/// The ids of the players, in priority order.
pub open spec fn player_ids(s: Seq<Player>) -> Seq<u8> {
    s.map(|j: int, p: Player| p.spec_id())
}

/// Some slot of the claim list is claimed by this id.
pub open spec fn claims_have(cs: Seq<Option<u8>>, id: u8) -> bool {
    exists|s: int| 0 <= s < cs.len() && cs[s] == Some(id)
}

/// The claims mirror a subturn count `pc`: every claim belongs to one of
/// the first `pc` ids, each of those ids holds a claim, and no id holds
/// two.
pub open spec fn claims_match(cs: Seq<Option<u8>>, ids: Seq<u8>, pc: int) -> bool {
    &&& forall|s: int| 0 <= s < 4 && (#[trigger] cs[s]) is Some
        ==> exists|j: int| 0 <= j < pc && ids[j] == cs[s]->Some_0
    &&& forall|j: int| 0 <= j < pc ==> claims_have(cs, #[trigger] ids[j])
    &&& forall|s1: int, s2: int| 0 <= s1 < s2 < 4
            && (#[trigger] cs[s1]) is Some && (#[trigger] cs[s2]) is Some
        ==> cs[s1]->Some_0 != cs[s2]->Some_0
}

/// Claiming one unclaimed slot for the id at position `pc` keeps the
/// claims mirroring the subturn, now one further.
proof fn lemma_claims_after_claim(cs: Seq<Option<u8>>, ids: Seq<u8>, k: int, pc: int)
    requires
        cs.len() == 4,
        ids.len() == 4,
        forall|a: int, b: int| 0 <= a < b < 4 ==> ids[a] != ids[b],
        0 <= k < 4,
        0 <= pc < 4,
        cs[k] is None,
        claims_match(cs, ids, pc),
    ensures
        claims_match(cs.update(k, Some(ids[pc])), ids, pc + 1),
{
    let cs2 = cs.update(k, Some(ids[pc]));
    assert forall|s: int| 0 <= s < 4 && (#[trigger] cs2[s]) is Some
        implies exists|j: int| 0 <= j < pc + 1 && ids[j] == cs2[s]->Some_0 by {
        if s == k {
            assert(ids[pc] == cs2[s]->Some_0);
        } else {
            assert(cs2[s] == cs[s]);
            let j = choose|j: int| 0 <= j < pc && ids[j] == cs[s]->Some_0;
            assert(ids[j] == cs2[s]->Some_0);
        }
    }
    assert forall|j: int| 0 <= j < pc + 1 implies claims_have(cs2, #[trigger] ids[j]) by {
        if j < pc {
            let s = choose|s: int| 0 <= s < cs.len() && cs[s] == Some(ids[j]);
            assert(s != k);
            assert(cs2[s] == Some(ids[j]));
        } else {
            assert(cs2[k] == Some(ids[pc]));
        }
    }
    assert forall|s1: int, s2: int| 0 <= s1 < s2 < 4
            && (#[trigger] cs2[s1]) is Some && (#[trigger] cs2[s2]) is Some
        implies cs2[s1]->Some_0 != cs2[s2]->Some_0 by {
        if s1 == k || s2 == k {
            let so = if s1 == k { s2 } else { s1 };
            assert(cs2[so] == cs[so]);
            let j = choose|j: int| 0 <= j < pc && ids[j] == cs[so]->Some_0;
            assert(ids[j] != ids[pc]);
        }
    }
}

/// With all four ids holding a claim, every slot carries one: four
/// distinct claims spread over four slots fill them all.
proof fn lemma_four_claims_complete(cs: Seq<Option<u8>>, ids: Seq<u8>)
    requires
        cs.len() == 4,
        ids.len() == 4,
        forall|a: int, b: int| 0 <= a < b < 4 ==> ids[a] != ids[b],
        claims_match(cs, ids, 4),
    ensures
        forall|s: int| 0 <= s < 4 ==> (#[trigger] cs[s]) is Some,
{
    assert(claims_have(cs, ids[0]));
    assert(claims_have(cs, ids[1]));
    assert(claims_have(cs, ids[2]));
    assert(claims_have(cs, ids[3]));
    let s0 = choose|s: int| 0 <= s < 4 && cs[s] == Some(ids[0]);
    let s1 = choose|s: int| 0 <= s < 4 && cs[s] == Some(ids[1]);
    let s2 = choose|s: int| 0 <= s < 4 && cs[s] == Some(ids[2]);
    let s3 = choose|s: int| 0 <= s < 4 && cs[s] == Some(ids[3]);
    assert(s0 != s1 && s0 != s2 && s0 != s3 && s1 != s2 && s1 != s3 && s2 != s3);
    assert forall|s: int| 0 <= s < 4 implies (#[trigger] cs[s]) is Some by {
        assert(s == s0 || s == s1 || s == s2 || s == s3);
    }
}

/// Orchestrates the draft/turn-order state machine: it steps once per
/// external input event, alternating a pick and a placement per priority
/// slot within a round, with the first round pick-only, and re-deriving
/// the priority ring from claim order once per round.
pub struct Controller {
    phase: Phase,
    pick_draft: Option<Draft>,
    place_draft: Option<Draft>,
    deck: Deck,
    players: Vec<Player>,
    turn_number: u8,
}

impl Controller {
    pub closed spec fn spec_phase(self) -> Phase {
        self.phase
    }

    pub closed spec fn spec_pick_draft(self) -> Option<Draft> {
        self.pick_draft
    }

    pub closed spec fn spec_place_draft(self) -> Option<Draft> {
        self.place_draft
    }

    pub closed spec fn spec_deck(self) -> Deck {
        self.deck
    }

    /// The players in current priority order.
    pub closed spec fn spec_players(self) -> Seq<Player> {
        self.players@
    }

    pub closed spec fn spec_round(self) -> u8 {
        self.turn_number
    }

    /// How many slots of the pick draft have been claimed this round: the
    /// players at earlier priority positions, plus the active one while a
    /// placement is pending.
    pub open spec fn picks_so_far(self) -> int {
        match self.spec_phase() {
            Phase::Picking(t) => t.spec_idx(),
            Phase::Placing(t) => t.spec_idx() + 1,
        }
    }

    /// The claims of the pick draft mirror the subturn: the players at
    /// priority positions below `picks_so_far` hold exactly one claim
    /// each, and nobody else holds one.
    pub open spec fn claims_track_turns(self) -> bool {
        self.spec_pick_draft() matches Some(pd)
            ==> claims_match(pd.claims(), player_ids(self.spec_players()), self.picks_so_far())
    }

    pub open spec fn wf(self) -> bool {
        &&& self.spec_players().len() == 4
        &&& forall|j: int| 0 <= j < 4 ==> (#[trigger] self.spec_players()[j]).wf()
        &&& players_distinct(self.spec_players())
        &&& self.spec_deck().wf()
        &&& (self.spec_pick_draft() matches Some(pd) ==> pd.wf())
        &&& (self.spec_place_draft() matches Some(pd) ==> pd.wf())
        &&& self.claims_track_turns()
        &&& (self.spec_pick_draft() is Some
            ==> self.spec_deck().dominoes().len() + 4 * (self.spec_round() as int) <= 48
                && 1 <= self.spec_round())
        &&& (self.spec_phase() matches Phase::Placing(t)
            ==> self.spec_players()[t.spec_idx()].spec_placing().wf()
                && self.spec_pick_draft() is Some)
    }

    /// The starting game state: four fresh players in identity order, the
    /// full deck less the first pick draft, no place draft, and the first
    /// priority position picking.
    pub fn new() -> (c: Controller)
        ensures
            c.wf(),
            c.spec_phase() == Phase::Picking(Turn::Prio1),
            c.spec_place_draft() is None,
            c.spec_pick_draft() is Some,
            c.spec_pick_draft()->Some_0.wf(),
            forall|s: int| 0 <= s < 4 ==> (#[trigger] c.spec_pick_draft()->Some_0.claims()[s]) is None,
            c.spec_round() == 1,
            c.spec_deck().dominoes().len() == 44,
            c.spec_players().len() == 4,
            forall|j: int| 0 <= j < 4 ==> (#[trigger] c.spec_players()[j]).spec_id() == j + 1,
            forall|j: int| 0 <= j < 4
                ==> (#[trigger] c.spec_players()[j]).spec_placing().spec_is_null(),
            forall|j: int| 0 <= j < 4
                ==> (#[trigger] c.spec_players()[j]).spec_grid().placements().len() == 0,
            forall|j: int, r: int, c2: int| 0 <= j < 4
                ==> ((#[trigger] c.spec_players()[j].spec_grid().occupied(r, c2))
                    <==> (r == 4 && c2 == 4)),
            forall|j: int| 0 <= j < 4
                ==> (#[trigger] c.spec_players()[j]).spec_grid().cell(4, 4)
                    == (Tile { terrain: Terrain::Castle, crowns: 0u8 }),
            forall|j: int| 0 <= j < 4 ==> {
                let g = (#[trigger] c.spec_players()[j]).spec_grid();
                g.spec_min_row() == 4 && g.spec_max_row() == 4
                    && g.spec_min_col() == 4 && g.spec_max_col() == 4
            },
            forall|j: int, rot: BuildRotation, r: int, c2: int|
                0 <= j < 4 && 0 <= r < 9 && 0 <= c2 < 9
                ==> !(#[trigger] c.spec_players()[j].spec_grid().socket_flag(rot, r, c2)),
    {
        let mut players: Vec<Player> = Vec::new();
        players.push(Player::new(1, "Blue"));
        players.push(Player::new(2, "Green"));
        players.push(Player::new(3, "Red"));
        players.push(Player::new(4, "Yellow"));
        let mut deck = Deck::initial();
        let draft = match deck.new_draft() {
            Ok(d) => d,
            // A full deck always covers a draft.
            Err(_) => unreached(),
        };
        Controller {
            phase: Phase::Picking(Turn::Prio1),
            pick_draft: Some(draft),
            place_draft: None,
            deck,
            players,
            turn_number: 1,
        }
    }

    pub fn phase(&self) -> (p: Phase)
        ensures
            p == self.spec_phase(),
    {
        self.phase
    }

    pub fn round(&self) -> (r: u8)
        ensures
            r == self.spec_round(),
    {
        self.turn_number
    }

    pub fn pick_draft(&self) -> (d: &Option<Draft>)
        ensures
            *d == self.spec_pick_draft(),
    {
        &self.pick_draft
    }

    pub fn place_draft(&self) -> (d: &Option<Draft>)
        ensures
            *d == self.spec_place_draft(),
    {
        &self.place_draft
    }

    pub fn deck(&self) -> (d: &Deck)
        ensures
            *d == self.spec_deck(),
    {
        &self.deck
    }

    /// The player at one priority position.
    pub fn player_at(&self, j: usize) -> (p: &Player)
        requires
            self.wf(),
            j < 4,
        ensures
            *p == self.spec_players()[j as int],
    {
        &self.players[j]
    }

    /// The game ends when the deck can no longer refill the pick draft:
    /// at that moment the deck holds fewer than four dominoes and every
    /// placement of the final round has already resolved, so no player
    /// holds a queued domino either.
    pub fn game_over(&self) -> (r: bool)
        ensures
            r == (self.spec_pick_draft() is None),
    {
        self.pick_draft.is_none()
    }
}

/// The priority position whose turn it is.
pub open spec fn active_turn(pre: Controller) -> Turn {
    match pre.spec_phase() {
        Phase::Picking(t) => t,
        Phase::Placing(t) => t,
    }
}

/// A pick event that fits the state: the controller is picking, a pick
/// draft is on offer, and the named slot exists and is unclaimed.
pub open spec fn valid_pick(pre: Controller, k: int) -> bool {
    &&& pre.spec_phase() is Picking
    &&& pre.spec_pick_draft() is Some
    &&& 0 <= k < 4
    &&& (pre.spec_pick_draft()->Some_0.claims()[k]) is None
}

/// A placement event that fits the state: the controller is placing, and
/// the named cell and rotation are an accepted socket of the active
/// player's queued domino.
pub open spec fn valid_place(pre: Controller, rot: BuildRotation, r: int, c: int) -> bool {
    &&& pre.spec_phase() is Placing
    &&& 0 <= r < 9
    &&& 0 <= c < 9
    &&& ({
        let i = active_turn(pre).spec_idx();
        pre.spec_players()[i].spec_grid().spec_socket_ok(
            pre.spec_players()[i].spec_placing(), rot, r, c)
    })
}

/// `post` is `pre` with the domino queued; nothing else of the player
/// changed, the grid included.
pub open spec fn queued_as(post: Player, pre: Player, d: Domino) -> bool {
    &&& post.spec_id() == pre.spec_id()
    &&& post.spec_name() == pre.spec_name()
    &&& post.spec_placing() == d
    &&& post.spec_grid() == pre.spec_grid()
}

/// `post` is `pre` with the domino queued and the socket maps rebuilt for
/// it; the committed grid state is unchanged.
pub open spec fn queued_computed_as(post: Player, pre: Player, d: Domino) -> bool {
    &&& post.spec_id() == pre.spec_id()
    &&& post.spec_name() == pre.spec_name()
    &&& post.spec_placing() == d
    &&& grid_committed_eq(post.spec_grid(), pre.spec_grid())
    &&& forall|rot: BuildRotation, r: int, c: int| 0 <= r < 9 && 0 <= c < 9
        ==> post.spec_grid().socket_flag(rot, r, c)
            == pre.spec_grid().spec_socket_ok(d, rot, r, c)
}

/// `post` is `pre` after queueing the domino and dropping it unplaced:
/// the forced pass. The committed grid state is unchanged.
pub open spec fn discarded_as(post: Player, pre: Player, d: Domino) -> bool {
    &&& post.spec_id() == pre.spec_id()
    &&& post.spec_name() == pre.spec_name()
    &&& post.spec_placing().spec_is_null()
    &&& grid_committed_eq(post.spec_grid(), pre.spec_grid())
    &&& forall|rot: BuildRotation, r: int, c: int| 0 <= r < 9 && 0 <= c < 9
        ==> post.spec_grid().socket_flag(rot, r, c)
            == pre.spec_grid().spec_socket_ok(d, rot, r, c)
}

/// `post` is `pre` with its queued domino committed at the socket and the
/// queue cleared.
pub open spec fn placed_as(post: Player, pre: Player, rot: BuildRotation, r: usize, c: usize) -> bool {
    &&& post.spec_id() == pre.spec_id()
    &&& post.spec_name() == pre.spec_name()
    &&& post.spec_placing().spec_is_null()
    &&& post.spec_grid().cells()
        == pre.spec_grid().place_cells(pre.spec_placing(), rot, r as int, c as int)
    &&& post.spec_grid().placements() == pre.spec_grid().placements().push(
        Placement { domino_id: pre.spec_placing().id, row: r, col: c, rotation: rot })
}

/// The round rotation: the completed pick draft, claimed as `cs`, becomes
/// the place draft; next round's priority is the claim order, slot by
/// slot; a fresh pick draft is drawn where the deck still covers one,
/// else the pick draft is gone and the game is over; and the first
/// priority position picks again.
pub open spec fn spec_rotation_core(
    pre_deck: Deck,
    pre_round: int,
    dom: Seq<Domino>,
    cs: Seq<Option<u8>>,
    post: Controller,
) -> bool {
    &&& post.spec_phase() == Phase::Picking(Turn::Prio1)
    &&& post.spec_round() as int == pre_round + 1
    &&& (post.spec_place_draft() matches Some(pl) && pl.dominoes() == dom && pl.claims() == cs)
    &&& post.spec_players().len() == 4
    &&& (forall|j: int| 0 <= j < 4 ==> Some((#[trigger] post.spec_players()[j]).spec_id()) == cs[j])
    &&& (pre_deck.dominoes().len() >= 4 ==> {
        &&& post.spec_pick_draft() is Some
        &&& post.spec_pick_draft()->Some_0.wf()
        &&& (forall|s: int| 0 <= s < 4
            ==> (#[trigger] post.spec_pick_draft()->Some_0.claims()[s]) is None)
        &&& post.spec_deck().dominoes().len() == pre_deck.dominoes().len() - 4
    })
    &&& (pre_deck.dominoes().len() < 4
        ==> post.spec_pick_draft() is None && post.spec_deck() == pre_deck)
}

/// What a pick that fits the state does, case by case: round one is
/// pick-only; later rounds move to placing, or force a pass at once when
/// no socket is legal; and the pick that completes a round rotates it.
pub open spec fn spec_pick_step(pre: Controller, post: Controller, k: int, out: StepOutcome) -> bool {
    let t = active_turn(pre);
    let i = t.spec_idx();
    let pd = pre.spec_pick_draft()->Some_0;
    let d = pd.dominoes()[k];
    let cs2 = pd.claims().update(k, Some(pre.spec_players()[i].spec_id()));
    let has = exists|rot: BuildRotation, r: int, c: int| 0 <= r < 9 && 0 <= c < 9
        && pre.spec_players()[i].spec_grid().spec_socket_ok(d, rot, r, c);
    if pre.spec_place_draft() is None {
        // The very first round: the pick is queued and play stays in
        // picking; nothing is placed yet.
        &&& out == StepOutcome::Picked
        &&& (t != Turn::Prio4 ==> {
            &&& post.spec_phase() == Phase::Picking(t.spec_next())
            &&& post.spec_round() == pre.spec_round()
            &&& post.spec_place_draft() is None
            &&& post.spec_deck() == pre.spec_deck()
            &&& (post.spec_pick_draft() matches Some(pd2)
                && pd2.dominoes() == pd.dominoes() && pd2.claims() == cs2)
            &&& post.spec_players().len() == 4
            &&& (forall|j: int| 0 <= j < 4 && j != i
                ==> #[trigger] post.spec_players()[j] == pre.spec_players()[j])
            &&& queued_as(post.spec_players()[i], pre.spec_players()[i], d)
        })
        &&& (t == Turn::Prio4 ==> {
            &&& spec_rotation_core(pre.spec_deck(), pre.spec_round() as int, pd.dominoes(), cs2,
                post)
            &&& (forall|j: int| 0 <= j < 4
                ==> pre.spec_players().contains(#[trigger] post.spec_players()[j])
                    || queued_as(post.spec_players()[j], pre.spec_players()[i], d))
            &&& (forall|j: int| 0 <= j < 4
                    && (#[trigger] post.spec_players()[j]).spec_id()
                        == pre.spec_players()[i].spec_id()
                ==> queued_as(post.spec_players()[j], pre.spec_players()[i], d))
        })
    } else {
        if has {
            &&& out == StepOutcome::Picked
            &&& post.spec_phase() == Phase::Placing(t)
            &&& post.spec_round() == pre.spec_round()
            &&& post.spec_place_draft() == pre.spec_place_draft()
            &&& post.spec_deck() == pre.spec_deck()
            &&& (post.spec_pick_draft() matches Some(pd2)
                && pd2.dominoes() == pd.dominoes() && pd2.claims() == cs2)
            &&& post.spec_players().len() == 4
            &&& (forall|j: int| 0 <= j < 4 && j != i
                ==> #[trigger] post.spec_players()[j] == pre.spec_players()[j])
            &&& queued_computed_as(post.spec_players()[i], pre.spec_players()[i], d)
        } else {
            &&& out == StepOutcome::Discarded
            &&& (t != Turn::Prio4 ==> {
                &&& post.spec_phase() == Phase::Picking(t.spec_next())
                &&& post.spec_round() == pre.spec_round()
                &&& post.spec_place_draft() == pre.spec_place_draft()
                &&& post.spec_deck() == pre.spec_deck()
                &&& (post.spec_pick_draft() matches Some(pd2)
                    && pd2.dominoes() == pd.dominoes() && pd2.claims() == cs2)
                &&& post.spec_players().len() == 4
                &&& (forall|j: int| 0 <= j < 4 && j != i
                    ==> #[trigger] post.spec_players()[j] == pre.spec_players()[j])
                &&& discarded_as(post.spec_players()[i], pre.spec_players()[i], d)
            })
            &&& (t == Turn::Prio4 ==> {
                &&& spec_rotation_core(pre.spec_deck(), pre.spec_round() as int, pd.dominoes(),
                    cs2, post)
                &&& (forall|j: int| 0 <= j < 4
                    ==> pre.spec_players().contains(#[trigger] post.spec_players()[j])
                        || discarded_as(post.spec_players()[j], pre.spec_players()[i], d))
                &&& (forall|j: int| 0 <= j < 4
                        && (#[trigger] post.spec_players()[j]).spec_id()
                            == pre.spec_players()[i].spec_id()
                    ==> discarded_as(post.spec_players()[j], pre.spec_players()[i], d))
            })
        }
    }
}

/// What a placement that fits the state does: the domino is committed to
/// the active player's grid, and play returns to picking — at the next
/// priority position, or rotating the round after the last one.
pub open spec fn spec_place_step(
    pre: Controller,
    post: Controller,
    rot: BuildRotation,
    r: usize,
    c: usize,
) -> bool {
    let t = active_turn(pre);
    let i = t.spec_idx();
    &&& (t != Turn::Prio4 ==> {
        &&& post.spec_phase() == Phase::Picking(t.spec_next())
        &&& post.spec_round() == pre.spec_round()
        &&& post.spec_pick_draft() == pre.spec_pick_draft()
        &&& post.spec_place_draft() == pre.spec_place_draft()
        &&& post.spec_deck() == pre.spec_deck()
        &&& post.spec_players().len() == 4
        &&& (forall|j: int| 0 <= j < 4 && j != i
            ==> #[trigger] post.spec_players()[j] == pre.spec_players()[j])
        &&& placed_as(post.spec_players()[i], pre.spec_players()[i], rot, r, c)
    })
    &&& (t == Turn::Prio4 ==> {
        &&& (pre.spec_pick_draft() matches Some(pd)
            && spec_rotation_core(pre.spec_deck(), pre.spec_round() as int, pd.dominoes(),
                pd.claims(), post))
        &&& (forall|j: int| 0 <= j < 4
            ==> pre.spec_players().contains(#[trigger] post.spec_players()[j])
                || placed_as(post.spec_players()[j], pre.spec_players()[i], rot, r, c))
        &&& (forall|j: int| 0 <= j < 4
                && (#[trigger] post.spec_players()[j]).spec_id()
                    == pre.spec_players()[i].spec_id()
            ==> placed_as(post.spec_players()[j], pre.spec_players()[i], rot, r, c))
    })
}

/// Removing one player keeps the others' ids, drops that id, and keeps
/// the ids distinct.
proof fn lemma_remove_player(s: Seq<Player>, k: int)
    requires
        0 <= k < s.len(),
        players_distinct(s),
    ensures
        players_distinct(s.remove(k)),
        !players_have_id(s.remove(k), s[k].spec_id()),
        forall|x: u8| x != s[k].spec_id()
            ==> (players_have_id(s.remove(k), x) <==> players_have_id(s, x)),
        forall|m: int| 0 <= m < s.remove(k).len() ==> s.contains(#[trigger] s.remove(k)[m]),
{
    let t = s.remove(k);
    assert forall|m: int| 0 <= m < t.len()
        implies t[m] == (if m < k { s[m] } else { s[m + 1] }) by {}
    assert forall|x: u8| x != s[k].spec_id() && players_have_id(s, x)
        implies players_have_id(t, x) by {
        let m = choose|m: int| 0 <= m < s.len() && s[m].spec_id() == x;
        if m < k {
            assert(t[m].spec_id() == x);
        } else {
            assert(m != k);
            assert(t[m - 1].spec_id() == x);
        }
    }
    assert forall|m: int| 0 <= m < t.len() implies s.contains(#[trigger] t[m]) by {
        if m < k {
            assert(t[m] == s[m]);
        } else {
            assert(t[m] == s[m + 1]);
        }
    }
}

/// Taking an element out and putting another back at the same position is
/// a plain update.
proof fn lemma_reinsert(s: Seq<Player>, i: int, x: Player)
    requires
        0 <= i < s.len(),
    ensures
        s.remove(i).insert(i, x) == s.update(i, x),
{
    assert(s.remove(i).insert(i, x) =~= s.update(i, x));
}

/// Re-orders four players to match a priority list of their ids, consuming
/// the given list.
#[verifier::rlimit(50)]
fn order_players(rem: &mut Vec<Player>, priority: &Vec<u8>) -> (out: Vec<Player>)
    requires
        old(rem)@.len() == 4,
        priority@.len() == 4,
        players_distinct(old(rem)@),
        forall|j: int| 0 <= j < 4 ==> (#[trigger] old(rem)@[j]).wf(),
        forall|k: int| 0 <= k < 4 ==> players_have_id(old(rem)@, #[trigger] priority@[k]),
        forall|a: int, b: int| 0 <= a < b < 4 ==> priority@[a] != priority@[b],
    ensures
        out@.len() == 4,
        forall|k: int| 0 <= k < 4 ==> (#[trigger] out@[k]).spec_id() == priority@[k],
        forall|k: int| 0 <= k < 4 ==> old(rem)@.contains(#[trigger] out@[k]),
        forall|k: int| 0 <= k < 4 ==> (#[trigger] out@[k]).wf(),
        players_distinct(out@),
{
    let mut out: Vec<Player> = Vec::new();
    let mut k: usize = 0;
    proof {
        assert forall|m: int| 0 <= m < rem@.len()
            implies old(rem)@.contains(#[trigger] rem@[m]) by {
            assert(rem@[m] == old(rem)@[m]);
        }
    }
    while k < 4
        invariant
            0 <= k <= 4,
            out@.len() == k,
            rem@.len() == 4 - k,
            priority@.len() == 4,
            players_distinct(rem@),
            forall|m: int| 0 <= m < rem@.len() ==> old(rem)@.contains(#[trigger] rem@[m]),
            forall|j: int| 0 <= j < 4 ==> (#[trigger] old(rem)@[j]).wf(),
            old(rem)@.len() == 4,
            forall|n: int| k <= n < 4 ==> players_have_id(rem@, #[trigger] priority@[n]),
            forall|a: int, b: int| 0 <= a < b < 4 ==> priority@[a] != priority@[b],
            forall|m: int| 0 <= m < k ==> (#[trigger] out@[m]).spec_id() == priority@[m],
            forall|m: int| 0 <= m < k ==> old(rem)@.contains(#[trigger] out@[m]),
        decreases 4 - k,
    {
        let want = priority[k];
        let mut j: usize = 0;
        let mut found: Option<usize> = None;
        while j < rem.len()
            invariant
                0 <= j <= rem@.len(),
                found matches Some(f) ==> f < rem@.len() && rem@[f as int].spec_id() == want,
                found is None ==> forall|m: int| 0 <= m < j ==> rem@[m].spec_id() != want,
            decreases rem@.len() - j,
        {
            if found.is_none() && rem[j].id() == want {
                found = Some(j);
            }
            j = j + 1;
        }
        let fidx = match found {
            Some(f) => f,
            None => {
                proof {
                    let m = choose|m: int| 0 <= m < rem@.len() && rem@[m].spec_id() == want;
                    assert(false);
                }
                unreached()
            },
        };
        let ghost rem_pre = rem@;
        let p = rem.remove(fidx);
        proof {
            lemma_remove_player(rem_pre, fidx as int);
            assert forall|n: int| k + 1 <= n < 4
                implies players_have_id(rem@, #[trigger] priority@[n]) by {
                assert(priority@[n] != want);
            }
            assert forall|m: int| 0 <= m < rem@.len()
                implies old(rem)@.contains(#[trigger] rem@[m]) by {
                assert(rem_pre.contains(rem@[m]));
                let j1 = choose|j1: int| 0 <= j1 < rem_pre.len() && rem_pre[j1] == rem@[m];
                assert(old(rem)@.contains(rem_pre[j1]));
            }
        }
        out.push(p);
        k = k + 1;
    }
    proof {
        // Distinct priorities give distinct ids.
        assert forall|a: int, b: int| 0 <= a < b < out@.len()
            implies out@[a].spec_id() != out@[b].spec_id() by {}
        assert forall|m: int| 0 <= m < 4 implies (#[trigger] out@[m]).wf() by {
            let j2 = choose|j2: int| 0 <= j2 < old(rem)@.len() && old(rem)@[j2] == out@[m];
        }
    }
    out
}

impl Controller {
    /// Rotates the round once the pick draft is fully claimed: promotes it
    /// to the place draft, re-derives the priority ring from claim order,
    /// draws a fresh pick draft where the deck still covers one, and hands
    /// the first priority position the next pick.
    fn rotate_round(&mut self)
        requires
            old(self).spec_players().len() == 4,
            forall|j: int| 0 <= j < 4 ==> (#[trigger] old(self).spec_players()[j]).wf(),
            players_distinct(old(self).spec_players()),
            old(self).spec_deck().wf(),
            old(self).spec_pick_draft() matches Some(pd) && pd.wf()
                && claims_match(pd.claims(), player_ids(old(self).spec_players()), 4),
            old(self).spec_deck().dominoes().len() + 4 * (old(self).spec_round() as int) <= 48,
            1 <= old(self).spec_round(),
        ensures
            final(self).wf(),
            spec_rotation_core(old(self).spec_deck(), old(self).spec_round() as int,
                old(self).spec_pick_draft()->Some_0.dominoes(),
                old(self).spec_pick_draft()->Some_0.claims(), *final(self)),
            forall|j: int| 0 <= j < 4
                ==> old(self).spec_players().contains(#[trigger] final(self).spec_players()[j]),
    {
        let ghost ids = player_ids(old(self).spec_players());
        proof {
            assert forall|a: int, b: int| 0 <= a < b < 4 implies ids[a] != ids[b] by {
                assert(ids[a] == old(self).spec_players()[a].spec_id());
                assert(ids[b] == old(self).spec_players()[b].spec_id());
            }
            lemma_four_claims_complete(
                old(self).spec_pick_draft()->Some_0.claims(), ids);
        }
        let pd = match self.pick_draft.take() {
            Some(pd) => pd,
            None => unreached(),
        };
        let mut id_list: Vec<u8> = Vec::new();
        id_list.push(self.players[0].id());
        id_list.push(self.players[1].id());
        id_list.push(self.players[2].id());
        id_list.push(self.players[3].id());
        proof {
            assert(id_list@ =~= ids);
            // Every claimant is one of the players' ids.
            assert forall|s: int| 0 <= s < 4
                implies crate::draft::ids_have(id_list@, (#[trigger] pd.claims()[s])->Some_0) by {
                let j = choose|j: int| 0 <= j < 4 && ids[j] == pd.claims()[s]->Some_0;
                assert(id_list@[j] == pd.claims()[s]->Some_0);
            }
        }
        let prio = match pd.reorder(&id_list) {
            Ok(v) => v,
            Err(_) => unreached(),
        };
        proof {
            // Priorities are claimants of distinct slots, hence distinct,
            // and each one names an actual player.
            assert forall|a: int, b: int| 0 <= a < b < 4 implies prio@[a] != prio@[b] by {
                assert(pd.claims()[a] == Some(prio@[a]));
                assert(pd.claims()[b] == Some(prio@[b]));
            }
            assert forall|n: int| 0 <= n < 4
                implies players_have_id(self.spec_players(), #[trigger] prio@[n]) by {
                let j = choose|j: int| 0 <= j < 4 && ids[j] == pd.claims()[n]->Some_0;
                assert(self.spec_players()[j].spec_id() == prio@[n]);
            }
        }
        let reordered = order_players(&mut self.players, &prio);
        self.players = reordered;
        self.place_draft = Some(pd);
        if self.deck.len() >= 4 {
            let nd = match self.deck.new_draft() {
                Ok(d) => d,
                Err(_) => unreached(),
            };
            self.pick_draft = Some(nd);
        } else {
            self.pick_draft = None;
        }
        self.turn_number = self.turn_number + 1;
        self.phase = Phase::Picking(Turn::Prio1);
        proof {
            assert forall|j: int| 0 <= j < 4
                implies Some((#[trigger] self.spec_players()[j]).spec_id())
                    == pd.claims()[j] by {
                assert(self.spec_players()[j].spec_id() == prio@[j]);
            }
        }
    }
}

/// The ids are untouched by replacing one player with one of the same id.
proof fn lemma_ids_after_update(s: Seq<Player>, i: int, p: Player)
    requires
        0 <= i < s.len(),
        p.spec_id() == s[i].spec_id(),
    ensures
        player_ids(s.update(i, p)) == player_ids(s),
{
    assert(player_ids(s.update(i, p)) =~= player_ids(s));
}

impl Controller {
    /// Steps the state machine once on one external input event. An event
    /// that does not fit the current phase and state is a no-op for that
    /// tick; a fitting pick or placement advances play exactly as
    /// `spec_pick_step` and `spec_place_step` describe.
    #[verifier::rlimit(100)]
    pub fn update(&mut self, ev: GameEvent) -> (out: StepOutcome)
        requires
            old(self).wf(),
        ensures
            final(self).wf(),
            (match ev {
                GameEvent::PickSlot(k) => {
                    &&& (!valid_pick(*old(self), k as int)
                        ==> out == StepOutcome::Ignored && *final(self) == *old(self))
                    &&& (valid_pick(*old(self), k as int)
                        ==> spec_pick_step(*old(self), *final(self), k as int, out))
                },
                GameEvent::PlaceAt(rot, r, c) => {
                    &&& (!valid_place(*old(self), rot, r as int, c as int)
                        ==> out == StepOutcome::Ignored && *final(self) == *old(self))
                    &&& (valid_place(*old(self), rot, r as int, c as int)
                        ==> out == StepOutcome::Placed
                            && spec_place_step(*old(self), *final(self), rot, r, c))
                },
            }),
    {
        match (self.phase, ev) {
            (Phase::Picking(t), GameEvent::PickSlot(k)) => {
                let i = t.idx();
                let pid = self.players[i].id();
                let picked = match &mut self.pick_draft {
                    Some(pd) => pd.pick(k, pid),
                    None => { return StepOutcome::Ignored; },
                };
                let d = match picked {
                    Ok(d) => d,
                    Err(_) => { return StepOutcome::Ignored; },
                };
                proof {
                    let ids = player_ids(old(self).spec_players());
                    assert forall|a: int, b: int| 0 <= a < b < 4 implies ids[a] != ids[b] by {
                        assert(ids[a] == old(self).spec_players()[a].spec_id());
                        assert(ids[b] == old(self).spec_players()[b].spec_id());
                    }
                    assert(ids[i as int] == pid);
                    lemma_claims_after_claim(
                        old(self).spec_pick_draft()->Some_0.claims(), ids, k as int, i as int);
                }
                let mut p = self.players.remove(i);
                p.update_last_picked(d);
                if self.place_draft.is_none() {
                    // The very first round is pick-only: queue the domino
                    // and stay in picking.
                    let ghost pv = p;
                    self.players.insert(i, p);
                    proof {
                        lemma_reinsert(old(self).spec_players(), i as int, pv);
                        lemma_ids_after_update(old(self).spec_players(), i as int, pv);
                    }
                    if i == 3 {
                        let ghost mid = *self;
                        self.rotate_round();
                        proof {
                            assert forall|j: int| 0 <= j < 4
                                implies old(self).spec_players().contains(
                                    #[trigger] self.spec_players()[j])
                                    || queued_as(self.spec_players()[j],
                                        old(self).spec_players()[i as int], d) by {
                                assert(mid.spec_players().contains(self.spec_players()[j]));
                                let m = choose|m: int| 0 <= m < 4
                                    && mid.spec_players()[m] == self.spec_players()[j];
                                if m == i {
                                    assert(queued_as(pv, old(self).spec_players()[i as int], d));
                                } else {
                                    assert(old(self).spec_players()[m] == self.spec_players()[j]);
                                    assert(old(self).spec_players().contains(
                                        self.spec_players()[j]));
                                }
                            }
                            // The slot carrying the active player's id holds
                            // exactly the queued value: no other pre-step
                            // player shares that id.
                            assert forall|j: int| 0 <= j < 4
                                    && (#[trigger] self.spec_players()[j]).spec_id()
                                        == old(self).spec_players()[i as int].spec_id()
                                implies queued_as(self.spec_players()[j],
                                    old(self).spec_players()[i as int], d) by {
                                assert(mid.spec_players().contains(self.spec_players()[j]));
                                let m = choose|m: int| 0 <= m < 4
                                    && mid.spec_players()[m] == self.spec_players()[j];
                                if m != i {
                                    assert(mid.spec_players()[m] == old(self).spec_players()[m]);
                                    assert(old(self).spec_players()[m].spec_id()
                                        != old(self).spec_players()[i as int].spec_id());
                                }
                                assert(self.spec_players()[j] == pv);
                                assert(queued_as(pv, old(self).spec_players()[i as int], d));
                            }
                        }
                        StepOutcome::Picked
                    } else {
                        let mut t2 = t;
                        t2.advance();
                        self.phase = Phase::Picking(t2);
                        StepOutcome::Picked
                    }
                } else {
                    // A later round: the pick is placed (or force-passed)
                    // at once by the same player.
                    let has = p.compute_placements();
                    if has {
                        let ghost pv = p;
                        self.players.insert(i, p);
                        proof {
                            lemma_reinsert(old(self).spec_players(), i as int, pv);
                            lemma_ids_after_update(old(self).spec_players(), i as int, pv);
                        }
                        self.phase = Phase::Placing(t);
                        StepOutcome::Picked
                    } else {
                        p.discard_placing();
                        let ghost pv = p;
                        self.players.insert(i, p);
                        proof {
                            lemma_reinsert(old(self).spec_players(), i as int, pv);
                            lemma_ids_after_update(old(self).spec_players(), i as int, pv);
                        }
                        if i == 3 {
                            let ghost mid = *self;
                            self.rotate_round();
                            proof {
                                assert forall|j: int| 0 <= j < 4
                                    implies old(self).spec_players().contains(
                                        #[trigger] self.spec_players()[j])
                                        || discarded_as(self.spec_players()[j],
                                            old(self).spec_players()[i as int], d) by {
                                    assert(mid.spec_players().contains(self.spec_players()[j]));
                                    let m = choose|m: int| 0 <= m < 4
                                        && mid.spec_players()[m] == self.spec_players()[j];
                                    if m == i {
                                        assert(discarded_as(pv,
                                            old(self).spec_players()[i as int], d));
                                    } else {
                                        assert(old(self).spec_players()[m]
                                            == self.spec_players()[j]);
                                        assert(old(self).spec_players().contains(
                                            self.spec_players()[j]));
                                    }
                                }
                                // The slot carrying the active player's id
                                // holds exactly the force-passed value.
                                assert forall|j: int| 0 <= j < 4
                                        && (#[trigger] self.spec_players()[j]).spec_id()
                                            == old(self).spec_players()[i as int].spec_id()
                                    implies discarded_as(self.spec_players()[j],
                                        old(self).spec_players()[i as int], d) by {
                                    assert(mid.spec_players().contains(self.spec_players()[j]));
                                    let m = choose|m: int| 0 <= m < 4
                                        && mid.spec_players()[m] == self.spec_players()[j];
                                    if m != i {
                                        assert(mid.spec_players()[m]
                                            == old(self).spec_players()[m]);
                                        assert(old(self).spec_players()[m].spec_id()
                                            != old(self).spec_players()[i as int].spec_id());
                                    }
                                    assert(self.spec_players()[j] == pv);
                                    assert(discarded_as(pv,
                                        old(self).spec_players()[i as int], d));
                                }
                            }
                        } else {
                            let mut t2 = t;
                            t2.advance();
                            self.phase = Phase::Picking(t2);
                        }
                        StepOutcome::Discarded
                    }
                }
            },
            (Phase::Placing(t), GameEvent::PlaceAt(rot, r, c)) => {
                let i = t.idx();
                if r >= 9 || c >= 9 {
                    return StepOutcome::Ignored;
                }
                let d = self.players[i].placing();
                let ok = self.players[i].grid().socket_ok(&d, rot, r, c);
                if !ok {
                    return StepOutcome::Ignored;
                }
                let mut p = self.players.remove(i);
                p.commit_placement(rot, r, c);
                let ghost pv = p;
                self.players.insert(i, p);
                proof {
                    lemma_reinsert(old(self).spec_players(), i as int, pv);
                    lemma_ids_after_update(old(self).spec_players(), i as int, pv);
                }
                if i == 3 {
                    let ghost mid = *self;
                    self.rotate_round();
                    proof {
                        assert forall|j: int| 0 <= j < 4
                            implies old(self).spec_players().contains(
                                #[trigger] self.spec_players()[j])
                                || placed_as(self.spec_players()[j],
                                    old(self).spec_players()[i as int], rot, r, c) by {
                            assert(mid.spec_players().contains(self.spec_players()[j]));
                            let m = choose|m: int| 0 <= m < 4
                                && mid.spec_players()[m] == self.spec_players()[j];
                            if m == i {
                                assert(placed_as(pv,
                                    old(self).spec_players()[i as int], rot, r, c));
                            } else {
                                assert(old(self).spec_players()[m] == self.spec_players()[j]);
                                assert(old(self).spec_players().contains(self.spec_players()[j]));
                            }
                        }
                        // The slot carrying the active player's id holds
                        // exactly the committed value.
                        assert forall|j: int| 0 <= j < 4
                                && (#[trigger] self.spec_players()[j]).spec_id()
                                    == old(self).spec_players()[i as int].spec_id()
                            implies placed_as(self.spec_players()[j],
                                old(self).spec_players()[i as int], rot, r, c) by {
                            assert(mid.spec_players().contains(self.spec_players()[j]));
                            let m = choose|m: int| 0 <= m < 4
                                && mid.spec_players()[m] == self.spec_players()[j];
                            if m != i {
                                assert(mid.spec_players()[m] == old(self).spec_players()[m]);
                                assert(old(self).spec_players()[m].spec_id()
                                    != old(self).spec_players()[i as int].spec_id());
                            }
                            assert(self.spec_players()[j] == pv);
                            assert(placed_as(pv,
                                old(self).spec_players()[i as int], rot, r, c));
                        }
                    }
                } else {
                    let mut t2 = t;
                    t2.advance();
                    self.phase = Phase::Picking(t2);
                }
                StepOutcome::Placed
            },
            _ => StepOutcome::Ignored,
        }
    }
}

} // verus!
