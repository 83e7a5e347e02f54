use vstd::prelude::*;

use crate::deck::distinct_ids;
use crate::deck::has_id;
use crate::domino::Domino;
use crate::error::GameError;

verus! {

pub const DRAFT_SIZE: usize = 4;

/// Strictly ascending domino ids.
pub open spec fn sorted_by_id(s: Seq<Domino>) -> bool {
    forall|i: int, j: int| 0 <= i < j < s.len() ==> s[i].id < s[j].id
}

/// True where some id of the list equals `id`.
pub open spec fn ids_have(s: Seq<u8>, id: u8) -> bool {
    exists|k: int| 0 <= k < s.len() && s[k] == id
}

/// No two successful claims of one draft land on the same slot: a pick
/// claims only an unclaimed slot, and a claim, once made, stays exactly as
/// it was made. So no two players ever claim the same slot.
pub proof fn lemma_no_double_claim(
    d0: Draft,
    d1: Draft,
    d2: Draft,
    s1: int,
    p1: u8,
    s2: int,
    p2: u8,
)
    requires
        d0.wf(),
        0 <= s1 < 4,
        0 <= s2 < 4,
        d0.claims()[s1] is None,
        d1.claims() == d0.claims().update(s1, Some(p1)),
        d1.claims()[s2] is None,
        d2.claims() == d1.claims().update(s2, Some(p2)),
    ensures
        s1 != s2,
        d2.claims()[s1] == Some(p1),
        d2.claims()[s2] == Some(p2),
{
}

/// The four face-up dominoes offered in one round, with per-slot claim
/// tracking. Slots are sorted ascending by id when the draft is built and
/// never re-sorted; each slot is claimed at most once.
pub struct Draft {
    slots: Vec<Domino>,
    claims: Vec<Option<u8>>,
}

/// Inserts a domino into a strictly sorted list, keeping it sorted.
fn insert_sorted(v: &mut Vec<Domino>, d: Domino)
    requires
        sorted_by_id(old(v)@),
        d.wf(),
        !has_id(old(v)@, d.id),
        old(v)@.len() < 4,
    ensures
        final(v)@.len() == old(v)@.len() + 1,
        sorted_by_id(final(v)@),
        final(v)@.contains(d),
        forall|k: int| 0 <= k < old(v)@.len() ==> final(v)@.contains(#[trigger] old(v)@[k]),
        forall|k: int| 0 <= k < final(v)@.len()
            ==> old(v)@.contains(#[trigger] final(v)@[k]) || final(v)@[k] == d,
{
    let mut i: usize = 0;
    while i < v.len() && v[i].id < d.id
        invariant
            0 <= i <= v@.len(),
            v@ == old(v)@,
            forall|m: int| 0 <= m < i ==> v@[m].id < d.id,
        decreases v@.len() - i,
    {
        i = i + 1;
    }
    proof {
        // No slot holds d.id, so the stopping slot's id lies strictly above.
        if i < v@.len() {
            assert(v@[i as int].id != d.id) by {
                assert(!has_id(v@, d.id));
            }
        }
    }
    v.insert(i, d);
    proof {
        let s0 = old(v)@;
        let s1 = v@;
        assert forall|a: int, b: int| 0 <= a < b < s1.len() implies s1[a].id < s1[b].id by {
            assert(s1[a] == (if a < i { s0[a] } else if a == i { d } else { s0[a - 1] }));
            assert(s1[b] == (if b < i { s0[b] } else if b == i { d } else { s0[b - 1] }));
        }
        assert(s1[i as int] == d);
        assert forall|k: int| 0 <= k < s0.len() implies s1.contains(#[trigger] s0[k]) by {
            if k < i {
                assert(s1[k] == s0[k]);
            } else {
                assert(s1[k + 1] == s0[k]);
            }
        }
        assert forall|k: int| 0 <= k < s1.len() implies s0.contains(#[trigger] s1[k]) || s1[k] == d by {
            if k < i {
                assert(s1[k] == s0[k]);
            } else if k > i {
                assert(s1[k] == s0[k - 1]);
            }
        }
    }
}

impl Draft {
    /// The dominoes on offer, in slot order.
    pub closed spec fn dominoes(self) -> Seq<Domino> {
        self.slots@
    }

    /// The claim on each slot: the claiming player's id, or `None`.
    pub closed spec fn claims(self) -> Seq<Option<u8>> {
        self.claims@
    }

    pub open spec fn wf(self) -> bool {
        &&& self.dominoes().len() == 4
        &&& self.claims().len() == 4
        &&& sorted_by_id(self.dominoes())
        &&& forall|k: int| 0 <= k < 4 ==> (#[trigger] self.dominoes()[k]).wf()
    }

    /// Every slot carries a claim.
    pub open spec fn spec_complete(self) -> bool {
        forall|k: int| 0 <= k < 4 ==> (#[trigger] self.claims()[k]) is Some
    }

    /// Builds a draft from four distinct dominoes: the slots are the same
    /// four dominoes sorted ascending by id, with no claims.
    pub fn new(dominoes: Vec<Domino>) -> (d: Draft)
        requires
            dominoes@.len() == 4,
            distinct_ids(dominoes@),
            forall|k: int| 0 <= k < 4 ==> (#[trigger] dominoes@[k]).wf(),
        ensures
            d.wf(),
            forall|k: int| 0 <= k < 4 ==> (#[trigger] d.claims()[k]) is None,
            forall|k: int| 0 <= k < 4 ==> dominoes@.contains(#[trigger] d.dominoes()[k]),
            forall|k: int| 0 <= k < 4 ==> d.dominoes().contains(#[trigger] dominoes@[k]),
    {
        let mut slots: Vec<Domino> = Vec::new();
        let mut i: usize = 0;
        while i < 4
            invariant
                0 <= i <= 4,
                dominoes@.len() == 4,
                distinct_ids(dominoes@),
                forall|k: int| 0 <= k < 4 ==> (#[trigger] dominoes@[k]).wf(),
                slots@.len() == i,
                sorted_by_id(slots@),
                forall|k: int| 0 <= k < slots@.len()
                    ==> exists|m: int| 0 <= m < i && #[trigger] slots@[k] == dominoes@[m],
                forall|m: int| 0 <= m < i ==> slots@.contains(#[trigger] dominoes@[m]),
            decreases 4 - i,
        {
            let d = dominoes[i];
            proof {
                // d's id is absent from the slots built so far: each slot
                // came from an earlier position, and ids are distinct.
                assert forall|k: int| 0 <= k < slots@.len() implies slots@[k].id != d.id by {
                    let m = choose|m: int| 0 <= m < i && slots@[k] == dominoes@[m];
                    assert(dominoes@[m].id != dominoes@[i as int].id);
                }
                assert(!has_id(slots@, d.id));
            }
            insert_sorted(&mut slots, d);
            proof {
                assert forall|k: int| 0 <= k < slots@.len()
                    implies exists|m: int| 0 <= m < i + 1 && #[trigger] slots@[k] == dominoes@[m] by {
                    if slots@[k] == d {
                        assert(slots@[k] == dominoes@[i as int]);
                    }
                }
            }
            i = i + 1;
        }
        let mut claims: Vec<Option<u8>> = Vec::new();
        claims.push(None);
        claims.push(None);
        claims.push(None);
        claims.push(None);
        Draft { slots, claims }
    }

    /// True where the slot exists and carries no claim yet.
    pub fn pickable(&self, idx: usize) -> (r: bool)
        requires
            self.wf(),
        ensures
            r == (idx < 4 && self.claims()[idx as int] is None),
    {
        idx < DRAFT_SIZE && self.claims[idx].is_none()
    }

    /// The id of the player whose claim sits on the slot, if any.
    pub fn player_on(&self, idx: usize) -> (r: Option<u8>)
        requires
            self.wf(),
            idx < 4,
        ensures
            r == self.claims()[idx as int],
    {
        self.claims[idx]
    }

    /// True when every slot is claimed.
    pub fn is_complete(&self) -> (r: bool)
        requires
            self.wf(),
        ensures
            r == self.spec_complete(),
    {
        let mut k: usize = 0;
        while k < 4
            invariant
                self.wf(),
                0 <= k <= 4,
                forall|m: int| 0 <= m < k ==> (#[trigger] self.claims()[m]) is Some,
            decreases 4 - k,
        {
            if self.claims[k].is_none() {
                return false;
            }
            k = k + 1;
        }
        true
    }

    /// The dominoes on offer, in slot order, as a fresh list.
    pub fn iter(&self) -> (r: Vec<Domino>)
        requires
            self.wf(),
        ensures
            r@ == self.dominoes(),
    {
        let mut out: Vec<Domino> = Vec::new();
        let mut k: usize = 0;
        while k < 4
            invariant
                self.wf(),
                0 <= k <= 4,
                out@ == self.dominoes().take(k as int),
            decreases 4 - k,
        {
            out.push(self.slots[k]);
            proof {
                assert(out@ =~= self.dominoes().take(k + 1));
            }
            k = k + 1;
        }
        proof {
            assert(out@ =~= self.dominoes());
        }
        out
    }

    /// Claims an unclaimed slot for a player and hands back its domino.
    /// A slot index out of range or a slot already claimed is rejected and
    /// leaves the draft untouched; the slots themselves never change.
    pub fn pick(&mut self, idx: usize, player_id: u8) -> (r: Result<Domino, GameError>)
        requires
            old(self).wf(),
        ensures
            final(self).wf(),
            final(self).dominoes() == old(self).dominoes(),
            idx >= 4 ==> r == Err::<Domino, GameError>(GameError::SlotOutOfRange)
                && *final(self) == *old(self),
            idx < 4 && old(self).claims()[idx as int] is Some
                ==> r == Err::<Domino, GameError>(GameError::SlotAlreadyClaimed)
                    && *final(self) == *old(self),
            idx < 4 && old(self).claims()[idx as int] is None ==> {
                &&& r == Ok::<Domino, GameError>(old(self).dominoes()[idx as int])
                &&& final(self).claims() == old(self).claims().update(idx as int, Some(player_id))
            },
    {
        if idx >= DRAFT_SIZE {
            return Err(GameError::SlotOutOfRange);
        }
        if self.claims[idx].is_some() {
            return Err(GameError::SlotAlreadyClaimed);
        }
        self.claims[idx] = Some(player_id);
        Ok(self.slots[idx])
    }

    /// The next round's priority: the claiming players' ids read off the
    /// slots in ascending slot order (the lowest-value pick goes first).
    /// Asks for a completed draft whose every claimant is one of the given
    /// player ids, and rejects anything else.
    pub fn reorder(&self, player_ids: &Vec<u8>) -> (r: Result<Vec<u8>, GameError>)
        requires
            self.wf(),
        ensures
            !self.spec_complete() ==> r == Err::<Vec<u8>, GameError>(GameError::DraftIncomplete),
            self.spec_complete() && (exists|k: int| 0 <= k < 4
                    && !ids_have(player_ids@, (#[trigger] self.claims()[k])->Some_0))
                ==> r == Err::<Vec<u8>, GameError>(GameError::MissingClaimant),
            self.spec_complete() && (forall|k: int| 0 <= k < 4
                    ==> ids_have(player_ids@, (#[trigger] self.claims()[k])->Some_0))
                ==> {
                    &&& r is Ok
                    &&& r->Ok_0@.len() == 4
                    &&& forall|k: int| 0 <= k < 4
                        ==> self.claims()[k] == Some(#[trigger] r->Ok_0@[k])
                },
    {
        if !self.is_complete() {
            return Err(GameError::DraftIncomplete);
        }
        let mut out: Vec<u8> = Vec::new();
        let mut k: usize = 0;
        while k < 4
            invariant
                self.wf(),
                self.spec_complete(),
                0 <= k <= 4,
                out@.len() == k,
                forall|m: int| 0 <= m < k ==> self.claims()[m] == Some(#[trigger] out@[m]),
                forall|m: int| 0 <= m < k
                    ==> ids_have(player_ids@, (#[trigger] self.claims()[m])->Some_0),
            decreases 4 - k,
        {
            let claimant: u8 = match self.claims[k] {
                Some(p) => p,
                None => { return Err(GameError::DraftIncomplete); },
            };
            let mut found = false;
            let mut j: usize = 0;
            while j < player_ids.len()
                invariant
                    0 <= j <= player_ids@.len(),
                    found ==> ids_have(player_ids@, claimant),
                    !found ==> forall|m: int| 0 <= m < j ==> player_ids@[m] != claimant,
                decreases player_ids@.len() - j,
            {
                if player_ids[j] == claimant {
                    found = true;
                }
                j = j + 1;
            }
            if !found {
                return Err(GameError::MissingClaimant);
            }
            out.push(claimant);
            k = k + 1;
        }
        Ok(out)
    }
}

} // verus!
