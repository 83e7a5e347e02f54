use vstd::prelude::*;

use crate::domino::Domino;
use crate::draft::Draft;
use crate::error::GameError;
use crate::tile::Terrain;
use crate::tile::Tile;

verus! {

pub const DECK_SIZE: usize = 48;

/// Shorthand for a catalog entry in spec position.
pub open spec fn entry(id: u8, ta: Terrain, ca: u8, tb: Terrain, cb: u8) -> Domino {
    Domino { id, tile_a: Tile { terrain: ta, crowns: ca }, tile_b: Tile { terrain: tb, crowns: cb } }
}

/// The fixed composition of the deck: the domino of each id in 1..=48.
pub open spec fn catalog(id: int) -> Domino {
    if id == 1 { entry(1, Terrain::Wheat, 0, Terrain::Wheat, 0) }
    else if id == 2 { entry(2, Terrain::Wheat, 0, Terrain::Wheat, 0) }
    else if id == 3 { entry(3, Terrain::Forest, 0, Terrain::Forest, 0) }
    else if id == 4 { entry(4, Terrain::Forest, 0, Terrain::Forest, 0) }
    else if id == 5 { entry(5, Terrain::Forest, 0, Terrain::Forest, 0) }
    else if id == 6 { entry(6, Terrain::Forest, 0, Terrain::Forest, 0) }
    else if id == 7 { entry(7, Terrain::Water, 0, Terrain::Water, 0) }
    else if id == 8 { entry(8, Terrain::Water, 0, Terrain::Water, 0) }
    else if id == 9 { entry(9, Terrain::Water, 0, Terrain::Water, 0) }
    else if id == 10 { entry(10, Terrain::Grass, 0, Terrain::Grass, 0) }
    else if id == 11 { entry(11, Terrain::Grass, 0, Terrain::Grass, 0) }
    else if id == 12 { entry(12, Terrain::Swamp, 0, Terrain::Swamp, 0) }
    else if id == 13 { entry(13, Terrain::Wheat, 0, Terrain::Forest, 0) }
    else if id == 14 { entry(14, Terrain::Wheat, 0, Terrain::Water, 0) }
    else if id == 15 { entry(15, Terrain::Wheat, 0, Terrain::Grass, 0) }
    else if id == 16 { entry(16, Terrain::Wheat, 0, Terrain::Swamp, 0) }
    else if id == 17 { entry(17, Terrain::Forest, 0, Terrain::Water, 0) }
    else if id == 18 { entry(18, Terrain::Forest, 0, Terrain::Grass, 0) }
    else if id == 19 { entry(19, Terrain::Wheat, 1, Terrain::Forest, 0) }
    else if id == 20 { entry(20, Terrain::Wheat, 1, Terrain::Water, 0) }
    else if id == 21 { entry(21, Terrain::Wheat, 1, Terrain::Grass, 0) }
    else if id == 22 { entry(22, Terrain::Wheat, 1, Terrain::Swamp, 0) }
    else if id == 23 { entry(23, Terrain::Wheat, 1, Terrain::Mine, 0) }
    else if id == 24 { entry(24, Terrain::Forest, 1, Terrain::Wheat, 0) }
    else if id == 25 { entry(25, Terrain::Forest, 1, Terrain::Wheat, 0) }
    else if id == 26 { entry(26, Terrain::Forest, 1, Terrain::Wheat, 0) }
    else if id == 27 { entry(27, Terrain::Forest, 1, Terrain::Wheat, 0) }
    else if id == 28 { entry(28, Terrain::Forest, 1, Terrain::Water, 0) }
    else if id == 29 { entry(29, Terrain::Forest, 1, Terrain::Wheat, 0) }
    else if id == 30 { entry(30, Terrain::Water, 1, Terrain::Wheat, 0) }
    else if id == 31 { entry(31, Terrain::Water, 1, Terrain::Wheat, 0) }
    else if id == 32 { entry(32, Terrain::Water, 1, Terrain::Forest, 0) }
    else if id == 33 { entry(33, Terrain::Water, 1, Terrain::Forest, 0) }
    else if id == 34 { entry(34, Terrain::Water, 1, Terrain::Forest, 0) }
    else if id == 35 { entry(35, Terrain::Water, 1, Terrain::Forest, 0) }
    else if id == 36 { entry(36, Terrain::Wheat, 0, Terrain::Grass, 1) }
    else if id == 37 { entry(37, Terrain::Water, 0, Terrain::Grass, 1) }
    else if id == 38 { entry(38, Terrain::Wheat, 0, Terrain::Swamp, 1) }
    else if id == 39 { entry(39, Terrain::Grass, 0, Terrain::Swamp, 1) }
    else if id == 40 { entry(40, Terrain::Mine, 1, Terrain::Wheat, 0) }
    else if id == 41 { entry(41, Terrain::Wheat, 0, Terrain::Grass, 2) }
    else if id == 42 { entry(42, Terrain::Water, 0, Terrain::Grass, 2) }
    else if id == 43 { entry(43, Terrain::Wheat, 0, Terrain::Swamp, 2) }
    else if id == 44 { entry(44, Terrain::Grass, 0, Terrain::Swamp, 2) }
    else if id == 45 { entry(45, Terrain::Mine, 2, Terrain::Wheat, 0) }
    else if id == 46 { entry(46, Terrain::Swamp, 0, Terrain::Mine, 2) }
    else if id == 47 { entry(47, Terrain::Swamp, 0, Terrain::Mine, 2) }
    else { entry(48, Terrain::Wheat, 0, Terrain::Mine, 3) }
}

/// The catalog domino of one id.
pub fn domino_for_id(id: u8) -> (d: Domino)
    requires
        1 <= id <= 48,
    ensures
        d == catalog(id as int),
        d.wf(),
        d.id == id,
{
    let (ta, ca, tb, cb): (Terrain, u8, Terrain, u8) = match id {
        1 => (Terrain::Wheat, 0, Terrain::Wheat, 0),
        2 => (Terrain::Wheat, 0, Terrain::Wheat, 0),
        3 => (Terrain::Forest, 0, Terrain::Forest, 0),
        4 => (Terrain::Forest, 0, Terrain::Forest, 0),
        5 => (Terrain::Forest, 0, Terrain::Forest, 0),
        6 => (Terrain::Forest, 0, Terrain::Forest, 0),
        7 => (Terrain::Water, 0, Terrain::Water, 0),
        8 => (Terrain::Water, 0, Terrain::Water, 0),
        9 => (Terrain::Water, 0, Terrain::Water, 0),
        10 => (Terrain::Grass, 0, Terrain::Grass, 0),
        11 => (Terrain::Grass, 0, Terrain::Grass, 0),
        12 => (Terrain::Swamp, 0, Terrain::Swamp, 0),
        13 => (Terrain::Wheat, 0, Terrain::Forest, 0),
        14 => (Terrain::Wheat, 0, Terrain::Water, 0),
        15 => (Terrain::Wheat, 0, Terrain::Grass, 0),
        16 => (Terrain::Wheat, 0, Terrain::Swamp, 0),
        17 => (Terrain::Forest, 0, Terrain::Water, 0),
        18 => (Terrain::Forest, 0, Terrain::Grass, 0),
        19 => (Terrain::Wheat, 1, Terrain::Forest, 0),
        20 => (Terrain::Wheat, 1, Terrain::Water, 0),
        21 => (Terrain::Wheat, 1, Terrain::Grass, 0),
        22 => (Terrain::Wheat, 1, Terrain::Swamp, 0),
        23 => (Terrain::Wheat, 1, Terrain::Mine, 0),
        24 => (Terrain::Forest, 1, Terrain::Wheat, 0),
        25 => (Terrain::Forest, 1, Terrain::Wheat, 0),
        26 => (Terrain::Forest, 1, Terrain::Wheat, 0),
        27 => (Terrain::Forest, 1, Terrain::Wheat, 0),
        28 => (Terrain::Forest, 1, Terrain::Water, 0),
        29 => (Terrain::Forest, 1, Terrain::Wheat, 0),
        30 => (Terrain::Water, 1, Terrain::Wheat, 0),
        31 => (Terrain::Water, 1, Terrain::Wheat, 0),
        32 => (Terrain::Water, 1, Terrain::Forest, 0),
        33 => (Terrain::Water, 1, Terrain::Forest, 0),
        34 => (Terrain::Water, 1, Terrain::Forest, 0),
        35 => (Terrain::Water, 1, Terrain::Forest, 0),
        36 => (Terrain::Wheat, 0, Terrain::Grass, 1),
        37 => (Terrain::Water, 0, Terrain::Grass, 1),
        38 => (Terrain::Wheat, 0, Terrain::Swamp, 1),
        39 => (Terrain::Grass, 0, Terrain::Swamp, 1),
        40 => (Terrain::Mine, 1, Terrain::Wheat, 0),
        41 => (Terrain::Wheat, 0, Terrain::Grass, 2),
        42 => (Terrain::Water, 0, Terrain::Grass, 2),
        43 => (Terrain::Wheat, 0, Terrain::Swamp, 2),
        44 => (Terrain::Grass, 0, Terrain::Swamp, 2),
        45 => (Terrain::Mine, 2, Terrain::Wheat, 0),
        46 => (Terrain::Swamp, 0, Terrain::Mine, 2),
        47 => (Terrain::Swamp, 0, Terrain::Mine, 2),
        _ => (Terrain::Wheat, 0, Terrain::Mine, 3),
    };
    Domino::new(id, Tile::new(ta, ca), Tile::new(tb, cb))
}

/// True where some domino of the pool carries the id.
pub open spec fn has_id(s: Seq<Domino>, id: u8) -> bool {
    exists|k: int| 0 <= k < s.len() && s[k].id == id
}

/// No two dominoes of the pool share an id.
pub open spec fn distinct_ids(s: Seq<Domino>) -> bool {
    forall|i: int, j: int| 0 <= i < j < s.len() ==> s[i].id != s[j].id
}

/// Removing one position from a pool of distinct ids keeps the rest's ids,
/// drops the removed id, and keeps distinctness.
pub proof fn lemma_remove_ids(s: Seq<Domino>, k: int)
    requires
        0 <= k < s.len(),
        distinct_ids(s),
    ensures
        distinct_ids(s.remove(k)),
        !has_id(s.remove(k), s[k].id),
        forall|x: u8| x != s[k].id ==> (has_id(s.remove(k), x) <==> has_id(s, x)),
        forall|m: int| 0 <= m < s.remove(k).len() ==> s.contains(#[trigger] s.remove(k)[m]),
{
    let t = s.remove(k);
    assert forall|m: int| 0 <= m < t.len() implies t[m] == (if m < k { s[m] } else { s[m + 1] }) by {}
    assert forall|m: int| 0 <= m < t.len() implies s.contains(#[trigger] t[m]) by {
        if m < k {
            assert(t[m] == s[m]);
        } else {
            assert(t[m] == s[m + 1]);
        }
    }
    assert forall|x: u8| x != s[k].id && has_id(s, x) implies has_id(t, x) by {
        let m = choose|m: int| 0 <= m < s.len() && s[m].id == x;
        if m < k {
            assert(t[m].id == x);
        } else {
            assert(m != k);
            assert(t[m - 1].id == x);
        }
    }
}

/// Two successful draws in a row return distinct ids: a draw removes its
/// id from the pool for good, and the next draw's id still sits in the
/// shrunken pool. Chained along any run of draws from a fresh deck, every
/// id comes out at most once.
pub proof fn lemma_successive_picks_distinct(pool: Seq<Domino>, d1: Domino, d2: Domino)
    requires
        !has_id(pool, d1.id),
        has_id(pool, d2.id),
    ensures
        d1.id != d2.id,
{
}

/// The pick-without-replacement pool over the fixed 48-domino catalog.
pub struct Deck {
    pool: Vec<Domino>,
}

/// Relies on rand::random_range: returns a value drawn uniformly from the
/// given range; it panics only on an empty range, which the precondition
/// rules out.
#[verifier::external_body]
fn random_index(n: usize) -> (r: usize)
    requires
        n > 0,
    ensures
        r < n,
{
    rand::random_range(0..n)
}

impl Deck {
    /// The dominoes still in the pool.
    pub closed spec fn dominoes(self) -> Seq<Domino> {
        self.pool@
    }

    pub open spec fn wf(self) -> bool {
        &&& distinct_ids(self.dominoes())
        &&& forall|k: int| 0 <= k < self.dominoes().len() ==> #[trigger] self.dominoes()[k].wf()
    }

    /// The full, untouched deck: the 48 catalog dominoes in id order.
    pub fn initial() -> (d: Deck)
        ensures
            d.wf(),
            d.dominoes().len() == 48,
            forall|k: int| 0 <= k < 48 ==> #[trigger] d.dominoes()[k] == catalog(k + 1),
    {
        let mut pool: Vec<Domino> = Vec::new();
        let mut id: u8 = 1;
        while id <= 48
            invariant
                1 <= id <= 49,
                pool@.len() == id - 1,
                forall|k: int| 0 <= k < id - 1 ==> #[trigger] pool@[k] == catalog(k + 1),
                forall|k: int| 0 <= k < id - 1 ==> #[trigger] pool@[k].id == k + 1,
                forall|k: int| 0 <= k < id - 1 ==> #[trigger] pool@[k].wf(),
            decreases 49 - id,
        {
            let d = domino_for_id(id);
            pool.push(d);
            id = id + 1;
        }
        Deck { pool }
    }

    pub fn is_empty(&self) -> (r: bool)
        ensures
            r == (self.dominoes().len() == 0),
    {
        self.pool.len() == 0
    }

    pub fn len(&self) -> (r: usize)
        ensures
            r == self.dominoes().len(),
    {
        self.pool.len()
    }

    /// Uniformly draws one domino from the remaining pool, without
    /// replacement. An empty pool is rejected; otherwise the result is some
    /// pool entry, the pool shrinks by exactly that entry, and its id is
    /// gone from the pool for good.
    pub fn pick_random(&mut self) -> (r: Result<Domino, GameError>)
        requires
            old(self).wf(),
        ensures
            final(self).wf(),
            old(self).dominoes().len() == 0 ==> r == Err::<Domino, GameError>(GameError::EmptyDeck)
                && *final(self) == *old(self),
            old(self).dominoes().len() > 0 ==> {
                &&& r is Ok
                &&& r->Ok_0.wf()
                &&& final(self).dominoes().len() == old(self).dominoes().len() - 1
                &&& exists|k: int| 0 <= k < old(self).dominoes().len()
                    && r->Ok_0 == old(self).dominoes()[k]
                    && final(self).dominoes() == old(self).dominoes().remove(k)
                &&& old(self).dominoes().contains(r->Ok_0)
                &&& forall|m: int| 0 <= m < final(self).dominoes().len()
                    ==> old(self).dominoes().contains(#[trigger] final(self).dominoes()[m])
                &&& has_id(old(self).dominoes(), r->Ok_0.id)
                &&& !has_id(final(self).dominoes(), r->Ok_0.id)
                &&& forall|x: u8| x != r->Ok_0.id
                    ==> (has_id(final(self).dominoes(), x) <==> has_id(old(self).dominoes(), x))
            },
    {
        if self.pool.len() == 0 {
            return Err(GameError::EmptyDeck);
        }
        let k = random_index(self.pool.len());
        let d = self.pool.remove(k);
        proof {
            lemma_remove_ids(old(self).dominoes(), k as int);
            assert(has_id(old(self).dominoes(), d.id));
            assert(old(self).dominoes()[k as int] == d);
        }
        Ok(d)
    }

    /// Draws four distinct dominoes without replacement and offers them as
    /// a fresh, unclaimed draft, sorted ascending by id. A deck holding
    /// fewer than four dominoes is rejected and left untouched.
    pub fn new_draft(&mut self) -> (r: Result<Draft, GameError>)
        requires
            old(self).wf(),
        ensures
            final(self).wf(),
            old(self).dominoes().len() < 4 ==> r is Err
                && r->Err_0 == GameError::DeckTooSmall && *final(self) == *old(self),
            old(self).dominoes().len() >= 4 ==> {
                &&& r is Ok
                &&& r->Ok_0.wf()
                &&& forall|k: int| 0 <= k < 4 ==> (#[trigger] r->Ok_0.claims()[k]) is None
                &&& final(self).dominoes().len() == old(self).dominoes().len() - 4
                &&& forall|k: int| 0 <= k < 4
                    ==> old(self).dominoes().contains(#[trigger] r->Ok_0.dominoes()[k])
                &&& forall|k: int| 0 <= k < 4
                    ==> has_id(old(self).dominoes(), (#[trigger] r->Ok_0.dominoes()[k]).id)
                &&& forall|k: int| 0 <= k < 4
                    ==> !has_id(final(self).dominoes(), (#[trigger] r->Ok_0.dominoes()[k]).id)
                &&& forall|x: u8| !has_id(r->Ok_0.dominoes(), x)
                    ==> (has_id(final(self).dominoes(), x) <==> has_id(old(self).dominoes(), x))
            },
    {
        if self.pool.len() < 4 {
            return Err(GameError::DeckTooSmall);
        }
        let ghost pool0 = self.dominoes();
        let d1 = match self.pick_random() {
            Ok(d) => d,
            Err(_) => { return Err(GameError::DeckTooSmall); },
        };
        let ghost pool1 = self.dominoes();
        let d2 = match self.pick_random() {
            Ok(d) => d,
            Err(_) => { return Err(GameError::DeckTooSmall); },
        };
        let ghost pool2 = self.dominoes();
        let d3 = match self.pick_random() {
            Ok(d) => d,
            Err(_) => { return Err(GameError::DeckTooSmall); },
        };
        let ghost pool3 = self.dominoes();
        let d4 = match self.pick_random() {
            Ok(d) => d,
            Err(_) => { return Err(GameError::DeckTooSmall); },
        };
        let ghost pool4 = self.dominoes();
        proof {
            // Each drawn id was present before its draw and absent after, so
            // the four ids are pairwise distinct and all come from the
            // original pool.
            assert(has_id(pool0, d2.id));
            assert(has_id(pool0, d3.id) && has_id(pool1, d3.id));
            assert(has_id(pool0, d4.id) && has_id(pool1, d4.id) && has_id(pool2, d4.id));
            assert(!has_id(pool4, d1.id) && !has_id(pool4, d2.id) && !has_id(pool4, d3.id));
            // Each drawn domino itself is an entry of the original pool:
            // every draw hands back a pool entry, and every draw keeps the
            // remaining entries.
            assert(pool0.contains(d2)) by {
                let m = choose|m: int| 0 <= m < pool1.len() && pool1[m] == d2;
                assert(pool0.contains(pool1[m]));
            }
            assert(pool1.contains(d3)) by {
                let m = choose|m: int| 0 <= m < pool2.len() && pool2[m] == d3;
                assert(pool1.contains(pool2[m]));
            }
            assert(pool0.contains(d3)) by {
                let m = choose|m: int| 0 <= m < pool1.len() && pool1[m] == d3;
                assert(pool0.contains(pool1[m]));
            }
            assert(pool2.contains(d4)) by {
                let m = choose|m: int| 0 <= m < pool3.len() && pool3[m] == d4;
                assert(pool2.contains(pool3[m]));
            }
            assert(pool1.contains(d4)) by {
                let m = choose|m: int| 0 <= m < pool2.len() && pool2[m] == d4;
                assert(pool1.contains(pool2[m]));
            }
            assert(pool0.contains(d4)) by {
                let m = choose|m: int| 0 <= m < pool1.len() && pool1[m] == d4;
                assert(pool0.contains(pool1[m]));
            }
        }
        let mut picked: Vec<Domino> = Vec::new();
        picked.push(d1);
        picked.push(d2);
        picked.push(d3);
        picked.push(d4);
        proof {
            assert(distinct_ids(picked@));
        }
        let draft = Draft::new(picked);
        proof {
            let ds = draft.dominoes();
            assert forall|k: int| 0 <= k < 4 implies pool0.contains(#[trigger] ds[k]) by {
                assert(picked@.contains(ds[k]));
                let m = choose|m: int| 0 <= m < 4 && picked@[m] == ds[k];
                assert(picked@[0] == d1 && picked@[1] == d2 && picked@[2] == d3
                    && picked@[3] == d4);
            }
            assert forall|k: int| 0 <= k < 4 implies has_id(pool0, (#[trigger] ds[k]).id) by {
                assert(picked@.contains(ds[k]));
            }
            assert forall|k: int| 0 <= k < 4 implies !has_id(pool4, (#[trigger] ds[k]).id) by {
                assert(picked@.contains(ds[k]));
                let m = choose|m: int| 0 <= m < 4 && picked@[m] == ds[k];
            }
            assert forall|x: u8| !has_id(ds, x)
                implies (has_id(pool4, x) <==> has_id(pool0, x)) by {
                // x differs from every drafted id, hence from each drawn id.
                assert(ds.contains(draft.dominoes()[0]));
                assert forall|m: int| 0 <= m < 4 implies x != (#[trigger] picked@[m]).id by {
                    assert(ds.contains(picked@[m]));
                    let n = choose|n: int| 0 <= n < 4 && ds[n] == picked@[m];
                    assert(ds[n].id == picked@[m].id);
                }
                assert(picked@[0] == d1 && picked@[1] == d2 && picked@[2] == d3
                    && picked@[3] == d4);
                assert(x != d1.id && x != d2.id && x != d3.id && x != d4.id);
            }
        }
        Ok(draft)
    }
}

} // verus!
