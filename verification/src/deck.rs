//! The card supply: a fairly shuffled base pool of twelve low cards consumed
//! without replacement, plus an ephemeral bonus pool derived from the highest
//! card on the board.

use vstd::prelude::*;

use crate::rng::{pick_uniform, roll_ratio, shuffle_values};

verus! {

broadcast use vstd::seq_lib::group_to_multiset_ensures;

/// The base pool before shuffling: four 1s, four 2s and four 3s.
pub open spec fn base_pool() -> Seq<usize> {
    seq![1usize, 1, 1, 1, 2, 2, 2, 2, 3, 3, 3, 3]
}

/// The bonus pool a given high card admits: none below 48; otherwise up to
/// three candidates `high/8, high/16, high/32`, largest first, of which
/// `min(high/48, 3)` are usable.
pub open spec fn spec_bonus_pool(high_card: usize) -> Option<Seq<usize>> {
    if high_card < 48 {
        None
    } else {
        let highest = (high_card / 8) as usize;
        let count = vstd::math::min((high_card / 48) as int, 3);
        Some(seq![highest, (highest / 2) as usize, (highest / 4) as usize].take(count))
    }
}

pub struct Deck {
    cards: Vec<usize>,
    next: usize,
    rng: rand::rngs::ThreadRng,
}

impl Deck {
    /// The shuffled base pool currently being consumed.
    pub closed spec fn pool(self) -> Seq<usize> {
        self.cards@
    }

    /// How many cards of the current pool have been drawn.
    pub closed spec fn cursor(self) -> int {
        self.next as int
    }

    /// The pool always holds some permutation of the twelve base cards, and
    /// the cursor never runs past its end.
    pub open spec fn wf(self) -> bool {
        &&& self.pool().len() == 12
        &&& self.pool().to_multiset() == base_pool().to_multiset()
        &&& 0 <= self.cursor() <= 12
    }

    /// Builds a supply around the given randomness source, with a freshly
    /// shuffled base pool.
    pub fn new(rng: rand::rngs::ThreadRng) -> (r: Deck)
        ensures
            r.wf(),
            r.cursor() == 0,
    {
        let mut rng = rng;
        let cards = fresh_pool_values(&mut rng);
        Deck { cards, next: 0, rng }
    }

    /// Draws the next card. With probability 1/21 the draw is attempted as a
    /// bonus draw keyed to `high_card`; a bonus draw never consumes a base
    /// card. Every other draw comes from the base pool, which is reshuffled
    /// in full once exhausted.
    pub fn draw(&mut self, high_card: usize) -> (r: usize)
        requires
            old(self).wf(),
        ensures
            final(self).wf(),
            spec_bonus_draw(*old(self), *final(self), r, high_card) || spec_base_draw(
                *old(self),
                *final(self),
                r,
            ),
            high_card < 48 ==> spec_base_draw(*old(self), *final(self), r),
    {
        let bonus = self.draw_bonus(high_card);
        match bonus {
            Some(card) => card,
            None => self.draw_basic(),
        }
    }

    /// Draws the next card of the base pool, reshuffling a fresh pool first
    /// when the current one is exhausted.
    pub fn draw_basic(&mut self) -> (r: usize)
        requires
            old(self).wf(),
        ensures
            final(self).wf(),
            spec_base_draw(*old(self), *final(self), r),
            r == 1 || r == 2 || r == 3,
    {
        if self.next < 12 {
            let card = self.cards[self.next];
            self.next = self.next + 1;
            proof {
                lemma_pool_members(self.pool(), self.cursor() - 1);
            }
            card
        } else {
            let fresh = fresh_pool_values(&mut self.rng);
            self.cards = fresh;
            self.next = 1;
            let card = self.cards[0];
            proof {
                lemma_pool_members(self.pool(), 0);
            }
            card
        }
    }

    /// Attempts a bonus draw: with probability 20/21 it declines outright;
    /// otherwise it returns a uniformly chosen card of the bonus pool for
    /// `high_card`, or nothing when that pool is empty. The base pool is never
    /// touched.
    pub fn draw_bonus(&mut self, high_card: usize) -> (r: Option<usize>)
        requires
            old(self).wf(),
        ensures
            final(self).wf(),
            final(self).pool() == old(self).pool(),
            final(self).cursor() == old(self).cursor(),
            r is Some ==> spec_bonus_pool(high_card) is Some && spec_bonus_pool(
                high_card,
            )->0.contains(r->0),
            high_card < 48 ==> r is None,
    {
        if !roll_ratio(1, 21, &mut self.rng) {
            return None;
        }
        match bonus_cards(high_card) {
            None => None,
            Some(pool) => pick_uniform(&pool, &mut self.rng),
        }
    }
}

/// Relates a supply before and after one bonus draw: the drawn card comes from
/// the bonus pool of the given high card, and the base pool and its cursor are
/// untouched.
pub open spec fn spec_bonus_draw(pre: Deck, post: Deck, r: usize, high_card: usize) -> bool {
    &&& spec_bonus_pool(high_card) is Some
    &&& spec_bonus_pool(high_card)->0.contains(r)
    &&& post.pool() == pre.pool()
    &&& post.cursor() == pre.cursor()
}

/// Relates a supply before and after one base draw: either the cursor simply
/// advanced over an unchanged pool and the drawn card is the one it passed, or
/// the pool was exhausted, a fresh permutation was shuffled in, and the drawn
/// card is its first.
pub open spec fn spec_base_draw(pre: Deck, post: Deck, r: usize) -> bool {
    if pre.cursor() < 12 {
        &&& post.pool() == pre.pool()
        &&& post.cursor() == pre.cursor() + 1
        &&& r == pre.pool()[pre.cursor()]
    } else {
        &&& post.pool().to_multiset() == base_pool().to_multiset()
        &&& post.cursor() == 1
        &&& r == post.pool()[0]
    }
}

/// The candidate bonus cards a given high card admits: empty below 48,
/// otherwise `min(high_card / 48, 3)` cards, largest first, starting at
/// `high_card / 8` and halving.
pub fn bonus_cards(high_card: usize) -> (r: Option<Vec<usize>>)
    ensures
        r is Some <==> spec_bonus_pool(high_card) is Some,
        r is Some ==> r->0@ == spec_bonus_pool(high_card)->0,
{
    if high_card < 48 {
        return None;
    }
    let highest = high_card / 8;
    let count: usize = if high_card / 48 < 3 {
        high_card / 48
    } else {
        3
    };
    let candidates: Vec<usize> = vec![highest, highest / 2, highest / 4];
    let mut pool: Vec<usize> = Vec::new();
    let mut i: usize = 0;
    while i < count
        invariant
            i <= count,
            count <= 3,
            candidates@ =~= seq![highest, (highest / 2) as usize, (highest / 4) as usize],
            pool@ =~= candidates@.take(i as int),
        decreases count - i,
    {
        pool.push(candidates[i]);
        proof {
            assert(pool@ =~= candidates@.take(i + 1));
        }
        i = i + 1;
    }
    proof {
        assert(pool@ =~= spec_bonus_pool(high_card)->0);
    }
    Some(pool)
}

/// Law: when the board's high card lies on the ladder and reaches 48, every
/// candidate in the bonus pool lies on the ladder too; together with the base
/// pool holding only 1s, 2s and 3s, every card the supply returns is a valid
/// card value.
pub proof fn lemma_bonus_pool_cards(high_card: usize)
    requires
        crate::card::is_ladder(high_card),
        high_card >= 48,
    ensures
        spec_bonus_pool(high_card) is Some,
        forall|i: int|
            0 <= i < spec_bonus_pool(high_card)->0.len() ==> crate::card::is_ladder(
                #[trigger] spec_bonus_pool(high_card)->0[i],
            ),
{
}

/// Builds and shuffles a fresh twelve-card base pool.
fn fresh_pool_values(rng: &mut rand::rngs::ThreadRng) -> (r: Vec<usize>)
    ensures
        r@.len() == 12,
        r@.to_multiset() == base_pool().to_multiset(),
{
    let mut values: Vec<usize> = vec![1, 1, 1, 1, 2, 2, 2, 2, 3, 3, 3, 3];
    proof {
        assert(values@ =~= base_pool());
    }
    shuffle_values(&mut values, rng);
    values
}

/// Every card of a well-formed pool is a 1, a 2 or a 3.
proof fn lemma_pool_members(pool: Seq<usize>, i: int)
    requires
        pool.len() == 12,
        pool.to_multiset() == base_pool().to_multiset(),
        0 <= i < 12,
    ensures
        pool[i] == 1 || pool[i] == 2 || pool[i] == 3,
{
    assert(pool.contains(pool[i]));
    assert(base_pool().to_multiset().count(pool[i]) > 0);
    assert(base_pool().contains(pool[i]));
    let j = choose|j: int| 0 <= j < base_pool().len() && base_pool()[j] == pool[i];
    assert(base_pool()[j] == 1 || base_pool()[j] == 2 || base_pool()[j] == 3);
}

/// Law: between reshuffles the base pool holds exactly four 1s, four 2s and
/// four 3s and nothing else; since consecutive non-bonus draws return the
/// pool's cards in order and a reshuffle happens exactly every twelve of them,
/// every such twelve-draw window returns exactly four of each value.
pub proof fn lemma_base_window_composition(d: Deck)
    requires
        d.wf(),
    ensures
        d.pool().len() == 12,
        d.pool().to_multiset().count(1usize) == 4,
        d.pool().to_multiset().count(2usize) == 4,
        d.pool().to_multiset().count(3usize) == 4,
        forall|v: usize| v != 1 && v != 2 && v != 3 ==> d.pool().to_multiset().count(v) == 0,
{
    lemma_base_pool_counts();
    assert forall|v: usize| v != 1 && v != 2 && v != 3 implies d.pool().to_multiset().count(v)
        == 0 by {
        if d.pool().to_multiset().count(v) > 0 {
            assert(base_pool().contains(v));
        }
    }
}

/// The multiset of the unshuffled base pool, counted out value by value.
proof fn lemma_base_pool_counts()
    ensures
        base_pool().to_multiset().count(1usize) == 4,
        base_pool().to_multiset().count(2usize) == 4,
        base_pool().to_multiset().count(3usize) == 4,
{
    let s0 = Seq::<usize>::empty();
    let s1 = s0.push(1);
    let s2 = s1.push(1);
    let s3 = s2.push(1);
    let s4 = s3.push(1);
    let s5 = s4.push(2);
    let s6 = s5.push(2);
    let s7 = s6.push(2);
    let s8 = s7.push(2);
    let s9 = s8.push(3);
    let s10 = s9.push(3);
    let s11 = s10.push(3);
    let s12 = s11.push(3);
    assert(base_pool() =~= s12);
    assert(!s0.contains(1usize) && !s0.contains(2usize) && !s0.contains(3usize));
    assert(s0.to_multiset().count(1usize) == 0);
    assert(s0.to_multiset().count(2usize) == 0);
    assert(s0.to_multiset().count(3usize) == 0);
}

} // verus!
