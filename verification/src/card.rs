//! The card value type: a magnitude drawn from a fixed ladder of admissible
//! values, with the merge rule that drives the board.

use vstd::prelude::*;

verus! {

/// True exactly for the admissible card magnitudes: 1, 2, 3, and the doubling
/// sequence 6, 12, ..., 12288.
pub open spec fn is_ladder(v: usize) -> bool {
    v == 1 || v == 2 || v == 3 || v == 6 || v == 12 || v == 24 || v == 48 || v == 96 || v == 192
        || v == 384 || v == 768 || v == 1536 || v == 3072 || v == 6144 || v == 12288
}

/// Two cards merge exactly when they carry the pair {1, 2}, or equal values
/// other than two 1s or two 2s.
pub open spec fn spec_mergeable(a: usize, b: usize) -> bool {
    (a == 1 && b == 2) || (a == 2 && b == 1) || (a == b && a != 1 && a != 2)
}

#[derive(Debug, PartialEq, Eq, Structural, Clone, Copy)]
pub struct Card {
    value: usize,
}

#[derive(Debug, PartialEq, Eq, Structural, Clone, Copy)]
pub enum CardError {
    InvalidValue(usize),
}

impl Card {
    /// The magnitude the card carries.
    pub closed spec fn spec_value(self) -> usize {
        self.value
    }

    /// A card is well formed when its magnitude lies on the ladder.
    pub open spec fn wf(self) -> bool {
        is_ladder(self.spec_value())
    }

    pub fn value(&self) -> (v: usize)
        ensures
            v == self.spec_value(),
    {
        self.value
    }

    /// Constructs a card, rejecting any magnitude outside the ladder.
    pub fn new(value: usize) -> (r: Result<Card, CardError>)
        ensures
            r is Ok <==> is_ladder(value),
            r is Ok ==> r->Ok_0.spec_value() == value && r->Ok_0.wf(),
            r is Err ==> r->Err_0 == CardError::InvalidValue(value),
    {
        if value == 1 || value == 2 || value == 3 || value == 6 || value == 12 || value == 24
            || value == 48 || value == 96 || value == 192 || value == 384 || value == 768
            || value == 1536 || value == 3072 || value == 6144 || value == 12288 {
            Ok(Card { value })
        } else {
            Err(CardError::InvalidValue(value))
        }
    }

    /// Whether two cards may merge: equal values merge, except two 1s or two
    /// 2s, and the pair {1, 2} merges regardless of order.
    pub fn mergable(&self, other: Card) -> (r: bool)
        ensures
            r == spec_mergeable(self.spec_value(), other.spec_value()),
    {
        let a = self.value;
        let b = other.value;
        (a == 1 && b == 2) || (a == 2 && b == 1) || (a == b && a != 1 && a != 2)
    }

    /// Merges two cards when the merge rule allows it; the merged magnitude is
    /// the sum of the two.
    pub fn merge(&self, other: Card) -> (r: Option<Card>)
        requires
            self.wf(),
            other.wf(),
        ensures
            r is Some <==> spec_mergeable(self.spec_value(), other.spec_value()),
            r is Some ==> r->0.spec_value() == self.spec_value() + other.spec_value(),
    {
        if self.mergable(other) {
            let value = self.value + other.value;
            Some(Card { value })
        } else {
            None
        }
    }
}

/// Law: every ladder value of at least 3 merges with itself, and the merge
/// doubles it; the ladder pair {1, 2} merges to 3; two 1s or two 2s never
/// merge.
pub proof fn lemma_merge_rule(x: usize)
    requires
        is_ladder(x),
    ensures
        x >= 3 ==> spec_mergeable(x, x),
        !spec_mergeable(1, 1) && !spec_mergeable(2, 2),
        spec_mergeable(1, 2) && spec_mergeable(2, 1),
{
}

} // verus!
