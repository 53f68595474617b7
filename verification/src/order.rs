//! Evaluation-order analysis.
//!
//! Partitioning emits the entries of a props object in four groups, one after
//! the other, and keeps the source order inside each group. So it changes the
//! relative order of two entries exactly when the one written first lands in a
//! later group.
use vstd::prelude::*;

verus! {

/// The group in which an entry of a props object is emitted. Groups are
/// emitted in the order in which they are listed.
#[derive(Debug, Clone, Copy, PartialEq, Eq, PartialOrd, Ord, Structural)]
pub enum EmitRank {
    /// A leading spread, or a prop that stays flat beside one.
    Spread,
    /// A CSS prop.
    Css,
    /// Any other prop that is not special.
    Data,
    /// A special key, left at the tail.
    Special,
}

impl EmitRank {
    /// The position of the group among the four.
    pub open spec fn position(self) -> int {
        match self {
            EmitRank::Spread => 0,
            EmitRank::Css => 1,
            EmitRank::Data => 2,
            EmitRank::Special => 3,
        }
    }

    fn number(self) -> (r: u8)
        ensures
            r == self.position(),
    {
        match self {
            EmitRank::Spread => 0,
            EmitRank::Css => 1,
            EmitRank::Data => 2,
            EmitRank::Special => 3,
        }
    }
}

/// A sequence of ranks in which none comes after a later one.
pub open spec fn non_decreasing(ranks: Seq<EmitRank>) -> bool {
    forall|i: int, j: int|
        0 <= i < j < ranks.len() ==> (#[trigger] ranks[i]).position() <= (
        #[trigger] ranks[j]).position()
}

/// Whether the ranks, read in source order, never decrease: emitting the
/// entries by rank then keeps their relative order.
pub fn order_preserved(ranks: &[EmitRank]) -> (r: bool)
    ensures
        r == non_decreasing(ranks@),
{
    let mut i: usize = 1;
    while i < ranks.len()
        invariant
            1 <= i,
            i <= ranks@.len() || i == 1,
            forall|a: int, b: int|
                0 <= a < b < i && b < ranks@.len() ==> (#[trigger] ranks@[a]).position() <= (
                #[trigger] ranks@[b]).position(),
        decreases ranks@.len() - i,
    {
        if ranks[i].number() < ranks[i - 1].number() {
            assert(ranks@[i as int].position() < ranks@[i - 1].position());
            return false;
        }
        assert forall|a: int, b: int| 0 <= a < b < i + 1 && b < ranks@.len() implies (
        #[trigger] ranks@[a]).position() <= (#[trigger] ranks@[b]).position() by {
            if b == i && a < i - 1 {
                assert(ranks@[a].position() <= ranks@[i - 1].position());
            }
        }
        i += 1;
    }
    true
}

/// A sequence of at most one rank is never reordered.
pub proof fn law_single_rank_preserved(ranks: Seq<EmitRank>)
    requires
        ranks.len() <= 1,
    ensures
        non_decreasing(ranks),
{
}

} // verus!
