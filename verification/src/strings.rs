//! The table of strings that frames refer back to.
//!
//! Pairs of byte strings (uid and user name, key and value, member type with
//! role and nothing) enter at the front as they are decoded. A frame refers to
//! a pair by how many insertions ago it entered: 1 is the newest pair.

use vstd::prelude::*;
use std::collections::VecDeque;
use vstd::slice::slice_to_vec;
use crate::error::DecodeError;

verus! {

/// The number of pairs that the table holds at most.
pub const CAPACITY: usize = 15_000;

/// The combined length up to which a pair enters the table.
pub const MAX_PAIR_LEN: usize = 250;

/// A pair of byte strings.
pub type Pair = (Seq<u8>, Seq<u8>);

/// Whether a pair is short enough to enter the table.
pub open spec fn eligible(first: Seq<u8>, second: Seq<u8>) -> bool {
    first.len() + second.len() <= MAX_PAIR_LEN
}

/// The table after `(first, second)` was offered to it: an eligible pair
/// stands at the front, and the oldest pair has left if the table was full.
pub open spec fn insert_if_eligible(table: Seq<Pair>, first: Seq<u8>, second: Seq<u8>) -> Seq<
    Pair,
> {
    if eligible(first, second) {
        let grown = seq![(first, second)] + table;
        if grown.len() > CAPACITY {
            grown.take(CAPACITY as int)
        } else {
            grown
        }
    } else {
        table
    }
}

/// The pair that `index` refers to, counted from 1 at the newest pair.
pub open spec fn lookup(table: Seq<Pair>, index: u64) -> Result<Pair, DecodeError> {
    if 1 <= index <= table.len() {
        Ok(table[index - 1])
    } else {
        Err(DecodeError::StringUnavailable { index })
    }
}

/// The table after each pair of `pairs` was offered to it in turn.
pub open spec fn insert_all(table: Seq<Pair>, pairs: Seq<Pair>) -> Seq<Pair>
    decreases pairs.len(),
{
    if pairs.len() == 0 {
        table
    } else {
        insert_if_eligible(insert_all(table, pairs.drop_last()), pairs.last().0, pairs.last().1)
    }
}

/// What holds of the table throughout a session: it has no more than
/// `CAPACITY` pairs, and none that is longer than `MAX_PAIR_LEN`.
pub open spec fn bounded(table: Seq<Pair>) -> bool {
    &&& table.len() <= CAPACITY
    &&& forall|i: int| 0 <= i < table.len() ==> eligible(#[trigger] table[i].0, table[i].1)
}

/// Offering a pair to the table keeps it within its bounds, and brings it
/// within its capacity where the pair enters.
pub proof fn lemma_capacity(table: Seq<Pair>, first: Seq<u8>, second: Seq<u8>)
    ensures
        bounded(table) ==> bounded(insert_if_eligible(table, first, second)),
        eligible(first, second) ==> insert_if_eligible(table, first, second).len() <= CAPACITY,
{
    if bounded(table) && eligible(first, second) {
        let grown = seq![(first, second)] + table;
        let after = insert_if_eligible(table, first, second);
        assert forall|i: int| 0 <= i < after.len() implies eligible(
            #[trigger] after[i].0,
            after[i].1,
        ) by {
            assert(after[i] == grown[i]);
            if i > 0 {
                assert(grown[i] == table[i - 1]);
            }
        }
    }
}

/// A pair of combined length up to 250 is the newest pair after it was
/// offered; a longer one leaves the table as it was, so that no index reaches
/// it.
pub proof fn lemma_cutoff(table: Seq<Pair>, first: Seq<u8>, second: Seq<u8>, index: u64)
    ensures
        first.len() + second.len() <= 250 ==> lookup(
            insert_if_eligible(table, first, second),
            1,
        ) == Ok::<Pair, DecodeError>((first, second)),
        first.len() + second.len() > 250 ==> lookup(
            insert_if_eligible(table, first, second),
            index,
        ) == lookup(table, index),
{
}

/// After eligible pairs entered an empty table, index `k` gives the `k`-th
/// newest of them, for `k` up to `CAPACITY`; older pairs have been evicted,
/// the first to enter first.
pub proof fn lemma_most_recent(pairs: Seq<Pair>, index: u64)
    requires
        forall|i: int| 0 <= i < pairs.len() ==> eligible(#[trigger] pairs[i].0, pairs[i].1),
    ensures
        lookup(insert_all(Seq::empty(), pairs), index) == if 1 <= index <= pairs.len() && index
            <= CAPACITY {
            Ok::<Pair, DecodeError>(pairs[pairs.len() - index])
        } else {
            Err::<Pair, DecodeError>(DecodeError::StringUnavailable { index })
        },
{
    lemma_insert_all(pairs);
}

proof fn lemma_insert_all(pairs: Seq<Pair>)
    requires
        forall|i: int| 0 <= i < pairs.len() ==> eligible(#[trigger] pairs[i].0, pairs[i].1),
    ensures
        insert_all(Seq::empty(), pairs).len() == if pairs.len() <= CAPACITY {
            pairs.len()
        } else {
            CAPACITY as nat
        },
        forall|k: int|
            0 <= k < insert_all(Seq::empty(), pairs).len() ==> insert_all(Seq::empty(), pairs)[k]
                == pairs[pairs.len() - 1 - k],
    decreases pairs.len(),
{
    if pairs.len() > 0 {
        let front = pairs.drop_last();
        lemma_insert_all(front);
        let before = insert_all(Seq::empty(), front);
        let after = insert_all(Seq::empty(), pairs);
        assert(eligible(pairs[pairs.len() - 1].0, pairs[pairs.len() - 1].1));
        assert forall|k: int| 0 <= k < after.len() implies after[k] == pairs[pairs.len() - 1
            - k] by {
            if k > 0 {
                assert(after[k] == before[k - 1]);
                assert(before[k - 1] == front[front.len() - 1 - (k - 1)]);
            }
        }
    }
}

/// What a deque of pairs of byte vectors holds.
spec fn deque_view(pairs: VecDeque<(Vec<u8>, Vec<u8>)>) -> Seq<Pair> {
    Seq::new(pairs@.len(), |i: int| (pairs@[i].0@, pairs@[i].1@))
}

/// The table of strings of one decoding session. It never holds more than
/// `CAPACITY` pairs, nor a pair that is longer than `MAX_PAIR_LEN`.
#[derive(Debug)]
pub struct StringTable {
    pairs: VecDeque<(Vec<u8>, Vec<u8>)>,
}

impl View for StringTable {
    type V = Seq<Pair>;

    /// The pairs in the table, the newest first.
    closed spec fn view(&self) -> Seq<Pair> {
        deque_view(self.pairs)
    }
}

impl StringTable {
    #[verifier::type_invariant]
    spec fn within_bounds(self) -> bool {
        bounded(self@)
    }

    /// An empty table.
    pub fn new() -> (table: StringTable)
        ensures
            table@ == Seq::<Pair>::empty(),
    {
        let pairs: VecDeque<(Vec<u8>, Vec<u8>)> = VecDeque::new();
        assert(deque_view(pairs) =~= Seq::<Pair>::empty());
        StringTable { pairs }
    }

    /// The number of pairs in the table.
    pub fn len(&self) -> (n: usize)
        ensures
            n == self@.len(),
            n <= CAPACITY,
            bounded(self@),
    {
        proof {
            use_type_invariant(self);
        }
        self.pairs.len()
    }

    /// Offers a pair to the table. A pair of combined length up to 250 enters
    /// at the front, and the oldest pair leaves if there are then more than
    /// 15,000; a longer pair is not cached.
    pub fn insert_if_eligible(&mut self, first: &[u8], second: &[u8])
        ensures
            final(self)@ == insert_if_eligible(old(self)@, first@, second@),
    {
        if first.len() <= MAX_PAIR_LEN && second.len() <= MAX_PAIR_LEN - first.len() {
            let ghost before = self@;
            proof {
                use_type_invariant(&*self);
                lemma_capacity(before, first@, second@);
            }
            let mut pairs: VecDeque<(Vec<u8>, Vec<u8>)> = VecDeque::new();
            assert(deque_view(pairs) =~= Seq::<Pair>::empty());
            core::mem::swap(&mut self.pairs, &mut pairs);
            pairs.push_front((slice_to_vec(first), slice_to_vec(second)));
            let ghost grown = deque_view(pairs);
            assert(grown =~= seq![(first@, second@)] + before);
            if pairs.len() > CAPACITY {
                pairs.pop_back();
                assert(deque_view(pairs) =~= grown.take(CAPACITY as int));
            }
            self.pairs = pairs;
        }
    }

    /// The pair that `index` refers to: 1 is the newest pair, 2 the one that
    /// entered before it, and so on.
    pub fn lookup(&self, index: u64) -> (r: Result<(&[u8], &[u8]), DecodeError>)
        ensures
            match r {
                Ok((first, second)) => lookup(self@, index) == Ok::<Pair, DecodeError>(
                    (first@, second@),
                ),
                Err(e) => lookup(self@, index) == Err::<Pair, DecodeError>(e),
            },
    {
        if index == 0 || index > self.pairs.len() as u64 {
            return Err(DecodeError::StringUnavailable { index });
        }
        let pair = &self.pairs[(index - 1) as usize];
        Ok((pair.0.as_slice(), pair.1.as_slice()))
    }
}

} // verus!
