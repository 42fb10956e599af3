//! The transposition cache of one search: results by board, each with the
//! depth and the probability budget it was found at.

use crate::game::{lemma_pack_injective, Direction, State};
use crate::row::MAX_EXPONENT;
use std::collections::HashMap;
use vstd::prelude::*;

verus! {

/// A probability as a 32-bit key. Keys are ordered as the probabilities they
/// stand for; the cache compares them and reads nothing else from them.
pub type Prob = u32;

/// A score as 32 bits, which the cache stores and hands back unread.
pub type Score = u32;

/// What the cache holds for a board: the depth searched, the probability
/// budget, and the best move with its score.
pub type Entry = (u16, Prob, (Direction, Score));

/// The cached result for a board that serves a search of `depth` at `prob`:
/// the entry must have been searched at least as deep, with at least as
/// large a probability budget.
pub open spec fn lookup(entries: Map<State, Entry>, state: State, depth: u16, prob: Prob) -> Option<
    (Direction, Score),
> {
    if entries.contains_key(state) && entries[state].0 >= depth && entries[state].1 >= prob {
        Some(entries[state].2)
    } else {
        None
    }
}

/// A counter one higher, or unchanged where it is at its limit.
pub open spec fn bumped(count: u64) -> u64 {
    if count < u64::MAX {
        (count + 1) as u64
    } else {
        count
    }
}

/// The cache with its counters of insertions, hits and misses. Boards are
/// kept by their 64-bit code. A board with an exponent above 15 has no code
/// of its own, and the cache passes it over: it is never stored and never
/// served.
pub struct TranspositionTable {
    table: HashMap<u64, Entry>,
    items: u64,
    hits: u64,
    misses: u64,
}

impl TranspositionTable {
    /// The entries, by board.
    pub closed spec fn view(&self) -> Map<State, Entry> {
        Map::new(
            |state: State| state.wf() && self.table@.contains_key(state.packed()),
            |state: State| self.table@[state.packed()],
        )
    }

    /// The number of insertions since the cache was last empty.
    pub closed spec fn item_count(&self) -> u64 {
        self.items
    }

    /// The number of lookups that were served.
    pub closed spec fn hit_count(&self) -> u64 {
        self.hits
    }

    /// The number of lookups that were not served.
    pub closed spec fn miss_count(&self) -> u64 {
        self.misses
    }

    /// An empty cache.
    pub fn new() -> (r: TranspositionTable)
        ensures
            r@ == Map::<State, Entry>::empty(),
            r.item_count() == 0,
            r.hit_count() == 0,
            r.miss_count() == 0,
    {
        let r = TranspositionTable { table: HashMap::new(), items: 0, hits: 0, misses: 0 };
        assert(r@ =~= Map::<State, Entry>::empty());
        r
    }

    /// Forgets every entry and resets the counters.
    pub fn clear(&mut self)
        ensures
            final(self)@ == Map::<State, Entry>::empty(),
            final(self).item_count() == 0,
            final(self).hit_count() == 0,
            final(self).miss_count() == 0,
    {
        self.table.clear();
        self.items = 0;
        self.hits = 0;
        self.misses = 0;
        assert(self@ =~= Map::<State, Entry>::empty());
    }

    /// Records a result for a board, in place of any earlier one, and counts
    /// the insertion. A board with an exponent above 15 is passed over.
    pub fn insert(&mut self, state: State, depth: u16, prob: Prob, value: (Direction, Score))
        ensures
            final(self)@ == if state.wf() {
                old(self)@.insert(state, (depth, prob, value))
            } else {
                old(self)@
            },
            final(self).item_count() == if state.wf() {
                bumped(old(self).item_count())
            } else {
                old(self).item_count()
            },
            final(self).hit_count() == old(self).hit_count(),
            final(self).miss_count() == old(self).miss_count(),
    {
        if state.all_at_most(MAX_EXPONENT) {
            self.items = self.items.saturating_add(1);
            self.table.insert(state.pack(), (depth, prob, value));
            proof {
                assert forall|other: State|
                    other.wf() && other.packed() == state.packed() implies other == state by {
                    lemma_pack_injective(other, state);
                }
                assert(self@ =~= old(self)@.insert(state, (depth, prob, value)));
            }
        }
    }

    /// Looks a board up for a search of `depth` at `prob`. An entry that was
    /// searched less deep, or with a smaller probability budget, does not
    /// serve. Counts a hit or a miss.
    pub fn get(&mut self, state: &State, depth: u16, prob: Prob) -> (r: Option<(Direction, Score)>)
        ensures
            r == lookup(old(self)@, *state, depth, prob),
            final(self)@ == old(self)@,
            final(self).item_count() == old(self).item_count(),
            final(self).hit_count() == if r is Some {
                bumped(old(self).hit_count())
            } else {
                old(self).hit_count()
            },
            final(self).miss_count() == if r is Some {
                old(self).miss_count()
            } else {
                bumped(old(self).miss_count())
            },
    {
        let served = if state.all_at_most(MAX_EXPONENT) {
            let key = state.pack();
            match self.table.get(&key) {
                Some(entry) => {
                    if entry.0 >= depth && entry.1 >= prob {
                        Some(entry.2)
                    } else {
                        None
                    }
                },
                None => None,
            }
        } else {
            None
        };
        if served.is_some() {
            self.hits = self.hits.saturating_add(1);
        } else {
            self.misses = self.misses.saturating_add(1);
        }
        served
    }

    /// The number of insertions since the cache was last empty.
    pub fn items(&self) -> (r: u64)
        ensures
            r == self.item_count(),
    {
        self.items
    }

    /// The number of lookups that were served.
    pub fn hits(&self) -> (r: u64)
        ensures
            r == self.hit_count(),
    {
        self.hits
    }

    /// The number of lookups that were not served.
    pub fn misses(&self) -> (r: u64)
        ensures
            r == self.miss_count(),
    {
        self.misses
    }
}

/// An entry serves exactly the searches that ask for no more depth and no
/// more probability than it holds; a fresh entry serves the search that
/// made it; and a new entry changes nothing for other boards.
pub proof fn lemma_lookup(
    entries: Map<State, Entry>,
    state: State,
    entry: Entry,
    depth: u16,
    prob: Prob,
)
    ensures
        lookup(entries.insert(state, entry), state, depth, prob) == if entry.0 >= depth && entry.1
            >= prob {
            Some(entry.2)
        } else {
            None
        },
        lookup(entries.insert(state, (depth, prob, entry.2)), state, depth, prob) == Some(entry.2),
        forall|other: State|
            other != state ==> lookup(entries.insert(state, entry), other, depth, prob) == lookup(
                entries,
                other,
                depth,
                prob,
            ),
{
}

/// An empty cache serves no search.
pub proof fn lemma_empty_cache_serves_nothing(state: State, depth: u16, prob: Prob)
    ensures
        lookup(Map::<State, Entry>::empty(), state, depth, prob) is None,
{
}

} // verus!
