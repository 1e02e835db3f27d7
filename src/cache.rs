use vstd::prelude::*;
use std::collections::HashMap;
use crate::player::Player;

verus! {

broadcast use vstd::std_specs::hash::group_hash_axioms;

/// Memo table from a stone count to `(first mover, winner)`: the winner of
/// the sub-game with that many stones when `first mover` is to move.
pub struct OutcomeCache {
    entries: HashMap<usize, (Player, Player)>,
}

impl View for OutcomeCache {
    type V = Map<usize, (Player, Player)>;

    closed spec fn view(&self) -> Map<usize, (Player, Player)> {
        self.entries@
    }
}

impl OutcomeCache {
    /// An empty cache, for one new game.
    pub fn new() -> (r: OutcomeCache)
        ensures
            r@ == Map::<usize, (Player, Player)>::empty(),
    {
        OutcomeCache { entries: HashMap::new() }
    }

    /// Number of stone counts with an entry.
    pub fn len(&self) -> (r: usize)
        ensures
            r == self@.len(),
    {
        self.entries.len()
    }

    /// The entry for `stones`, if any.
    pub fn lookup(&self, stones: usize) -> (r: Option<(Player, Player)>)
        ensures
            r == (if self@.contains_key(stones) { Some(self@[stones]) } else { None }),
    {
        match self.entries.get(&stones) {
            Some(e) => Some(*e),
            None => None,
        }
    }

    /// Writes `(first, winner)` as the entry for `stones`, replacing any
    /// earlier one.
    pub(crate) fn record(&mut self, stones: usize, first: Player, winner: Player)
        ensures
            final(self)@ == old(self)@.insert(stones, (first, winner)),
    {
        self.entries.insert(stones, (first, winner));
    }
}

} // verus!
