//! Sets of grid cells, kept in a hash set under one integer key per cell.

use crate::model::Position;
use std::collections::HashSet;
use vstd::prelude::*;

verus! {

broadcast use vstd::std_specs::hash::group_hash_axioms;

/// The key under which a cell is stored: the column in the high half of the
/// number, the row in the low half.
pub open spec fn key_of(p: Position) -> u128 {
    (p.0 * 0x1_0000_0000_0000_0000 + p.1) as u128
}

/// Distinct cells have distinct keys.
pub proof fn key_of_injective(p: Position, q: Position)
    requires
        key_of(p) == key_of(q),
    ensures
        p == q,
{
}

fn key(p: Position) -> (k: u128)
    ensures
        k == key_of(p),
{
    p.0 as u128 * 0x1_0000_0000_0000_0000u128 + p.1 as u128
}

/// A finite set of cells.
#[derive(Debug)]
pub struct CellSet {
    keys: HashSet<u128>,
}

impl View for CellSet {
    type V = Set<Position>;

    closed spec fn view(&self) -> Set<Position> {
        Set::new(|p: Position| self.keys@.contains(key_of(p)))
    }
}

impl CellSet {
    /// The empty set.
    pub fn new() -> (s: CellSet)
        ensures
            s@ == Set::<Position>::empty(),
    {
        let s = CellSet { keys: HashSet::new() };
        assert(s@ =~= Set::<Position>::empty());
        s
    }

    /// Whether `p` is in the set.
    pub fn contains(&self, p: Position) -> (b: bool)
        ensures
            b == self@.contains(p),
    {
        let k = key(p);
        self.keys.contains(&k)
    }

    /// Puts `p` into the set.
    pub fn insert(&mut self, p: Position)
        ensures
            final(self)@ == old(self)@.insert(p),
    {
        self.keys.insert(key(p));
        assert forall|q: Position| final(self)@.contains(q) == old(self)@.insert(p).contains(
            q,
        ) by {
            if key_of(q) == key_of(p) {
                key_of_injective(q, p);
            }
        }
        assert(final(self)@ =~= old(self)@.insert(p));
    }

    /// Takes `p` out of the set.
    pub fn remove(&mut self, p: Position)
        ensures
            final(self)@ == old(self)@.remove(p),
    {
        let k = key(p);
        self.keys.remove(&k);
        assert forall|q: Position| final(self)@.contains(q) == old(self)@.remove(p).contains(
            q,
        ) by {
            if key_of(q) == key_of(p) {
                key_of_injective(q, p);
            }
        }
        assert(final(self)@ =~= old(self)@.remove(p));
    }
}

} // verus!
