//! A source of pseudo-random numbers, fed by the keyed hasher of the
//! standard library.

use std::collections::hash_map::RandomState;
use std::hash::BuildHasher;
use vstd::prelude::*;

verus! {

/// Yields one number after another. Each number is made of two words, and a
/// word is the keyed hash of a counter. Nothing is known of the words
/// themselves; the source keeps a record of them, and what it yields is
/// stated in terms of that record.
pub struct RandomSource {
    keys: RandomState,
    drawn: u64,
    words: Ghost<Seq<u64>>,
}

/// Calls `RandomState::new`, which makes a hasher builder with random keys.
/// Nothing is claimed of the keys.
#[verifier::external_body]
fn fresh_keys() -> (keys: RandomState) {
    RandomState::new()
}

/// Calls `BuildHasher::hash_one`, which hashes the one value `n` under
/// `keys`. Nothing is claimed of the number that comes back.
#[verifier::external_body]
fn keyed_hash(keys: &RandomState, n: u64) -> (h: u64) {
    keys.hash_one(n)
}

/// The number in `low..high` that two words, set side by side, stand for.
pub open spec fn ranged(low: u128, high: u128, upper: u64, lower: u64) -> int {
    low + (upper * 0x1_0000_0000_0000_0000 + lower) % (high - low)
}

/// The counter after one more word. It counts the words drawn so far, and
/// is what the next word is the hash of; after the largest number it starts
/// over at zero.
pub open spec fn following(n: u64) -> u64 {
    if n < u64::MAX {
        (n + 1) as u64
    } else {
        0
    }
}

/// The number from `low` up to, but not including, `high` that two words
/// stand for.
pub fn within_range(low: u128, high: u128, upper: u64, lower: u64) -> (r: u128)
    requires
        low < high,
    ensures
        r == ranged(low, high, upper, lower),
        low <= r < high,
{
    let wide: u128 = upper as u128 * 0x1_0000_0000_0000_0000u128 + lower as u128;
    low + wide % (high - low)
}

impl RandomSource {
    /// The keys that every word is hashed under.
    pub closed spec fn keys(&self) -> RandomState {
        self.keys
    }

    /// The counter that the next word is the hash of.
    pub closed spec fn drawn(&self) -> u64 {
        self.drawn
    }

    /// The words drawn so far, the first one first.
    pub closed spec fn words(&self) -> Seq<u64> {
        self.words@
    }

    /// A source under fresh keys, before its first word.
    pub fn new() -> (source: RandomSource)
        ensures
            source.drawn() == 0,
            source.words() == Seq::<u64>::empty(),
    {
        RandomSource { keys: fresh_keys(), drawn: 0, words: Ghost(Seq::empty()) }
    }

    /// The next word: the hash of the counter under the keys. The counter
    /// moves on and the word joins the record.
    fn next_word(&mut self) -> (word: u64)
        ensures
            final(self).keys() == old(self).keys(),
            final(self).drawn() == following(old(self).drawn()),
            final(self).words() == old(self).words().push(word),
    {
        let word = keyed_hash(&self.keys, self.drawn);
        self.drawn = if self.drawn < u64::MAX {
            self.drawn + 1
        } else {
            0
        };
        proof {
            self.words@ = self.words@.push(word);
        }
        word
    }

    /// A number from `low` up to, but not including, `high`: the one that
    /// the next two words stand for.
    pub fn random_range(&mut self, low: u128, high: u128) -> (r: u128)
        requires
            low < high,
        ensures
            low <= r < high,
            final(self).keys() == old(self).keys(),
            final(self).drawn() == following(following(old(self).drawn())),
            final(self).words().len() == old(self).words().len() + 2,
            final(self).words().drop_last().drop_last() == old(self).words(),
            r == ranged(
                low,
                high,
                final(self).words()[final(self).words().len() - 2],
                final(self).words().last(),
            ),
    {
        let upper = self.next_word();
        let lower = self.next_word();
        proof {
            let before = old(self).words();
            assert(before.push(upper).push(lower).drop_last() == before.push(upper));
            assert(before.push(upper).drop_last() == before);
        }
        within_range(low, high, upper, lower)
    }
}

} // verus!
