//! The index by slug: the positions of the records, found by a hash of
//! their slugs.

use std::collections::HashMap;
use vstd::prelude::*;

verus! {

broadcast use vstd::std_specs::hash::group_hash_axioms;

/// The hash of the empty text.
pub const HASH_START: u64 = 7;

/// The factor by which a hash is multiplied for each character.
pub const HASH_FACTOR: u64 = 31;

/// The hash of a text with one more character.
pub open spec fn hash_step(hash: u64, c: char) -> u64 {
    hash.wrapping_mul(HASH_FACTOR).wrapping_add(c as u64)
}

/// The hash of a text.
pub open spec fn hash_of(text: Seq<char>) -> u64
    decreases text.len(),
{
    if text.len() == 0 {
        HASH_START
    } else {
        hash_step(hash_of(text.drop_last()), text.last())
    }
}

/// Computes the hash of a text.
pub fn hash(text: &str) -> (hash: u64)
    ensures
        hash == hash_of(text@),
{
    let mut hash: u64 = HASH_START;
    assert(text@.take(0) =~= Seq::<char>::empty());
    for c in it: text.chars()
        invariant
            it.seq() == text@,
            hash == hash_of(text@.take(it.index() as int)),
    {
        proof {
            let done = it.index() as int;
            assert(text@.take(done + 1).drop_last() =~= text@.take(done));
        }
        hash = hash.wrapping_mul(HASH_FACTOR).wrapping_add(c as u64);
    }
    assert(text@.take(text@.len() as int) =~= text@);
    hash
}

/// A list of positions holds the position `at`.
pub open spec fn holds(positions: Seq<usize>, at: int) -> bool {
    exists|k: int| 0 <= k < positions.len() && #[trigger] positions[k] == at
}

/// For each hash of a slug, the positions of the records whose slug has
/// that hash.
#[derive(Debug)]
pub struct SlugIndex {
    slots: HashMap<u64, Vec<usize>>,
}

impl SlugIndex {
    /// The index lists the positions of `slugs`: each position under the
    /// hash of its slug, and nothing else.
    pub closed spec fn lists(&self, slugs: Seq<Seq<char>>) -> bool {
        &&& forall|i: int|
            0 <= i < slugs.len() ==> self.slots@.contains_key(hash_of(#[trigger] slugs[i]))
                && holds(self.slots@[hash_of(slugs[i])]@, i)
        &&& forall|h: u64, k: int|
            self.slots@.contains_key(h) && 0 <= k < self.slots@[h]@.len() ==> (
            #[trigger] self.slots@[h]@[k]) < slugs.len() && hash_of(
                slugs[self.slots@[h]@[k] as int],
            ) == h
    }

    /// An index of no records.
    pub fn new() -> (index: SlugIndex)
        ensures
            index.lists(Seq::empty()),
    {
        SlugIndex { slots: HashMap::new() }
    }

    /// The positions at which a record with the slug can stand: every
    /// position of a record with the slug is among them, and each of them
    /// is a position of `slugs`.
    pub(crate) fn candidates(&self, slug: &str, Ghost(slugs): Ghost<Seq<Seq<char>>>) -> (found:
        Option<&Vec<usize>>)
        requires
            self.lists(slugs),
        ensures
            found is None ==> forall|i: int| 0 <= i < slugs.len() ==> slugs[i] != slug@,
            found matches Some(positions) ==> {
                &&& forall|i: int|
                    0 <= i < slugs.len() && slugs[i] == slug@ ==> holds(positions@, i)
                &&& forall|k: int|
                    0 <= k < positions@.len() ==> (#[trigger] positions@[k]) < slugs.len()
            },
    {
        let h = hash(slug);
        self.slots.get(&h)
    }

    /// Lists one more record, which stands at the position `at`, behind
    /// those that are listed.
    pub(crate) fn add(&mut self, slug: &str, at: usize, Ghost(slugs): Ghost<Seq<Seq<char>>>)
        requires
            old(self).lists(slugs),
            at == slugs.len(),
        ensures
            final(self).lists(slugs.push(slug@)),
    {
        let h = hash(slug);
        let ghost before = self.slots@;
        let mut positions = match self.slots.remove(&h) {
            Some(positions) => positions,
            None => Vec::new(),
        };
        let ghost old_positions = positions@;
        positions.push(at);
        self.slots.insert(h, positions);
        proof {
            let after = self.slots@;
            let longer = slugs.push(slug@);
            assert(after.contains_key(h) && after[h]@ == old_positions.push(at));
            assert forall|g: u64| g != h implies (after.contains_key(g) <==> before.contains_key(g))
                && after[g] == before[g] by {}
            assert(before.contains_key(h) ==> before[h]@ == old_positions);
            assert forall|i: int| 0 <= i < longer.len() implies after.contains_key(
                hash_of(#[trigger] longer[i]),
            ) && holds(after[hash_of(longer[i])]@, i) by {
                if i < slugs.len() {
                    assert(longer[i] == slugs[i]);
                    let hi = hash_of(slugs[i]);
                    assert(holds(before[hi]@, i));
                    if hi == h {
                        let k = choose|k: int|
                            0 <= k < old_positions.len() && #[trigger] old_positions[k] == i;
                        assert(old_positions.push(at)[k] == i);
                    }
                } else {
                    assert(old_positions.push(at)[old_positions.len() as int] == at);
                }
            }
            assert forall|g: u64, k: int|
                after.contains_key(g) && 0 <= k < after[g]@.len() implies (
            #[trigger] after[g]@[k]) < longer.len() && hash_of(longer[after[g]@[k] as int])
                == g by {
                if g == h {
                    if k < old_positions.len() {
                        assert(before[h]@[k] == old_positions[k]);
                    }
                } else {
                    assert(before[g]@[k] == after[g]@[k]);
                }
            }
        }
    }
}

} // verus!
