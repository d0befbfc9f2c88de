//! Choosing the reference distribution against which guesses are scored.
use crate::feedback::Word;
use rand::seq::SliceRandom;
use vstd::prelude::*;

verus! {

/// The smallest number of words that a reference distribution is cut down to.
pub const SAMPLE_FLOOR: usize = 250;

/// The size that a store of `n` words is sampled down to: a fifth of it,
/// but never fewer than the floor.
pub open spec fn sample_size_of(n: int) -> int {
    if n / 5 > SAMPLE_FLOOR as int {
        n / 5
    } else {
        SAMPLE_FLOOR as int
    }
}

/// The size of the reference distribution drawn from a store of `n` words.
pub open spec fn reference_size(n: int) -> int {
    if n < sample_size_of(n) {
        n
    } else {
        sample_size_of(n)
    }
}

/// Relies on rand's `SliceRandom::choose_multiple`, drawn with
/// `thread_rng`: it yields `min(amount, store.len())` elements taken from
/// distinct positions of the slice, in random order. (`thread_rng` panics
/// only when the operating system's random source cannot seed it.)
#[verifier::external_body]
fn choose_multiple(store: &Vec<Word>, amount: usize) -> (r: Vec<Word>)
    ensures
        r@.len() == if amount < store@.len() {
            amount as int
        } else {
            store@.len() as int
        },
        r@.to_multiset().subset_of(store@.to_multiset()),
{
    let mut rng = rand::thread_rng();
    store.choose_multiple(&mut rng, amount).cloned().collect()
}

/// The size that a store of `n` words is sampled down to.
pub fn sample_size(n: usize) -> (r: usize)
    ensures
        r == sample_size_of(n as int),
{
    if n / 5 > SAMPLE_FLOOR {
        n / 5
    } else {
        SAMPLE_FLOOR
    }
}

/// The reference distribution for a narrowed store: the whole store when
/// it is no larger than its sample size, else that many of its words drawn
/// at random without replacement.
pub fn reference_distribution(store: &Vec<Word>) -> (r: Vec<Word>)
    ensures
        r@.len() == reference_size(store@.len() as int),
        r@.to_multiset().subset_of(store@.to_multiset()),
        store@.len() <= sample_size_of(store@.len() as int) ==> r@ == store@,
{
    let size = sample_size(store.len());
    if store.len() > size {
        choose_multiple(store, size)
    } else {
        let r = store.clone();
        assert(r@ =~= store@);
        r
    }
}

} // verus!
