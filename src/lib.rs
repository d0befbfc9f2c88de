//! A solver for a five-letter word-guessing puzzle: it keeps the dictionary
//! words that agree with the feedback received so far and ranks guesses by
//! how much they are expected to reveal.
pub mod elimination;
pub mod feedback;
pub mod sampling;
pub mod scoring;
pub mod top_k;

use crate::elimination::{apply_history, narrowed};
use crate::feedback::{Feedback, Word};
use crate::sampling::{reference_distribution, reference_size, sample_size_of};
use vstd::prelude::*;

verus! {

/// Whether `w` spells the five letters `a b c d e`.
pub open spec fn spells(w: Word, a: char, b: char, c: char, d: char, e: char) -> bool {
    w.letters@ == seq![a, b, c, d, e]
}

/// The fixed ranking of opening guesses, answered when no feedback has been
/// given yet: tares, lares, rales, rates, teras.
pub open spec fn is_opening_list(r: Seq<Word>) -> bool {
    &&& r.len() == 5
    &&& spells(r[0], 't', 'a', 'r', 'e', 's')
    &&& spells(r[1], 'l', 'a', 'r', 'e', 's')
    &&& spells(r[2], 'r', 'a', 'l', 'e', 's')
    &&& spells(r[3], 'r', 'a', 't', 'e', 's')
    &&& spells(r[4], 't', 'e', 'r', 'a', 's')
}

/// The recommended opening guesses, best first.
pub fn opening_moves() -> (r: Vec<Word>)
    ensures
        is_opening_list(r@),
{
    let r = vec![
        Word { letters: ['t', 'a', 'r', 'e', 's'] },
        Word { letters: ['l', 'a', 'r', 'e', 's'] },
        Word { letters: ['r', 'a', 'l', 'e', 's'] },
        Word { letters: ['r', 'a', 't', 'e', 's'] },
        Word { letters: ['t', 'e', 'r', 'a', 's'] },
    ];
    assert(r@[0].letters@ =~= seq!['t', 'a', 'r', 'e', 's']);
    assert(r@[1].letters@ =~= seq!['l', 'a', 'r', 'e', 's']);
    assert(r@[2].letters@ =~= seq!['r', 'a', 'l', 'e', 's']);
    assert(r@[3].letters@ =~= seq!['r', 'a', 't', 'e', 's']);
    assert(r@[4].letters@ =~= seq!['t', 'e', 'r', 'a', 's']);
    r
}

/// What a solve request comes to before any guess is scored.
pub enum Plan {
    /// No feedback yet: answer with the fixed opening ranking.
    Opening(Vec<Word>),
    /// Score every word of `store` against `reference`.
    Score { store: Vec<Word>, reference: Vec<Word> },
}

/// Replays `history` against the whole dictionary and draws the reference
/// distribution from what is left; with an empty history, answers with the
/// opening ranking instead.
pub fn plan(dictionary: &Vec<Word>, history: &Vec<Feedback>) -> (r: Plan)
    ensures
        history@.len() == 0 <==> r is Opening,
        r matches Plan::Opening(list) ==> is_opening_list(list@),
        r matches Plan::Score { store, reference } ==> {
            &&& store@ == narrowed(dictionary@, history@)
            &&& reference@.len() == reference_size(store@.len() as int)
            &&& reference@.to_multiset().subset_of(store@.to_multiset())
            &&& store@.len() <= sample_size_of(store@.len() as int) ==> reference@ == store@
        },
{
    if history.len() == 0 {
        return Plan::Opening(opening_moves());
    }
    let mut store = dictionary.clone();
    assert(store@ =~= dictionary@);
    apply_history(&mut store, history);
    let reference = reference_distribution(&store);
    Plan::Score { store, reference }
}

} // verus!
