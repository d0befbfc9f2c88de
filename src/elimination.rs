//! Narrowing the candidate store by the feedback received so far.
use crate::feedback::{consistent_with, Feedback, Word};
use vstd::prelude::*;

verus! {

/// The test that one piece of feedback puts to a word.
pub open spec fn admitted(fb: Feedback) -> spec_fn(Word) -> bool {
    consistent_with(fb.word.letters@, fb.outcomes@)
}

/// Whether every piece of feedback in `history` admits `w`.
pub open spec fn admitted_by_all(history: Seq<Feedback>, w: Word) -> bool {
    forall|k: int| 0 <= k < history.len() ==> #[trigger] history[k].admits(w)
}

/// The store left after applying `history` in order, one piece at a time.
pub open spec fn narrowed(store: Seq<Word>, history: Seq<Feedback>) -> Seq<Word>
    decreases history.len(),
{
    if history.len() == 0 {
        store
    } else {
        narrowed(store, history.drop_last()).filter(admitted(history.last()))
    }
}

/// Filtering by `p` and then by `q` is filtering by their conjunction `r`.
pub proof fn lemma_filter_twice<A>(
    s: Seq<A>,
    p: spec_fn(A) -> bool,
    q: spec_fn(A) -> bool,
    r: spec_fn(A) -> bool,
)
    requires
        forall|x: A| #[trigger] r(x) == (p(x) && q(x)),
    ensures
        s.filter(p).filter(q) == s.filter(r),
    decreases s.len(),
{
    if s.len() > 0 {
        let init = s.drop_last();
        lemma_filter_twice(init, p, q, r);
        assert(s == init.push(s.last()));
        init.lemma_filter_push(s.last(), p);
        init.lemma_filter_push(s.last(), r);
        init.filter(p).lemma_filter_push(s.last(), q);
    } else {
        reveal(Seq::filter);
    }
}

/// Filters by two predicates that agree everywhere give the same result.
pub proof fn lemma_filter_same_pred<A>(s: Seq<A>, p: spec_fn(A) -> bool, q: spec_fn(A) -> bool)
    requires
        forall|x: A| #[trigger] p(x) == q(x),
    ensures
        s.filter(p) == s.filter(q),
    decreases s.len(),
{
    if s.len() > 0 {
        let init = s.drop_last();
        lemma_filter_same_pred(init, p, q);
        assert(s == init.push(s.last()));
        init.lemma_filter_push(s.last(), p);
        init.lemma_filter_push(s.last(), q);
    } else {
        reveal(Seq::filter);
    }
}

/// Applying a history keeps exactly the words that every piece of it admits,
/// in the order of the store.
pub proof fn lemma_narrowed_keeps_admitted(store: Seq<Word>, history: Seq<Feedback>)
    ensures
        narrowed(store, history) == store.filter(|w: Word| admitted_by_all(history, w)),
    decreases history.len(),
{
    if history.len() == 0 {
        lemma_filter_same_pred(store, |w: Word| admitted_by_all(history, w), |w: Word| true);
        assert(store.filter(|w: Word| true) == store) by {
            lemma_filter_all(store);
        }
    } else {
        let init = history.drop_last();
        lemma_narrowed_keeps_admitted(store, init);
        assert forall|w: Word|
            #[trigger] admitted_by_all(history, w) == (admitted_by_all(init, w) && admitted(
                history.last(),
            )(w)) by {
            if admitted_by_all(init, w) && history.last().admits(w) {
                assert forall|k: int| 0 <= k < history.len() implies #[trigger] history[k].admits(
                    w,
                ) by {
                    if k < init.len() {
                        assert(init[k] == history[k]);
                    }
                }
            }
            if admitted_by_all(history, w) {
                assert(history[history.len() - 1].admits(w));
                assert forall|k: int| 0 <= k < init.len() implies #[trigger] init[k].admits(w) by {
                    assert(history[k].admits(w));
                }
            }
        }
        lemma_filter_twice(
            store,
            |w: Word| admitted_by_all(init, w),
            admitted(history.last()),
            |w: Word| admitted_by_all(history, w),
        );
    }
}

proof fn lemma_filter_all(s: Seq<Word>)
    ensures
        s.filter(|w: Word| true) == s,
    decreases s.len(),
{
    if s.len() > 0 {
        lemma_filter_all(s.drop_last());
        assert(s == s.drop_last().push(s.last()));
        s.drop_last().lemma_filter_push(s.last(), |w: Word| true);
    } else {
        reveal(Seq::filter);
    }
}

/// The result of applying a feedback history does not depend on the order
/// of the history: two histories that hold the same pieces of feedback
/// narrow any store to the same words.
pub proof fn lemma_history_order_irrelevant(
    store: Seq<Word>,
    h1: Seq<Feedback>,
    h2: Seq<Feedback>,
)
    requires
        forall|f: Feedback| h1.contains(f) <==> h2.contains(f),
    ensures
        narrowed(store, h1) == narrowed(store, h2),
{
    lemma_narrowed_keeps_admitted(store, h1);
    lemma_narrowed_keeps_admitted(store, h2);
    assert forall|w: Word| admitted_by_all(h1, w) == admitted_by_all(h2, w) by {
        if admitted_by_all(h1, w) {
            assert forall|k: int| 0 <= k < h2.len() implies #[trigger] h2[k].admits(w) by {
                assert(h2.contains(h2[k]));
                let j = choose|j: int| 0 <= j < h1.len() && h1[j] == h2[k];
                assert(h1[j].admits(w));
            }
        }
        if admitted_by_all(h2, w) {
            assert forall|k: int| 0 <= k < h1.len() implies #[trigger] h1[k].admits(w) by {
                assert(h1.contains(h1[k]));
                let j = choose|j: int| 0 <= j < h2.len() && h2[j] == h1[k];
                assert(h2[j].admits(w));
            }
        }
    }
    lemma_filter_same_pred(
        store,
        |w: Word| admitted_by_all(h1, w),
        |w: Word| admitted_by_all(h2, w),
    );
}

/// Applying `a` then `b` leaves the same words as applying `b` then `a`.
pub proof fn lemma_two_feedbacks_commute(store: Seq<Word>, a: Feedback, b: Feedback)
    ensures
        narrowed(store, seq![a, b]) == narrowed(store, seq![b, a]),
{
    let h1 = seq![a, b];
    let h2 = seq![b, a];
    assert forall|f: Feedback| h1.contains(f) <==> h2.contains(f) by {
        if h1.contains(f) {
            let i = choose|i: int| 0 <= i < h1.len() && h1[i] == f;
            assert(h2[1 - i] == f);
        }
        if h2.contains(f) {
            let i = choose|i: int| 0 <= i < h2.len() && h2[i] == f;
            assert(h1[1 - i] == f);
        }
    }
    lemma_history_order_irrelevant(store, h1, h2);
}

/// Removes from the store every word that `fb` does not admit.
pub fn apply(store: &mut Vec<Word>, fb: &Feedback)
    ensures
        final(store)@ == old(store)@.filter(admitted(*fb)),
{
    let mut kept: Vec<Word> = Vec::new();
    let mut i: usize = 0;
    while i < store.len()
        invariant
            0 <= i <= store@.len(),
            store@ == old(store)@,
            kept@ == store@.take(i as int).filter(admitted(*fb)),
        decreases store@.len() - i,
    {
        let w = store[i];
        proof {
            let prefix = store@.take(i as int);
            assert(store@.take(i + 1) == prefix.push(w));
            prefix.lemma_filter_push(w, admitted(*fb));
        }
        if fb.matches(&w) {
            kept.push(w);
        }
        i = i + 1;
    }
    assert(store@.take(store@.len() as int) == store@);
    *store = kept;
}

/// Applies every piece of `history` to the store, in order.
pub fn apply_history(store: &mut Vec<Word>, history: &Vec<Feedback>)
    ensures
        final(store)@ == narrowed(old(store)@, history@),
        final(store)@ == old(store)@.filter(|w: Word| admitted_by_all(history@, w)),
{
    let mut i: usize = 0;
    while i < history.len()
        invariant
            0 <= i <= history@.len(),
            store@ == narrowed(old(store)@, history@.take(i as int)),
        decreases history@.len() - i,
    {
        apply(store, &history[i]);
        assert(history@.take(i + 1).drop_last() == history@.take(i as int));
        i = i + 1;
    }
    assert(history@.take(history@.len() as int) == history@);
    proof {
        lemma_narrowed_keeps_admitted(old(store)@, history@);
    }
}

} // verus!
