//! A bounded selection of the highest-scoring guesses.
use crate::feedback::Word;
use vstd::prelude::*;

verus! {

/// How many guesses the selection holds at most.
pub const CAPACITY: usize = 5;

/// A guess with its score; a higher score ranks higher.
#[derive(Clone, Copy, Debug, PartialEq, Eq)]
pub struct Candidate {
    pub word: Word,
    pub score: u64,
}

/// `s` with `c` placed after every entry whose score is at least its own,
/// and before the first entry that scores lower.
pub open spec fn ranked_insert(s: Seq<Candidate>, c: Candidate) -> Seq<Candidate>
    decreases s.len(),
{
    if s.len() == 0 {
        seq![c]
    } else if s[0].score >= c.score {
        seq![s[0]] + ranked_insert(s.skip(1), c)
    } else {
        seq![c] + s
    }
}

/// The first `CAPACITY` entries of `s`.
pub open spec fn capped(s: Seq<Candidate>) -> Seq<Candidate> {
    if s.len() > CAPACITY {
        s.take(CAPACITY as int)
    } else {
        s
    }
}

/// Whether the scores of `s` never increase from front to back.
pub open spec fn descending(s: Seq<Candidate>) -> bool {
    forall|i: int, j: int| 0 <= i < j < s.len() ==> s[i].score >= s[j].score
}

/// What a selection holds after `offers` are offered, in order, to an
/// empty one.
pub open spec fn selected(offers: Seq<Candidate>) -> Seq<Candidate>
    decreases offers.len(),
{
    if offers.len() == 0 {
        Seq::empty()
    } else {
        capped(ranked_insert(selected(offers.drop_last()), offers.last()))
    }
}

/// The word of a candidate.
pub open spec fn word_of(c: Candidate) -> Word {
    c.word
}

/// The highest-scoring candidates offered so far, highest first.
pub struct TopK {
    entries: Vec<Candidate>,
}

impl View for TopK {
    type V = Seq<Candidate>;

    closed spec fn view(&self) -> Seq<Candidate> {
        self.entries@
    }
}

impl TopK {
    /// Holds at most `CAPACITY` entries, highest score first.
    pub open spec fn wf(&self) -> bool {
        self@.len() <= CAPACITY && descending(self@)
    }

    /// An empty selection.
    pub fn new() -> (r: TopK)
        ensures
            r@ == Seq::<Candidate>::empty(),
            r.wf(),
    {
        TopK { entries: Vec::new() }
    }

    /// Number of entries held.
    pub fn len(&self) -> (r: usize)
        ensures
            r == self@.len(),
    {
        self.entries.len()
    }

    /// Adds `c` in rank order; when that makes one entry too many, the
    /// lowest-ranked entry leaves.
    pub fn offer(&mut self, c: Candidate)
        requires
            old(self).wf(),
        ensures
            final(self).wf(),
            final(self)@ == capped(ranked_insert(old(self)@, c)),
    {
        let ghost s = self.entries@;
        let mut p: usize = 0;
        assert(s.skip(0) =~= s);
        assert(s.take(0) + ranked_insert(s, c) =~= ranked_insert(s, c));
        while p < self.entries.len() && self.entries[p].score >= c.score
            invariant
                self.entries@ == s,
                0 <= p <= s.len(),
                forall|i: int| 0 <= i < p ==> s[i].score >= c.score,
                ranked_insert(s, c) == s.take(p as int) + ranked_insert(s.skip(p as int), c),
            decreases s.len() - p,
        {
            proof {
                let rest = s.skip(p as int);
                assert(rest[0] == s[p as int]);
                assert(rest.skip(1) =~= s.skip(p + 1));
                assert(s.take(p + 1) =~= s.take(p as int) + seq![s[p as int]]);
                assert(s.take(p as int) + (seq![s[p as int]] + ranked_insert(s.skip(p + 1), c))
                    =~= s.take(p + 1) + ranked_insert(s.skip(p + 1), c));
            }
            p = p + 1;
        }
        proof {
            if p < s.len() {
                assert(s.skip(p as int)[0] == s[p as int]);
            } else {
                assert(s.skip(p as int) =~= Seq::<Candidate>::empty());
            }
            assert(ranked_insert(s, c) =~= s.insert(p as int, c));
        }
        self.entries.insert(p, c);
        proof {
            let t = self.entries@;
            assert forall|i: int, j: int| 0 <= i < j < t.len() implies t[i].score >= t[j].score by {
                if p < s.len() {
                    assert(s[p as int].score < c.score);
                }
                if i < p && j > p {
                    assert(s[i].score >= s[j - 1].score);
                } else if i == p && j > p {
                    assert(s[p as int].score >= s[j - 1].score);
                }
            }
        }
        if self.entries.len() > CAPACITY {
            self.entries.pop();
            assert(self.entries@ =~= ranked_insert(s, c).take(CAPACITY as int));
        }
    }

    /// Removes every entry and returns their words, highest score first.
    pub fn drain_descending(&mut self) -> (r: Vec<Word>)
        ensures
            r@ == old(self)@.map_values(|c: Candidate| word_of(c)),
            final(self)@ == Seq::<Candidate>::empty(),
            final(self).wf(),
    {
        let mut r: Vec<Word> = Vec::new();
        let mut i: usize = 0;
        while i < self.entries.len()
            invariant
                0 <= i <= self.entries@.len(),
                r@ == self.entries@.take(i as int).map_values(|c: Candidate| word_of(c)),
            decreases self.entries@.len() - i,
        {
            r.push(self.entries[i].word);
            assert(self.entries@.take(i + 1).map_values(|c: Candidate| word_of(c))
                =~= self.entries@.take(i as int).map_values(|c: Candidate| word_of(c)).push(
                self.entries@[i as int].word,
            ));
            i = i + 1;
        }
        assert(self.entries@.take(self.entries@.len() as int) == self.entries@);
        self.entries = Vec::new();
        r
    }
}

/// Offers every candidate of `offers`, in order, to an empty selection and
/// returns the words it keeps, highest score first.
pub fn top_words(offers: &Vec<Candidate>) -> (r: Vec<Word>)
    ensures
        r@ == selected(offers@).map_values(|c: Candidate| word_of(c)),
{
    let mut top = TopK::new();
    let mut i: usize = 0;
    while i < offers.len()
        invariant
            0 <= i <= offers@.len(),
            top.wf(),
            top@ == selected(offers@.take(i as int)),
        decreases offers@.len() - i,
    {
        top.offer(offers[i]);
        assert(offers@.take(i + 1).drop_last() =~= offers@.take(i as int));
        i = i + 1;
    }
    assert(offers@.take(offers@.len() as int) =~= offers@);
    top.drain_descending()
}

} // verus!
