//! The outcome patterns of a guess, and how many words of a reference
//! distribution each pattern admits.
use crate::elimination::admitted;
use crate::feedback::{agrees_at, confirmed, consistent, consistent_with, occurrences, Feedback, Outcome, Word};
use vstd::prelude::*;

verus! {

/// Number of outcome patterns of a five-letter guess: three outcomes at
/// each of five positions.
pub const PATTERN_COUNT: usize = 243;

/// The outcome that a base-three digit stands for.
pub open spec fn outcome_of_digit(d: int) -> Outcome {
    if d == 0 {
        Outcome::Present
    } else if d == 1 {
        Outcome::Absent
    } else {
        Outcome::Correct
    }
}

/// Pattern number `k`: its five base-three digits, most significant first,
/// one outcome per position.
pub open spec fn pattern_of(k: int) -> Seq<Outcome> {
    seq![
        outcome_of_digit((k / 3 / 3 / 3 / 3) % 3),
        outcome_of_digit((k / 3 / 3 / 3) % 3),
        outcome_of_digit((k / 3 / 3) % 3),
        outcome_of_digit((k / 3) % 3),
        outcome_of_digit(k % 3),
    ]
}

/// Number of words of `refs` that the guess `guess` marked with pattern
/// number `k` admits.
pub open spec fn pattern_count(refs: Seq<Word>, guess: Seq<char>, k: int) -> nat {
    refs.filter(consistent_with(guess, pattern_of(k))).len()
}

/// Sum of the counts of the first `n` patterns.
pub open spec fn pattern_total(refs: Seq<Word>, guess: Seq<char>, n: int) -> nat
    decreases n,
{
    if n <= 0 {
        0
    } else {
        pattern_total(refs, guess, n - 1) + pattern_count(refs, guess, n - 1)
    }
}

/// Number of the first `n` patterns of `guess` that admit `w`.
pub open spec fn patterns_admitting(w: Word, guess: Seq<char>, n: int) -> nat
    decreases n,
{
    if n <= 0 {
        0
    } else {
        patterns_admitting(w, guess, n - 1) + if consistent(w.letters@, guess, pattern_of(n - 1)) {
            1nat
        } else {
            0nat
        }
    }
}

/// Sum over the words of `refs` of the number of the first `n` patterns
/// that admit each.
pub open spec fn admissions(refs: Seq<Word>, guess: Seq<char>, n: int) -> nat
    decreases refs.len(),
{
    if refs.len() == 0 {
        0
    } else {
        admissions(refs.drop_last(), guess, n) + patterns_admitting(refs.last(), guess, n)
    }
}

proof fn lemma_total_push(refs: Seq<Word>, x: Word, guess: Seq<char>, n: int)
    ensures
        pattern_total(refs.push(x), guess, n) == pattern_total(refs, guess, n) + patterns_admitting(
            x,
            guess,
            n,
        ),
    decreases n,
{
    if n > 0 {
        lemma_total_push(refs, x, guess, n - 1);
        refs.lemma_filter_push(x, consistent_with(guess, pattern_of(n - 1)));
    }
}

/// Counting the words admitted by each pattern and adding the counts is
/// the same as counting, for each word, the patterns that admit it.
proof fn lemma_total_is_admissions(refs: Seq<Word>, guess: Seq<char>, n: int)
    ensures
        pattern_total(refs, guess, n) == admissions(refs, guess, n),
    decreases refs.len(),
{
    if refs.len() == 0 {
        lemma_total_empty(refs, guess, n);
    } else {
        let init = refs.drop_last();
        lemma_total_is_admissions(init, guess, n);
        lemma_total_push(init, refs.last(), guess, n);
        assert(init.push(refs.last()) == refs);
    }
}

proof fn lemma_total_empty(refs: Seq<Word>, guess: Seq<char>, n: int)
    requires
        refs.len() == 0,
    ensures
        pattern_total(refs, guess, n) == 0,
    decreases n,
{
    reveal(Seq::filter);
    if n > 0 {
        lemma_total_empty(refs, guess, n - 1);
    }
}

proof fn lemma_admissions_once(refs: Seq<Word>, guess: Seq<char>)
    requires
        forall|i: int| 0 <= i < refs.len() ==> patterns_admitting(#[trigger] refs[i], guess, 243) == 1,
    ensures
        admissions(refs, guess, 243) == refs.len(),
    decreases refs.len(),
{
    if refs.len() > 0 {
        let init = refs.drop_last();
        assert forall|i: int| 0 <= i < init.len() implies patterns_admitting(
            #[trigger] init[i],
            guess,
            243,
        ) == 1 by {
            assert(init[i] == refs[i]);
        }
        lemma_admissions_once(init, guess);
        assert(patterns_admitting(refs[refs.len() - 1], guess, 243) == 1);
    }
}

/// The outcome probabilities of a guess add up to one: when every word of
/// the reference distribution is admitted by exactly one of the guess's
/// outcome patterns, the counts of all patterns add up to the size of the
/// distribution.
pub proof fn lemma_pattern_counts_sum_to_size(refs: Seq<Word>, guess: Seq<char>)
    requires
        forall|i: int| 0 <= i < refs.len() ==> patterns_admitting(#[trigger] refs[i], guess, 243) == 1,
    ensures
        pattern_total(refs, guess, 243) == refs.len(),
{
    lemma_total_is_admissions(refs, guess, 243);
    lemma_admissions_once(refs, guess);
}

/// The base-three digit that an outcome stands for.
pub open spec fn digit_of(o: Outcome) -> int {
    match o {
        Outcome::Present => 0,
        Outcome::Absent => 1,
        Outcome::Correct => 2,
    }
}

/// The number of the pattern `o`.
pub open spec fn pattern_number(o: Seq<Outcome>) -> int {
    81 * digit_of(o[0]) + 27 * digit_of(o[1]) + 9 * digit_of(o[2]) + 3 * digit_of(o[3]) + digit_of(
        o[4],
    )
}

/// Pattern number `k` reads back as `k`.
proof fn lemma_number_of_pattern(k: int)
    requires
        0 <= k < 243,
    ensures
        pattern_number(pattern_of(k)) == k,
{
    let q1 = k / 3;
    let q2 = q1 / 3;
    let q3 = q2 / 3;
    let q4 = q3 / 3;
    assert(k == 3 * q1 + k % 3);
    assert(q1 == 3 * q2 + q1 % 3);
    assert(q2 == 3 * q3 + q2 % 3);
    assert(q3 == 3 * q4 + q3 % 3);
    assert(q4 < 3);
    assert(q4 % 3 == q4);
    let p = pattern_of(k);
    assert(digit_of(p[0]) == q4 % 3);
    assert(digit_of(p[1]) == q3 % 3);
    assert(digit_of(p[2]) == q2 % 3);
    assert(digit_of(p[3]) == q1 % 3);
    assert(digit_of(p[4]) == k % 3);
}

/// Distinct pattern numbers give distinct patterns.
pub proof fn lemma_patterns_distinct(j: int, k: int)
    requires
        0 <= j < 243,
        0 <= k < 243,
        j != k,
    ensures
        pattern_of(j) != pattern_of(k),
{
    lemma_number_of_pattern(j);
    lemma_number_of_pattern(k);
}

/// Every sequence of five outcomes is a pattern, under its own number.
pub proof fn lemma_pattern_complete(o: Seq<Outcome>)
    requires
        o.len() == 5,
    ensures
        0 <= pattern_number(o) < 243,
        pattern_of(pattern_number(o)) == o,
{
    let k = pattern_number(o);
    let (d0, d1, d2, d3, d4) = (digit_of(o[0]), digit_of(o[1]), digit_of(o[2]), digit_of(o[3]), digit_of(o[4]));
    assert(0 <= d0 < 3 && 0 <= d1 < 3 && 0 <= d2 < 3 && 0 <= d3 < 3 && 0 <= d4 < 3);
    assert(k / 3 == 27 * d0 + 9 * d1 + 3 * d2 + d3);
    assert(k / 3 / 3 == 9 * d0 + 3 * d1 + d2);
    assert(k / 3 / 3 / 3 == 3 * d0 + d1);
    assert(k / 3 / 3 / 3 / 3 == d0);
    assert(pattern_of(k) =~= o);
}

/// Whether the five letters of `g` are pairwise distinct.
pub open spec fn distinct_letters(g: Seq<char>) -> bool {
    forall|i: int, j: int| 0 <= i < j < 5 ==> g[i] != g[j]
}

/// The mark that position `i` of the guess `g` earns against the word `w`
/// when the guess repeats no letter.
pub open spec fn mark_against(w: Seq<char>, g: Seq<char>, i: int) -> Outcome {
    if w[i] == g[i] {
        Outcome::Correct
    } else if w.contains(g[i]) {
        Outcome::Present
    } else {
        Outcome::Absent
    }
}

/// The marks that the guess `g` earns against the word `w`.
pub open spec fn marks_against(w: Seq<char>, g: Seq<char>) -> Seq<Outcome> {
    seq![
        mark_against(w, g, 0),
        mark_against(w, g, 1),
        mark_against(w, g, 2),
        mark_against(w, g, 3),
        mark_against(w, g, 4),
    ]
}

proof fn lemma_no_occurrences(s: Seq<char>, c: char, n: int)
    requires
        0 <= n <= s.len(),
    ensures
        occurrences(s, c, n) == 0 <==> forall|j: int| 0 <= j < n ==> s[j] != c,
    decreases n,
{
    if n > 0 {
        lemma_no_occurrences(s, c, n - 1);
    }
}

proof fn lemma_unconfirmed(g: Seq<char>, outs: Seq<Outcome>, i: int, n: int)
    requires
        g.len() == 5,
        outs.len() == 5,
        distinct_letters(g),
        0 <= i < 5,
        outs[i] == Outcome::Absent,
        0 <= n <= 5,
    ensures
        confirmed(g, outs, g[i], n) == 0,
    decreases n,
{
    if n > 0 {
        lemma_unconfirmed(g, outs, i, n - 1);
        if n - 1 != i {
            if n - 1 < i {
                assert(g[n - 1] != g[i]);
            } else {
                assert(g[i] != g[n - 1]);
            }
        }
    }
}

/// Against a guess that repeats no letter, a word is consistent with
/// exactly one sequence of marks: the marks it earns.
proof fn lemma_consistent_iff_earned(w: Seq<char>, g: Seq<char>, outs: Seq<Outcome>)
    requires
        w.len() == 5,
        g.len() == 5,
        outs.len() == 5,
        distinct_letters(g),
    ensures
        consistent(w, g, outs) <==> outs == marks_against(w, g),
{
    assert forall|i: int| 0 <= i < 5 implies (agrees_at(w, g, outs, i) <==> outs[i] == mark_against(
        w,
        g,
        i,
    )) by {
        lemma_no_occurrences(w, g[i], 5);
        if outs[i] == Outcome::Absent {
            lemma_unconfirmed(g, outs, i, 5);
        }
        if !w.contains(g[i]) {
            assert forall|j: int| 0 <= j < 5 implies w[j] != g[i] by {
                if w[j] == g[i] {
                    assert(w.contains(g[i]));
                }
            }
        }
    }
    if consistent(w, g, outs) {
        assert(outs =~= marks_against(w, g));
    }
}

proof fn lemma_one_pattern_admits(w: Word, g: Seq<char>, n: int)
    requires
        g.len() == 5,
        distinct_letters(g),
        0 <= n <= 243,
    ensures
        patterns_admitting(w, g, n) == if pattern_number(marks_against(w.letters@, g)) < n {
            1nat
        } else {
            0nat
        },
    decreases n,
{
    let m = marks_against(w.letters@, g);
    lemma_pattern_complete(m);
    if n > 0 {
        lemma_one_pattern_admits(w, g, n - 1);
        lemma_consistent_iff_earned(w.letters@, g, pattern_of(n - 1));
        lemma_number_of_pattern(n - 1);
    }
}

/// For a guess that repeats no letter, the outcome probabilities always add
/// up to one: the counts of all its patterns add up to the size of the
/// reference distribution.
pub proof fn lemma_distinct_guess_counts_sum_to_size(refs: Seq<Word>, guess: Seq<char>)
    requires
        guess.len() == 5,
        distinct_letters(guess),
    ensures
        pattern_total(refs, guess, 243) == refs.len(),
{
    assert forall|i: int| 0 <= i < refs.len() implies patterns_admitting(
        #[trigger] refs[i],
        guess,
        243,
    ) == 1 by {
        lemma_one_pattern_admits(refs[i], guess, 243);
    }
    lemma_pattern_counts_sum_to_size(refs, guess);
}

fn outcome_from_digit(d: usize) -> (o: Outcome)
    requires
        d < 3,
    ensures
        o == outcome_of_digit(d as int),
{
    if d == 0 {
        Outcome::Present
    } else if d == 1 {
        Outcome::Absent
    } else {
        Outcome::Correct
    }
}

/// Every outcome pattern of `word`: entry `k` carries pattern number `k`.
/// Each sequence of five outcomes occurs exactly once.
pub fn all_outcome_patterns(word: Word) -> (r: Vec<Feedback>)
    ensures
        r@.len() == PATTERN_COUNT,
        forall|k: int|
            0 <= k < PATTERN_COUNT ==> (#[trigger] r@[k]).word == word && r@[k].outcomes@
                == pattern_of(k),
        forall|j: int, k: int|
            0 <= j < PATTERN_COUNT && 0 <= k < PATTERN_COUNT && j != k ==> (#[trigger] r@[j]).outcomes@
                != (#[trigger] r@[k]).outcomes@,
        forall|o: Seq<Outcome>|
            o.len() == 5 ==> exists|k: int|
                0 <= k < PATTERN_COUNT && (#[trigger] r@[k]).outcomes@ == o,
{
    let mut r: Vec<Feedback> = Vec::new();
    let mut k: usize = 0;
    while k < PATTERN_COUNT
        invariant
            0 <= k <= PATTERN_COUNT,
            r@.len() == k,
            forall|j: int|
                0 <= j < k ==> (#[trigger] r@[j]).word == word && r@[j].outcomes@ == pattern_of(j),
        decreases PATTERN_COUNT - k,
    {
        let outcomes = [
            outcome_from_digit((k / 3 / 3 / 3 / 3) % 3),
            outcome_from_digit((k / 3 / 3 / 3) % 3),
            outcome_from_digit((k / 3 / 3) % 3),
            outcome_from_digit((k / 3) % 3),
            outcome_from_digit(k % 3),
        ];
        assert(outcomes@ =~= pattern_of(k as int));
        r.push(Feedback { word, outcomes });
        k = k + 1;
    }
    proof {
        assert forall|i: int, j: int|
            0 <= i < PATTERN_COUNT && 0 <= j < PATTERN_COUNT && i != j implies (#[trigger] r@[i]).outcomes@
                != (#[trigger] r@[j]).outcomes@ by {
            lemma_patterns_distinct(i, j);
        }
        assert forall|o: Seq<Outcome>| o.len() == 5 implies exists|k: int|
            0 <= k < PATTERN_COUNT && (#[trigger] r@[k]).outcomes@ == o by {
            lemma_pattern_complete(o);
            assert(r@[pattern_number(o)].outcomes@ == o);
        }
    }
    r
}

/// Number of words of `refs` that `fb` admits.
pub fn count_admitted(refs: &Vec<Word>, fb: &Feedback) -> (n: usize)
    ensures
        n == refs@.filter(admitted(*fb)).len(),
{
    let mut n: usize = 0;
    let mut i: usize = 0;
    while i < refs.len()
        invariant
            0 <= i <= refs@.len(),
            n <= i,
            n == refs@.take(i as int).filter(admitted(*fb)).len(),
        decreases refs@.len() - i,
    {
        proof {
            let prefix = refs@.take(i as int);
            assert(refs@.take(i + 1) == prefix.push(refs@[i as int]));
            prefix.lemma_filter_push(refs@[i as int], admitted(*fb));
        }
        if fb.matches(&refs[i]) {
            n = n + 1;
        }
        i = i + 1;
    }
    assert(refs@.take(refs@.len() as int) == refs@);
    n
}

/// For each outcome pattern of `guess`, by number, how many words of
/// `reference` it admits. The counts depend on the guess and the reference
/// alone, so scoring the same guess twice gives the same counts.
pub fn pattern_counts(guess: &Word, reference: &Vec<Word>) -> (r: Vec<usize>)
    ensures
        r@.len() == PATTERN_COUNT,
        forall|k: int|
            0 <= k < PATTERN_COUNT ==> #[trigger] r@[k] == pattern_count(
                reference@,
                guess.letters@,
                k,
            ),
{
    let patterns = all_outcome_patterns(*guess);
    let mut r: Vec<usize> = Vec::new();
    let mut k: usize = 0;
    while k < PATTERN_COUNT
        invariant
            0 <= k <= PATTERN_COUNT,
            patterns@.len() == PATTERN_COUNT,
            forall|j: int|
                0 <= j < PATTERN_COUNT ==> (#[trigger] patterns@[j]).word == *guess
                    && patterns@[j].outcomes@ == pattern_of(j),
            r@.len() == k,
            forall|j: int|
                0 <= j < k ==> #[trigger] r@[j] == pattern_count(reference@, guess.letters@, j),
        decreases PATTERN_COUNT - k,
    {
        let c = count_admitted(reference, &patterns[k]);
        assert(patterns@[k as int].word == *guess);
        r.push(c);
        k = k + 1;
    }
    r
}

} // verus!
