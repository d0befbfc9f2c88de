//! Words, per-letter outcomes, and the rule that decides whether a word is
//! consistent with one round of feedback.
use vstd::prelude::*;

verus! {

/// Number of letters in every word of the puzzle.
pub const WORD_LEN: usize = 5;

/// A word of exactly five letters.
#[derive(Clone, Copy, Debug, PartialEq, Eq)]
pub struct Word {
    pub letters: [char; 5],
}

/// The classification of one guessed letter.
#[derive(Clone, Copy, Debug, PartialEq, Eq, Structural)]
pub enum Outcome {
    /// The letter stands at this very position.
    Correct,
    /// The letter occurs in the word, but not at this position.
    Present,
    /// Every occurrence of the letter is accounted for by the letter's
    /// `Correct` and `Present` marks elsewhere in the guess.
    Absent,
}

/// One guessed word with the outcome of each of its letters.
#[derive(Clone, Copy, Debug, PartialEq, Eq)]
pub struct Feedback {
    pub word: Word,
    pub outcomes: [Outcome; 5],
}

/// Why a piece of feedback could not be built.
#[derive(Clone, Copy, Debug, PartialEq, Eq, Structural)]
pub enum MalformedFeedback {
    /// The guessed word does not have five letters.
    WordLength,
    /// The outcome code does not have five symbols.
    OutcomeLength,
    /// The outcome code holds a symbol other than `G`, `y` and `g`.
    InvalidSymbol,
}

/// The outcome that a code symbol stands for: `G` correct, `y` present,
/// `g` absent.
pub open spec fn outcome_of_symbol(c: char) -> Option<Outcome> {
    if c == 'G' {
        Some(Outcome::Correct)
    } else if c == 'y' {
        Some(Outcome::Present)
    } else if c == 'g' {
        Some(Outcome::Absent)
    } else {
        None
    }
}

/// Number of occurrences of `c` among the first `n` letters of `s`.
pub open spec fn occurrences(s: Seq<char>, c: char, n: int) -> nat
    decreases n,
{
    if n <= 0 {
        0
    } else {
        occurrences(s, c, n - 1) + if s[n - 1] == c { 1nat } else { 0nat }
    }
}

/// Number of positions among the first `n` of the guess that hold `c` and
/// are marked `Correct` or `Present`.
pub open spec fn confirmed(guess: Seq<char>, outs: Seq<Outcome>, c: char, n: int) -> nat
    decreases n,
{
    if n <= 0 {
        0
    } else {
        confirmed(guess, outs, c, n - 1) + if guess[n - 1] == c && outs[n - 1] != Outcome::Absent {
            1nat
        } else {
            0nat
        }
    }
}

/// Whether `cand` agrees with the mark at position `i` of the guess.
pub open spec fn agrees_at(cand: Seq<char>, guess: Seq<char>, outs: Seq<Outcome>, i: int) -> bool {
    let g = guess[i];
    match outs[i] {
        Outcome::Correct => cand[i] == g,
        Outcome::Present => cand.contains(g) && cand[i] != g,
        Outcome::Absent => occurrences(cand, g, 5) == confirmed(guess, outs, g, 5),
    }
}

/// Whether `cand` agrees with every mark of the guess.
pub open spec fn consistent(cand: Seq<char>, guess: Seq<char>, outs: Seq<Outcome>) -> bool {
    forall|i: int| 0 <= i < 5 ==> agrees_at(cand, guess, outs, i)
}

impl Word {
    /// The word's letters.
    pub open spec fn view(&self) -> Seq<char> {
        self.letters@
    }

    /// Builds a word from a string of exactly five characters.
    pub fn from_str(s: &str) -> (r: Option<Word>)
        ensures
            r is Some <==> s@.len() == 5,
            r matches Some(w) ==> w.letters@ == s@,
    {
        if s.unicode_len() != WORD_LEN {
            return None;
        }
        let letters = [s.get_char(0), s.get_char(1), s.get_char(2), s.get_char(3), s.get_char(4)];
        assert(letters@ =~= s@);
        Some(Word { letters })
    }

    /// Number of occurrences of `c` in the word.
    pub fn count_letter(&self, c: char) -> (n: usize)
        ensures
            n == occurrences(self.letters@, c, 5),
    {
        let mut n: usize = 0;
        let mut i: usize = 0;
        while i < WORD_LEN
            invariant
                0 <= i <= 5,
                n == occurrences(self.letters@, c, i as int),
                n <= i,
            decreases 5 - i,
        {
            if self.letters[i] == c {
                n = n + 1;
            }
            i = i + 1;
        }
        n
    }

    /// Whether the word contains `c`.
    pub fn has_letter(&self, c: char) -> (r: bool)
        ensures
            r == self.letters@.contains(c),
    {
        let mut i: usize = 0;
        while i < WORD_LEN
            invariant
                0 <= i <= 5,
                forall|j: int| 0 <= j < i ==> self.letters@[j] != c,
            decreases 5 - i,
        {
            if self.letters[i] == c {
                return true;
            }
            i = i + 1;
        }
        false
    }
}

/// Reads one outcome symbol.
pub fn parse_outcome(c: char) -> (r: Option<Outcome>)
    ensures
        r == outcome_of_symbol(c),
{
    if c == 'G' {
        Some(Outcome::Correct)
    } else if c == 'y' {
        Some(Outcome::Present)
    } else if c == 'g' {
        Some(Outcome::Absent)
    } else {
        None
    }
}

/// The test that a guess with the marks `outs` puts to a word.
pub open spec fn consistent_with(guess: Seq<char>, outs: Seq<Outcome>) -> spec_fn(Word) -> bool {
    |w: Word| consistent(w.letters@, guess, outs)
}

/// Whether every symbol of `code` names an outcome.
pub open spec fn valid_code(code: Seq<char>) -> bool {
    forall|i: int| 0 <= i < code.len() ==> outcome_of_symbol(code[i]) is Some
}

impl Feedback {
    /// Whether the word `cand` is consistent with this feedback.
    pub open spec fn admits(&self, cand: Word) -> bool {
        consistent(cand.letters@, self.word.letters@, self.outcomes@)
    }

    /// Builds feedback from a guessed word and its five-symbol outcome code.
    pub fn new(word: &str, code: &str) -> (r: Result<Feedback, MalformedFeedback>)
        ensures
            word@.len() != 5 ==> r == Err::<Feedback, MalformedFeedback>(
                MalformedFeedback::WordLength,
            ),
            word@.len() == 5 && code@.len() != 5 ==> r == Err::<Feedback, MalformedFeedback>(
                MalformedFeedback::OutcomeLength,
            ),
            word@.len() == 5 && code@.len() == 5 && !valid_code(code@) ==> r == Err::<
                Feedback,
                MalformedFeedback,
            >(MalformedFeedback::InvalidSymbol),
            r is Ok <==> word@.len() == 5 && code@.len() == 5 && valid_code(code@),
            r matches Ok(f) ==> f.word.letters@ == word@ && forall|i: int|
                0 <= i < 5 ==> outcome_of_symbol(code@[i]) == Some(#[trigger] f.outcomes@[i]),
    {
        let w = match Word::from_str(word) {
            Some(w) => w,
            None => return Err(MalformedFeedback::WordLength),
        };
        if code.unicode_len() != WORD_LEN {
            return Err(MalformedFeedback::OutcomeLength);
        }
        let mut outcomes = [Outcome::Absent; 5];
        let mut i: usize = 0;
        while i < WORD_LEN
            invariant
                0 <= i <= 5,
                code@.len() == 5,
                word@.len() == 5,
                w.letters@ == word@,
                forall|j: int| 0 <= j < i ==> outcome_of_symbol(code@[j]) == Some(#[trigger] outcomes@[j]),
            decreases 5 - i,
        {
            match parse_outcome(code.get_char(i)) {
                Some(o) => {
                    outcomes[i] = o;
                },
                None => {
                    assert(outcome_of_symbol(code@[i as int]) is None);
                    return Err(MalformedFeedback::InvalidSymbol);
                },
            }
            i = i + 1;
        }
        assert forall|j: int| 0 <= j < code@.len() implies outcome_of_symbol(code@[j]) is Some by {
            assert(outcome_of_symbol(code@[j]) == Some(outcomes@[j]));
        }
        Ok(Feedback { word: w, outcomes })
    }

    /// Number of positions of the guess that hold `c` and are marked
    /// `Correct` or `Present`.
    fn confirmed_count(&self, c: char) -> (n: usize)
        ensures
            n == confirmed(self.word.letters@, self.outcomes@, c, 5),
    {
        let mut n: usize = 0;
        let mut j: usize = 0;
        while j < WORD_LEN
            invariant
                0 <= j <= 5,
                n == confirmed(self.word.letters@, self.outcomes@, c, j as int),
                n <= j,
            decreases 5 - j,
        {
            if self.word.letters[j] == c && self.outcomes[j] != Outcome::Absent {
                n = n + 1;
            }
            j = j + 1;
        }
        n
    }

    /// Whether the word `cand` is consistent with this feedback.
    pub fn matches(&self, cand: &Word) -> (r: bool)
        ensures
            r == self.admits(*cand),
    {
        let mut i: usize = 0;
        while i < WORD_LEN
            invariant
                0 <= i <= 5,
                forall|j: int|
                    0 <= j < i ==> agrees_at(cand.letters@, self.word.letters@, self.outcomes@, j),
            decreases 5 - i,
        {
            let g = self.word.letters[i];
            let ok = match self.outcomes[i] {
                Outcome::Correct => cand.letters[i] == g,
                Outcome::Present => cand.has_letter(g) && cand.letters[i] != g,
                Outcome::Absent => cand.count_letter(g) == self.confirmed_count(g),
            };
            if !ok {
                assert(!agrees_at(cand.letters@, self.word.letters@, self.outcomes@, i as int));
                return false;
            }
            i = i + 1;
        }
        true
    }
}

/// A guess marked `Correct` at every position admits the guessed word
/// itself.
pub proof fn lemma_all_correct_admits_own_word(f: Feedback)
    requires
        forall|i: int| 0 <= i < 5 ==> f.outcomes@[i] == Outcome::Correct,
    ensures
        f.admits(f.word),
{
    assert forall|i: int| 0 <= i < 5 implies agrees_at(
        f.word.letters@,
        f.word.letters@,
        f.outcomes@,
        i,
    ) by {
        assert(f.outcomes@[i] == Outcome::Correct);
    }
}

} // verus!
