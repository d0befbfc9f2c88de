use wordle_solver::elimination::{apply, apply_history};
use wordle_solver::feedback::{Feedback, MalformedFeedback, Outcome, Word};
use wordle_solver::{opening_moves, plan, Plan};
use wordle_solver::sampling::{reference_distribution, sample_size};
use wordle_solver::scoring::{all_outcome_patterns, pattern_counts, PATTERN_COUNT};
use wordle_solver::top_k::{top_words, Candidate, TopK};

fn word(s: &str) -> Word {
    Word::from_str(s).unwrap()
}

fn words(list: &[&str]) -> Vec<Word> {
    list.iter().map(|s| word(s)).collect()
}

fn spelled(w: &Word) -> String {
    w.letters.iter().collect()
}

fn fb(w: &str, code: &str) -> Feedback {
    Feedback::new(w, code).unwrap()
}

#[test]
fn own_word_under_all_correct_matches() {
    for w in ["crane", "sassy", "llama", "zzzzz"] {
        let f = fb(w, "GGGGG");
        assert!(f.matches(&f.word));
    }
}

#[test]
fn feedback_parses_symbols() {
    let f = fb("crane", "Gyggg");
    assert_eq!(spelled(&f.word), "crane");
    assert_eq!(
        f.outcomes,
        [Outcome::Correct, Outcome::Present, Outcome::Absent, Outcome::Absent, Outcome::Absent]
    );
}

#[test]
fn feedback_rejects_wrong_word_length() {
    assert_eq!(Feedback::new("tare", "GGGGG"), Err(MalformedFeedback::WordLength));
    assert_eq!(Feedback::new("tarest", "GGGGG"), Err(MalformedFeedback::WordLength));
}

#[test]
fn feedback_rejects_wrong_code_length() {
    assert_eq!(Feedback::new("tares", "GGGG"), Err(MalformedFeedback::OutcomeLength));
    assert_eq!(Feedback::new("tares", "GGGGGG"), Err(MalformedFeedback::OutcomeLength));
}

#[test]
fn feedback_rejects_invalid_symbol() {
    assert_eq!(Feedback::new("tares", "GGxGG"), Err(MalformedFeedback::InvalidSymbol));
    assert_eq!(Feedback::new("tares", "YGGGG"), Err(MalformedFeedback::InvalidSymbol));
}

#[test]
fn word_needs_five_letters() {
    assert!(Word::from_str("abcd").is_none());
    assert!(Word::from_str("").is_none());
    assert_eq!(spelled(&word("abcde")), "abcde");
}

#[test]
fn correct_requires_letter_in_place() {
    let f = fb("tares", "Ggggg");
    assert!(f.matches(&word("thick")));
    assert!(!f.matches(&word("stick")));
    // 'a', 'r', 'e', 's' are absent with no confirmed copies
    assert!(!f.matches(&word("tacky")));
}

#[test]
fn present_requires_letter_elsewhere() {
    let f = fb("crane", "gyggg");
    assert!(f.matches(&word("floor")));
    assert!(!f.matches(&word("ultra"))); // holds 'a', which is absent
    assert!(!f.matches(&word("orbit"))); // 'r' at the marked position
    assert!(!f.matches(&word("built"))); // no 'r'
}

#[test]
fn duplicate_letter_sassy_against_class() {
    // s present, a present, second s absent, third s correct, y absent
    let f = fb("sassy", "yygGg");
    assert!(f.matches(&word("class")));
    // one 's' too many or too few
    assert!(!f.matches(&word("sassa")));
    assert!(!f.matches(&word("clasp")));
}

#[test]
fn duplicate_letter_one_correct_one_absent() {
    // first 's' correct, the other two absent: exactly one 's' allowed
    let f = fb("sassy", "Ggggg");
    assert!(f.matches(&word("shirt")));
    assert!(!f.matches(&word("sulks")));
    assert!(!f.matches(&word("stows")));
    assert!(!f.matches(&word("brink")));
    let mut store = words(&["shirt", "sulks", "stows", "shone", "slick", "brink"]);
    apply(&mut store, &f);
    let left: Vec<String> = store.iter().map(spelled).collect();
    assert_eq!(left, vec!["shirt", "shone", "slick"]);
}

#[test]
fn history_order_does_not_matter() {
    let dict = words(&[
        "thick", "stick", "trick", "tulip", "chess", "tonic", "pilot", "tummy", "tubby", "total",
    ]);
    let a = fb("tares", "Ggggg");
    let b = fb("chick", "ggggg");
    let mut s1 = dict.clone();
    apply_history(&mut s1, &vec![a, b]);
    let mut s2 = dict.clone();
    apply_history(&mut s2, &vec![b, a]);
    assert_eq!(s1, s2);
    let left: Vec<String> = s1.iter().map(spelled).collect();
    assert_eq!(left, vec!["tummy", "tubby"]);
}

#[test]
fn empty_history_keeps_store() {
    let dict = words(&["thick", "stick"]);
    let mut s = dict.clone();
    apply_history(&mut s, &vec![]);
    assert_eq!(s, dict);
}

#[test]
fn tares_first_letter_correct_keeps_t_words() {
    let dict = words(&[
        "tares", "thick", "stick", "tulip", "pilot", "tonic", "mound", "tight", "cloud", "topic",
        "thumb", "truck",
    ]);
    let mut store = dict.clone();
    apply_history(&mut store, &vec![fb("tares", "Ggggg")]);
    assert!(!store.is_empty());
    assert!(store.iter().all(|w| w.letters[0] == 't'));
    let reference = reference_distribution(&store);
    let mut offers = Vec::new();
    for w in &store {
        let counts = pattern_counts(w, &reference);
        let distinct = counts.iter().filter(|&&c| c > 0).count() as u64;
        offers.push(Candidate { word: *w, score: distinct });
    }
    let best = top_words(&offers);
    assert!(best.len() <= 5 && !best.is_empty());
    assert!(best.iter().all(|w| w.letters[0] == 't'));
}

#[test]
fn patterns_are_all_distinct() {
    let g = word("crane");
    let pats = all_outcome_patterns(g);
    assert_eq!(pats.len(), 243);
    for i in 0..pats.len() {
        assert_eq!(pats[i].word, g);
        for j in (i + 1)..pats.len() {
            assert_ne!(pats[i].outcomes, pats[j].outcomes);
        }
    }
    assert_eq!(pats[0].outcomes, [Outcome::Present; 5]);
    assert_eq!(pats[242].outcomes, [Outcome::Correct; 5]);
}

#[test]
fn pattern_counts_add_up_to_reference_size() {
    let reference = words(&["class", "crane", "shirt", "about", "cacao", "eerie"]);
    let counts = pattern_counts(&word("crane"), &reference);
    assert_eq!(counts.len(), PATTERN_COUNT);
    assert_eq!(counts.iter().sum::<usize>(), reference.len());
    // only "crane" itself is all correct
    assert_eq!(counts[242], 1);
    let probs: f64 = counts.iter().map(|&c| c as f64 / reference.len() as f64).sum();
    assert!((probs - 1.0).abs() < 1e-9);
}

#[test]
fn scoring_twice_gives_same_counts() {
    let reference = words(&["class", "crane", "shirt", "about"]);
    let g = word("slate");
    assert_eq!(pattern_counts(&g, &reference), pattern_counts(&g, &reference));
}

#[test]
fn sample_size_values() {
    assert_eq!(sample_size(0), 250);
    assert_eq!(sample_size(100), 250);
    assert_eq!(sample_size(1250), 250);
    assert_eq!(sample_size(1255), 251);
    assert_eq!(sample_size(2000), 400);
}

#[test]
fn small_store_is_its_own_reference() {
    let store = words(&["thick", "stick", "trick"]);
    assert_eq!(reference_distribution(&store), store);
    let store = vec![word("thick"); 250];
    assert_eq!(reference_distribution(&store), store);
}

#[test]
fn large_store_is_sampled() {
    let mut store = Vec::new();
    for i in 0..1300u32 {
        let a = char::from(b'a' + (i % 26) as u8);
        let b = char::from(b'a' + ((i / 26) % 26) as u8);
        let c = char::from(b'a' + ((i / 676) % 26) as u8);
        store.push(Word { letters: [a, b, c, 'x', 'y'] });
    }
    let reference = reference_distribution(&store);
    assert_eq!(reference.len(), 260);
    assert_ne!(reference, store[..260].to_vec());
    let mut seen = std::collections::HashSet::new();
    for w in &reference {
        assert!(store.contains(w));
        assert!(seen.insert(spelled(w)));
    }
    let store = vec![word("thick"); 300];
    assert_eq!(reference_distribution(&store).len(), 250);
}

#[test]
fn top_k_evicts_lowest() {
    let names = ["aaaaa", "bbbbb", "ccccc", "ddddd", "eeeee", "fffff"];
    let offers: Vec<Candidate> = names
        .iter()
        .enumerate()
        .map(|(i, n)| Candidate { word: word(n), score: (i as u64) + 1 })
        .collect();
    let mut top = TopK::new();
    for c in &offers {
        top.offer(*c);
    }
    assert_eq!(top.len(), 5);
    let out: Vec<String> = top.drain_descending().iter().map(spelled).collect();
    assert_eq!(out, vec!["fffff", "eeeee", "ddddd", "ccccc", "bbbbb"]);
    assert_eq!(top.len(), 0);
    let out: Vec<String> = top_words(&offers).iter().map(spelled).collect();
    assert_eq!(out, vec!["fffff", "eeeee", "ddddd", "ccccc", "bbbbb"]);
}

#[test]
fn top_k_keeps_order_of_equal_scores() {
    let offers = vec![
        Candidate { word: word("aaaaa"), score: 3 },
        Candidate { word: word("bbbbb"), score: 7 },
        Candidate { word: word("ccccc"), score: 3 },
        Candidate { word: word("ddddd"), score: 1 },
    ];
    let out: Vec<String> = top_words(&offers).iter().map(spelled).collect();
    assert_eq!(out, vec!["bbbbb", "aaaaa", "ccccc", "ddddd"]);
    assert!(top_words(&vec![]).is_empty());
}

#[test]
fn opening_moves_are_fixed() {
    let out: Vec<String> = opening_moves().iter().map(spelled).collect();
    assert_eq!(out, vec!["tares", "lares", "rales", "rates", "teras"]);
}

#[test]
fn plan_without_history_gives_opening() {
    let dict = words(&["thick", "stick"]);
    match plan(&dict, &vec![]) {
        Plan::Opening(list) => {
            let out: Vec<String> = list.iter().map(spelled).collect();
            assert_eq!(out, vec!["tares", "lares", "rales", "rates", "teras"]);
        }
        Plan::Score { .. } => panic!("expected the opening ranking"),
    }
}

#[test]
fn plan_with_history_narrows() {
    let dict = words(&["thick", "stick", "tummy", "tubby", "total"]);
    match plan(&dict, &vec![fb("tares", "Ggggg")]) {
        Plan::Score { store, reference } => {
            let left: Vec<String> = store.iter().map(spelled).collect();
            assert_eq!(left, vec!["thick", "tummy", "tubby"]);
            assert_eq!(reference, store);
        }
        Plan::Opening(_) => panic!("expected a narrowed store"),
    }
}

#[test]
fn distinct_letter_guess_classifies_each_word_once() {
    let reference = words(&["sassy", "eerie", "llama", "zzzzz", "nacre", "class", "crane"]);
    for g in ["crane", "slate", "pious"] {
        let counts = pattern_counts(&word(g), &reference);
        assert_eq!(counts.iter().sum::<usize>(), reference.len());
    }
}
