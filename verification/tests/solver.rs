use wordle_solver::classify::{get_bucket, NUM_BUCKETS};
use wordle_solver::optimize::get_best_pattern;
use wordle_solver::partition::{bucket_counts, bucketize_answers};
use wordle_solver::session::{first_guess, parse_feedback, Session, SessionState};
use wordle_solver::word::{
    load_vocabulary, string_to_word, word_to_string, SolverError, Word, WORD_LEN,
};

fn w(s: &str) -> Word {
    string_to_word(s)
}

fn strings(words: &[&str]) -> Vec<String> {
    words.iter().map(|s| s.to_string()).collect()
}

fn vocab(words: &[&str]) -> Vec<Word> {
    words.iter().map(|s| w(s)).collect()
}

/// The adjusted score the optimizer is specified to minimize, recomputed
/// from the public partitioner.
fn adjusted_score_of(cands: &Vec<Word>, g: Word) -> i64 {
    let counts = bucket_counts(cands, g);
    let worst = counts.iter().copied().max().unwrap() as i64;
    if cands.contains(&g) {
        worst - 1
    } else {
        worst
    }
}

#[test]
fn codec_round_trip() {
    for s in ["crane", "shine", "plant", "aabcd", "zzzzz"] {
        assert_eq!(word_to_string(&w(s)), s);
    }
}

#[test]
fn codec_letters_in_order() {
    let word = w("crane");
    assert_eq!(word.l0, 'c');
    assert_eq!(word.l1, 'r');
    assert_eq!(word.l2, 'a');
    assert_eq!(word.l3, 'n');
    assert_eq!(word.l4, 'e');
}

#[test]
fn first_guess_is_raise() {
    assert_eq!(word_to_string(&first_guess()), "raise");
}

#[test]
fn classify_always_in_range() {
    let words = vocab(&["crane", "shine", "plant", "aabcd", "aefgh", "eeeee"]);
    for &g in &words {
        for &a in &words {
            let code = get_bucket(g, a);
            assert!(code < NUM_BUCKETS);
        }
    }
}

#[test]
fn classify_self_is_all_exact() {
    for s in ["crane", "shine", "aabaa"] {
        assert_eq!(get_bucket(w(s), w(s)), NUM_BUCKETS - 1);
    }
}

#[test]
fn classify_duplicate_letter_consumed_by_exact_match() {
    // First position exact; the second `a` of the guess must score
    // absent, because the answer's single `a` was already consumed by
    // the exact match: digits 2,0,0,0,0.
    assert_eq!(get_bucket(w("aabcd"), w("aefgh")), 2 * 81);
}

#[test]
fn classify_exact_match_outranks_earlier_misplaced_occurrence() {
    // The answer's only `a` is allocated to the exact match at position
    // 1 before the guess's `a` at position 0 is considered, so that
    // earlier occurrence scores absent: digits 0,2,0,0,0.
    assert_eq!(get_bucket(w("aaxyz"), w("baqqq")), 2 * 27);
    // Likewise with the exact match further right: the answer's only
    // `a` goes to position 2, and the misplaced `a` at position 1
    // scores absent: digits 0,0,2,0,0.
    assert_eq!(get_bucket(w("zaabb"), w("yyayy")), 2 * 9);
}

#[test]
fn classify_exact_matches_only() {
    // crane vs shine: n and e exact, everything else absent: 0,0,0,2,2.
    assert_eq!(get_bucket(w("crane"), w("shine")), 2 * 3 + 2);
    // crane vs plant: a and n exact, everything else absent: 0,0,2,2,0.
    assert_eq!(get_bucket(w("crane"), w("plant")), 2 * 9 + 2 * 3);
}

#[test]
fn classify_all_misplaced() {
    // Every letter of the guess occurs in the answer, none in place.
    assert_eq!(get_bucket(w("eshin"), w("shine")), 81 + 27 + 9 + 3 + 1);
}

#[test]
fn groups_partition_candidates_exactly() {
    let cands = vocab(&["crane", "shine", "plant", "slate", "crate"]);
    let guess = w("crane");
    let buckets = bucketize_answers(&cands, guess);
    assert_eq!(buckets.len(), NUM_BUCKETS);
    // Every candidate is in exactly the bucket of its own code.
    for &c in &cands {
        let code = get_bucket(guess, c);
        assert!(buckets[code].contains(&c));
        for (other, bucket) in buckets.iter().enumerate() {
            if other != code {
                assert!(!bucket.contains(&c));
            }
        }
    }
    // No omissions and no repeats: the group sizes add up.
    let total: usize = buckets.iter().map(|b| b.len()).sum();
    assert_eq!(total, cands.len());
    // Groups preserve relative order.
    for bucket in &buckets {
        let positions: Vec<usize> = bucket
            .iter()
            .map(|m| cands.iter().position(|c| c == m).unwrap())
            .collect();
        assert!(positions.windows(2).all(|p| p[0] < p[1]));
    }
}

#[test]
fn counts_match_group_sizes() {
    let cands = vocab(&["crane", "shine", "plant", "slate", "crate", "aabcd"]);
    for guess in ["crane", "aaxyz", "zzzzz"] {
        let buckets = bucketize_answers(&cands, w(guess));
        let counts = bucket_counts(&cands, w(guess));
        assert_eq!(counts.len(), NUM_BUCKETS);
        for code in 0..NUM_BUCKETS {
            assert_eq!(counts[code], buckets[code].len());
        }
    }
}

#[test]
fn best_guess_minimizes_adjusted_score() {
    let words = vocab(&["crane", "shine", "plant"]);
    let best = get_best_pattern(&words, &words);
    let best_score = adjusted_score_of(&words, best);
    for &g in &words {
        assert!(best_score <= adjusted_score_of(&words, g));
    }
}

#[test]
fn best_guess_first_seen_wins_on_ties() {
    // A single candidate: every guess scores a worst case of 1, and
    // neither vocabulary word is a candidate, so the scores tie and the
    // first vocabulary word must be kept.
    let cands = vocab(&["crane"]);
    let guesses = vocab(&["shine", "plant"]);
    let best = get_best_pattern(&cands, &guesses);
    assert_eq!(word_to_string(&best), "shine");
}

#[test]
fn session_solves_in_round_two() {
    // True answer "shine": feedback against the opening guess "crane"
    // is absent, absent, absent, exact, exact.
    let words = vocab(&["crane", "shine", "plant"]);
    let mut session = Session::with_opening(words, w("crane"));
    match session.state() {
        SessionState::Active { candidates, guess } => {
            assert_eq!(candidates.len(), 3);
            assert_eq!(word_to_string(guess), "crane");
        }
        _ => panic!("expected an active session"),
    }
    let code = parse_feedback("...++").unwrap();
    assert_eq!(code, get_bucket(w("crane"), w("shine")));
    session.observe(code);
    match session.state() {
        SessionState::Solved { word } => assert_eq!(word_to_string(word), "shine"),
        _ => panic!("expected the session to be solved"),
    }
}

#[test]
fn session_exhausts_on_impossible_feedback() {
    let words = vocab(&["crane", "shine"]);
    let mut session = Session::with_opening(words, w("crane"));
    // No candidate classifies to the all-absent code against "crane".
    let code = parse_feedback(".....").unwrap();
    session.observe(code);
    assert!(matches!(session.state(), SessionState::Exhausted));
}

#[test]
fn session_continues_when_several_candidates_remain() {
    // "shine" and "whine" produce the same feedback against "crane"
    // (absent, absent, absent, exact, exact), so that feedback leaves
    // two candidates and the session stays active.
    let words = vocab(&["crane", "shine", "whine"]);
    let mut session = Session::with_opening(words, w("crane"));
    let code = get_bucket(w("crane"), w("shine"));
    assert_eq!(code, get_bucket(w("crane"), w("whine")));
    session.observe(code);
    match session.state() {
        SessionState::Active { candidates, .. } => {
            assert_eq!(candidates.len(), 2);
        }
        _ => panic!("expected the session to stay active"),
    }
}

#[test]
fn terminal_states_consume_no_feedback() {
    // Solved stays solved, whatever is observed afterwards.
    let words = vocab(&["crane", "shine", "plant"]);
    let mut session = Session::with_opening(words, w("shine"));
    session.observe(parse_feedback("+++++").unwrap());
    match session.state() {
        SessionState::Solved { word } => assert_eq!(word_to_string(word), "shine"),
        _ => panic!("expected the session to be solved"),
    }
    session.observe(0);
    session.observe(NUM_BUCKETS - 1);
    match session.state() {
        SessionState::Solved { word } => assert_eq!(word_to_string(word), "shine"),
        _ => panic!("expected the session to stay solved"),
    }
    // Exhausted stays exhausted.
    let words = vocab(&["crane", "shine"]);
    let mut session = Session::with_opening(words, w("crane"));
    session.observe(parse_feedback(".....").unwrap());
    assert!(matches!(session.state(), SessionState::Exhausted));
    session.observe(42);
    assert!(matches!(session.state(), SessionState::Exhausted));
}

#[test]
fn all_exact_feedback_solves_immediately() {
    let words = vocab(&["crane", "shine", "plant"]);
    let mut session = Session::with_opening(words, w("plant"));
    let code = parse_feedback("+++++").unwrap();
    assert_eq!(code, NUM_BUCKETS - 1);
    session.observe(code);
    match session.state() {
        SessionState::Solved { word } => assert_eq!(word_to_string(word), "plant"),
        _ => panic!("expected the session to be solved"),
    }
}

#[test]
fn empty_vocabulary_is_a_load_failure() {
    let r = load_vocabulary(&Vec::new());
    assert!(matches!(r, Err(SolverError::VocabularyLoadFailure)));
}

#[test]
fn malformed_vocabulary_line_is_a_load_failure() {
    let r = load_vocabulary(&strings(&["crane", "abc"]));
    assert!(matches!(r, Err(SolverError::VocabularyLoadFailure)));
    let r = load_vocabulary(&strings(&["toolong"]));
    assert!(matches!(r, Err(SolverError::VocabularyLoadFailure)));
}

#[test]
fn well_formed_vocabulary_loads() {
    let r = load_vocabulary(&strings(&["crane", "shine"])).unwrap();
    assert_eq!(r.len(), 2);
    assert_eq!(word_to_string(&r[0]), "crane");
    assert_eq!(word_to_string(&r[1]), "shine");
}

#[test]
fn parse_feedback_codes() {
    assert_eq!(parse_feedback("+++++").unwrap(), NUM_BUCKETS - 1);
    assert_eq!(parse_feedback(".....").unwrap(), 0);
    assert_eq!(parse_feedback("-----").unwrap(), 81 + 27 + 9 + 3 + 1);
    assert_eq!(parse_feedback("..+..").unwrap(), 2 * 9);
    assert_eq!(parse_feedback("+...-").unwrap(), 2 * 81 + 1);
}

#[test]
fn malformed_feedback_is_rejected() {
    for line in ["+++*+", "++++", "++++++", "", "abcde", "+++ +"] {
        assert!(matches!(
            parse_feedback(line),
            Err(SolverError::MalformedFeedback)
        ));
    }
}

#[test]
fn word_length_is_five() {
    assert_eq!(WORD_LEN, 5);
    assert_eq!(NUM_BUCKETS, 243);
}
