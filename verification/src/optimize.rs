//! The guess optimizer: for every word in the guess vocabulary, the
//! worst-case group size the partitioner would produce against the
//! current candidate set, and the guess minimizing that worst case,
//! with the documented tie-break rule.

use vstd::prelude::*;
use crate::classify::{lemma_classify_self, spec_classify, NUM_BUCKETS};
use crate::partition::{bucket_counts, next_candidates};
use crate::word::Word;

verus! {

broadcast use
    Seq::<_>::lemma_filter_contains,
    Seq::<_>::lemma_filter_len,
    Seq::<_>::lemma_index_contains,
;

/// The largest number of candidates any one feedback code below `n`
/// would leave if `guess` were played.
pub open spec fn max_group_size_upto(cands: Seq<Word>, guess: Word, n: int) -> int
    decreases n,
{
    if n <= 0 {
        0
    } else {
        let prev = max_group_size_upto(cands, guess, n - 1);
        let here = next_candidates(cands, guess, n - 1).len() as int;
        if here > prev {
            here
        } else {
            prev
        }
    }
}

/// The score of a guess: the size of the worst-case remaining candidate
/// set if that guess is played; lower is better.
pub open spec fn spec_score(cands: Seq<Word>, guess: Word) -> int {
    max_group_size_upto(cands, guess, NUM_BUCKETS as int)
}

/// The score used for selection: a guess that is itself a member of the
/// candidate set is slightly preferred, its score treated as one
/// smaller, breaking ties in favor of guesses that could be the answer.
pub open spec fn adjusted_score(cands: Seq<Word>, guess: Word) -> int {
    spec_score(cands, guess) - if cands.contains(guess) {
        1int
    } else {
        0int
    }
}

/// `best` is a vocabulary member with the smallest adjusted score, and
/// the first such member: every earlier member scores strictly worse,
/// and no member at all scores better.
pub open spec fn is_best_guess(cands: Seq<Word>, vocab: Seq<Word>, best: Word) -> bool {
    exists|i: int|
        0 <= i < vocab.len() && best == vocab[i] && (forall|j: int|
            0 <= j < i ==> adjusted_score(cands, #[trigger] vocab[j]) > adjusted_score(
                cands,
                best,
            )) && (forall|j: int|
            0 <= j < vocab.len() ==> adjusted_score(cands, #[trigger] vocab[j]) >= adjusted_score(
                cands,
                best,
            ))
}

proof fn lemma_max_group_size_upto_ge(cands: Seq<Word>, guess: Word, n: int, code: int)
    requires
        0 <= code < n,
    ensures
        max_group_size_upto(cands, guess, n) >= next_candidates(cands, guess, code).len(),
    decreases n,
{
    if code < n - 1 {
        lemma_max_group_size_upto_ge(cands, guess, n - 1, code);
    }
}

/// A guess that is itself a candidate leaves at least itself in the
/// group of the all-exact code, so its score is at least 1.
pub proof fn lemma_member_guess_score_pos(cands: Seq<Word>, guess: Word)
    requires
        cands.contains(guess),
    ensures
        spec_score(cands, guess) >= 1,
{
    lemma_classify_self(guess);
    let code = (NUM_BUCKETS - 1) as int;
    let pred = |c: Word| spec_classify(guess@, c@) == code;
    let i = choose|i: int| 0 <= i < cands.len() && cands[i] == guess;
    assert(pred(cands[i]));
    assert(cands.filter(pred).contains(guess));
    lemma_max_group_size_upto_ge(cands, guess, NUM_BUCKETS as int, code);
}

/// The adjusted score of one guess against the current candidate set.
fn adjusted_score_of(answers: &Vec<Word>, guess: Word) -> (s: usize)
    ensures
        s == adjusted_score(answers@, guess),
{
    let counts = bucket_counts(answers, guess);
    let mut m: usize = 0;
    let mut c: usize = 0;
    while c < NUM_BUCKETS
        invariant
            c <= NUM_BUCKETS,
            counts@.len() == NUM_BUCKETS,
            forall|code: int|
                0 <= code < NUM_BUCKETS ==> #[trigger] counts@[code] == next_candidates(
                    answers@,
                    guess,
                    code,
                ).len(),
            m == max_group_size_upto(answers@, guess, c as int),
        decreases NUM_BUCKETS - c,
    {
        let v = counts[c];
        if v > m {
            m = v;
        }
        c += 1;
    }
    let mut is_member = false;
    let mut k: usize = 0;
    while k < answers.len()
        invariant
            k <= answers@.len(),
            is_member <==> exists|j: int| 0 <= j < k && answers@[j] == guess,
        decreases answers@.len() - k,
    {
        let w: Word = answers[k];
        if w == guess {
            is_member = true;
        }
        k += 1;
    }
    if is_member {
        proof {
            lemma_member_guess_score_pos(answers@, guess);
        }
        m - 1
    } else {
        m
    }
}

/// Scans the whole guess vocabulary and returns the guess whose
/// worst-case split of the candidate set is smallest, by adjusted score,
/// keeping the first of equally scored guesses.
pub fn get_best_pattern(answers: &Vec<Word>, guesses: &Vec<Word>) -> (best: Word)
    requires
        guesses@.len() > 0,
    ensures
        is_best_guess(answers@, guesses@, best),
{
    let mut best_pattern: Word = guesses[0];
    let mut best_score: usize = adjusted_score_of(answers, best_pattern);
    let ghost mut best_idx: int = 0;
    let mut i: usize = 1;
    while i < guesses.len()
        invariant
            1 <= i <= guesses@.len(),
            0 <= best_idx < i,
            best_pattern == guesses@[best_idx],
            best_score == adjusted_score(answers@, best_pattern),
            forall|j: int|
                0 <= j < best_idx ==> adjusted_score(answers@, #[trigger] guesses@[j])
                    > best_score,
            forall|j: int|
                0 <= j < i ==> adjusted_score(answers@, #[trigger] guesses@[j]) >= best_score,
        decreases guesses@.len() - i,
    {
        let g: Word = guesses[i];
        let score = adjusted_score_of(answers, g);
        if score < best_score {
            best_pattern = g;
            best_score = score;
            proof {
                best_idx = i as int;
            }
        }
        i += 1;
    }
    proof {
        assert(0 <= best_idx < guesses@.len() && best_pattern == guesses@[best_idx] && (forall|
            j: int,
        |
            0 <= j < best_idx ==> adjusted_score(answers@, #[trigger] guesses@[j]) > adjusted_score(
                answers@,
                best_pattern,
            )) && (forall|j: int|
            0 <= j < guesses@.len() ==> adjusted_score(answers@, #[trigger] guesses@[j])
                >= adjusted_score(answers@, best_pattern)));
    }
    best_pattern
}

} // verus!
