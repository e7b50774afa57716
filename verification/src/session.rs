//! The solving session: decoding observed feedback lines, and the
//! interactive state machine that filters candidates and requests the
//! next guess until termination.

use vstd::prelude::*;
use vstd::string::StrSliceExecFns;
use crate::classify::{
    lemma_all_exact_only_self, lemma_pow3_mono, lemma_pow3_values, pow3, spec_classify,
    NUM_BUCKETS,
};
use crate::optimize::{get_best_pattern, is_best_guess};
use crate::partition::{bucketize_answers, next_candidates};
use crate::word::{SolverError, Word, WORD_LEN};

verus! {

/// The digit one feedback character stands for: `+` is an exact match
/// (2), `-` a match out of place (1), `.` no match (0).
pub open spec fn feedback_char_value(c: char) -> int {
    if c == '+' {
        2
    } else if c == '-' {
        1
    } else {
        0
    }
}

pub open spec fn valid_feedback_char(c: char) -> bool {
    c == '+' || c == '-' || c == '.'
}

/// The base-3 code of a feedback line, first character most significant.
pub open spec fn spec_feedback_code(s: Seq<char>) -> int
    decreases s.len(),
{
    if s.len() == 0 {
        0
    } else {
        3 * spec_feedback_code(s.drop_last()) + feedback_char_value(s.last())
    }
}

proof fn lemma_feedback_code_bounds(s: Seq<char>)
    ensures
        0 <= spec_feedback_code(s) < pow3(s.len()),
    decreases s.len(),
{
    if s.len() > 0 {
        lemma_feedback_code_bounds(s.drop_last());
    }
}

/// Decodes one observed feedback line into a feedback code.  Succeeds
/// exactly when the line is `WORD_LEN` characters from `{+, -, .}`;
/// anything else is malformed feedback, never silently coerced.
pub fn parse_feedback(line: &str) -> (r: Result<usize, SolverError>)
    ensures
        r is Ok <==> (line@.len() == WORD_LEN && forall|i: int|
            0 <= i < line@.len() ==> valid_feedback_char(#[trigger] line@[i])),
        r matches Ok(code) ==> code == spec_feedback_code(line@) && code < NUM_BUCKETS,
        r matches Err(e) ==> e == SolverError::MalformedFeedback,
{
    if line.unicode_len() != WORD_LEN {
        return Err(SolverError::MalformedFeedback);
    }
    let mut code: usize = 0;
    let mut i: usize = 0;
    while i < WORD_LEN
        invariant
            i <= WORD_LEN,
            line@.len() == WORD_LEN,
            code == spec_feedback_code(line@.take(i as int)),
            code < pow3(i as nat),
            forall|j: int| 0 <= j < i ==> valid_feedback_char(#[trigger] line@[j]),
        decreases WORD_LEN - i,
    {
        proof {
            lemma_pow3_values();
            lemma_pow3_mono(i as nat, 4);
            assert(line@.take(i as int + 1).drop_last() =~= line@.take(i as int));
            assert(line@.take(i as int + 1).last() == line@[i as int]);
        }
        let c = line.get_char(i);
        let v: usize = match c {
            '+' => 2,
            '-' => 1,
            '.' => 0,
            _ => {
                return Err(SolverError::MalformedFeedback);
            },
        };
        code = code * 3 + v;
        i += 1;
    }
    proof {
        lemma_pow3_values();
        assert(line@.take(WORD_LEN as int) =~= line@);
    }
    Ok(code)
}

/// The letter sequence of the fixed opening guess.
pub open spec fn opening_guess() -> Seq<char> {
    seq!['r', 'a', 'i', 's', 'e']
}

/// The fixed opening guess, played before the first round: against the
/// full vocabulary the optimizer's choice is the same every time, so it
/// is precomputed rather than searched for.
pub fn first_guess() -> (w: Word)
    ensures
        w@ == opening_guess(),
{
    let w = Word { l0: 'r', l1: 'a', l2: 'i', l3: 's', l4: 'e' };
    proof {
        assert(w@ =~= opening_guess());
    }
    w
}

/// Where a solving session stands.
#[derive(Debug)]
pub enum SessionState {
    /// Feedback for `guess` is awaited; `candidates` are the answers
    /// still consistent with all feedback observed so far.
    Active { candidates: Vec<Word>, guess: Word },
    /// A unique consistent answer remains.
    Solved { word: Word },
    /// No consistent answer remains.
    Exhausted,
}

/// The interactive state machine: holds the guess vocabulary and the
/// current state, consumes one observed feedback code per round.
pub struct Session {
    vocabulary: Vec<Word>,
    state: SessionState,
}

fn copy_words(v: &Vec<Word>) -> (r: Vec<Word>)
    ensures
        r@ == v@,
{
    let mut r: Vec<Word> = Vec::new();
    let mut i: usize = 0;
    while i < v.len()
        invariant
            i <= v@.len(),
            r@ == v@.take(i as int),
        decreases v@.len() - i,
    {
        let w: Word = v[i];
        r.push(w);
        proof {
            assert(v@.take(i as int + 1) =~= v@.take(i as int).push(w));
        }
        i += 1;
    }
    proof {
        assert(v@.take(v@.len() as int) =~= v@);
    }
    r
}

impl Session {
    /// The session is well formed: its vocabulary is nonempty.
    pub closed spec fn wf(self) -> bool {
        self.vocabulary@.len() > 0
    }

    /// The fixed guess vocabulary.
    pub closed spec fn vocab(self) -> Seq<Word> {
        self.vocabulary@
    }

    /// The current state.
    pub closed spec fn st(self) -> SessionState {
        self.state
    }

    /// A fresh session: every vocabulary word is a candidate and the
    /// fixed opening guess is the current guess.
    pub fn new(vocabulary: Vec<Word>) -> (s: Session)
        requires
            vocabulary@.len() > 0,
        ensures
            s.wf(),
            s.vocab() == vocabulary@,
            s.st() matches SessionState::Active { candidates, guess } && candidates@
                == vocabulary@ && guess@ == opening_guess(),
    {
        let opening = first_guess();
        Session::with_opening(vocabulary, opening)
    }

    /// A fresh session that opens with the given guess.
    pub fn with_opening(vocabulary: Vec<Word>, opening: Word) -> (s: Session)
        requires
            vocabulary@.len() > 0,
        ensures
            s.wf(),
            s.vocab() == vocabulary@,
            s.st() matches SessionState::Active { candidates, guess } && candidates@
                == vocabulary@ && guess == opening,
    {
        let candidates = copy_words(&vocabulary);
        Session { state: SessionState::Active { candidates, guess: opening }, vocabulary }
    }

    /// The current state, for the surrounding interaction loop to render.
    pub fn state(&self) -> (st: &SessionState)
        ensures
            *st == self.st(),
    {
        &self.state
    }

    /// One round: consumes the observed feedback code for the current
    /// guess, keeps exactly the candidates consistent with it, and
    /// either terminates — no candidate left means exhaustion, one
    /// candidate left means solved — or selects the next guess.  Once
    /// `Solved` or `Exhausted` is reached, observing changes nothing:
    /// no further feedback is consumed.
    pub fn observe(&mut self, code: usize)
        requires
            old(self).wf(),
            code < NUM_BUCKETS,
        ensures
            final(self).wf(),
            final(self).vocab() == old(self).vocab(),
            !(old(self).st() is Active) ==> *final(self) == *old(self),
            old(self).st() matches SessionState::Active { candidates, guess } ==> {
                let remaining = next_candidates(candidates@, guess, code as int);
                &&& remaining.len() == 0 ==> final(self).st() is Exhausted
                &&& remaining.len() == 1 ==> final(self).st() == (SessionState::Solved {
                    word: remaining[0],
                })
                &&& remaining.len() > 1 ==> {
                    &&& final(self).st() matches SessionState::Active {
                        candidates: c2,
                        guess: g2,
                    }
                    &&& c2@ == remaining
                    &&& is_best_guess(remaining, old(self).vocab(), g2)
                }
            },
    {
        let next_state: Option<SessionState> = match &self.state {
            SessionState::Active { candidates, guess } => {
                let mut buckets = bucketize_answers(candidates, *guess);
                let remaining = buckets.swap_remove(code);
                if remaining.len() == 0 {
                    Some(SessionState::Exhausted)
                } else if remaining.len() == 1 {
                    let w: Word = remaining[0];
                    Some(SessionState::Solved { word: w })
                } else {
                    let g2 = get_best_pattern(&remaining, &self.vocabulary);
                    Some(SessionState::Active { candidates: remaining, guess: g2 })
                }
            },
            _ => None,
        };
        if let Some(ns) = next_state {
            self.state = ns;
        }
    }
}

proof fn lemma_filter_of_singleton_pred(s: Seq<Word>, x: Word, pred: spec_fn(Word) -> bool)
    requires
        forall|c: Word| #[trigger] pred(c) <==> c == x,
        s.no_duplicates(),
    ensures
        s.contains(x) ==> s.filter(pred) =~= seq![x],
        !s.contains(x) ==> s.filter(pred) =~= Seq::<Word>::empty(),
    decreases s.len(),
{
    reveal(Seq::filter);
    if s.len() > 0 {
        let prefix = s.drop_last();
        lemma_filter_of_singleton_pred(prefix, x, pred);
        if s.last() == x {
            assert(!prefix.contains(x)) by {
                if prefix.contains(x) {
                    let j = choose|j: int| 0 <= j < prefix.len() && prefix[j] == x;
                    assert(s[j] == s[s.len() - 1]);
                }
            }
            assert(s.contains(x)) by {
                assert(s[s.len() - 1] == x);
            }
        } else {
            assert(s.contains(x) <==> prefix.contains(x)) by {
                if s.contains(x) {
                    let j = choose|j: int| 0 <= j < s.len() && s[j] == x;
                    assert(prefix[j] == x);
                }
                if prefix.contains(x) {
                    let j = choose|j: int| 0 <= j < prefix.len() && prefix[j] == x;
                    assert(s[j] == x);
                }
            }
        }
    }
}

/// All-exact feedback pins the candidate set down to the current guess:
/// if the guess is itself a candidate and the candidates are distinct,
/// the all-exact code leaves exactly the guess, so the session solves on
/// the next step.
pub proof fn lemma_all_exact_feedback_solves(cands: Seq<Word>, guess: Word)
    requires
        cands.contains(guess),
        cands.no_duplicates(),
    ensures
        next_candidates(cands, guess, (NUM_BUCKETS - 1) as int) =~= seq![guess],
{
    let pred = |c: Word| spec_classify(guess@, c@) == (NUM_BUCKETS - 1) as int;
    assert forall|c: Word| #[trigger] pred(c) <==> c == guess by {
        lemma_all_exact_only_self(guess, c);
    }
    lemma_filter_of_singleton_pred(cands, guess, pred);
}

} // verus!
