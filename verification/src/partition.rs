//! The candidate partitioner: applies the feedback classifier across a
//! whole candidate answer set for one guess, producing the grouped
//! candidates per feedback code, or just the group sizes.

use vstd::prelude::*;
use crate::classify::{get_bucket, lemma_classify_in_range, spec_classify, NUM_BUCKETS};
use crate::word::Word;

verus! {

broadcast use
    Seq::<_>::lemma_filter_push,
    Seq::<_>::lemma_filter_len_push,
    Seq::<_>::lemma_filter_len,
    Seq::<_>::lemma_filter_pred,
    Seq::<_>::lemma_filter_contains,
    Seq::<_>::lemma_take_succ_push,
    Seq::<_>::lemma_take_len,
    Seq::<_>::lemma_index_contains,
;

/// The members of `cands` that would produce feedback `code` against
/// `guess`, in their original relative order.
pub open spec fn next_candidates(cands: Seq<Word>, guess: Word, code: int) -> Seq<Word> {
    cands.filter(|c: Word| spec_classify(guess@, c@) == code)
}

/// The group sizes for the codes below `n`, added up.
pub open spec fn sum_group_sizes(cands: Seq<Word>, guess: Word, n: int) -> int
    decreases n,
{
    if n <= 0 {
        0
    } else {
        sum_group_sizes(cands, guess, n - 1) + next_candidates(cands, guess, n - 1).len()
    }
}

proof fn lemma_sum_group_sizes_empty(guess: Word, n: int)
    ensures
        sum_group_sizes(Seq::<Word>::empty(), guess, n) == 0,
    decreases n,
{
    if n > 0 {
        lemma_sum_group_sizes_empty(guess, n - 1);
        reveal(Seq::filter);
    }
}

proof fn lemma_sum_group_sizes_push(cands: Seq<Word>, guess: Word, x: Word, n: int)
    ensures
        sum_group_sizes(cands.push(x), guess, n) == sum_group_sizes(cands, guess, n) + (
        if 0 <= spec_classify(guess@, x@) < n {
            1int
        } else {
            0int
        }),
    decreases n,
{
    if n > 0 {
        lemma_sum_group_sizes_push(cands, guess, x, n - 1);
    }
}

proof fn lemma_sum_group_sizes_all(cands: Seq<Word>, guess: Word)
    ensures
        sum_group_sizes(cands, guess, NUM_BUCKETS as int) == cands.len(),
    decreases cands.len(),
{
    if cands.len() == 0 {
        assert(cands =~= Seq::<Word>::empty());
        lemma_sum_group_sizes_empty(guess, NUM_BUCKETS as int);
    } else {
        let prefix = cands.drop_last();
        let x = cands.last();
        assert(cands =~= prefix.push(x));
        lemma_sum_group_sizes_all(prefix, guess);
        lemma_sum_group_sizes_push(prefix, guess, x, NUM_BUCKETS as int);
        lemma_classify_in_range(guess, x);
    }
}

proof fn lemma_filter_member(s: Seq<Word>, pred: spec_fn(Word) -> bool, x: Word)
    requires
        s.filter(pred).contains(x),
    ensures
        s.contains(x),
        pred(x),
    decreases s.len(),
{
    reveal(Seq::filter);
    if s.len() > 0 {
        let prefix = s.drop_last();
        if pred(s.last()) && x == s.last() {
            assert(s[s.len() - 1] == x);
        } else {
            assert(prefix.filter(pred).contains(x));
            lemma_filter_member(prefix, pred, x);
            let j = choose|j: int| 0 <= j < prefix.len() && prefix[j] == x;
            assert(s[j] == x);
        }
    }
}

/// The groups for one guess partition the candidate list exactly: every
/// candidate lands in the group of its own feedback code and in no other
/// group, every group member comes from the candidate list, and the
/// group sizes add up to the whole list — no omissions, no repeats.
pub proof fn lemma_groups_partition(cands: Seq<Word>, guess: Word)
    ensures
        forall|i: int|
            0 <= i < cands.len() ==> {
                let code = spec_classify(guess@, (#[trigger] cands[i])@);
                &&& 0 <= code < NUM_BUCKETS
                &&& next_candidates(cands, guess, code).contains(cands[i])
            },
        forall|code: int, x: Word|
            #[trigger] next_candidates(cands, guess, code).contains(x) ==> cands.contains(x)
                && spec_classify(guess@, x@) == code,
        forall|c1: int, c2: int, x: Word|
            #![trigger next_candidates(cands, guess, c1).contains(x), next_candidates(cands, guess, c2).contains(x)]
            c1 != c2 && next_candidates(cands, guess, c1).contains(x) ==> !next_candidates(
                cands,
                guess,
                c2,
            ).contains(x),
        sum_group_sizes(cands, guess, NUM_BUCKETS as int) == cands.len(),
{
    assert forall|i: int| 0 <= i < cands.len() implies {
        let code = spec_classify(guess@, (#[trigger] cands[i])@);
        &&& 0 <= code < NUM_BUCKETS
        &&& next_candidates(cands, guess, code).contains(cands[i])
    } by {
        lemma_classify_in_range(guess, cands[i]);
        let code = spec_classify(guess@, cands[i]@);
        assert(cands.filter(|c: Word| spec_classify(guess@, c@) == code).contains(cands[i]));
    }
    assert forall|code: int, x: Word|
        #[trigger] next_candidates(cands, guess, code).contains(x) implies cands.contains(x)
        && spec_classify(guess@, x@) == code by {
        lemma_filter_member(cands, |c: Word| spec_classify(guess@, c@) == code, x);
    }
    lemma_sum_group_sizes_all(cands, guess);
}

/// Groups the answers by the feedback code each would produce against
/// `pattern`: one slot per code, all present even if empty, each group
/// preserving the answers' relative order.
pub fn bucketize_answers(answers: &Vec<Word>, pattern: Word) -> (buckets: Vec<Vec<Word>>)
    ensures
        buckets@.len() == NUM_BUCKETS,
        forall|code: int|
            0 <= code < NUM_BUCKETS ==> (#[trigger] buckets@[code])@ == next_candidates(
                answers@,
                pattern,
                code,
            ),
{
    let mut buckets: Vec<Vec<Word>> = Vec::new();
    while buckets.len() < NUM_BUCKETS
        invariant
            buckets@.len() <= NUM_BUCKETS,
            forall|code: int|
                0 <= code < buckets@.len() ==> (#[trigger] buckets@[code])@ =~= Seq::<
                    Word,
                >::empty(),
        decreases NUM_BUCKETS - buckets@.len(),
    {
        buckets.push(Vec::new());
    }
    proof {
        assert(answers@.take(0) =~= Seq::<Word>::empty());
        assert forall|code: int| 0 <= code < NUM_BUCKETS implies (#[trigger] buckets@[code])@
            == next_candidates(answers@.take(0), pattern, code) by {
            reveal(Seq::filter);
        }
    }
    let mut i: usize = 0;
    while i < answers.len()
        invariant
            buckets@.len() == NUM_BUCKETS,
            i <= answers@.len(),
            forall|code: int|
                0 <= code < NUM_BUCKETS ==> (#[trigger] buckets@[code])@ == next_candidates(
                    answers@.take(i as int),
                    pattern,
                    code,
                ),
        decreases answers@.len() - i,
    {
        let a: Word = answers[i];
        let b = get_bucket(pattern, a);
        let ghost prev = buckets@;
        let mut grp = buckets.remove(b);
        grp.push(a);
        buckets.insert(b, grp);
        proof {
            assert(buckets@ =~= prev.update(b as int, grp));
            assert(answers@.take(i as int + 1) =~= answers@.take(i as int).push(a));
            assert forall|code: int| 0 <= code < NUM_BUCKETS implies (#[trigger] buckets@[code])@
                == next_candidates(answers@.take(i as int + 1), pattern, code) by {
                let pred = |c: Word| spec_classify(pattern@, c@) == code;
                assert(answers@.take(i as int).push(a).filter(pred) == if pred(a) {
                    answers@.take(i as int).filter(pred).push(a)
                } else {
                    answers@.take(i as int).filter(pred)
                });
                if code == b {
                    assert(buckets@[code] == grp);
                } else {
                    assert(buckets@[code] == prev[code]);
                }
            }
        }
        i += 1;
    }
    proof {
        assert(answers@.take(answers@.len() as int) == answers@);
    }
    buckets
}

/// The size of each group `bucketize_answers` would build, one count per
/// feedback code, without materialising the groups.
pub fn bucket_counts(answers: &Vec<Word>, pattern: Word) -> (counts: Vec<usize>)
    ensures
        counts@.len() == NUM_BUCKETS,
        forall|code: int|
            0 <= code < NUM_BUCKETS ==> #[trigger] counts@[code] == next_candidates(
                answers@,
                pattern,
                code,
            ).len(),
{
    let mut counts: Vec<usize> = Vec::new();
    while counts.len() < NUM_BUCKETS
        invariant
            counts@.len() <= NUM_BUCKETS,
            forall|code: int| 0 <= code < counts@.len() ==> #[trigger] counts@[code] == 0,
        decreases NUM_BUCKETS - counts@.len(),
    {
        counts.push(0);
    }
    proof {
        assert(answers@.take(0) =~= Seq::<Word>::empty());
        assert forall|code: int| 0 <= code < NUM_BUCKETS implies #[trigger] counts@[code]
            == next_candidates(answers@.take(0), pattern, code).len() by {
            reveal(Seq::filter);
        }
    }
    let mut i: usize = 0;
    while i < answers.len()
        invariant
            counts@.len() == NUM_BUCKETS,
            i <= answers@.len(),
            forall|code: int|
                0 <= code < NUM_BUCKETS ==> #[trigger] counts@[code] == next_candidates(
                    answers@.take(i as int),
                    pattern,
                    code,
                ).len(),
        decreases answers@.len() - i,
    {
        let a: Word = answers[i];
        let b = get_bucket(pattern, a);
        let ghost prev = counts@;
        proof {
            let pred = |c: Word| spec_classify(pattern@, c@) == b as int;
            assert(answers@.take(i as int).filter(pred).len() <= answers@.take(i as int).len());
        }
        let c = counts.remove(b);
        counts.insert(b, c + 1);
        proof {
            assert(counts@ =~= prev.update(b as int, (c + 1) as usize));
            assert(answers@.take(i as int + 1) =~= answers@.take(i as int).push(a));
            assert forall|code: int| 0 <= code < NUM_BUCKETS implies #[trigger] counts@[code]
                == next_candidates(answers@.take(i as int + 1), pattern, code).len() by {
                let pred = |c2: Word| spec_classify(pattern@, c2@) == code;
                assert(answers@.take(i as int).push(a).filter(pred).len() == answers@.take(
                    i as int,
                ).filter(pred).len() + (if pred(a) {
                    1int
                } else {
                    0int
                }));
            }
        }
        i += 1;
    }
    proof {
        assert(answers@.take(answers@.len() as int) == answers@);
    }
    counts
}

} // verus!
