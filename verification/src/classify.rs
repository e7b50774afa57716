//! The feedback classifier: given a guess pattern and a hypothetical
//! answer, the base-3 feedback code the game would produce, with the
//! game's duplicate-letter semantics.

use vstd::prelude::*;
use vstd::multiset::Multiset;
use crate::bag::{bag_contents, bag_count, bag_insert, bag_new, bag_remove, remove_one};
use crate::word::{lemma_word_eq_view, Word, WORD_LEN};

verus! {

/// The number of distinct feedback codes: one base-3 digit (absent,
/// misplaced, exact) per letter position, `3^WORD_LEN` in all.
pub const NUM_BUCKETS: usize = 243;

/// `3^n`.
pub open spec fn pow3(n: nat) -> nat
    decreases n,
{
    if n == 0 {
        1
    } else {
        3 * pow3((n - 1) as nat)
    }
}

pub proof fn lemma_pow3_values()
    ensures
        pow3(0) == 1,
        pow3(1) == 3,
        pow3(2) == 9,
        pow3(3) == 27,
        pow3(4) == 81,
        pow3(5) == 243,
{
    assert(pow3(0) == 1);
    assert(pow3(1) == 3);
    assert(pow3(2) == 9);
    assert(pow3(3) == 27);
    assert(pow3(4) == 81);
    assert(pow3(5) == 243);
}

/// The answer letters at the first `j` positions that are not exact
/// matches against the guess.  Exact matches are resolved and consumed
/// first, in position order, before any out-of-place match is
/// considered, so only these letters are available for out-of-place
/// credit — duplicate letters are allocated preferentially to exact
/// matches, as in the real game.
pub open spec fn unmatched_upto(g: Seq<char>, a: Seq<char>, j: int) -> Multiset<char>
    decreases j,
{
    if j <= 0 {
        Multiset::<char>::empty()
    } else if g[j - 1] == a[j - 1] {
        unmatched_upto(g, a, j - 1)
    } else {
        unmatched_upto(g, a, j - 1).insert(a[j - 1])
    }
}

/// The answer letters left over once every exact match has consumed its
/// own letter.
pub open spec fn unmatched_letters(g: Seq<char>, a: Seq<char>) -> Multiset<char> {
    unmatched_upto(g, a, a.len() as int)
}

/// The classification scan from position `i` on: `bag` holds the answer
/// letters from non-exact positions not yet consumed by earlier
/// out-of-place matches, `acc` the code of the positions already
/// scanned.  An exact match scores 2 (its letter was consumed up
/// front); otherwise a letter still in the bag scores 1 and consumes
/// one occurrence; otherwise the position scores 0.
pub open spec fn classify_from(
    g: Seq<char>,
    a: Seq<char>,
    i: int,
    bag: Multiset<char>,
    acc: int,
) -> int
    decreases g.len() - i,
{
    if i < 0 || i >= g.len() {
        acc
    } else if g[i] == a[i] {
        classify_from(g, a, i + 1, bag, 3 * acc + 2)
    } else if bag.count(g[i]) > 0 {
        classify_from(g, a, i + 1, remove_one(bag, g[i]), 3 * acc + 1)
    } else {
        classify_from(g, a, i + 1, bag, 3 * acc)
    }
}

/// The feedback code of guess `g` against answer `a`: the whole scan,
/// starting from the answer letters that no exact match consumed and an
/// empty code.
pub open spec fn spec_classify(g: Seq<char>, a: Seq<char>) -> int {
    classify_from(g, a, 0, unmatched_letters(g, a), 0)
}

proof fn lemma_classify_from_bounds(
    g: Seq<char>,
    a: Seq<char>,
    i: int,
    bag: Multiset<char>,
    acc: int,
)
    requires
        0 <= i <= g.len(),
        acc >= 0,
    ensures
        acc * pow3((g.len() - i) as nat) <= classify_from(g, a, i, bag, acc) < (acc + 1) * pow3(
            (g.len() - i) as nat,
        ),
    decreases g.len() - i,
{
    let p = pow3((g.len() - i) as nat) as int;
    if i == g.len() {
        assert(p == 1);
        assert(acc * 1 == acc) by (nonlinear_arith);
        assert((acc + 1) * 1 == acc + 1) by (nonlinear_arith);
    } else {
        let q = pow3((g.len() - i - 1) as nat) as int;
        assert(p == 3 * q);
        assert(q >= 1) by {
            lemma_pow3_pos((g.len() - i - 1) as nat);
        }
        let d: int = if g[i] == a[i] {
            2
        } else if bag.count(g[i]) > 0 {
            1
        } else {
            0
        };
        let bag2 = if d == 1 {
            remove_one(bag, g[i])
        } else {
            bag
        };
        lemma_classify_from_bounds(g, a, i + 1, bag2, 3 * acc + d);
        assert((3 * acc + d) * q >= acc * (3 * q)) by (nonlinear_arith)
            requires
                acc >= 0,
                d >= 0,
                q >= 1,
        ;
        assert((3 * acc + d + 1) * q <= (acc + 1) * (3 * q)) by (nonlinear_arith)
            requires
                acc >= 0,
                d <= 2,
                q >= 1,
        ;
    }
}

pub proof fn lemma_pow3_pos(n: nat)
    ensures
        pow3(n) >= 1,
    decreases n,
{
    if n > 0 {
        lemma_pow3_pos((n - 1) as nat);
    }
}

/// For all guesses and answers, the feedback code is in `[0, NUM_BUCKETS)`.
pub proof fn lemma_classify_in_range(g: Word, a: Word)
    ensures
        0 <= spec_classify(g@, a@) < NUM_BUCKETS,
{
    lemma_pow3_values();
    lemma_classify_from_bounds(g@, a@, 0, unmatched_letters(g@, a@), 0);
}

proof fn lemma_classify_from_exact_iff(
    g: Seq<char>,
    a: Seq<char>,
    i: int,
    bag: Multiset<char>,
    acc: int,
)
    requires
        0 <= i <= g.len(),
        acc >= 0,
    ensures
        classify_from(g, a, i, bag, acc) == (acc + 1) * pow3((g.len() - i) as nat) - 1 <==> (forall|
            j: int,
        |
            i <= j < g.len() ==> g[j] == a[j]),
    decreases g.len() - i,
{
    if i == g.len() {
        assert((acc + 1) * 1 == acc + 1) by (nonlinear_arith);
    } else {
        let q = pow3((g.len() - i - 1) as nat) as int;
        assert(pow3((g.len() - i) as nat) == 3 * q);
        assert(q >= 1) by {
            lemma_pow3_pos((g.len() - i - 1) as nat);
        }
        if g[i] == a[i] {
            lemma_classify_from_exact_iff(g, a, i + 1, bag, 3 * acc + 2);
            assert((3 * acc + 2 + 1) * q - 1 == (acc + 1) * (3 * q) - 1) by (nonlinear_arith);
            assert((forall|j: int| i <= j < g.len() ==> g[j] == a[j]) <==> (forall|j: int|
                i + 1 <= j < g.len() ==> g[j] == a[j]));
        } else {
            let d: int = if bag.count(g[i]) > 0 {
                1
            } else {
                0
            };
            let bag2 = if d == 0 {
                bag
            } else {
                remove_one(bag, g[i])
            };
            lemma_classify_from_bounds(g, a, i + 1, bag2, 3 * acc + d);
            assert((3 * acc + d + 1) * q <= (3 * acc + 2) * q) by (nonlinear_arith)
                requires
                    d <= 1,
                    q >= 1,
            ;
            assert((3 * acc + 2) * q < (acc + 1) * (3 * q) - 1 + 1) by (nonlinear_arith)
                requires
                    q >= 1,
            ;
        }
    }
}

/// Classifying a word against itself gives the all-exact code, every
/// digit 2: `NUM_BUCKETS - 1`.
pub proof fn lemma_classify_self(a: Word)
    ensures
        spec_classify(a@, a@) == NUM_BUCKETS - 1,
{
    lemma_pow3_values();
    lemma_classify_from_exact_iff(a@, a@, 0, unmatched_letters(a@, a@), 0);
}

/// The all-exact code identifies the answer: a guess earns it against an
/// answer exactly when the two words are equal.
pub proof fn lemma_all_exact_only_self(g: Word, a: Word)
    ensures
        spec_classify(g@, a@) == NUM_BUCKETS - 1 <==> g == a,
{
    lemma_pow3_values();
    lemma_classify_from_exact_iff(g@, a@, 0, unmatched_letters(g@, a@), 0);
    lemma_word_eq_view(g, a);
    if forall|j: int| 0 <= j < g@.len() ==> g@[j] == a@[j] {
        assert(g@ =~= a@);
    }
    if g@ == a@ {
        assert(forall|j: int| 0 <= j < g@.len() ==> g@[j] == a@[j]);
    }
}

/// Classifies `pattern` against `answer`: each character position yields
/// a base-3 digit, most significant first.  Exact matches are allocated
/// their answer letters first, in position order; only the letters left
/// over can then earn out-of-place credit, so excess repeats of a guess
/// letter score absent.
pub fn get_bucket(pattern: Word, answer: Word) -> (bucket: usize)
    ensures
        bucket == spec_classify(pattern@, answer@),
        bucket < NUM_BUCKETS,
{
    proof {
        lemma_pow3_values();
    }
    let mut letters = bag_new();
    let mut i: usize = 0;
    while i < WORD_LEN
        invariant
            i <= WORD_LEN,
            bag_contents(letters) == unmatched_upto(pattern@, answer@, i as int),
            bag_contents(letters).len() <= i,
        decreases WORD_LEN - i,
    {
        if pattern.letter(i) != answer.letter(i) {
            bag_insert(&mut letters, answer.letter(i));
        }
        i += 1;
    }
    let mut bucket: usize = 0;
    let mut j: usize = 0;
    while j < WORD_LEN
        invariant
            j <= WORD_LEN,
            bucket < pow3(j as nat),
            spec_classify(pattern@, answer@) == classify_from(
                pattern@,
                answer@,
                j as int,
                bag_contents(letters),
                bucket as int,
            ),
        decreases WORD_LEN - j,
    {
        proof {
            lemma_pow3_values();
            lemma_pow3_mono(j as nat, 4);
        }
        let p = pattern.letter(j);
        let w = answer.letter(j);
        if p == w {
            bucket = bucket * 3 + 2;
        } else if bag_count(&letters, p) > 0 {
            bucket = bucket * 3 + 1;
            bag_remove(&mut letters, p);
        } else {
            bucket = bucket * 3;
        }
        j += 1;
    }
    proof {
        lemma_pow3_values();
        lemma_classify_in_range(pattern, answer);
    }
    bucket
}

pub proof fn lemma_pow3_mono(m: nat, n: nat)
    requires
        m <= n,
    ensures
        pow3(m) <= pow3(n),
    decreases n,
{
    if m < n {
        lemma_pow3_mono(m, (n - 1) as nat);
        lemma_pow3_pos((n - 1) as nat);
    }
}

} // verus!
