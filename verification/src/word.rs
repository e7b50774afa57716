//! The word codec: the fixed-length in-memory letter sequence used
//! everywhere else, conversion between it and textual lines, and the
//! errors the solver can report.

use vstd::prelude::*;
use vstd::string::StrSliceExecFns;

verus! {

/// Every word has exactly this many letters.
pub const WORD_LEN: usize = 5;

/// A word of exactly `WORD_LEN` letters, stored by value and copied freely.
#[derive(Clone, Copy, PartialEq, Eq, Structural, Debug)]
pub struct Word {
    pub l0: char,
    pub l1: char,
    pub l2: char,
    pub l3: char,
    pub l4: char,
}

impl View for Word {
    type V = Seq<char>;

    open spec fn view(&self) -> Seq<char> {
        seq![self.l0, self.l1, self.l2, self.l3, self.l4]
    }
}

impl Word {
    /// The letter at position `i`, counted from the left.
    pub fn letter(&self, i: usize) -> (c: char)
        requires
            i < WORD_LEN,
        ensures
            c == self@[i as int],
    {
        if i == 0 {
            self.l0
        } else if i == 1 {
            self.l1
        } else if i == 2 {
            self.l2
        } else if i == 3 {
            self.l3
        } else {
            self.l4
        }
    }
}

/// Two words are equal exactly when their letter sequences are equal.
pub proof fn lemma_word_eq_view(a: Word, b: Word)
    ensures
        (a == b) <==> (a@ == b@),
{
    if a@ == b@ {
        assert(a@[0] == b@[0]);
        assert(a@[1] == b@[1]);
        assert(a@[2] == b@[2]);
        assert(a@[3] == b@[3]);
        assert(a@[4] == b@[4]);
    }
    if a == b {
        assert(a@ =~= b@);
    }
}

/// What the solver can report as a failure.
#[derive(Clone, Copy, PartialEq, Eq, Structural, Debug)]
pub enum SolverError {
    /// A feedback line is not exactly `WORD_LEN` characters from `{+, -, .}`.
    MalformedFeedback,
    /// The word list is empty or contains a line of the wrong length.
    VocabularyLoadFailure,
}

/// Decodes a length-`WORD_LEN` text line into a word; callers must
/// guarantee well-formed fixed-length input.
pub fn string_to_word(s: &str) -> (w: Word)
    requires
        s@.len() == WORD_LEN,
    ensures
        w@ == s@,
{
    let w = Word {
        l0: s.get_char(0),
        l1: s.get_char(1),
        l2: s.get_char(2),
        l3: s.get_char(3),
        l4: s.get_char(4),
    };
    proof {
        assert(w@ =~= s@);
    }
    w
}

/// Relies on `String::push`: appends the one character at the end.
#[verifier::external_body]
fn push_char(s: &mut String, c: char)
    ensures
        final(s)@ == old(s)@.push(c),
{
    s.push(c)
}

/// Encodes a word back into text; total and lossless.
pub fn word_to_string(word: &Word) -> (s: String)
    ensures
        s@ == word@,
{
    let mut s = String::new();
    push_char(&mut s, word.l0);
    push_char(&mut s, word.l1);
    push_char(&mut s, word.l2);
    push_char(&mut s, word.l3);
    push_char(&mut s, word.l4);
    proof {
        assert(s@ =~= word@);
    }
    s
}

/// Decodes the whole word list.  Succeeds exactly when the list is
/// nonempty and every line has exactly `WORD_LEN` characters; an empty
/// or malformed list is a vocabulary load failure, never a silent empty
/// vocabulary.
pub fn load_vocabulary(lines: &Vec<String>) -> (r: Result<Vec<Word>, SolverError>)
    ensures
        r is Ok <==> (lines@.len() > 0 && forall|i: int|
            0 <= i < lines@.len() ==> (#[trigger] lines@[i])@.len() == WORD_LEN),
        r matches Ok(words) ==> {
            &&& words@.len() == lines@.len()
            &&& forall|i: int| 0 <= i < lines@.len() ==> (#[trigger] words@[i])@ == lines@[i]@
        },
        r matches Err(e) ==> e == SolverError::VocabularyLoadFailure,
{
    if lines.len() == 0 {
        return Err(SolverError::VocabularyLoadFailure);
    }
    let mut words: Vec<Word> = Vec::new();
    let mut i: usize = 0;
    while i < lines.len()
        invariant
            i <= lines@.len(),
            words@.len() == i,
            forall|j: int| 0 <= j < i ==> (#[trigger] lines@[j])@.len() == WORD_LEN,
            forall|j: int| 0 <= j < i ==> (#[trigger] words@[j])@ == lines@[j]@,
        decreases lines@.len() - i,
    {
        let line: &String = &lines[i];
        if line.as_str().unicode_len() != WORD_LEN {
            return Err(SolverError::VocabularyLoadFailure);
        }
        words.push(string_to_word(line.as_str()));
        i += 1;
    }
    Ok(words)
}

} // verus!
