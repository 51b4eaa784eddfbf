//! Words as small inline vectors of letters.

use smallvec::SmallVec;
use vstd::prelude::*;

verus! {

/// Number of letters in every secret and every accepted guess.
pub const WORD_LENGTH: usize = 5;

/// A sequence of letters kept in a `smallvec::SmallVec` with room for
/// [`WORD_LENGTH`] letters inline. The verifier does not look inside; the
/// contents are spoken of through [`letters`], which is also the view.
#[derive(PartialEq, Debug)]
#[verifier::external_body]
pub struct Word {
    inner: SmallVec<[char; WORD_LENGTH]>,
}

/// The letters held by a word, in order.
pub uninterp spec fn letters(word: Word) -> Seq<char>;

impl View for Word {
    type V = Seq<char>;

    open spec fn view(&self) -> Seq<char> {
        letters(*self)
    }
}

/// `SmallVec::from_slice`: a vector holding copies of the slice's items in
/// the slice's order.
#[verifier::external_body]
fn word_from_slice(items: &[char]) -> (word: Word)
    ensures
        letters(word) == items@,
{
    Word { inner: SmallVec::from_slice(items) }
}

/// `SmallVec`'s `FromIterator`, fed by `str::chars`: the characters of the
/// text in order. A text longer than the inline buffer makes the vector
/// allocate.
#[verifier::external_body]
pub(crate) fn word_from_str(text: &str) -> (word: Word)
    ensures
        letters(word) == text@,
{
    Word { inner: text.chars().collect() }
}

/// `SmallVec::len`: the number of items held.
#[verifier::external_body]
pub(crate) fn word_len(word: &Word) -> (n: usize)
    ensures
        n == letters(*word).len(),
{
    word.inner.len()
}

/// Indexing through `Deref` to a slice: the item at position `i`, which
/// must exist.
#[verifier::external_body]
pub(crate) fn letter_at(word: &Word, i: usize) -> (c: char)
    requires
        i < letters(*word).len(),
    ensures
        c == letters(*word)[i as int],
{
    word.inner[i]
}

/// Whether `c` is one of the letters of `word`.
pub(crate) fn contains_letter(word: &Word, c: char) -> (found: bool)
    ensures
        found == word@.contains(c),
{
    let n: usize = word_len(word);
    let mut i: usize = 0;
    while i < n
        invariant
            n == word@.len(),
            i <= n,
            forall|j: int| 0 <= j < i ==> word@[j] != c,
        decreases n - i,
    {
        if letter_at(word, i) == c {
            return true;
        }
        i += 1;
    }
    false
}

impl Word {
    /// A word made of the given letters.
    pub fn from_slice(items: &[char]) -> (word: Word)
        ensures
            word@ == items@,
    {
        word_from_slice(items)
    }

    /// The number of letters.
    pub fn len(&self) -> (n: usize)
        ensures
            n == self@.len(),
    {
        word_len(self)
    }

    /// The letters, copied out in order.
    pub fn to_vec(&self) -> (out: Vec<char>)
        ensures
            out@ == self@,
    {
        let n: usize = word_len(self);
        let mut out: Vec<char> = Vec::with_capacity(n);
        let mut i: usize = 0;
        while i < n
            invariant
                n == self@.len(),
                i <= n,
                out@ == self@.take(i as int),
            decreases n - i,
        {
            out.push(letter_at(self, i));
            i += 1;
        }
        out
    }
}

} // verus!
