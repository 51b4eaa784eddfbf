//! Per-letter verdicts and the row of verdicts a guess receives.

use crate::word::WORD_LENGTH;
use smallvec::SmallVec;
use vstd::prelude::*;

verus! {

/// Verdict on one letter of a guess.
#[derive(PartialEq, Eq, Debug, Clone, Copy, Structural)]
pub enum LetterType {
    /// The letter stands at this position in the secret.
    RightPlace,
    /// The letter occurs in the secret, but not at this position.
    WrongPlace,
    /// The letter does not occur in the secret.
    NotInWord,
}

/// One verdict per letter of a guess, kept in a `smallvec::SmallVec` with
/// room for [`WORD_LENGTH`] verdicts inline. The verifier does not look
/// inside; the contents are spoken of through [`statuses`], which is also
/// the view.
#[derive(PartialEq, Debug)]
#[verifier::external_body]
pub struct Feedback {
    inner: SmallVec<[LetterType; WORD_LENGTH]>,
}

/// The verdicts held by a feedback row, in order.
pub uninterp spec fn statuses(row: Feedback) -> Seq<LetterType>;

impl View for Feedback {
    type V = Seq<LetterType>;

    open spec fn view(&self) -> Seq<LetterType> {
        statuses(*self)
    }
}

/// `SmallVec::from_slice`: a vector holding copies of the slice's items in
/// the slice's order.
#[verifier::external_body]
fn feedback_from_slice(items: &[LetterType]) -> (row: Feedback)
    ensures
        statuses(row) == items@,
{
    Feedback { inner: SmallVec::from_slice(items) }
}

/// `SmallVec::with_capacity`: an empty vector. The capacity asked for is
/// required to fit the inline buffer, so that nothing is allocated.
#[verifier::external_body]
pub(crate) fn feedback_with_capacity(n: usize) -> (row: Feedback)
    requires
        n <= WORD_LENGTH,
    ensures
        statuses(row) == Seq::<LetterType>::empty(),
{
    Feedback { inner: SmallVec::with_capacity(n) }
}

/// `SmallVec::push`: the item is appended. The vector is required to have
/// room left in its inline buffer, so that it never has to grow.
#[verifier::external_body]
pub(crate) fn feedback_push(row: &mut Feedback, status: LetterType)
    requires
        statuses(*old(row)).len() < WORD_LENGTH,
    ensures
        statuses(*final(row)) == statuses(*old(row)).push(status),
{
    row.inner.push(status)
}

/// `SmallVec::len`: the number of items held.
#[verifier::external_body]
pub(crate) fn feedback_len(row: &Feedback) -> (n: usize)
    ensures
        n == statuses(*row).len(),
{
    row.inner.len()
}

/// Indexing through `Deref` to a slice: the item at position `i`, which
/// must exist.
#[verifier::external_body]
pub(crate) fn status_at(row: &Feedback, i: usize) -> (status: LetterType)
    requires
        i < statuses(*row).len(),
    ensures
        status == statuses(*row)[i as int],
{
    row.inner[i]
}

impl Feedback {
    /// A feedback row made of the given verdicts.
    pub fn from_slice(items: &[LetterType]) -> (row: Feedback)
        ensures
            row@ == items@,
    {
        feedback_from_slice(items)
    }

    /// The number of verdicts.
    pub fn len(&self) -> (n: usize)
        ensures
            n == self@.len(),
    {
        feedback_len(self)
    }

    /// The verdicts, copied out in order.
    pub fn to_vec(&self) -> (out: Vec<LetterType>)
        ensures
            out@ == self@,
    {
        let n: usize = feedback_len(self);
        let mut out: Vec<LetterType> = Vec::with_capacity(n);
        let mut i: usize = 0;
        while i < n
            invariant
                n == self@.len(),
                i <= n,
                out@ == self@.take(i as int),
            decreases n - i,
        {
            out.push(status_at(self, i));
            i += 1;
        }
        out
    }
}

} // verus!
