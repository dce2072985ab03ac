//! Short lists of texts, from the crate that provides them.
//!
//! Every function marked `external_body` here calls one function of that
//! crate; its contract is believed, not proved.

use vstd::prelude::*;
use smallvec::SmallVec;
use crate::text;

verus! {

/// A short list of texts: a `smallvec::SmallVec`.
#[verifier::external_body]
#[derive(Debug, PartialEq, Eq)]
pub struct TextList {
    list: SmallVec<[String; 4]>,
}

/// What a list holds.
pub uninterp spec fn texts_in(l: TextList) -> Seq<Seq<char>>;

impl View for TextList {
    type V = Seq<Seq<char>>;

    open spec fn view(&self) -> Seq<Seq<char>> {
        texts_in(*self)
    }
}

/// `SmallVec::from_vec`: a list of the same texts.
#[verifier::external_body]
fn from_vec(v: Vec<String>) -> (l: TextList)
    ensures
        texts_in(l) == text::texts(v@),
{
    TextList { list: SmallVec::from_vec(v) }
}

/// `SmallVec::as_slice`: the texts of a list.
#[verifier::external_body]
pub(crate) fn as_slice(l: &TextList) -> (s: &[String])
    ensures
        text::texts(s@) == texts_in(*l),
{
    l.list.as_slice()
}

impl TextList {
    /// A list of texts.
    pub fn new(texts: Vec<String>) -> (l: TextList)
        ensures
            l@ == text::texts(texts@),
    {
        from_vec(texts)
    }

    /// The texts of the list.
    pub fn to_vec(&self) -> (v: Vec<String>)
        ensures
            text::texts(v@) == self@,
    {
        text::copy_slice(as_slice(self))
    }
}

impl Clone for TextList {
    fn clone(&self) -> (l: TextList)
        ensures
            l@ == self@,
    {
        from_vec(self.to_vec())
    }
}

} // verus!
