//! The token stream: an immutable, indexable view over a scanned token
//! sequence.  The parser consumes it by slicing — `take` and
//! `take_split` build sub-views without copying or mutating token
//! payloads.

use vstd::prelude::*;

use crate::seq_dv;
use crate::token::{SpecToken, Token};

verus! {

/// A contiguous view `(tokens, start, end)` over a token sequence.
#[derive(Clone, Copy)]
pub struct Tokens<'a> {
    pub tok: &'a [Token],
    pub start: usize,
    pub end: usize,
}

impl<'a> DeepView for Tokens<'a> {
    type V = Seq<SpecToken>;

    open spec fn deep_view(&self) -> Seq<SpecToken> {
        seq_dv(self.tok@)
    }
}

impl<'a> Tokens<'a> {
    /// The bounds cover the whole underlying slice.
    pub open spec fn wf(&self) -> bool {
        self.start == 0 && self.end == self.tok@.len()
    }

    /// Wraps a whole token sequence.
    pub fn new(vec: &'a [Token]) -> (r: Tokens<'a>)
        ensures
            r.tok@ == vec@,
            r.wf(),
    {
        Tokens { tok: vec, start: 0, end: vec.len() }
    }

    /// The number of tokens in view.
    pub fn input_len(&self) -> (r: usize)
        ensures
            r == self.tok@.len(),
    {
        self.tok.len()
    }

    /// The first `count` tokens, as a new stream.
    pub fn take(&self, count: usize) -> (r: Tokens<'a>)
        requires
            count <= self.tok@.len(),
        ensures
            r.tok@ == self.tok@.subrange(0, count as int),
            r.wf(),
    {
        let pre = vstd::slice::slice_subrange(self.tok, 0, count);
        Tokens { tok: pre, start: 0, end: pre.len() }
    }

    /// Splits at `count`: the remainder first, the taken prefix second,
    /// the order the parser's consumption step wants.
    pub fn take_split(&self, count: usize) -> (r: (Tokens<'a>, Tokens<'a>))
        requires
            count <= self.tok@.len(),
        ensures
            r.0.tok@ == self.tok@.subrange(count as int, self.tok@.len() as int),
            r.1.tok@ == self.tok@.subrange(0, count as int),
            r.0.wf(),
            r.1.wf(),
    {
        let (prefix, suffix) = self.tok.split_at(count);
        (
            Tokens { tok: suffix, start: 0, end: suffix.len() },
            Tokens { tok: prefix, start: 0, end: prefix.len() },
        )
    }
}

} // verus!
