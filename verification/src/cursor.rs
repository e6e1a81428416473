//! A forward-only reader over a sequence of tokens, with one token of lookahead.

use crate::token::{Token, TokenView};
use vstd::prelude::*;

verus! {

/// Reads the tokens of one stream in order. The reader never goes back.
pub struct Cursor<'a> {
    tokens: &'a Vec<Token>,
    pos: usize,
}

impl<'a> Cursor<'a> {
    /// The reader has not gone past the end of its stream. This holds of
    /// every reader.
    #[verifier::type_invariant]
    pub closed spec fn in_bounds(&self) -> bool {
        self.pos <= self.tokens@.len()
    }

    /// What being in bounds means for the position.
    pub proof fn lemma_in_bounds(&self)
        requires
            self.in_bounds(),
        ensures
            0 <= self.position() <= self.stream().len(),
    {
    }

    /// The whole stream that the reader runs over, read or not.
    pub closed spec fn stream(&self) -> Seq<TokenView> {
        self.tokens.deep_view()
    }

    /// How many tokens have been read.
    pub closed spec fn position(&self) -> int {
        self.pos as int
    }

    /// A reader at the start of `tokens`.
    pub fn new(tokens: &'a Vec<Token>) -> (cursor: Self)
        ensures
            cursor.stream() == tokens.deep_view(),
            cursor.position() == 0,
    {
        Cursor { tokens, pos: 0 }
    }

    /// The next token, which stays unread; `None` at the end of the stream.
    pub fn peek(&self) -> (token: Option<&'a Token>)
        ensures
            0 <= self.position() <= self.stream().len(),
            match token {
                Some(t) => self.position() < self.stream().len() && t.deep_view()
                    == self.stream()[self.position()],
                None => self.position() == self.stream().len(),
            },
    {
        proof {
            use_type_invariant(self);
        }
        if self.pos < self.tokens.len() {
            Some(&self.tokens[self.pos])
        } else {
            None
        }
    }

    /// Reads the next token; `None`, and nothing read, at the end of the stream.
    pub fn next(&mut self) -> (token: Option<&'a Token>)
        ensures
            final(self).stream() == old(self).stream(),
            0 <= old(self).position() <= old(self).stream().len(),
            match token {
                Some(t) => old(self).position() < old(self).stream().len() && t.deep_view()
                    == old(self).stream()[old(self).position()] && final(self).position() == old(
                    self,
                ).position() + 1,
                None => old(self).position() == old(self).stream().len() && final(self).position()
                    == old(self).position(),
            },
    {
        proof {
            use_type_invariant(&*self);
        }
        if self.pos < self.tokens.len() {
            let token = &self.tokens[self.pos];
            self.pos = self.pos + 1;
            Some(token)
        } else {
            None
        }
    }
}

} // verus!
