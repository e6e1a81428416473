//! The tokens that the rewriter reads and writes.
//!
//! A declaration reaches the rewriter as a sequence of [`Token`]s: identifiers,
//! punctuation characters, literals, and bracketed groups that hold a sequence
//! of their own. Contracts speak of tokens through [`TokenView`], in which
//! every string is a `Seq<char>` and every nested stream a `Seq<TokenView>`.

use vstd::prelude::*;

verus! {

/// Where a token came from. The rewriter only carries spans along; the host
/// decides what a tag stands for.
#[derive(Clone, Copy, Debug, PartialEq, Eq, Structural)]
pub enum Span {
    /// The place where the rewriter was invoked.
    CallSite,
    /// A position in the source, by its tag.
    Source(u64),
}

/// The brackets around a group of tokens.
#[derive(Clone, Copy, Debug, PartialEq, Eq, Structural)]
pub enum Delimiter {
    /// `( ... )`
    Parenthesis,
    /// `{ ... }`
    Brace,
    /// `[ ... ]`
    Bracket,
    /// No visible bracket.
    Invisible,
}

/// Whether a punctuation character is glued to the one that follows it.
#[derive(Clone, Copy, Debug, PartialEq, Eq, Structural)]
pub enum Spacing {
    Alone,
    Joint,
}

/// One token, or a bracketed group of tokens.
#[derive(Debug, PartialEq, Eq)]
pub enum Token {
    /// An identifier or a keyword.
    Ident { name: String, span: Span },
    /// A single punctuation character.
    Punct { ch: char, spacing: Spacing, span: Span },
    /// A literal, by its text in the source.
    Literal { text: String, span: Span },
    /// A string literal, by the string that it denotes. The host adds the
    /// quotes and escapes that its syntax needs.
    StringLiteral { value: String, span: Span },
    /// A delimited sequence of tokens.
    Group { delimiter: Delimiter, stream: Vec<Token>, span: Span },
}

/// A sequence of tokens.
pub type TokenStream = Vec<Token>;

/// The mathematical value of a [`Token`].
pub enum TokenView {
    Ident { name: Seq<char>, span: Span },
    Punct { ch: char, spacing: Spacing, span: Span },
    Literal { text: Seq<char>, span: Span },
    StringLiteral { value: Seq<char>, span: Span },
    Group { delimiter: Delimiter, stream: Seq<TokenView>, span: Span },
}

impl TokenView {
    /// The span that the token carries.
    pub open spec fn span(self) -> Span {
        match self {
            TokenView::Ident { span, .. } => span,
            TokenView::Punct { span, .. } => span,
            TokenView::Literal { span, .. } => span,
            TokenView::StringLiteral { span, .. } => span,
            TokenView::Group { span, .. } => span,
        }
    }

    /// The same token at another span. The tokens inside a group keep theirs.
    pub open spec fn with_span(self, span: Span) -> TokenView {
        match self {
            TokenView::Ident { name, .. } => TokenView::Ident { name, span },
            TokenView::Punct { ch, spacing, .. } => TokenView::Punct { ch, spacing, span },
            TokenView::Literal { text, .. } => TokenView::Literal { text, span },
            TokenView::StringLiteral { value, .. } => TokenView::StringLiteral { value, span },
            TokenView::Group { delimiter, stream, .. } => TokenView::Group {
                delimiter,
                stream,
                span,
            },
        }
    }

    /// The token is the punctuation character `c`, whatever its spacing.
    pub open spec fn is_punct(self, c: char) -> bool {
        self matches TokenView::Punct { ch, .. } && ch == c
    }

    /// The token is the identifier `name`.
    pub open spec fn is_ident(self, name: Seq<char>) -> bool {
        self matches TokenView::Ident { name: n, .. } && n == name
    }

    /// The token is a group in the brackets `d`.
    pub open spec fn is_group(self, d: Delimiter) -> bool {
        self matches TokenView::Group { delimiter, .. } && delimiter == d
    }
}

/// The value of `token`: strings by their characters, a group by the values
/// of the tokens inside it.
pub open spec fn token_view(token: Token) -> TokenView
    decreases token,
{
    match token {
        Token::Ident { name, span } => TokenView::Ident { name: name@, span },
        Token::Punct { ch, spacing, span } => TokenView::Punct { ch, spacing, span },
        Token::Literal { text, span } => TokenView::Literal { text: text@, span },
        Token::StringLiteral { value, span } => TokenView::StringLiteral { value: value@, span },
        Token::Group { delimiter, stream, span } => TokenView::Group {
            delimiter,
            stream: Seq::new(
                stream@.len(),
                |i: int|
                    if 0 <= i < stream@.len() {
                        token_view(stream@[i])
                    } else {
                        arbitrary()
                    },
            ),
            span,
        },
    }
}

impl DeepView for Token {
    type V = TokenView;

    open spec fn deep_view(&self) -> TokenView {
        token_view(*self)
    }
}

/// The view of a group holds the view of the vector inside it.
pub proof fn lemma_group_view(delimiter: Delimiter, stream: Vec<Token>, span: Span)
    ensures
        (Token::Group { delimiter, stream, span }).deep_view() == (TokenView::Group {
            delimiter,
            stream: stream.deep_view(),
            span,
        }),
{
    let t = Token::Group { delimiter, stream, span };
    let inner = t.deep_view()->Group_stream;
    assert(inner =~= stream.deep_view());
}

/// Pushing a token onto a vector pushes its view onto the vector's view.
pub proof fn lemma_push_view(before: Vec<Token>, after: Vec<Token>, token: Token)
    requires
        after@ == before@.push(token),
    ensures
        after.deep_view() == before.deep_view().push(token.deep_view()),
{
    assert(after.deep_view() =~= before.deep_view().push(token.deep_view()));
}

/// Whether `name` holds exactly the characters of `text`.
pub fn same_text(name: &String, text: &str) -> (same: bool)
    ensures
        same == (name@ == text@),
{
    let owned = text.to_owned();
    *name == owned
}

impl Token {
    /// An identifier.
    pub fn ident(name: &str, span: Span) -> (token: Token)
        ensures
            token.deep_view() == (TokenView::Ident { name: name@, span }),
    {
        Token::Ident { name: name.to_owned(), span }
    }

    /// A punctuation character.
    pub fn punct(ch: char, spacing: Spacing, span: Span) -> (token: Token)
        ensures
            token.deep_view() == (TokenView::Punct { ch, spacing, span }),
    {
        Token::Punct { ch, spacing, span }
    }

    /// A literal with the source text `text`.
    pub fn literal(text: &str, span: Span) -> (token: Token)
        ensures
            token.deep_view() == (TokenView::Literal { text: text@, span }),
    {
        Token::Literal { text: text.to_owned(), span }
    }

    /// The string literal that denotes `value`.
    pub fn string(value: &str, span: Span) -> (token: Token)
        ensures
            token.deep_view() == (TokenView::StringLiteral { value: value@, span }),
    {
        Token::StringLiteral { value: value.to_owned(), span }
    }

    /// A group around `stream`.
    pub fn group(delimiter: Delimiter, stream: Vec<Token>, span: Span) -> (token: Token)
        ensures
            token.deep_view() == (TokenView::Group {
                delimiter,
                stream: stream.deep_view(),
                span,
            }),
    {
        proof {
            lemma_group_view(delimiter, stream, span);
        }
        Token::Group { delimiter, stream, span }
    }

    /// The span that the token carries.
    pub fn span(&self) -> (span: Span)
        ensures
            span == self.deep_view().span(),
    {
        match self {
            Token::Ident { span, .. } => *span,
            Token::Punct { span, .. } => *span,
            Token::Literal { span, .. } => *span,
            Token::StringLiteral { span, .. } => *span,
            Token::Group { span, .. } => *span,
        }
    }

    /// The same token at the span `span`.
    pub fn with_span(self, span: Span) -> (token: Token)
        ensures
            token.deep_view() == self.deep_view().with_span(span),
    {
        match self {
            Token::Ident { name, .. } => Token::Ident { name, span },
            Token::Punct { ch, spacing, .. } => Token::Punct { ch, spacing, span },
            Token::Literal { text, .. } => Token::Literal { text, span },
            Token::StringLiteral { value, .. } => Token::StringLiteral { value, span },
            Token::Group { delimiter, stream, .. } => Token::Group { delimiter, stream, span },
        }
    }

    /// Whether the token is the punctuation character `c`.
    pub fn is_punct(&self, c: char) -> (yes: bool)
        ensures
            yes == self.deep_view().is_punct(c),
    {
        match self {
            Token::Punct { ch, .. } => *ch == c,
            _ => false,
        }
    }

    /// Whether the token is the identifier `name`.
    pub fn is_ident(&self, name: &str) -> (yes: bool)
        ensures
            yes == self.deep_view().is_ident(name@),
    {
        match self {
            Token::Ident { name: n, .. } => same_text(n, name),
            _ => false,
        }
    }

    /// The stream inside the token, if it is a group.
    pub fn group_stream(&self) -> (stream: Option<&Vec<Token>>)
        ensures
            match stream {
                Some(inside) => self.deep_view() matches TokenView::Group { stream: s, .. }
                    && inside.deep_view() == s,
                None => !(self.deep_view() is Group),
            },
    {
        match self {
            Token::Group { delimiter, stream, span } => {
                proof {
                    lemma_group_view(*delimiter, *stream, *span);
                }
                Some(stream)
            },
            _ => None,
        }
    }

    /// Whether the token is a group in the brackets `d`.
    pub fn is_group(&self, d: Delimiter) -> (yes: bool)
        ensures
            yes == self.deep_view().is_group(d),
    {
        match self {
            Token::Group { delimiter, .. } => *delimiter == d,
            _ => false,
        }
    }
}

impl Clone for Token {
    fn clone(&self) -> (copy: Token)
        ensures
            copy.deep_view() == self.deep_view(),
        decreases self,
    {
        match self {
            Token::Ident { name, span } => Token::Ident { name: name.clone(), span: *span },
            Token::Punct { ch, spacing, span } => Token::Punct {
                ch: *ch,
                spacing: *spacing,
                span: *span,
            },
            Token::Literal { text, span } => Token::Literal { text: text.clone(), span: *span },
            Token::StringLiteral { value, span } => Token::StringLiteral {
                value: value.clone(),
                span: *span,
            },
            Token::Group { delimiter, stream, span } => {
                let mut copies: Vec<Token> = Vec::new();
                let mut i: usize = 0;
                while i < stream.len()
                    invariant
                        self is Group,
                        self->stream == *stream,
                        i <= stream.len(),
                        copies.len() == i,
                        forall|k: int|
                            0 <= k < i ==> (#[trigger] copies@[k]).deep_view()
                                == stream@[k].deep_view(),
                    decreases stream.len() - i,
                {
                    let copy = stream[i].clone();
                    copies.push(copy);
                    i += 1;
                }
                proof {
                    assert(copies.deep_view() =~= stream.deep_view());
                    lemma_group_view(*delimiter, copies, *span);
                    lemma_group_view(*delimiter, *stream, *span);
                }
                Token::Group { delimiter: *delimiter, stream: copies, span: *span }
            },
        }
    }
}

/// Appends `token` to `sink`.
pub fn push_token(sink: &mut Vec<Token>, token: Token)
    ensures
        final(sink).deep_view() == old(sink).deep_view().push(token.deep_view()),
{
    let ghost before = *sink;
    sink.push(token);
    proof {
        lemma_push_view(before, *sink, token);
    }
}

/// Appends a copy of `token` to `sink`.
pub fn copy_token(sink: &mut Vec<Token>, token: &Token)
    ensures
        final(sink).deep_view() == old(sink).deep_view().push(token.deep_view()),
{
    push_token(sink, token.clone());
}

/// Appends all of `tokens` to `sink`, in order.
pub fn append_tokens(sink: &mut Vec<Token>, tokens: Vec<Token>)
    ensures
        final(sink).deep_view() == old(sink).deep_view() + tokens.deep_view(),
{
    let mut tokens = tokens;
    let ghost added = tokens;
    sink.append(&mut tokens);
    proof {
        assert(sink.deep_view() =~= old(sink).deep_view() + added.deep_view());
    }
}

} // verus!
