//! What the rewriter reports: diagnostics that go into the output beside the
//! declaration, and the inputs that it cannot read at all.

use crate::token::{push_token, Delimiter, Spacing, Span, Token, TokenView};
use vstd::prelude::*;

verus! {

/// A message for the user, anchored at a span. In the output it stands as an
/// invocation of `::core::compile_error!`, so that the host reports it at that
/// span and goes on with the rest of the output.
///
/// The rewriter reports:
/// - arguments to the invocation, which takes none;
/// - an input that is no `struct` or `enum`, or has no body in braces: the
///   output then holds diagnostics only;
/// - `#[auto_default(skip)]` where it may not stand: on the declaration, on a
///   unit variant, on a variant with unnamed fields;
/// - a second `#[auto_default(skip)]` on one field or variant;
/// - an `auto_default` attribute that is not `auto_default(skip)`.
#[derive(Debug, PartialEq, Eq)]
pub struct CompileError {
    /// Where the host shall report the message.
    pub span: Span,
    /// What it shall say.
    pub message: String,
}

/// The mathematical value of a [`CompileError`].
pub struct CompileErrorView {
    pub span: Span,
    pub message: Seq<char>,
}

impl DeepView for CompileError {
    type V = CompileErrorView;

    open spec fn deep_view(&self) -> CompileErrorView {
        CompileErrorView { span: self.span, message: self.message@ }
    }
}

/// A declaration that the rewriter cannot walk through. Nothing is rewritten
/// and nothing reported in the output: the input is no declaration that the
/// host's grammar lets through.
#[derive(Clone, Copy, Debug, PartialEq, Eq, Structural)]
pub enum SyntaxError {
    /// A `#` is not followed by a group.
    AttributeWithoutGroup,
    /// Nothing follows the `struct` or `enum` keyword.
    MissingName,
    /// The name of a variant is followed by something else than a group in
    /// braces or parentheses, `=`, `,` or the end of the list.
    UnexpectedAfterVariantName,
    /// The fields of a variant are followed by something else than `=`, `,`
    /// or the end of the list.
    UnexpectedAfterVariantFields,
}

impl CompileErrorView {
    /// The tokens of `::core::compile_error! { "message" }`, each at the
    /// diagnostic's span.
    pub open spec fn tokens(self) -> Seq<TokenView> {
        seq![
            TokenView::Punct { ch: ':', spacing: Spacing::Joint, span: self.span },
            TokenView::Punct { ch: ':', spacing: Spacing::Joint, span: self.span },
            TokenView::Ident { name: "core"@, span: self.span },
            TokenView::Punct { ch: ':', spacing: Spacing::Joint, span: self.span },
            TokenView::Punct { ch: ':', spacing: Spacing::Joint, span: self.span },
            TokenView::Ident { name: "compile_error"@, span: self.span },
            TokenView::Punct { ch: '!', spacing: Spacing::Alone, span: self.span },
            TokenView::Group {
                delimiter: Delimiter::Brace,
                stream: seq![TokenView::StringLiteral { value: self.message, span: self.span }],
                span: self.span,
            },
        ]
    }
}

/// The tokens of all of `errors`, in their order.
pub open spec fn error_tokens(errors: Seq<CompileErrorView>) -> Seq<TokenView>
    decreases errors.len(),
{
    if errors.len() == 0 {
        Seq::empty()
    } else {
        error_tokens(errors.drop_last()) + errors.last().tokens()
    }
}

impl CompileError {
    /// Create a new compile error.
    pub fn new(span: Span, message: &str) -> (error: Self)
        ensures
            error.deep_view() == (CompileErrorView { span, message: message@ }),
    {
        CompileError { span, message: message.to_owned() }
    }

    /// Appends the tokens that report this diagnostic to `sink`.
    pub fn stream_into(&self, sink: &mut Vec<Token>)
        ensures
            final(sink).deep_view() == old(sink).deep_view() + self.deep_view().tokens(),
    {
        let span = self.span;
        let mut inside: Vec<Token> = Vec::new();
        push_token(&mut inside, Token::StringLiteral { value: self.message.clone(), span });
        push_token(sink, Token::punct(':', Spacing::Joint, span));
        push_token(sink, Token::punct(':', Spacing::Joint, span));
        push_token(sink, Token::ident("core", span));
        push_token(sink, Token::punct(':', Spacing::Joint, span));
        push_token(sink, Token::punct(':', Spacing::Joint, span));
        push_token(sink, Token::ident("compile_error", span));
        push_token(sink, Token::punct('!', Spacing::Alone, span));
        push_token(sink, Token::group(Delimiter::Brace, inside, span));
        proof {
            assert(inside.deep_view() =~= seq![
                TokenView::StringLiteral { value: self.message@, span },
            ]);
            assert(sink.deep_view() =~= old(sink).deep_view() + self.deep_view().tokens());
        }
    }

    /// The tokens that report this diagnostic.
    pub fn into_tokens(self) -> (tokens: Vec<Token>)
        ensures
            tokens.deep_view() == self.deep_view().tokens(),
    {
        let mut tokens: Vec<Token> = Vec::new();
        self.stream_into(&mut tokens);
        proof {
            assert(tokens.deep_view() =~= self.deep_view().tokens());
        }
        tokens
    }
}

/// Appends `error` to `errors`.
pub fn push_error(errors: &mut Vec<CompileError>, error: CompileError)
    ensures
        final(errors).deep_view() == old(errors).deep_view().push(error.deep_view()),
{
    errors.push(error);
    proof {
        assert(errors.deep_view() =~= old(errors).deep_view().push(error.deep_view()));
    }
}

/// Appends the tokens of every diagnostic in `errors` to `sink`, in order.
pub fn stream_errors(errors: &Vec<CompileError>, sink: &mut Vec<Token>)
    ensures
        final(sink).deep_view() == old(sink).deep_view() + error_tokens(errors.deep_view()),
{
    let mut i: usize = 0;
    while i < errors.len()
        invariant
            i <= errors.len(),
            sink.deep_view() == old(sink).deep_view() + error_tokens(
                errors.deep_view().take(i as int),
            ),
        decreases errors.len() - i,
    {
        errors[i].stream_into(sink);
        proof {
            let all = errors.deep_view();
            assert(all.take(i + 1).drop_last() =~= all.take(i as int));
            assert(all.take(i + 1).last() == errors[i as int].deep_view());
            assert(sink.deep_view() =~= old(sink).deep_view() + error_tokens(all.take(i + 1)));
        }
        i += 1;
    }
    proof {
        assert(errors.deep_view().take(errors.len() as int) =~= errors.deep_view());
    }
}

} // verus!
