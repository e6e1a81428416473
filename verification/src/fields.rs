//! The fields of a `struct`, or of an `enum` variant with named fields.
//!
//! Every field that has no default value gets `= ::core::default::Default::default()`
//! before the comma that ends it, unless the field or the variant around it
//! is marked `#[auto_default(skip)]`.

use crate::cursor::Cursor;
use crate::error::{CompileError, SyntaxError};
use crate::stream::{
    after_comma, attributes, lemma_after_comma_bounds, lemma_attributes_bounds,
    lemma_streamed_after_nothing, lemma_streamed_after_twice, stream_attrs, stream_ident,
    stream_through_comma, stream_token, stream_vis, streamed_after, vis_end, Attributes, IsSkip,
    IsSkipAllowed, Streamed,
};
use crate::token::{append_tokens, push_token, Delimiter, Spacing, Span, Token, TokenView};
use vstd::prelude::*;

verus! {

/// The tokens of `= ::core::default::Default::default()`, every one of them
/// at `span`, the `=` too: what the host reports about the added default
/// value, it reports at the field.
pub open spec fn default_tokens(span: Span) -> Seq<TokenView> {
    seq![
        TokenView::Punct { ch: '=', spacing: Spacing::Alone, span },
        TokenView::Punct { ch: ':', spacing: Spacing::Joint, span },
        TokenView::Punct { ch: ':', spacing: Spacing::Joint, span },
        TokenView::Ident { name: "core"@, span },
        TokenView::Punct { ch: ':', spacing: Spacing::Joint, span },
        TokenView::Punct { ch: ':', spacing: Spacing::Joint, span },
        TokenView::Ident { name: "default"@, span },
        TokenView::Punct { ch: ':', spacing: Spacing::Joint, span },
        TokenView::Punct { ch: ':', spacing: Spacing::Joint, span },
        TokenView::Ident { name: "Default"@, span },
        TokenView::Punct { ch: ':', spacing: Spacing::Joint, span },
        TokenView::Punct { ch: ':', spacing: Spacing::Joint, span },
        TokenView::Ident { name: "default"@, span },
        TokenView::Group { delimiter: Delimiter::Parenthesis, stream: Seq::empty(), span },
    ]
}

/// The position after the token that follows the name at `name` in `s`,
/// which is the colon in a field; after the name where it ends `s`.
pub open spec fn after_colon(s: Seq<TokenView>, name: int) -> int {
    if name + 1 < s.len() {
        name + 2
    } else {
        name + 1
    }
}

/// Where the type that starts at `p` in `s` ends: at the first `=` or `,` at
/// or after `p`, or at the end of `s`.
pub open spec fn type_end(s: Seq<TokenView>, p: int) -> int
    decreases s.len() - p,
{
    if 0 <= p < s.len() && !s[p].is_punct('=') && !s[p].is_punct(',') {
        type_end(s, p + 1)
    } else {
        p
    }
}

/// What is added after the type that ends at `value` in `s`, for a field
/// whose name is at `span`: the default value, unless the field has one or
/// `is_skip` says that it opts out.
pub open spec fn added_at(s: Seq<TokenView>, value: int, is_skip: bool, span: Span) -> Seq<
    TokenView,
> {
    if (0 <= value < s.len() && s[value].is_punct('=')) || is_skip {
        Seq::empty()
    } else {
        default_tokens(span)
    }
}

/// One field, as the rewriter reads it from a list of fields.
pub struct Field {
    /// The attributes of the field.
    pub attributes: Attributes,
    /// The position of the name, after the attributes and the visibility.
    pub name: int,
    /// The position after the type: that of the `=` where the field has a
    /// default value, else that of the `,` or the end of the list.
    pub value: int,
    /// The position after the field and its comma.
    pub end: int,
}

/// The field that starts at `p` in `s`.
pub open spec fn field(s: Seq<TokenView>, p: int) -> Result<Field, SyntaxError> {
    match attributes(s, p, None) {
        Ok(attributes) => {
            let name = vis_end(s, attributes.end);
            let value = type_end(s, after_colon(s, name));
            Ok(Field { attributes, name, value, end: after_comma(s, value) })
        },
        Err(e) => Err(e),
    }
}

impl Field {
    /// There is a field: the list does not end before the name.
    pub open spec fn is_present(self, s: Seq<TokenView>) -> bool {
        0 <= self.name < s.len()
    }

    /// The field has a default value of its own.
    pub open spec fn has_default(self, s: Seq<TokenView>) -> bool {
        0 <= self.value < s.len() && s[self.value].is_punct('=')
    }

    /// The field opts out, by its own attribute or by that of its variant.
    pub open spec fn is_skip(self, is_skip_variant: bool) -> bool {
        self.attributes.skip is Some || is_skip_variant
    }

    /// What is added to the field: the default value, at the span of the
    /// field's name, or nothing.
    pub open spec fn added(self, s: Seq<TokenView>, is_skip_variant: bool) -> Seq<TokenView> {
        added_at(s, self.value, self.is_skip(is_skip_variant), s[self.name].span())
    }

    /// The tokens of the field in the output: the attributes that are kept,
    /// the field up to the end of its type, what is added, and the rest of
    /// the field.
    pub open spec fn tokens(self, s: Seq<TokenView>, is_skip_variant: bool) -> Seq<TokenView> {
        self.attributes.kept + s.subrange(self.attributes.end, self.value) + self.added(
            s,
            is_skip_variant,
        ) + s.subrange(self.value, self.end)
    }
}

/// The type ends at or after the place where it starts, and not past the end.
pub proof fn lemma_type_end_bounds(s: Seq<TokenView>, p: int)
    requires
        0 <= p <= s.len(),
    ensures
        p <= type_end(s, p) <= s.len(),
    decreases s.len() - p,
{
    if p < s.len() && !s[p].is_punct('=') && !s[p].is_punct(',') {
        lemma_type_end_bounds(s, p + 1);
    }
}

/// The parts of a field stand in order, and a field that is present ends
/// after the place where it starts.
pub proof fn lemma_field_bounds(s: Seq<TokenView>, p: int)
    requires
        0 <= p <= s.len(),
    ensures
        field(s, p) matches Ok(f) ==> {
            &&& p <= f.attributes.end <= f.name <= s.len()
            &&& f.is_present(s) ==> f.name < f.value <= f.end <= s.len()
        },
{
    lemma_attributes_bounds(s, p, None);
    if let Ok(f) = field(s, p) {
        if f.is_present(s) {
            lemma_type_end_bounds(s, after_colon(s, f.name));
            lemma_after_comma_bounds(s, f.value);
        }
    }
}

/// The list of fields that starts at `p` in `s`, rewritten. The list ends
/// where no name is left; attributes and a visibility that stand there are
/// still streamed.
pub open spec fn fields(s: Seq<TokenView>, p: int, is_skip_variant: bool) -> Result<
    Streamed,
    SyntaxError,
>
    decreases s.len() - p,
{
    match field(s, p) {
        Ok(f) => {
            if 0 <= p <= s.len() && f.is_present(s) {
                proof {
                    lemma_field_bounds(s, p);
                }
                streamed_after(
                    f.tokens(s, is_skip_variant),
                    f.attributes.errors,
                    fields(s, f.end, is_skip_variant),
                )
            } else {
                Ok(
                    Streamed {
                        tokens: f.attributes.kept + s.subrange(f.attributes.end, f.name),
                        errors: f.attributes.errors,
                    },
                )
            }
        },
        Err(e) => Err(e),
    }
}

/// The tokens of `= ::core::default::Default::default()` for the field whose
/// name is at `span`.
pub fn default(span: Span) -> (tokens: Vec<Token>)
    ensures
        tokens.deep_view() == default_tokens(span),
{
    let mut tokens: Vec<Token> = Vec::new();
    push_token(&mut tokens, Token::punct('=', Spacing::Alone, span));
    push_token(&mut tokens, Token::punct(':', Spacing::Joint, span));
    push_token(&mut tokens, Token::punct(':', Spacing::Joint, span));
    push_token(&mut tokens, Token::ident("core", span));
    push_token(&mut tokens, Token::punct(':', Spacing::Joint, span));
    push_token(&mut tokens, Token::punct(':', Spacing::Joint, span));
    push_token(&mut tokens, Token::ident("default", span));
    push_token(&mut tokens, Token::punct(':', Spacing::Joint, span));
    push_token(&mut tokens, Token::punct(':', Spacing::Joint, span));
    push_token(&mut tokens, Token::ident("Default", span));
    push_token(&mut tokens, Token::punct(':', Spacing::Joint, span));
    push_token(&mut tokens, Token::punct(':', Spacing::Joint, span));
    push_token(&mut tokens, Token::ident("default", span));
    let inside: Vec<Token> = Vec::new();
    proof {
        assert(inside.deep_view() =~= Seq::<TokenView>::empty());
    }
    push_token(&mut tokens, Token::group(Delimiter::Parenthesis, inside, span));
    proof {
        assert(tokens.deep_view() =~= default_tokens(span));
    }
    tokens
}

/// Streams the type of a field from `source` into `sink`: the tokens up to
/// the first `=` or `,`, which stays unread, or to the end.
pub fn stream_type(source: &mut Cursor, sink: &mut Vec<Token>)
    ensures
        final(source).stream() == old(source).stream(),
        0 <= old(source).position() <= final(source).position() <= old(source).stream().len(),
        final(source).position() == type_end(old(source).stream(), old(source).position()),
        final(sink).deep_view() == old(sink).deep_view() + old(source).stream().subrange(
            old(source).position(),
            final(source).position(),
        ),
{
    let ghost s = source.stream();
    let ghost p = source.position();
    proof {
        use_type_invariant(&*source);
        source.lemma_in_bounds();
        assert(sink.deep_view() =~= old(sink).deep_view() + s.subrange(p, p));
    }
    loop
        invariant_except_break
            type_end(s, source.position()) == type_end(s, p),
        invariant
            source.stream() == s,
            0 <= p <= source.position() <= s.len(),
            sink.deep_view() == old(sink).deep_view() + s.subrange(p, source.position()),
        ensures
            source.position() == type_end(s, p),
        decreases s.len() - source.position(),
    {
        let ghost q = source.position();
        let in_type = match source.peek() {
            Some(token) => !token.is_punct('=') && !token.is_punct(','),
            None => false,
        };
        if !in_type {
            break;
        }
        stream_token(source, sink);
        proof {
            assert(sink.deep_view() =~= old(sink).deep_view() + s.subrange(p, q + 1));
        }
    }
}

/// Streams what follows the name of a field from `source` into `sink`: the
/// colon, the type, the default value and the comma, as far as they are
/// there. Between the type and the comma the default value is added, at
/// `span`, unless the field has one of its own or `is_skip` says that it
/// opts out.
pub fn stream_field_value(
    source: &mut Cursor,
    sink: &mut Vec<Token>,
    is_skip: IsSkip,
    span: Span,
)
    ensures
        final(source).stream() == old(source).stream(),
        ({
            let s = old(source).stream();
            let p = old(source).position();
            let value = type_end(s, after_colon(s, p - 1));
            let end = after_comma(s, value);
            &&& 0 <= p <= value <= end <= s.len()
            &&& final(source).position() == end
            &&& final(sink).deep_view() == old(sink).deep_view() + s.subrange(p, value)
                + added_at(s, value, is_skip.0, span) + s.subrange(value, end)
        }),
{
    let ghost s = source.stream();
    let ghost p = source.position();

    // field: some::Type
    //      ^ ^^^^^^^^^^
    stream_token(source, sink);
    stream_type(source, sink);
    let ghost value = source.position();
    proof {
        assert(sink.deep_view() =~= old(sink).deep_view() + s.subrange(p, value));
    }

    // field: Type = default
    //             ^
    let has_default = match source.peek() {
        Some(token) => token.is_punct('='),
        None => false,
    };
    if !has_default && !is_skip.0 {
        // field: Type = ::core::default::Default::default(),
        //             ^^^^^^^^^^^^^^^^^^^^^^^^^^^^^^^^^^^^^^
        append_tokens(sink, default(span));
    }
    proof {
        assert(sink.deep_view() =~= old(sink).deep_view() + s.subrange(p, value) + added_at(
            s,
            value,
            is_skip.0,
            span,
        ));
    }

    // The default value that the field came with, if any, and the comma.
    stream_through_comma(source, sink);
}

/// Streams one field from `source` into `sink`: its attributes, its
/// visibility, its name, and what follows the name, with the default value
/// added where the field has none and does not opt out. Says whether there
/// was a field; where the list ends instead, the attributes and the
/// visibility that stand there are streamed all the same.
pub fn stream_field(
    source: &mut Cursor,
    sink: &mut Vec<Token>,
    compile_errors: &mut Vec<CompileError>,
    is_skip_variant: IsSkip,
) -> (found: Result<bool, SyntaxError>)
    ensures
        final(source).stream() == old(source).stream(),
        0 <= old(source).position() <= final(source).position() <= old(source).stream().len(),
        match found {
            Ok(is_field) => {
                let s = old(source).stream();
                &&& field(s, old(source).position()) matches Ok(f)
                &&& is_field == f.is_present(s)
                &&& final(compile_errors).deep_view() == old(compile_errors).deep_view()
                    + f.attributes.errors
                &&& if is_field {
                    &&& old(source).position() < f.end
                    &&& final(source).position() == f.end
                    &&& final(sink).deep_view() == old(sink).deep_view() + f.tokens(
                        s,
                        is_skip_variant.0,
                    )
                } else {
                    &&& final(source).position() == f.name
                    &&& final(sink).deep_view() == old(sink).deep_view() + (f.attributes.kept
                        + s.subrange(f.attributes.end, f.name))
                }
            },
            Err(e) => {
                &&& field(old(source).stream(), old(source).position()) == Err::<
                    Field,
                    SyntaxError,
                >(e)
                &&& old(sink).deep_view().is_prefix_of(final(sink).deep_view())
                &&& old(compile_errors).deep_view().is_prefix_of(
                    final(compile_errors).deep_view(),
                )
            },
        },
{
    let ghost s = source.stream();
    let ghost p = source.position();
    proof {
        use_type_invariant(&*source);
        source.lemma_in_bounds();
        lemma_field_bounds(s, p);
    }
    let is_skip_field = stream_attrs(source, sink, compile_errors, IsSkipAllowed(true))?;
    let ghost f = field(s, p)->Ok_0;
    let is_skip = is_skip_field.0 || is_skip_variant.0;
    stream_vis(source, sink);
    let field_ident_span = match stream_ident(source, sink) {
        Some(span) => span,
        // No field is left, as in `struct Struct {}`.
        None => {
            proof {
                assert(sink.deep_view() =~= old(sink).deep_view() + (f.attributes.kept
                    + s.subrange(f.attributes.end, f.name)));
            }
            return Ok(false);
        },
    };
    proof {
        assert(sink.deep_view() =~= old(sink).deep_view() + (f.attributes.kept + s.subrange(
            f.attributes.end,
            f.name + 1,
        )));
    }
    stream_field_value(source, sink, IsSkip(is_skip), field_ident_span);
    proof {
        assert(f.added(s, is_skip_variant.0) == added_at(s, f.value, is_skip, field_ident_span));
        assert(sink.deep_view() =~= old(sink).deep_view() + f.tokens(s, is_skip_variant.0));
    }
    Ok(true)
}

/// Rewrites the fields in `fields`, the stream inside the braces of a
/// `struct` or of an `enum` variant with named fields, and puts them into
/// braces at `span` again.
///
/// Every field that has no default value gets `= Default::default()`, unless
/// it is marked with `#[auto_default(skip)]` or `is_skip_variant` says that
/// its variant is.
pub fn add_default_field_values(
    fields: &Vec<Token>,
    span: Span,
    compile_errors: &mut Vec<CompileError>,
    is_skip_variant: IsSkip,
) -> (rewritten: Result<Token, SyntaxError>)
    ensures
        match rewritten {
            Ok(group) => {
                &&& self::fields(fields.deep_view(), 0, is_skip_variant.0) matches Ok(out)
                &&& group.deep_view() == (TokenView::Group {
                    delimiter: Delimiter::Brace,
                    stream: out.tokens,
                    span,
                })
                &&& final(compile_errors).deep_view() == old(compile_errors).deep_view()
                    + out.errors
            },
            Err(e) => {
                &&& self::fields(fields.deep_view(), 0, is_skip_variant.0) == Err::<
                    Streamed,
                    SyntaxError,
                >(e)
                &&& old(compile_errors).deep_view().is_prefix_of(
                    final(compile_errors).deep_view(),
                )
            },
        },
{
    let ghost s = fields.deep_view();
    let ghost skip = is_skip_variant.0;
    let ghost mut reported = Seq::empty();

    // All the tokens of the fields, as the user wrote them. They will all be
    // sent to `output`, plus a few more for each `Default::default()` added.
    let mut source = Cursor::new(fields);
    let mut output: Vec<Token> = Vec::new();
    proof {
        assert(output.deep_view() =~= Seq::<TokenView>::empty());
        assert(compile_errors.deep_view() =~= old(compile_errors).deep_view() + reported);
        lemma_streamed_after_nothing(self::fields(s, 0, skip));
    }
    // Each iteration rewrites a single field.
    loop
        invariant_except_break
            self::fields(s, 0, skip) == streamed_after(
                output.deep_view(),
                reported,
                self::fields(s, source.position(), skip),
            ),
        invariant
            s == fields.deep_view(),
            skip == is_skip_variant.0,
            source.stream() == s,
            0 <= source.position() <= s.len(),
            compile_errors.deep_view() == old(compile_errors).deep_view() + reported,
        ensures
            self::fields(s, 0, skip) == Ok::<Streamed, SyntaxError>(
                Streamed { tokens: output.deep_view(), errors: reported },
            ),
        decreases s.len() - source.position(),
    {
        let ghost p = source.position();
        let ghost before = output.deep_view();
        let ghost reported_before = reported;
        let is_field = match stream_field(&mut source, &mut output, compile_errors, is_skip_variant) {
            Ok(is_field) => is_field,
            Err(e) => {
                return Err(e);
            },
        };
        let ghost f = field(s, p)->Ok_0;
        proof {
            reported = reported + f.attributes.errors;
            assert(compile_errors.deep_view() =~= old(compile_errors).deep_view() + reported);
        }
        if !is_field {
            break;
        }
        proof {
            lemma_streamed_after_twice(
                before,
                reported_before,
                f.tokens(s, skip),
                f.attributes.errors,
                self::fields(s, f.end, skip),
            );
        }
    }
    Ok(Token::group(Delimiter::Brace, output, span))
}

} // verus!
