//! The variants of an `enum`.
//!
//! A variant with named fields has its fields rewritten; it may be marked
//! `#[auto_default(skip)]`, which then holds for each of its fields. A unit
//! variant and one with unnamed fields are copied as they are, and the mark
//! is reported on them.

use crate::cursor::Cursor;
use crate::error::{push_error, CompileError, CompileErrorView, SyntaxError};
use crate::fields::{add_default_field_values, fields};
use crate::stream::{
    attributes, is_variant_end, lemma_after_comma_bounds, lemma_attributes_bounds,
    lemma_streamed_after_nothing, lemma_streamed_after_twice, stream_attrs,
    stream_enum_variant_discriminant_and_comma,
    stream_ident, stream_token, stream_vis, streamed_after, variant_end, vis_end, Attributes,
    IsSkip, IsSkipAllowed, Streamed,
};
use crate::token::{push_token, Delimiter, Span, Token, TokenView};
use vstd::prelude::*;

verus! {

/// What a variant holds.
#[derive(Clone, Copy, Debug, PartialEq, Eq, Structural)]
pub enum Shape {
    /// Nothing: `Name`.
    Unit,
    /// Unnamed fields: `Name(..)`.
    Positional,
    /// Named fields: `Name { .. }`.
    Named,
}

/// The shape of the variant whose name ends at `p` in `s`, by the token at
/// `p`.
pub open spec fn shape(s: Seq<TokenView>, p: int) -> Shape {
    if 0 <= p < s.len() && s[p].is_group(Delimiter::Brace) {
        Shape::Named
    } else if 0 <= p < s.len() && s[p].is_group(Delimiter::Parenthesis) {
        Shape::Positional
    } else {
        Shape::Unit
    }
}

/// The report of an `auto_default(skip)` on a variant without named fields,
/// at the span of the variant's name.
pub open spec fn skip_on_variant(span: Span) -> CompileErrorView {
    CompileErrorView {
        span,
        message: "`#[auto_default(skip)]` is only allowed on variants with named fields"@,
    }
}

/// What is reported where the variant whose name is at `span` has no named
/// fields: the mark, if there is one.
pub open spec fn misplaced_skip(is_skip: bool, span: Span) -> Seq<CompileErrorView> {
    if is_skip {
        seq![skip_on_variant(span)]
    } else {
        Seq::empty()
    }
}

/// What follows the name of one variant, rewritten.
pub struct Payload {
    /// The tokens for the output.
    pub tokens: Seq<TokenView>,
    /// What is reported.
    pub errors: Seq<CompileErrorView>,
    /// The position after the variant and its comma.
    pub end: int,
}

/// What follows, from `p` in `s`, the name of a variant that stands at
/// `span` and is marked as `is_skip` says: the fields, the discriminant and
/// the comma, as far as they are there.
///
/// Named fields are rewritten, with the variant's mark handed down to them.
/// Otherwise everything is copied and the mark reported.
pub open spec fn payload(s: Seq<TokenView>, p: int, is_skip: bool, span: Span) -> Result<
    Payload,
    SyntaxError,
> {
    match shape(s, p) {
        Shape::Named => match fields(s[p]->stream, 0, is_skip) {
            Ok(inside) => match variant_end(s, p + 1) {
                Some(end) => Ok(
                    Payload {
                        tokens: seq![
                            TokenView::Group {
                                delimiter: Delimiter::Brace,
                                stream: inside.tokens,
                                span: s[p].span(),
                            },
                        ] + s.subrange(p + 1, end),
                        errors: inside.errors,
                        end,
                    },
                ),
                None => Err(SyntaxError::UnexpectedAfterVariantFields),
            },
            Err(e) => Err(e),
        },
        Shape::Positional => match variant_end(s, p + 1) {
            Some(end) => Ok(
                Payload { tokens: s.subrange(p, end), errors: misplaced_skip(is_skip, span), end },
            ),
            None => Err(SyntaxError::UnexpectedAfterVariantFields),
        },
        Shape::Unit => match variant_end(s, p) {
            Some(end) => Ok(
                Payload { tokens: s.subrange(p, end), errors: misplaced_skip(is_skip, span), end },
            ),
            None => Err(SyntaxError::UnexpectedAfterVariantName),
        },
    }
}

/// A variant does not end before the place where it starts, and not past the
/// end.
pub proof fn lemma_variant_end_bounds(s: Seq<TokenView>, p: int)
    requires
        0 <= p <= s.len(),
    ensures
        variant_end(s, p) matches Some(end) ==> p <= end <= s.len(),
{
    if p < s.len() {
        lemma_after_comma_bounds(s, p + 1);
    }
}

/// What follows a name does not end before the place where it starts, and
/// not past the end.
pub proof fn lemma_payload_bounds(s: Seq<TokenView>, p: int, is_skip: bool, span: Span)
    requires
        0 <= p <= s.len(),
    ensures
        payload(s, p, is_skip, span) matches Ok(v) ==> p <= v.end <= s.len(),
{
    if shape(s, p) == Shape::Unit {
        lemma_variant_end_bounds(s, p);
    } else {
        lemma_variant_end_bounds(s, p + 1);
    }
}

/// The list of variants that starts at `p` in `s`, rewritten. The list ends
/// where no name is left; attributes and a visibility that stand there are
/// still streamed.
pub open spec fn variants(s: Seq<TokenView>, p: int) -> Result<Streamed, SyntaxError>
    decreases s.len() - p,
{
    match attributes(s, p, None) {
        Ok(attrs) => {
            let name = vis_end(s, attrs.end);
            if 0 <= p <= name < s.len() {
                match payload(s, name + 1, attrs.skip is Some, s[name].span()) {
                    Ok(v) => {
                        proof {
                            lemma_payload_bounds(s, name + 1, attrs.skip is Some, s[name].span());
                        }
                        streamed_after(
                            attrs.kept + s.subrange(attrs.end, name + 1) + v.tokens,
                            attrs.errors + v.errors,
                            variants(s, v.end),
                        )
                    },
                    Err(e) => Err(e),
                }
            } else {
                Ok(
                    Streamed {
                        tokens: attrs.kept + s.subrange(attrs.end, name),
                        errors: attrs.errors,
                    },
                )
            }
        },
        Err(e) => Err(e),
    }
}

/// Reports the mark `#[auto_default(skip)]`, if `is_skip` says that there is
/// one, on a variant without named fields whose name is at `span`.
pub fn disallow_skip(is_skip: IsSkip, span: Span, compile_errors: &mut Vec<CompileError>)
    ensures
        final(compile_errors).deep_view() == old(compile_errors).deep_view() + misplaced_skip(
            is_skip.0,
            span,
        ),
{
    if is_skip.0 {
        push_error(
            compile_errors,
            CompileError::new(
                span,
                "`#[auto_default(skip)]` is only allowed on variants with named fields",
            ),
        );
    }
    proof {
        assert(compile_errors.deep_view() =~= old(compile_errors).deep_view() + misplaced_skip(
            is_skip.0,
            span,
        ));
    }
}

/// Streams what follows the name of a variant from `source` into `sink`:
/// the fields, the discriminant and the comma, as far as they are there. The
/// name stands at `span`, and `is_skip` says whether the variant is marked
/// `#[auto_default(skip)]`.
pub fn stream_variant_payload(
    source: &mut Cursor,
    sink: &mut Vec<Token>,
    compile_errors: &mut Vec<CompileError>,
    is_skip: IsSkip,
    span: Span,
) -> (done: Result<(), SyntaxError>)
    ensures
        final(source).stream() == old(source).stream(),
        0 <= old(source).position() <= old(source).stream().len(),
        match done {
            Ok(_) => {
                &&& payload(old(source).stream(), old(source).position(), is_skip.0, span)
                    matches Ok(v)
                &&& final(source).position() == v.end
                &&& old(source).position() <= v.end <= old(source).stream().len()
                &&& final(sink).deep_view() == old(sink).deep_view() + v.tokens
                &&& final(compile_errors).deep_view() == old(compile_errors).deep_view()
                    + v.errors
            },
            Err(e) => {
                &&& payload(old(source).stream(), old(source).position(), is_skip.0, span)
                    == Err::<Payload, SyntaxError>(e)
                &&& old(source).position() <= final(source).position() <= old(
                    source,
                ).stream().len()
                &&& old(sink).deep_view().is_prefix_of(final(sink).deep_view())
                &&& old(compile_errors).deep_view().is_prefix_of(
                    final(compile_errors).deep_view(),
                )
            },
        },
{
    let ghost s = source.stream();
    let ghost p = source.position();
    let named = match source.peek() {
        Some(group) => if group.is_group(Delimiter::Brace) {
            match group.group_stream() {
                Some(inside) => Some((inside, group.span())),
                None => None,
            }
        } else {
            None
        },
        None => None,
    };
    match named {
        // Variant with named fields: add default field values.
        Some((named_variant_fields, fields_span)) => {
            let _ = source.next();
            let rewritten = add_default_field_values(
                named_variant_fields,
                fields_span,
                compile_errors,
                is_skip,
            )?;
            push_token(sink, rewritten);
            if !is_variant_end(source) {
                return Err(SyntaxError::UnexpectedAfterVariantFields);
            }
            stream_enum_variant_discriminant_and_comma(source, sink);
            proof {
                let v = payload(s, p, is_skip.0, span)->Ok_0;
                assert(sink.deep_view() =~= old(sink).deep_view() + v.tokens);
            }
            Ok(())
        },
        // Variant with unnamed fields, or unit variant: only a variant with
        // named fields can be marked `#[auto_default(skip)]`.
        None => {
            let is_positional = match source.peek() {
                Some(token) => {
                    if token.is_group(Delimiter::Parenthesis) {
                        true
                    } else if token.is_punct(',') || token.is_punct('=') {
                        false
                    } else {
                        return Err(SyntaxError::UnexpectedAfterVariantName);
                    }
                },
                None => false,
            };
            disallow_skip(is_skip, span, compile_errors);
            if is_positional {
                stream_token(source, sink);
                if !is_variant_end(source) {
                    return Err(SyntaxError::UnexpectedAfterVariantFields);
                }
            }
            stream_enum_variant_discriminant_and_comma(source, sink);
            proof {
                let v = payload(s, p, is_skip.0, span)->Ok_0;
                assert(sink.deep_view() =~= old(sink).deep_view() + v.tokens);
            }
            Ok(())
        },
    }
}

/// One variant, as the rewriter reads it from a list of variants.
pub struct Variant {
    /// The attributes of the variant.
    pub attributes: Attributes,
    /// The position of the name, after the attributes and the visibility.
    pub name: int,
}

/// The variant that starts at `p` in `s`.
pub open spec fn variant(s: Seq<TokenView>, p: int) -> Result<Variant, SyntaxError> {
    match attributes(s, p, None) {
        Ok(attributes) => Ok(Variant { attributes, name: vis_end(s, attributes.end) }),
        Err(e) => Err(e),
    }
}

/// Streams one variant from `source` into `sink`: its attributes, its
/// visibility, its name, and what follows the name. Says whether there was
/// a variant; where the list ends instead, the attributes and the visibility
/// that stand there are streamed all the same.
pub fn stream_variant(
    source: &mut Cursor,
    sink: &mut Vec<Token>,
    compile_errors: &mut Vec<CompileError>,
) -> (found: Result<bool, SyntaxError>)
    ensures
        final(source).stream() == old(source).stream(),
        0 <= old(source).position() <= final(source).position() <= old(source).stream().len(),
        match found {
            Ok(is_variant) => {
                let s = old(source).stream();
                &&& variant(s, old(source).position()) matches Ok(v)
                &&& is_variant == (v.name < s.len())
                &&& if is_variant {
                    &&& payload(s, v.name + 1, v.attributes.skip is Some, s[v.name].span())
                        matches Ok(rest)
                    &&& old(source).position() < rest.end
                    &&& final(source).position() == rest.end
                    &&& final(sink).deep_view() == old(sink).deep_view() + (v.attributes.kept
                        + s.subrange(v.attributes.end, v.name + 1) + rest.tokens)
                    &&& final(compile_errors).deep_view() == old(compile_errors).deep_view() + (
                    v.attributes.errors + rest.errors)
                } else {
                    &&& final(source).position() == v.name
                    &&& final(sink).deep_view() == old(sink).deep_view() + (v.attributes.kept
                        + s.subrange(v.attributes.end, v.name))
                    &&& final(compile_errors).deep_view() == old(compile_errors).deep_view()
                        + v.attributes.errors
                }
            },
            Err(e) => {
                let s = old(source).stream();
                &&& match variant(s, old(source).position()) {
                    Ok(v) => v.name < s.len() && payload(
                        s,
                        v.name + 1,
                        v.attributes.skip is Some,
                        s[v.name].span(),
                    ) == Err::<Payload, SyntaxError>(e),
                    Err(d) => d == e,
                }
                &&& old(sink).deep_view().is_prefix_of(final(sink).deep_view())
                &&& old(compile_errors).deep_view().is_prefix_of(
                    final(compile_errors).deep_view(),
                )
            },
        },
{
    let ghost s = source.stream();
    let ghost p = source.position();
    proof {
        use_type_invariant(&*source);
        source.lemma_in_bounds();
        lemma_attributes_bounds(s, p, None);
    }
    let is_skip = stream_attrs(source, sink, compile_errors, IsSkipAllowed(true))?;
    let ghost v = variant(s, p)->Ok_0;

    // Variants can have a visibility, at least as far as the syntax goes.
    //
    // pub Variant {  }
    // ^^^
    stream_vis(source, sink);

    // Variant {  }
    // ^^^^^^^
    let variant_ident_span = match stream_ident(source, sink) {
        Some(span) => span,
        // No variant is left, as in `enum Never {}`.
        None => {
            proof {
                assert(sink.deep_view() =~= old(sink).deep_view() + (v.attributes.kept
                    + s.subrange(v.attributes.end, v.name)));
            }
            return Ok(false);
        },
    };
    let ghost head = sink.deep_view();
    let ghost reported = compile_errors.deep_view();
    proof {
        assert(head =~= old(sink).deep_view() + (v.attributes.kept + s.subrange(
            v.attributes.end,
            v.name + 1,
        )));
    }
    stream_variant_payload(source, sink, compile_errors, is_skip, variant_ident_span)?;
    proof {
        let rest = payload(s, v.name + 1, v.attributes.skip is Some, s[v.name].span())->Ok_0;
        assert(sink.deep_view() =~= old(sink).deep_view() + (v.attributes.kept + s.subrange(
            v.attributes.end,
            v.name + 1,
        ) + rest.tokens));
        assert(compile_errors.deep_view() =~= old(compile_errors).deep_view() + (
        v.attributes.errors + rest.errors));
    }
    Ok(true)
}

/// Rewrites the variants in `variants`, the stream inside the braces of an
/// `enum`, and puts them into braces at `span` again.
pub fn add_default_variant_values(
    variants: &Vec<Token>,
    span: Span,
    compile_errors: &mut Vec<CompileError>,
) -> (rewritten: Result<Token, SyntaxError>)
    ensures
        match rewritten {
            Ok(group) => {
                &&& self::variants(variants.deep_view(), 0) matches Ok(out)
                &&& group.deep_view() == (TokenView::Group {
                    delimiter: Delimiter::Brace,
                    stream: out.tokens,
                    span,
                })
                &&& final(compile_errors).deep_view() == old(compile_errors).deep_view()
                    + out.errors
            },
            Err(e) => {
                &&& self::variants(variants.deep_view(), 0) == Err::<Streamed, SyntaxError>(e)
                &&& old(compile_errors).deep_view().is_prefix_of(
                    final(compile_errors).deep_view(),
                )
            },
        },
{
    let ghost s = variants.deep_view();
    let ghost mut reported = Seq::empty();
    let mut source = Cursor::new(variants);
    let mut output: Vec<Token> = Vec::new();
    proof {
        assert(output.deep_view() =~= Seq::<TokenView>::empty());
        assert(compile_errors.deep_view() =~= old(compile_errors).deep_view() + reported);
        lemma_streamed_after_nothing(self::variants(s, 0));
    }
    loop
        invariant_except_break
            self::variants(s, 0) == streamed_after(
                output.deep_view(),
                reported,
                self::variants(s, source.position()),
            ),
        invariant
            s == variants.deep_view(),
            source.stream() == s,
            0 <= source.position() <= s.len(),
            compile_errors.deep_view() == old(compile_errors).deep_view() + reported,
        ensures
            self::variants(s, 0) == Ok::<Streamed, SyntaxError>(
                Streamed { tokens: output.deep_view(), errors: reported },
            ),
        decreases s.len() - source.position(),
    {
        let ghost p = source.position();
        let ghost before = output.deep_view();
        let ghost reported_before = reported;
        proof {
            lemma_attributes_bounds(s, p, None);
        }
        let is_variant = match stream_variant(&mut source, &mut output, compile_errors) {
            Ok(is_variant) => is_variant,
            Err(e) => {
                return Err(e);
            },
        };
        let ghost v = variant(s, p)->Ok_0;
        if !is_variant {
            proof {
                reported = reported + v.attributes.errors;
                assert(compile_errors.deep_view() =~= old(compile_errors).deep_view() + reported);
            }
            break;
        }
        proof {
            let rest = payload(s, v.name + 1, v.attributes.skip is Some, s[v.name].span())->Ok_0;
            let tokens = v.attributes.kept + s.subrange(v.attributes.end, v.name + 1)
                + rest.tokens;
            reported = reported + (v.attributes.errors + rest.errors);
            assert(compile_errors.deep_view() =~= old(compile_errors).deep_view() + reported);
            lemma_streamed_after_twice(
                before,
                reported_before,
                tokens,
                v.attributes.errors + rest.errors,
                self::variants(s, rest.end),
            );
        }
    }
    Ok(Token::group(Delimiter::Brace, output, span))
}

} // verus!
