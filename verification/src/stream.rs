//! Copying one piece of syntax from the input to the output: a run of
//! attributes, a visibility, a name, the end of an `enum` variant.
//!
//! Each piece is described twice. A spec function says where the piece ends
//! in a stream `s` when it starts at position `p`, and what goes to the
//! output for it. An executable function does it on a [`Cursor`] and a sink.

use crate::cursor::Cursor;
use crate::error::{push_error, CompileError, CompileErrorView, SyntaxError};
use crate::skip::{is_skip_attribute, skip_attribute, SkipAttribute};
use crate::token::{copy_token, Delimiter, Span, Token, TokenView};
use vstd::prelude::*;

verus! {

/// Whether `#[auto_default(skip)]` was found.
#[derive(Clone, Copy, Debug, PartialEq, Eq, Structural)]
pub struct IsSkip(pub bool);

/// Whether `#[auto_default(skip)]` may stand where the attributes are read.
#[derive(Clone, Copy, Debug, PartialEq, Eq, Structural)]
pub struct IsSkipAllowed(pub bool);

/// A run of attributes, as the rewriter reads it.
pub struct Attributes {
    /// The tokens of the attributes that stay in the output.
    pub kept: Seq<TokenView>,
    /// The span of the first `skip`, if there is an `auto_default(skip)`.
    pub skip: Option<Span>,
    /// What is reported about the attributes.
    pub errors: Seq<CompileErrorView>,
    /// The position of the first token after the attributes.
    pub end: int,
}

/// What the rewriter makes of a list: the tokens for the output, and what it
/// reports.
pub struct Streamed {
    pub tokens: Seq<TokenView>,
    pub errors: Seq<CompileErrorView>,
}

/// `rest`, with `tokens` and `errors` put before what it has of either.
pub open spec fn streamed_after(
    tokens: Seq<TokenView>,
    errors: Seq<CompileErrorView>,
    rest: Result<Streamed, SyntaxError>,
) -> Result<Streamed, SyntaxError> {
    match rest {
        Ok(r) => Ok(Streamed { tokens: tokens + r.tokens, errors: errors + r.errors }),
        Err(e) => Err(e),
    }
}

/// `rest`, with `kept` and `errors` put before what it has of either.
pub open spec fn attributes_after(
    kept: Seq<TokenView>,
    errors: Seq<CompileErrorView>,
    rest: Result<Attributes, SyntaxError>,
) -> Result<Attributes, SyntaxError> {
    match rest {
        Ok(r) => Ok(
            Attributes { kept: kept + r.kept, skip: r.skip, errors: errors + r.errors, end: r.end },
        ),
        Err(e) => Err(e),
    }
}

/// The report of an `auto_default(skip)` that follows another one.
pub open spec fn duplicate_skip(span: Span) -> CompileErrorView {
    CompileErrorView { span, message: "duplicate `#[auto_default(skip)]`"@ }
}

/// The report of an `auto_default(skip)` on the declaration itself.
pub open spec fn skip_on_container(span: Span) -> CompileErrorView {
    CompileErrorView { span, message: "`#[auto_default(skip)]` is not allowed on container"@ }
}

/// The attributes that start at `p` in `s`, where `skip` is the first
/// `auto_default(skip)` seen before `p`.
///
/// An attribute is a `#` and a group. One that is not `auto_default` is kept
/// as it is. An `auto_default(skip)` is left out; the first one sets `skip`,
/// each later one is reported as a duplicate. An `auto_default` of another
/// form is left out and reported. A `#` without a group cannot be read.
pub open spec fn attributes(s: Seq<TokenView>, p: int, skip: Option<Span>) -> Result<
    Attributes,
    SyntaxError,
>
    decreases s.len() - p,
{
    if 0 <= p < s.len() && s[p].is_punct('#') {
        if p + 1 < s.len() && s[p + 1] is Group {
            let outcome = skip_attribute(s[p + 1]->stream);
            let kept = if outcome.attribute is Absent {
                seq![s[p], s[p + 1]]
            } else {
                Seq::empty()
            };
            let found = outcome.attribute.skip();
            let duplicate = if found is Some && skip is Some {
                seq![duplicate_skip(found->0)]
            } else {
                Seq::empty()
            };
            let next = if skip is Some {
                skip
            } else {
                found
            };
            attributes_after(kept, outcome.errors + duplicate, attributes(s, p + 2, next))
        } else {
            Err(SyntaxError::AttributeWithoutGroup)
        }
    } else {
        Ok(Attributes { kept: Seq::empty(), skip, errors: Seq::empty(), end: p })
    }
}

/// The attributes that start at `p` in `s`, with the report of a `skip` that
/// stands where none is allowed.
pub open spec fn placed_attributes(s: Seq<TokenView>, p: int, allowed: bool) -> Result<
    Attributes,
    SyntaxError,
> {
    match attributes(s, p, None) {
        Ok(a) => Ok(
            Attributes {
                errors: if a.skip is Some && !allowed {
                    a.errors.push(skip_on_container(a.skip->0))
                } else {
                    a.errors
                },
                ..a
            },
        ),
        Err(e) => Err(e),
    }
}

/// Where the visibility that starts at `p` in `s` ends: after `pub` and a
/// group in parentheses, after `pub` alone, or at `p` where there is no `pub`.
pub open spec fn vis_end(s: Seq<TokenView>, p: int) -> int {
    if 0 <= p < s.len() && s[p].is_ident("pub"@) {
        if p + 1 < s.len() && s[p + 1].is_group(Delimiter::Parenthesis) {
            p + 2
        } else {
            p + 1
        }
    } else {
        p
    }
}

/// The position after the first `,` at or after `p` in `s`; the end of `s`
/// where there is none.
pub open spec fn after_comma(s: Seq<TokenView>, p: int) -> int
    decreases s.len() - p,
{
    if 0 <= p < s.len() {
        if s[p].is_punct(',') {
            p + 1
        } else {
            after_comma(s, p + 1)
        }
    } else {
        p
    }
}

/// Where a variant ends whose name or fields end at `p` in `s`: at `p` at the
/// end of the list, after a `,`, or after `=`, the discriminant and its `,`.
/// `None` where something else stands at `p`.
pub open spec fn variant_end(s: Seq<TokenView>, p: int) -> Option<int> {
    if !(0 <= p < s.len()) {
        Some(p)
    } else if s[p].is_punct(',') {
        Some(p + 1)
    } else if s[p].is_punct('=') {
        Some(after_comma(s, p + 1))
    } else {
        None
    }
}

/// `after_comma` does not go back, and not past the end.
pub proof fn lemma_after_comma_bounds(s: Seq<TokenView>, p: int)
    requires
        0 <= p <= s.len(),
    ensures
        p <= after_comma(s, p) <= s.len(),
    decreases s.len() - p,
{
    if p < s.len() && !s[p].is_punct(',') {
        lemma_after_comma_bounds(s, p + 1);
    }
}

/// The attributes end at or after the place where they start, and not past
/// the end.
pub proof fn lemma_attributes_bounds(s: Seq<TokenView>, p: int, skip: Option<Span>)
    requires
        0 <= p <= s.len(),
    ensures
        attributes(s, p, skip) matches Ok(a) ==> p <= a.end <= s.len(),
    decreases s.len() - p,
{
    if p < s.len() && s[p].is_punct('#') && p + 1 < s.len() && s[p + 1] is Group {
        let found = skip_attribute(s[p + 1]->stream).attribute.skip();
        lemma_attributes_bounds(s, p + 2, if skip is Some { skip } else { found });
    }
}

/// Streams the next token from `source` into `sink`, whatever it is; nothing
/// at the end of `source`.
pub fn stream_token(source: &mut Cursor, sink: &mut Vec<Token>)
    ensures
        final(source).stream() == old(source).stream(),
        0 <= old(source).position() <= old(source).stream().len(),
        if old(source).position() < old(source).stream().len() {
            &&& final(source).position() == old(source).position() + 1
            &&& final(sink).deep_view() == old(sink).deep_view().push(
                old(source).stream()[old(source).position()],
            )
        } else {
            &&& final(source).position() == old(source).position()
            &&& final(sink).deep_view() == old(sink).deep_view()
        },
{
    if let Some(token) = source.next() {
        copy_token(sink, token);
    }
}

/// Streams the identifier from `source` into `sink`, returning its span, if
/// there is a token left. The token is taken for the identifier whatever it
/// is.
pub fn stream_ident(source: &mut Cursor, sink: &mut Vec<Token>) -> (span: Option<Span>)
    ensures
        final(source).stream() == old(source).stream(),
        0 <= old(source).position() <= old(source).stream().len(),
        match span {
            Some(span) => {
                &&& old(source).position() < old(source).stream().len()
                &&& span == old(source).stream()[old(source).position()].span()
                &&& final(source).position() == old(source).position() + 1
                &&& final(sink).deep_view() == old(sink).deep_view().push(
                    old(source).stream()[old(source).position()],
                )
            },
            None => {
                &&& old(source).position() == old(source).stream().len()
                &&& final(source).position() == old(source).position()
                &&& final(sink).deep_view() == old(sink).deep_view()
            },
        },
{
    match source.next() {
        Some(ident) => {
            let span = ident.span();
            copy_token(sink, ident);
            Some(span)
        },
        None => None,
    }
}

/// Streams the visibility, `pub` or `pub(...)`, from `source` into `sink`, if
/// it is there.
pub fn stream_vis(source: &mut Cursor, sink: &mut Vec<Token>)
    ensures
        final(source).stream() == old(source).stream(),
        0 <= old(source).position() <= final(source).position() <= old(source).stream().len(),
        final(source).position() == vis_end(old(source).stream(), old(source).position()),
        final(sink).deep_view() == old(sink).deep_view() + old(source).stream().subrange(
            old(source).position(),
            final(source).position(),
        ),
{
    let ghost s = source.stream();
    let ghost p = source.position();
    let is_pub = match source.peek() {
        Some(vis) => vis.is_ident("pub"),
        None => false,
    };
    if is_pub {
        stream_token(source, sink);
        let is_restricted = match source.peek() {
            Some(group) => group.is_group(Delimiter::Parenthesis),
            None => false,
        };
        if is_restricted {
            stream_token(source, sink);
            proof {
                assert(sink.deep_view() =~= old(sink).deep_view() + s.subrange(p, p + 2));
            }
        } else {
            proof {
                assert(sink.deep_view() =~= old(sink).deep_view() + s.subrange(p, p + 1));
            }
        }
    } else {
        proof {
            assert(sink.deep_view() =~= old(sink).deep_view() + s.subrange(p, p));
        }
    }
}

/// Streams the tokens of `source` into `sink` up to the first `,`, which goes
/// with them, or to the end.
pub fn stream_through_comma(source: &mut Cursor, sink: &mut Vec<Token>)
    ensures
        final(source).stream() == old(source).stream(),
        0 <= old(source).position() <= final(source).position() <= old(source).stream().len(),
        final(source).position() == after_comma(old(source).stream(), old(source).position()),
        final(sink).deep_view() == old(sink).deep_view() + old(source).stream().subrange(
            old(source).position(),
            final(source).position(),
        ),
{
    let ghost s = source.stream();
    let ghost p = source.position();
    proof {
        use_type_invariant(&*source);
        source.lemma_in_bounds();
        assert(sink.deep_view() =~= old(sink).deep_view() + s.subrange(p, p));
    }
    loop
        invariant_except_break
            after_comma(s, source.position()) == after_comma(s, p),
        invariant
            source.stream() == s,
            0 <= p <= source.position() <= s.len(),
            sink.deep_view() == old(sink).deep_view() + s.subrange(p, source.position()),
        ensures
            source.stream() == s,
            0 <= p <= source.position() <= s.len(),
            source.position() == after_comma(s, p),
            sink.deep_view() == old(sink).deep_view() + s.subrange(p, source.position()),
        decreases s.len() - source.position(),
    {
        let ghost q = source.position();
        match source.next() {
            Some(token) => {
                copy_token(sink, token);
                proof {
                    assert(sink.deep_view() =~= old(sink).deep_view() + s.subrange(p, q + 1));
                }
                if token.is_punct(',') {
                    break;
                }
            },
            None => {
                break;
            },
        }
    }
}

/// Whether a variant can end at the place where `source` stands: at the end
/// of the list, at a `,`, or at the `=` of a discriminant.
pub fn is_variant_end(source: &Cursor) -> (yes: bool)
    ensures
        yes == (variant_end(source.stream(), source.position()) is Some),
{
    match source.peek() {
        Some(token) => token.is_punct(',') || token.is_punct('='),
        None => true,
    }
}

/// Streams the discriminant of an `enum` variant, if it has one, and the
/// comma at its end from `source` into `sink`.
///
/// ```text
/// enum Example {
///     Three,
///          ^
///     Two(u32) = 2,
///             ^^^^^
///     Four { hello: u32 } = 4,
///                        ^^^^^
/// }
/// ```
///
/// A variant can only go on with `,` or `=`: anything else at the place where
/// `source` stands is for the caller to turn away, see [`is_variant_end`].
pub fn stream_enum_variant_discriminant_and_comma(source: &mut Cursor, sink: &mut Vec<Token>)
    requires
        variant_end(old(source).stream(), old(source).position()) is Some,
    ensures
        final(source).stream() == old(source).stream(),
        variant_end(old(source).stream(), old(source).position()) == Some(
            final(source).position(),
        ),
        0 <= old(source).position() <= final(source).position() <= old(source).stream().len(),
        final(sink).deep_view() == old(sink).deep_view() + old(source).stream().subrange(
            old(source).position(),
            final(source).position(),
        ),
{
    let ghost s = source.stream();
    let ghost p = source.position();
    match source.peek() {
        // No discriminant, and this is the last variant.
        None => {
            proof {
                assert(sink.deep_view() =~= old(sink).deep_view() + s.subrange(p, p));
            }
        },
        Some(token) => {
            let has_discriminant = !token.is_punct(',');
            stream_token(source, sink);
            if has_discriminant {
                stream_through_comma(source, sink);
            }
            proof {
                assert(sink.deep_view() =~= old(sink).deep_view() + s.subrange(
                    p,
                    source.position(),
                ));
            }
        },
    }
}

/// Streams the attributes from `source` into `sink`, but for those that are
/// `auto_default`: these are read, and what is wrong with them goes to
/// `errors`. Says whether `#[auto_default(skip)]` was among them.
///
/// ```text
/// #[attr] #[attr] pub field: Type
/// #[attr] #[attr] struct Foo
/// #[attr] #[attr] enum Foo
/// ```
pub fn stream_attrs(
    source: &mut Cursor,
    sink: &mut Vec<Token>,
    errors: &mut Vec<CompileError>,
    is_skip_allowed: IsSkipAllowed,
) -> (found: Result<IsSkip, SyntaxError>)
    ensures
        final(source).stream() == old(source).stream(),
        0 <= old(source).position() <= old(source).stream().len(),
        match found {
            Ok(is_skip) => {
                &&& placed_attributes(
                    old(source).stream(),
                    old(source).position(),
                    is_skip_allowed.0,
                ) matches Ok(a)
                &&& is_skip.0 == (a.skip is Some)
                &&& final(source).position() == a.end
                &&& old(source).position() <= a.end <= old(source).stream().len()
                &&& final(sink).deep_view() == old(sink).deep_view() + a.kept
                &&& final(errors).deep_view() == old(errors).deep_view() + a.errors
            },
            Err(e) => {
                &&& placed_attributes(
                    old(source).stream(),
                    old(source).position(),
                    is_skip_allowed.0,
                ) == Err::<Attributes, SyntaxError>(e)
                &&& old(source).position() <= final(source).position() <= old(
                    source,
                ).stream().len()
                &&& old(sink).deep_view().is_prefix_of(final(sink).deep_view())
                &&& old(errors).deep_view().is_prefix_of(final(errors).deep_view())
            },
        },
{
    let ghost s = source.stream();
    let ghost p = source.position();
    let ghost mut kept: Seq<TokenView> = Seq::empty();
    let ghost mut reported: Seq<CompileErrorView> = Seq::empty();
    let mut is_skip: Option<Span> = None;
    proof {
        use_type_invariant(&*source);
        source.lemma_in_bounds();
        assert(sink.deep_view() =~= old(sink).deep_view() + kept);
        assert(errors.deep_view() =~= old(errors).deep_view() + reported);
        lemma_attributes_after_nothing(attributes(s, p, None));
    }
    loop
        invariant
            s == old(source).stream(),
            p == old(source).position(),
            source.stream() == s,
            0 <= p <= source.position() <= s.len(),
            attributes(s, p, None) == attributes_after(
                kept,
                reported,
                attributes(s, source.position(), is_skip),
            ),
            sink.deep_view() == old(sink).deep_view() + kept,
            errors.deep_view() == old(errors).deep_view() + reported,
        ensures
            source.stream() == s,
            0 <= p <= source.position() <= s.len(),
            attributes(s, p, None) == Ok::<Attributes, SyntaxError>(
                Attributes { kept, skip: is_skip, errors: reported, end: source.position() },
            ),
            sink.deep_view() == old(sink).deep_view() + kept,
            errors.deep_view() == old(errors).deep_view() + reported,
        decreases s.len() - source.position(),
    {
        let ghost q = source.position();
        let is_pound = match source.peek() {
            Some(pound) => pound.is_punct('#'),
            None => false,
        };
        if !is_pound {
            proof {
                assert(kept + Seq::<TokenView>::empty() =~= kept);
                assert(reported + Seq::<CompileErrorView>::empty() =~= reported);
            }
            break;
        }

        // #[some_attr]
        // ^^^^^^^^^^^^
        let pound = source.next();
        let group = source.next();
        let (pound, group, attr) = match (pound, group) {
            (Some(pound), Some(group)) => match group.group_stream() {
                Some(attr) => (pound, group, attr),
                None => {
                    return Err(SyntaxError::AttributeWithoutGroup);
                },
            },
            _ => {
                return Err(SyntaxError::AttributeWithoutGroup);
            },
        };
        let ghost outcome = skip_attribute(attr.deep_view());
        let ghost before = errors.deep_view();
        let ghost found = outcome.attribute.skip();
        let ghost next = if is_skip is Some {
            is_skip
        } else {
            found
        };
        let ghost duplicate = if found is Some && is_skip is Some {
            seq![duplicate_skip(found->0)]
        } else {
            Seq::empty()
        };
        let ghost here = if outcome.attribute is Absent {
            seq![s[q], s[q + 1]]
        } else {
            Seq::empty()
        };
        match is_skip_attribute(attr, errors) {
            SkipAttribute::Skip(skip_span) => {
                if is_skip.is_some() {
                    // Two marks on a single field are one too many.
                    push_error(
                        errors,
                        CompileError::new(skip_span, "duplicate `#[auto_default(skip)]`"),
                    );
                } else {
                    is_skip = Some(skip_span);
                }
            },
            // Already reported. The attribute does not reach the output.
            SkipAttribute::Malformed => {},
            SkipAttribute::Absent => {
                copy_token(sink, pound);
                copy_token(sink, group);
            },
        }
        proof {
            assert(errors.deep_view() =~= before + (outcome.errors + duplicate));
            assert(sink.deep_view() =~= old(sink).deep_view() + (kept + here));
            assert(errors.deep_view() =~= old(errors).deep_view() + (reported + (outcome.errors
                + duplicate)));
            lemma_attributes_after_twice(
                kept,
                reported,
                here,
                outcome.errors + duplicate,
                attributes(s, q + 2, next),
            );
            kept = kept + here;
            reported = reported + (outcome.errors + duplicate);
        }
    }
    if !is_skip_allowed.0 {
        if let Some(skip_span) = is_skip {
            push_error(
                errors,
                CompileError::new(skip_span, "`#[auto_default(skip)]` is not allowed on container"),
            );
            proof {
                assert(errors.deep_view() =~= old(errors).deep_view() + reported.push(
                    skip_on_container(skip_span),
                ));
            }
        }
    }
    Ok(IsSkip(is_skip.is_some()))
}

/// Putting nothing before a list leaves it as it is.
pub proof fn lemma_streamed_after_nothing(rest: Result<Streamed, SyntaxError>)
    ensures
        streamed_after(Seq::empty(), Seq::empty(), rest) == rest,
{
    match rest {
        Ok(r) => {
            assert(Seq::<TokenView>::empty() + r.tokens =~= r.tokens);
            assert(Seq::<CompileErrorView>::empty() + r.errors =~= r.errors);
        },
        Err(_) => {},
    }
}

/// Putting one piece and then another before a list is putting both before
/// it at once.
pub proof fn lemma_streamed_after_twice(
    tokens: Seq<TokenView>,
    errors: Seq<CompileErrorView>,
    more_tokens: Seq<TokenView>,
    more_errors: Seq<CompileErrorView>,
    rest: Result<Streamed, SyntaxError>,
)
    ensures
        streamed_after(tokens, errors, streamed_after(more_tokens, more_errors, rest))
            == streamed_after(tokens + more_tokens, errors + more_errors, rest),
{
    match rest {
        Ok(r) => {
            assert(tokens + (more_tokens + r.tokens) =~= (tokens + more_tokens) + r.tokens);
            assert(errors + (more_errors + r.errors) =~= (errors + more_errors) + r.errors);
        },
        Err(_) => {},
    }
}

/// Putting nothing before a run of attributes leaves it as it is.
pub proof fn lemma_attributes_after_nothing(rest: Result<Attributes, SyntaxError>)
    ensures
        attributes_after(Seq::empty(), Seq::empty(), rest) == rest,
{
    match rest {
        Ok(r) => {
            assert(Seq::<TokenView>::empty() + r.kept =~= r.kept);
            assert(Seq::<CompileErrorView>::empty() + r.errors =~= r.errors);
        },
        Err(_) => {},
    }
}

/// Putting one piece and then another before a run of attributes is putting
/// both before it at once.
pub proof fn lemma_attributes_after_twice(
    kept: Seq<TokenView>,
    errors: Seq<CompileErrorView>,
    more_kept: Seq<TokenView>,
    more_errors: Seq<CompileErrorView>,
    rest: Result<Attributes, SyntaxError>,
)
    ensures
        attributes_after(kept, errors, attributes_after(more_kept, more_errors, rest))
            == attributes_after(kept + more_kept, errors + more_errors, rest),
{
    match rest {
        Ok(r) => {
            assert(kept + (more_kept + r.kept) =~= (kept + more_kept) + r.kept);
            assert(errors + (more_errors + r.errors) =~= (errors + more_errors) + r.errors);
        },
        Err(_) => {},
    }
}

} // verus!
