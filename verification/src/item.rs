//! A whole declaration: attributes, visibility, `struct` or `enum`, the name,
//! generics and the like, and the body in braces.
//!
//! Everything before the body is copied, but for `auto_default` attributes,
//! which may not stand on the declaration. The body is rewritten. What comes
//! after the body is not read.

use crate::cursor::Cursor;
use crate::error::{push_error, CompileError, CompileErrorView, SyntaxError};
use crate::fields::{add_default_field_values, fields};
use crate::stream::{
    lemma_attributes_bounds, placed_attributes, stream_attrs, stream_ident, stream_token,
    stream_vis, vis_end, IsSkip, IsSkipAllowed, Streamed,
};
use crate::token::{push_token, Delimiter, Span, Token, TokenView};
use crate::variants::{add_default_variant_values, variants};
use vstd::prelude::*;

verus! {

/// The kind of declaration, by its keyword.
#[derive(Clone, Copy, Debug, PartialEq, Eq, Structural)]
pub enum ItemKind {
    Struct,
    Enum,
}

/// A rewritten declaration and what is reported beside it.
#[derive(Debug, PartialEq, Eq)]
pub struct Rewritten {
    /// The tokens of the declaration; none where it could not be rewritten.
    pub tokens: Vec<Token>,
    /// The diagnostics, in the order in which they were found.
    pub errors: Vec<CompileError>,
}

impl DeepView for Rewritten {
    type V = Streamed;

    open spec fn deep_view(&self) -> Streamed {
        Streamed { tokens: self.tokens.deep_view(), errors: self.errors.deep_view() }
    }
}

/// The report of arguments to the rewriter, which takes none.
pub open spec fn no_arguments_expected(span: Span) -> CompileErrorView {
    CompileErrorView { span, message: "no arguments expected"@ }
}

/// The report of something that is neither a `struct` nor an `enum`.
pub open spec fn expected_struct_or_enum(span: Span) -> CompileErrorView {
    CompileErrorView { span, message: "expected a `struct` or an `enum`"@ }
}

/// The report of a declaration without a body in braces.
pub open spec fn expected_named_fields(span: Span) -> CompileErrorView {
    CompileErrorView { span, message: "expected struct with named fields"@ }
}

/// What is reported about the arguments `args`: that there are any, at the
/// span of the first.
pub open spec fn usage(args: Seq<TokenView>) -> Seq<CompileErrorView> {
    if args.len() > 0 {
        seq![no_arguments_expected(args[0].span())]
    } else {
        Seq::empty()
    }
}

/// The kind of declaration whose keyword stands at `p` in `s`; `None` where
/// `p` holds neither `struct` nor `enum`.
pub open spec fn item_kind(s: Seq<TokenView>, p: int) -> Option<ItemKind> {
    if 0 <= p < s.len() && s[p].is_ident("struct"@) {
        Some(ItemKind::Struct)
    } else if 0 <= p < s.len() && s[p].is_ident("enum"@) {
        Some(ItemKind::Enum)
    } else {
        None
    }
}

/// The position of the first group in braces at or after `p` in `s`; the
/// end of `s` where there is none.
pub open spec fn body_start(s: Seq<TokenView>, p: int) -> int
    decreases s.len() - p,
{
    if 0 <= p < s.len() && !s[p].is_group(Delimiter::Brace) {
        body_start(s, p + 1)
    } else {
        p
    }
}

/// Where the rewriter gives up on `item` with a report: the span of the
/// token at `p`, or the call site where `item` ends before `p`.
pub open spec fn span_at(item: Seq<TokenView>, p: int) -> Span {
    if 0 <= p < item.len() {
        item[p].span()
    } else {
        Span::CallSite
    }
}

/// The body of a declaration of the kind `kind`, rewritten, where `inside`
/// is the stream within its braces.
pub open spec fn body(kind: ItemKind, inside: Seq<TokenView>) -> Result<Streamed, SyntaxError> {
    match kind {
        ItemKind::Struct => fields(inside, 0, false),
        ItemKind::Enum => variants(inside, 0),
    }
}

/// The declaration `item`, rewritten, for an invocation with the arguments
/// `args`.
///
/// Arguments are reported, and so is an `auto_default(skip)` among the
/// attributes of the declaration. Then:
/// - where no `struct` or `enum` follows the attributes and the visibility,
///   or no body in braces follows the name, that is reported and there are no
///   tokens;
/// - where nothing follows the keyword, the declaration cannot be read;
/// - else the tokens are those of `item` up to the body, without the
///   `auto_default` attributes, and the rewritten body.
pub open spec fn rewritten(args: Seq<TokenView>, item: Seq<TokenView>) -> Result<
    Streamed,
    SyntaxError,
> {
    match placed_attributes(item, 0, false) {
        Ok(attrs) => {
            let keyword = vis_end(item, attrs.end);
            let name = keyword + 1;
            let start = body_start(item, name + 1);
            let reported = usage(args) + attrs.errors;
            match item_kind(item, keyword) {
                None => Ok(
                    Streamed {
                        tokens: Seq::empty(),
                        errors: reported.push(expected_struct_or_enum(span_at(item, keyword))),
                    },
                ),
                Some(kind) => if name >= item.len() {
                    Err(SyntaxError::MissingName)
                } else if start >= item.len() {
                    Ok(
                        Streamed {
                            tokens: Seq::empty(),
                            errors: reported.push(expected_named_fields(item[name].span())),
                        },
                    )
                } else {
                    match body(kind, item[start]->stream) {
                        Ok(inside) => Ok(
                            Streamed {
                                tokens: attrs.kept + item.subrange(attrs.end, start).push(
                                    TokenView::Group {
                                        delimiter: Delimiter::Brace,
                                        stream: inside.tokens,
                                        span: item[start].span(),
                                    },
                                ),
                                errors: reported + inside.errors,
                            },
                        ),
                        Err(e) => Err(e),
                    }
                },
            }
        },
        Err(e) => Err(e),
    }
}

/// The body does not start before the place where the search starts, and
/// not past the end.
pub proof fn lemma_body_start_bounds(s: Seq<TokenView>, p: int)
    requires
        0 <= p <= s.len(),
    ensures
        p <= body_start(s, p) <= s.len(),
        body_start(s, p) < s.len() ==> s[body_start(s, p)].is_group(Delimiter::Brace),
    decreases s.len() - p,
{
    if p < s.len() && !s[p].is_group(Delimiter::Brace) {
        lemma_body_start_bounds(s, p + 1);
    }
}

/// Streams the tokens of `source` into `sink` up to the first group in
/// braces, which stays unread, or to the end: the generics of a declaration
/// and what else stands between its name and its body.
///
/// ```text
/// struct Foo<Bar, Baz: Trait> where Baz: Quux { ... }
///           ^^^^^^^^^^^^^^^^^^^^^^^^^^^^^^^^^
/// ```
pub fn stream_generics(source: &mut Cursor, sink: &mut Vec<Token>)
    ensures
        final(source).stream() == old(source).stream(),
        0 <= old(source).position() <= final(source).position() <= old(source).stream().len(),
        final(source).position() == body_start(old(source).stream(), old(source).position()),
        final(sink).deep_view() == old(sink).deep_view() + old(source).stream().subrange(
            old(source).position(),
            final(source).position(),
        ),
{
    let ghost s = source.stream();
    let ghost p = source.position();
    proof {
        use_type_invariant(&*source);
        source.lemma_in_bounds();
        assert(sink.deep_view() =~= old(sink).deep_view() + s.subrange(p, p));
    }
    loop
        invariant_except_break
            body_start(s, source.position()) == body_start(s, p),
        invariant
            source.stream() == s,
            0 <= p <= source.position() <= s.len(),
            sink.deep_view() == old(sink).deep_view() + s.subrange(p, source.position()),
        ensures
            source.position() == body_start(s, p),
        decreases s.len() - source.position(),
    {
        let ghost q = source.position();
        let in_generics = match source.peek() {
            Some(token) => !token.is_group(Delimiter::Brace),
            None => false,
        };
        if !in_generics {
            break;
        }
        stream_token(source, sink);
        proof {
            assert(sink.deep_view() =~= old(sink).deep_view() + s.subrange(p, q + 1));
        }
    }
}

/// Reads the keyword of a declaration from `source` and streams it into
/// `sink`. Says which kind of declaration it is; `None`, with the span to
/// report it at and nothing streamed, where the next token is neither
/// `struct` nor `enum`.
pub fn stream_keyword(source: &mut Cursor, sink: &mut Vec<Token>) -> (kind: Result<ItemKind, Span>)
    ensures
        final(source).stream() == old(source).stream(),
        0 <= old(source).position() <= old(source).stream().len(),
        match kind {
            Ok(kind) => {
                &&& item_kind(old(source).stream(), old(source).position()) == Some(kind)
                &&& final(source).position() == old(source).position() + 1
                &&& final(sink).deep_view() == old(sink).deep_view().push(
                    old(source).stream()[old(source).position()],
                )
            },
            Err(span) => {
                &&& item_kind(old(source).stream(), old(source).position()) is None
                &&& span == span_at(old(source).stream(), old(source).position())
                &&& final(source).position() == old(source).position()
                &&& final(sink).deep_view() == old(sink).deep_view()
            },
        },
{
    match source.peek() {
        Some(kw) => {
            if kw.is_ident("struct") {
                stream_token(source, sink);
                Ok(ItemKind::Struct)
            } else if kw.is_ident("enum") {
                stream_token(source, sink);
                Ok(ItemKind::Enum)
            } else {
                Err(kw.span())
            }
        },
        None => Err(Span::CallSite),
    }
}

/// Rewrites the declaration `input` for an invocation of the rewriter with
/// the arguments `args`, and keeps the diagnostics apart from its tokens.
pub fn rewrite(args: &Vec<Token>, input: &Vec<Token>) -> (output: Result<Rewritten, SyntaxError>)
    ensures
        match output {
            Ok(r) => rewritten(args.deep_view(), input.deep_view()) == Ok::<Streamed, SyntaxError>(
                r.deep_view(),
            ),
            Err(e) => rewritten(args.deep_view(), input.deep_view()) == Err::<
                Streamed,
                SyntaxError,
            >(e),
        },
{
    let ghost item = input.deep_view();
    let mut compile_errors: Vec<CompileError> = Vec::new();
    proof {
        assert(compile_errors.deep_view() =~= Seq::<CompileErrorView>::empty());
    }
    if args.len() > 0 {
        push_error(&mut compile_errors, CompileError::new(args[0].span(), "no arguments expected"));
    }
    proof {
        assert(compile_errors.deep_view() =~= usage(args.deep_view()));
    }

    // Input supplied by the user. All tokens from here will get sent to `sink`.
    let mut source = Cursor::new(input);

    // We collect all tokens into here and then return this.
    let mut sink: Vec<Token> = Vec::new();
    proof {
        assert(sink.deep_view() =~= Seq::<TokenView>::empty());
        lemma_attributes_bounds(item, 0, None);
    }

    // No skip allowed on the container: it would make no sense.
    stream_attrs(&mut source, &mut sink, &mut compile_errors, IsSkipAllowed(false))?;
    let ghost attrs = placed_attributes(item, 0, false)->Ok_0;
    let ghost reported = usage(args.deep_view()) + attrs.errors;
    proof {
        assert(compile_errors.deep_view() =~= reported);
        assert(sink.deep_view() =~= attrs.kept);
    }
    stream_vis(&mut source, &mut sink);

    // pub(in crate) struct Foo
    //               ^^^^^^
    let item_kind = match stream_keyword(&mut source, &mut sink) {
        Ok(kind) => kind,
        Err(span) => {
            push_error(
                &mut compile_errors,
                CompileError::new(span, "expected a `struct` or an `enum`"),
            );
            return Ok(Rewritten { tokens: Vec::new(), errors: compile_errors });
        },
    };

    // struct Foo
    //        ^^^
    let item_ident_span = match stream_ident(&mut source, &mut sink) {
        Some(span) => span,
        None => {
            return Err(SyntaxError::MissingName);
        },
    };
    stream_generics(&mut source, &mut sink);
    let ghost start = source.position();
    proof {
        lemma_body_start_bounds(item, vis_end(item, attrs.end) + 2);
        assert(sink.deep_view() =~= attrs.kept + item.subrange(attrs.end, start));
    }
    let fields = match source.peek() {
        Some(group) => match group.group_stream() {
            Some(inside) => Some((inside, group.span())),
            None => None,
        },
        None => None,
    };
    let (source_item_fields, fields_span) = match fields {
        Some(fields) => fields,
        None => {
            // `struct Foo;` and `struct Foo(..);` are valid, but have no
            // named fields.
            push_error(
                &mut compile_errors,
                CompileError::new(item_ident_span, "expected struct with named fields"),
            );
            return Ok(Rewritten { tokens: Vec::new(), errors: compile_errors });
        },
    };
    let body = match item_kind {
        ItemKind::Struct => add_default_field_values(
            source_item_fields,
            fields_span,
            &mut compile_errors,
            // none of the fields are considered to be skipped initially
            IsSkip(false),
        )?,
        ItemKind::Enum => add_default_variant_values(
            source_item_fields,
            fields_span,
            &mut compile_errors,
        )?,
    };
    push_token(&mut sink, body);
    Ok(Rewritten { tokens: sink, errors: compile_errors })
}

} // verus!
