//! The opt-out attribute `#[auto_default(skip)]`.
//!
//! An attribute takes part only if its first token is the identifier
//! `auto_default`. It then has to be exactly `auto_default(skip)`: nothing
//! else inside the parentheses, and nothing after them. Any other form is
//! reported, and the attribute is left out of the output like a well-formed
//! one, but marks nothing.

use crate::error::{push_error, CompileError, CompileErrorView};
use crate::token::{Delimiter, Span, Token, TokenView};
use vstd::prelude::*;

verus! {

/// What one attribute says about opting out.
#[derive(Clone, Copy, Debug, PartialEq, Eq, Structural)]
pub enum SkipAttribute {
    /// The attribute is not `auto_default`: it belongs to somebody else.
    Absent,
    /// The attribute is `auto_default(skip)`; the span is that of `skip`.
    Skip(Span),
    /// The attribute is `auto_default` in some other form.
    Malformed,
}

impl SkipAttribute {
    /// The span of `skip`, if the attribute is `auto_default(skip)`.
    pub open spec fn skip(self) -> Option<Span> {
        match self {
            SkipAttribute::Skip(span) => Some(span),
            _ => None,
        }
    }
}

/// What reading one attribute yields: what it says, and what is to be
/// reported about it.
pub struct SkipOutcome {
    pub attribute: SkipAttribute,
    pub errors: Seq<CompileErrorView>,
}

/// An attribute that is reported with `message` at `span`.
pub open spec fn malformed(span: Span, message: Seq<char>) -> SkipOutcome {
    SkipOutcome {
        attribute: SkipAttribute::Malformed,
        errors: seq![CompileErrorView { span, message }],
    }
}

/// Reads the attribute whose brackets hold `attr`.
pub open spec fn skip_attribute(attr: Seq<TokenView>) -> SkipOutcome {
    if attr.len() == 0 || !attr[0].is_ident("auto_default"@) {
        SkipOutcome { attribute: SkipAttribute::Absent, errors: Seq::empty() }
    } else if attr.len() == 1 {
        malformed(attr[0].span(), "expected `(skip)` after this"@)
    } else {
        match attr[1] {
            TokenView::Group { delimiter: Delimiter::Parenthesis, stream: inside, span } => {
                if inside.len() == 0 {
                    malformed(span, "expected `(skip)`, found `()`"@)
                } else if !inside[0].is_ident("skip"@) {
                    malformed(inside[0].span(), "expected `skip`"@)
                } else if inside.len() > 1 {
                    malformed(inside[1].span(), "unexpected token"@)
                } else if attr.len() > 2 {
                    malformed(attr[2].span(), "unexpected token"@)
                } else {
                    SkipOutcome {
                        attribute: SkipAttribute::Skip(inside[0].span()),
                        errors: Seq::empty(),
                    }
                }
            },
            other => malformed(other.span(), "expected `(skip)`"@),
        }
    }
}

/// Appends the report of a malformed attribute to `errors`.
fn report(errors: &mut Vec<CompileError>, span: Span, message: &str) -> (attribute: SkipAttribute)
    ensures
        attribute == SkipAttribute::Malformed,
        final(errors).deep_view() == old(errors).deep_view() + malformed(span, message@).errors,
{
    push_error(errors, CompileError::new(span, message));
    proof {
        assert(errors.deep_view() =~= old(errors).deep_view() + malformed(span, message@).errors);
    }
    SkipAttribute::Malformed
}

/// Reads the attribute whose brackets hold `attr`: says whether it is
/// `auto_default(skip)`, and reports to `errors` an `auto_default` of any
/// other form.
pub fn is_skip_attribute(attr: &Vec<Token>, errors: &mut Vec<CompileError>) -> (attribute:
    SkipAttribute)
    ensures
        attribute == skip_attribute(attr.deep_view()).attribute,
        final(errors).deep_view() == old(errors).deep_view() + skip_attribute(
            attr.deep_view(),
        ).errors,
{
    proof {
        assert(errors.deep_view() =~= errors.deep_view() + Seq::<CompileErrorView>::empty());
    }
    if attr.len() == 0 || !attr[0].is_ident("auto_default") {
        return SkipAttribute::Absent;
    }
    if attr.len() == 1 {
        return report(errors, attr[0].span(), "expected `(skip)` after this");
    }
    let group = &attr[1];
    match group.group_stream() {
        Some(inside) if group.is_group(Delimiter::Parenthesis) => {
            if inside.len() == 0 {
                report(errors, group.span(), "expected `(skip)`, found `()`")
            } else if !inside[0].is_ident("skip") {
                report(errors, inside[0].span(), "expected `skip`")
            } else if inside.len() > 1 {
                report(errors, inside[1].span(), "unexpected token")
            } else if attr.len() > 2 {
                report(errors, attr[2].span(), "unexpected token")
            } else {
                SkipAttribute::Skip(inside[0].span())
            }
        },
        _ => report(errors, group.span(), "expected `(skip)`"),
    }
}

} // verus!
