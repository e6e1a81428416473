//! Adds a default field value of `Default::default()` to the fields of a
//! declaration that do not have one.
//!
//! The declaration, a `struct` with named fields or an `enum`, comes as a
//! sequence of [`Token`]s and leaves as one. Turns this:
//!
//! ```text
//! struct User {
//!     age: u8,
//!     is_admin: bool = false
//! }
//! ```
//!
//! Into this:
//!
//! ```text
//! struct User {
//!     age: u8 = ::core::default::Default::default(),
//!     is_admin: bool = false
//! }
//! ```
//!
//! A field marked `#[auto_default(skip)]` is left without a default value,
//! and so is every field of an `enum` variant that is marked so. The mark
//! itself does not reach the output.
//!
//! What is wrong with the input is reported in the output, as invocations of
//! `compile_error!` after the declaration; [`item::rewrite`] hands the same
//! reports out as values.
//!
//! What holds of every rewrite is proved in four modules: [`laws`] of a
//! single field, variant or declaration; [`lists`] of whole lists and runs of
//! attributes; [`places`] of what a place in a list depends on; [`model`]
//! of lists that are put together from fields and variants given by their
//! parts.

use crate::error::{error_tokens, stream_errors, SyntaxError};
use crate::item::{rewrite, rewritten};
use crate::token::{Token, TokenStream, TokenView};
use vstd::prelude::*;

pub mod cursor;
pub mod error;
pub mod fields;
pub mod item;
pub mod laws;
pub mod lists;
pub mod model;
pub mod places;
pub mod skip;
pub mod stream;
pub mod token;
pub mod variants;

verus! {

/// The output for the declaration `item` and the arguments `args`: the
/// rewritten declaration, then the tokens of each diagnostic.
pub open spec fn expansion(args: Seq<TokenView>, item: Seq<TokenView>) -> Result<
    Seq<TokenView>,
    SyntaxError,
> {
    match rewritten(args, item) {
        Ok(r) => Ok(r.tokens + error_tokens(r.errors)),
        Err(e) => Err(e),
    }
}

/// Adds a default field value of `Default::default()` to fields that don't
/// have one.
///
/// `input` is the declaration and `args` the arguments of the invocation,
/// of which there should be none. The output is the rewritten declaration,
/// followed by an invocation of `compile_error!` for each thing that is
/// wrong with the input. Where `input` is no `struct` or `enum` with a body in
/// braces, the output holds those invocations only.
///
/// # Do not add `= Default::default()` field value to select fields
///
/// A field that shall get no default value can opt out with
/// `#[auto_default(skip)]`:
///
/// ```text
/// struct User {
///     #[auto_default(skip)]
///     age: u8,
///     is_admin: bool
/// }
/// ```
///
/// The above is transformed into this:
///
/// ```text
/// struct User {
///     age: u8,
///     is_admin: bool = ::core::default::Default::default()
/// }
/// ```
pub fn auto_default(args: TokenStream, input: TokenStream) -> (output: Result<
    TokenStream,
    SyntaxError,
>)
    ensures
        match output {
            Ok(tokens) => expansion(args.deep_view(), input.deep_view()) == Ok::<
                Seq<TokenView>,
                SyntaxError,
            >(tokens.deep_view()),
            Err(e) => expansion(args.deep_view(), input.deep_view()) == Err::<
                Seq<TokenView>,
                SyntaxError,
            >(e),
        },
{
    let output = rewrite(&args, &input)?;
    let mut sink: Vec<Token> = output.tokens;
    stream_errors(&output.errors, &mut sink);
    Ok(sink)
}

} // verus!
