//! What is read at a place depends only on what stands there: not on what
//! stands before it, and not on what follows the comma that ends it. So
//! lists are rewritten one after the other.

use crate::error::SyntaxError;
use crate::fields::{
    after_colon, field, fields, lemma_field_bounds, lemma_type_end_bounds, type_end, Field,
};
use crate::lists::{
    after_unnamed_fields, fields_without_defaults, lemma_plain_attributes_end_bounds,
    number_of_fields, plain_attributes_end, unit_and_positional_variants, with_defaults,
};
use crate::skip::skip_attribute;
use crate::stream::{
    after_comma, attributes, lemma_after_comma_bounds, lemma_streamed_after_nothing,
    lemma_streamed_after_twice, streamed_after, variant_end, vis_end, Attributes,
};
use crate::token::{Span, TokenView};
use crate::variants::lemma_variant_end_bounds;
use vstd::prelude::*;

verus! {

/// Where no `=` and no `,` stands from `p` up to `end` in `s`, and one does
/// at `end` or `s` ends there, the type that starts at `p` ends at `end`.
pub proof fn lemma_type_end_of_a_run(s: Seq<TokenView>, p: int, end: int)
    requires
        0 <= p <= end <= s.len(),
        forall|j: int| p <= j < end ==> !s[j].is_punct('=') && !s[j].is_punct(','),
        end < s.len() ==> s[end].is_punct('=') || s[end].is_punct(','),
    ensures
        type_end(s, p) == end,
    decreases end - p,
{
    if p < end {
        lemma_type_end_of_a_run(s, p + 1, end);
    }
}

/// What is read from a place on does not depend on what stands before it:
/// the end of a type, the comma, and a list of fields without default values
/// are the same in `s` from `k + p` on as in the rest of `s` after `k`, from
/// `p` on.
#[verifier::rlimit(50)]
pub proof fn lemma_list_does_not_look_back(s: Seq<TokenView>, k: int, p: int)
    requires
        0 <= k <= s.len(),
        0 <= p <= s.len() - k,
    ensures
        ({
            let t = s.subrange(k, s.len() as int);
            &&& type_end(s, k + p) == k + type_end(t, p)
            &&& after_comma(s, k + p) == k + after_comma(t, p)
            &&& vis_end(s, k + p) == k + vis_end(t, p)
            &&& fields_without_defaults(s, k + p) == fields_without_defaults(t, p)
            &&& with_defaults(s, k + p) == with_defaults(t, p)
            &&& number_of_fields(s, k + p) == number_of_fields(t, p)
        }),
    decreases s.len() - k - p,
{
    let t = s.subrange(k, s.len() as int);
    if p < t.len() {
        assert(t[p] == s[k + p]);
        lemma_list_does_not_look_back(s, k, p + 1);
        if p + 1 < t.len() {
            assert(t[p + 1] == s[k + p + 1]);
        }
        let name = vis_end(t, p);
        if name + 1 < t.len() {
            assert(t[name] == s[k + name]);
            assert(t[name + 1] == s[k + name + 1]);
            lemma_list_does_not_look_back(s, k, name + 2);
            let value = type_end(t, name + 2);
            lemma_type_end_bounds(t, name + 2);
            lemma_list_does_not_look_back(s, k, value);
            let end = after_comma(t, value);
            lemma_after_comma_bounds(t, value);
            if value < t.len() {
                assert(t[value] == s[k + value]);
            }
            if fields_without_defaults(t, p) || fields_without_defaults(s, k + p) {
                lemma_list_does_not_look_back(s, k, end);
                assert(t.subrange(p, value) =~= s.subrange(k + p, k + value));
                assert(t.subrange(value, end) =~= s.subrange(k + value, k + end));
            }
        }
    }
}

/// Where no `,` stands from `p` up to `end` in `s`, the first comma from `p`
/// on is the one at `end`, and where `s` ends at `end` there is none.
pub proof fn lemma_after_comma_of_a_run(s: Seq<TokenView>, p: int, end: int)
    requires
        0 <= p <= end <= s.len(),
        forall|j: int| p <= j < end ==> !s[j].is_punct(','),
        end < s.len() ==> s[end].is_punct(','),
    ensures
        after_comma(s, p) == if end < s.len() {
            end + 1
        } else {
            end
        },
    decreases end - p,
{
    if p < end {
        lemma_after_comma_of_a_run(s, p + 1, end);
    }
}

/// What is read from a place on does not depend on what stands before it:
/// a list of unit variants and variants with unnamed fields is one in `s`
/// from `k + p` on exactly if it is one in the rest of `s` after `k`, from
/// `p` on.
#[verifier::rlimit(50)]
pub proof fn lemma_variants_do_not_look_back(s: Seq<TokenView>, k: int, p: int)
    requires
        0 <= k <= s.len(),
        0 <= p <= s.len() - k,
    ensures
        ({
            let t = s.subrange(k, s.len() as int);
            &&& plain_attributes_end(s, k + p) == match plain_attributes_end(t, p) {
                Some(end) => Some(k + end),
                None => None,
            }
            &&& p <= after_comma(t, p) <= t.len()
            &&& unit_and_positional_variants(s, k + p) == unit_and_positional_variants(t, p)
        }),
    decreases s.len() - k - p,
{
    let t = s.subrange(k, s.len() as int);
    lemma_after_comma_bounds(t, p);
    if p < t.len() {
        assert(t[p] == s[k + p]);
        if p + 1 < t.len() {
            assert(t[p + 1] == s[k + p + 1]);
        }
        if p + 2 <= t.len() {
            lemma_variants_do_not_look_back(s, k, p + 2);
        }
        if let Some(attrs_end) = plain_attributes_end(t, p) {
            lemma_plain_attributes_end_bounds(t, p);
            lemma_list_does_not_look_back(s, k, attrs_end);
            let name = vis_end(t, attrs_end);
            if p <= name < t.len() {
                assert(t[name] == s[k + name]);
                if name + 1 < t.len() {
                    assert(t[name + 1] == s[k + name + 1]);
                }
                let after = after_unnamed_fields(t, name);
                assert(after_unnamed_fields(s, k + name) == k + after);
                if after < t.len() {
                    assert(t[after] == s[k + after]);
                    lemma_list_does_not_look_back(s, k, after + 1);
                }
                if let Some(end) = variant_end(t, after) {
                    lemma_variant_end_bounds(t, after);
                    assert(variant_end(s, k + after) == Some(k + end));
                    lemma_variants_do_not_look_back(s, k, end);
                }
            }
        }
    }
}

/// From `p` on, `s` is a list of fields of which each, the last too, ends
/// with its comma.
pub open spec fn is_closed_list(s: Seq<TokenView>, p: int) -> bool
    decreases s.len() - p,
{
    if 0 <= p < s.len() {
        match field(s, p) {
            Ok(f) => {
                if f.is_present(s) && f.value < f.end && s[f.end - 1].is_punct(',') {
                    proof {
                        lemma_field_bounds(s, p);
                    }
                    is_closed_list(s, f.end)
                } else {
                    false
                }
            },
            Err(_) => false,
        }
    } else {
        p == s.len()
    }
}

/// Attributes that end before the end of `a` are read in `a + b` as they
/// are in `a`.
pub proof fn lemma_attributes_do_not_look_ahead(
    a: Seq<TokenView>,
    b: Seq<TokenView>,
    p: int,
    skip: Option<Span>,
)
    requires
        0 <= p <= a.len(),
        attributes(a, p, skip) matches Ok(x) && x.end < a.len(),
    ensures
        attributes(a + b, p, skip) == attributes(a, p, skip),
    decreases a.len() - p,
{
    let s = a + b;
    assert(s[p] == a[p]);
    if a[p].is_punct('#') {
        assert(s[p + 1] == a[p + 1]);
        let found = skip_attribute(a[p + 1]->stream).attribute.skip();
        lemma_attributes_do_not_look_ahead(a, b, p + 2, if skip is Some { skip } else { found });
    }
}

/// A type and a field that end before the end of `a` are read in `a + b` as
/// they are in `a`.
pub proof fn lemma_ends_do_not_look_ahead(a: Seq<TokenView>, b: Seq<TokenView>, q: int)
    requires
        0 <= q <= a.len(),
    ensures
        type_end(a, q) < a.len() ==> type_end(a + b, q) == type_end(a, q),
        q < after_comma(a, q) && a[after_comma(a, q) - 1].is_punct(',') ==> after_comma(a + b, q)
            == after_comma(a, q),
    decreases a.len() - q,
{
    let s = a + b;
    if q < a.len() {
        assert(s[q] == a[q]);
        lemma_ends_do_not_look_ahead(a, b, q + 1);
        lemma_after_comma_bounds(a, q + 1);
    }
}

/// A field that ends with its comma in `a` is read in `a + b` as it is in
/// `a`, and comes to the same tokens.
#[verifier::rlimit(50)]
pub proof fn lemma_field_does_not_look_ahead(
    a: Seq<TokenView>,
    b: Seq<TokenView>,
    p: int,
    is_skip_variant: bool,
)
    requires
        0 <= p < a.len(),
        field(a, p) matches Ok(f) && f.is_present(a) && f.value < f.end && a[f.end - 1].is_punct(
            ',',
        ),
    ensures
        field(a + b, p) == field(a, p),
        field(a, p)->Ok_0.tokens(a + b, is_skip_variant) == field(a, p)->Ok_0.tokens(
            a,
            is_skip_variant,
        ),
        field(a, p)->Ok_0.is_present(a + b),
{
    let s = a + b;
    let f = field(a, p)->Ok_0;
    lemma_field_bounds(a, p);
    lemma_type_end_bounds(a, after_colon(a, f.name));
    lemma_after_comma_bounds(a, f.value);
    lemma_attributes_do_not_look_ahead(a, b, p, None);
    assert(s[f.attributes.end] == a[f.attributes.end]);
    if f.attributes.end + 1 < a.len() {
        assert(s[f.attributes.end + 1] == a[f.attributes.end + 1]);
    }
    assert(vis_end(s, f.attributes.end) == f.name);
    assert(after_colon(s, f.name) == after_colon(a, f.name));
    lemma_ends_do_not_look_ahead(a, b, after_colon(a, f.name));
    lemma_ends_do_not_look_ahead(a, b, f.value);
    assert(s[f.value] == a[f.value]);
    assert(s[f.name] == a[f.name]);
    assert(s.subrange(f.attributes.end, f.value) =~= a.subrange(f.attributes.end, f.value));
    assert(s.subrange(f.value, f.end) =~= a.subrange(f.value, f.end));
}

/// Attributes are read from a place on without regard to what stands before
/// it: in `s` from `k + p` on as in the rest of `s` after `k`, from `p` on.
pub proof fn lemma_attributes_do_not_look_back(
    s: Seq<TokenView>,
    k: int,
    p: int,
    skip: Option<Span>,
)
    requires
        0 <= k <= s.len(),
        0 <= p <= s.len() - k,
    ensures
        attributes(s, k + p, skip) == match attributes(s.subrange(k, s.len() as int), p, skip) {
            Ok(x) => Ok(Attributes { end: k + x.end, ..x }),
            Err(e) => Err(e),
        },
    decreases s.len() - k - p,
{
    let t = s.subrange(k, s.len() as int);
    if p < t.len() {
        assert(t[p] == s[k + p]);
        if p + 1 < t.len() {
            assert(t[p + 1] == s[k + p + 1]);
            if t[p].is_punct('#') && t[p + 1] is Group {
                let found = skip_attribute(t[p + 1]->stream).attribute.skip();
                lemma_attributes_do_not_look_back(
                    s,
                    k,
                    p + 2,
                    if skip is Some {
                        skip
                    } else {
                        found
                    },
                );
            }
        }
    }
}

/// A list of fields is rewritten from a place on without regard to what
/// stands before it.
#[verifier::rlimit(50)]
pub proof fn lemma_fields_do_not_look_back(
    s: Seq<TokenView>,
    k: int,
    p: int,
    is_skip_variant: bool,
)
    requires
        0 <= k <= s.len(),
        0 <= p <= s.len() - k,
    ensures
        fields(s, k + p, is_skip_variant) == fields(
            s.subrange(k, s.len() as int),
            p,
            is_skip_variant,
        ),
    decreases s.len() - k - p,
{
    let t = s.subrange(k, s.len() as int);
    lemma_attributes_do_not_look_back(s, k, p, None);
    lemma_field_bounds(t, p);
    if let Ok(f) = field(t, p) {
        lemma_list_does_not_look_back(s, k, f.attributes.end);
        if f.is_present(t) {
            assert(t[f.name] == s[k + f.name]);
            let colon = after_colon(t, f.name);
            assert(after_colon(s, k + f.name) == k + colon);
            lemma_list_does_not_look_back(s, k, colon);
            lemma_list_does_not_look_back(s, k, f.value);
            if f.value < t.len() {
                assert(t[f.value] == s[k + f.value]);
            }
            let g = field(s, k + p)->Ok_0;
            assert(g.name == k + f.name && g.value == k + f.value && g.end == k + f.end);
            assert(g.attributes.kept == f.attributes.kept);
            assert(t.subrange(f.attributes.end, f.value) =~= s.subrange(
                g.attributes.end,
                g.value,
            ));
            assert(t.subrange(f.value, f.end) =~= s.subrange(g.value, g.end));
            assert(g.tokens(s, is_skip_variant) == f.tokens(t, is_skip_variant));
            lemma_fields_do_not_look_back(s, k, f.end, is_skip_variant);
        } else {
            let g = field(s, k + p)->Ok_0;
            assert(g.name == k + f.name);
            assert(t.subrange(f.attributes.end, f.name) =~= s.subrange(g.attributes.end, g.name));
        }
    }
}

/// Lists are rewritten one after the other: where every field of a list `a`
/// ends with its comma, the list `a + b` comes to what `a` comes to, and
/// then what `b` comes to. So a field stands in the output of a list as it
/// does in the output of a list of its own, wherever in the list it stands.
pub proof fn law_lists_are_rewritten_one_after_the_other(
    a: Seq<TokenView>,
    b: Seq<TokenView>,
    is_skip_variant: bool,
)
    requires
        is_closed_list(a, 0),
    ensures
        fields(a, 0, is_skip_variant) is Ok,
        fields(a + b, 0, is_skip_variant) == streamed_after(
            fields(a, 0, is_skip_variant)->Ok_0.tokens,
            fields(a, 0, is_skip_variant)->Ok_0.errors,
            fields(b, 0, is_skip_variant),
        ),
{
    lemma_closed_list_is_rewritten_first(a, b, 0, is_skip_variant);
}

/// The same from any field of `a` on.
pub proof fn lemma_closed_list_is_rewritten_first(
    a: Seq<TokenView>,
    b: Seq<TokenView>,
    p: int,
    is_skip_variant: bool,
)
    requires
        0 <= p <= a.len(),
        is_closed_list(a, p),
    ensures
        fields(a, p, is_skip_variant) is Ok,
        fields(a + b, p, is_skip_variant) == streamed_after(
            fields(a, p, is_skip_variant)->Ok_0.tokens,
            fields(a, p, is_skip_variant)->Ok_0.errors,
            fields(b, 0, is_skip_variant),
        ),
    decreases a.len() - p,
{
    let s = a + b;
    if p < a.len() {
        let f = field(a, p)->Ok_0;
        lemma_field_bounds(a, p);
        lemma_field_does_not_look_ahead(a, b, p, is_skip_variant);
        lemma_closed_list_is_rewritten_first(a, b, f.end, is_skip_variant);
        let rest = fields(a, f.end, is_skip_variant)->Ok_0;
        lemma_streamed_after_twice(
            f.tokens(a, is_skip_variant),
            f.attributes.errors,
            rest.tokens,
            rest.errors,
            fields(b, 0, is_skip_variant),
        );
    } else {
        assert(s.subrange(a.len() as int, s.len() as int) =~= b);
        lemma_fields_do_not_look_back(s, a.len() as int, 0, is_skip_variant);
        lemma_streamed_after_nothing(fields(b, 0, is_skip_variant));
        let last = fields(a, p, is_skip_variant)->Ok_0;
        assert(last.tokens =~= Seq::<TokenView>::empty());
    }
}

/// A field is read from a place on without regard to what stands before
/// it: in `s` from `k + p` on as in the rest of `s` after `k`, from `p` on.
#[verifier::rlimit(50)]
pub proof fn lemma_field_does_not_look_back(s: Seq<TokenView>, k: int, p: int)
    requires
        0 <= k <= s.len(),
        0 <= p <= s.len() - k,
    ensures
        ({
            let t = s.subrange(k, s.len() as int);
            match field(t, p) {
                Ok(f) => {
                    &&& field(s, k + p) matches Ok(g)
                    &&& g.attributes == Attributes { end: k + f.attributes.end, ..f.attributes }
                    &&& g.name == k + f.name
                    &&& g.is_present(s) == f.is_present(t)
                    &&& f.is_present(t) ==> g.value == k + f.value && g.end == k + f.end
                        && g.has_default(s) == f.has_default(t) && (f.end > 0 ==> s[g.end - 1]
                        == t[f.end - 1])
                },
                Err(e) => field(s, k + p) == Err::<Field, SyntaxError>(e),
            }
        }),
{
    let t = s.subrange(k, s.len() as int);
    lemma_attributes_do_not_look_back(s, k, p, None);
    lemma_field_bounds(t, p);
    if let Ok(f) = field(t, p) {
        lemma_list_does_not_look_back(s, k, f.attributes.end);
        if f.is_present(t) {
            let colon = after_colon(t, f.name);
            assert(after_colon(s, k + f.name) == k + colon);
            lemma_list_does_not_look_back(s, k, colon);
            lemma_list_does_not_look_back(s, k, f.value);
            if f.value < t.len() {
                assert(t[f.value] == s[k + f.value]);
            }
            assert(t[f.end - 1] == s[k + f.end - 1]);
        }
    }
}

/// A list of which each field ends with its comma is one from a place on
/// without regard to what stands before it.
pub proof fn lemma_closed_list_does_not_look_back(s: Seq<TokenView>, k: int, p: int)
    requires
        0 <= k <= s.len(),
        0 <= p <= s.len() - k,
    ensures
        is_closed_list(s, k + p) == is_closed_list(s.subrange(k, s.len() as int), p),
    decreases s.len() - k - p,
{
    let t = s.subrange(k, s.len() as int);
    lemma_field_does_not_look_back(s, k, p);
    lemma_field_bounds(t, p);
    if p < t.len() {
        if let Ok(f) = field(t, p) {
            if f.is_present(t) {
                lemma_closed_list_does_not_look_back(s, k, f.end);
            }
        }
    }
}

} // verus!
