//! What holds of every rewrite, stated over the functions that describe it
//! and proved.

use crate::error::{error_tokens, CompileErrorView, SyntaxError};
use crate::expansion;
use crate::fields::{after_colon, default_tokens, field, fields, lemma_field_bounds, type_end};
use crate::item::{
    body, body_start, item_kind, lemma_body_start_bounds, rewritten, usage, ItemKind,
};
use crate::skip::skip_attribute;
use crate::stream::{
    after_comma, attributes, lemma_attributes_bounds, placed_attributes, skip_on_container,
    vis_end, Attributes, Streamed,
};
use crate::token::{Delimiter, Span, TokenView};
use crate::variants::{lemma_payload_bounds, misplaced_skip, payload, shape, variants, Shape};
use vstd::prelude::*;

verus! {

/// An attribute starts at `i` in `s`: a `#` with a group after it.
pub open spec fn attribute_at(s: Seq<TokenView>, i: int) -> bool {
    0 <= i && i + 1 < s.len() && s[i].is_punct('#') && s[i + 1] is Group
}

/// No attribute in `s` is an `auto_default` of any form: where a group
/// follows a `#`, it does not start with the identifier `auto_default`.
pub open spec fn unmarked(s: Seq<TokenView>) -> bool {
    forall|i: int| #[trigger]
        attribute_at(s, i) ==> skip_attribute(s[i + 1]->stream).attribute is Absent
}

/// No token of `s` is a group in braces: no variant of the list `s` has
/// named fields.
pub open spec fn without_braces(s: Seq<TokenView>) -> bool {
    forall|j: int| 0 <= j < s.len() ==> !(#[trigger] s[j]).is_group(Delimiter::Brace)
}

/// Attributes of which none is `auto_default` are all kept, report nothing
/// and mark nothing.
pub proof fn law_unmarked_attributes_are_kept(s: Seq<TokenView>, p: int, skip: Option<Span>)
    requires
        0 <= p <= s.len(),
        unmarked(s),
    ensures
        attributes(s, p, skip) matches Ok(a) ==> {
            &&& p <= a.end <= s.len()
            &&& a.kept == s.subrange(p, a.end)
            &&& a.skip == skip
            &&& a.errors == Seq::<CompileErrorView>::empty()
        },
    decreases s.len() - p,
{
    if attribute_at(s, p) {
        law_unmarked_attributes_are_kept(s, p + 2, skip);
        if let Ok(a) = attributes(s, p, skip) {
            assert(a.kept =~= s.subrange(p, a.end));
            assert(a.errors =~= Seq::<CompileErrorView>::empty());
        }
    } else if let Ok(a) = attributes(s, p, skip) {
        assert(a.kept =~= s.subrange(p, a.end));
    }
}

/// A field that has no default value and does not opt out gets the default
/// value once, at the span of its name and directly before the comma that
/// ends the field, or at the end of the list where no comma ends it. The
/// tokens of the field itself stay as they are and in their order.
pub proof fn law_default_is_added_before_the_comma(
    s: Seq<TokenView>,
    p: int,
    is_skip_variant: bool,
)
    requires
        0 <= p <= s.len(),
        field(s, p) matches Ok(f) && f.is_present(s) && !f.has_default(s) && !f.is_skip(
            is_skip_variant,
        ),
    ensures
        ({
            let f = field(s, p)->Ok_0;
            let comma = s.subrange(f.value, f.end);
            &&& f.tokens(s, is_skip_variant) == f.attributes.kept + s.subrange(
                f.attributes.end,
                f.value,
            ) + default_tokens(s[f.name].span()) + comma
            &&& if f.value < s.len() {
                comma == seq![s[f.value]] && s[f.value].is_punct(',')
            } else {
                comma == Seq::<TokenView>::empty()
            }
            &&& fields(s, p, is_skip_variant) matches Ok(out) ==> out.tokens.subrange(
                0,
                f.tokens(s, is_skip_variant).len() as int,
            ) == f.tokens(s, is_skip_variant)
        }),
{
    let f = field(s, p)->Ok_0;
    lemma_field_bounds(s, p);
    law_type_ends_at_the_first_mark(s, after_colon(s, f.name));
    let comma = s.subrange(f.value, f.end);
    if f.value < s.len() {
        assert(comma =~= seq![s[f.value]]);
    } else {
        assert(comma =~= Seq::<TokenView>::empty());
    }
    if let Ok(out) = fields(s, p, is_skip_variant) {
        let own = f.tokens(s, is_skip_variant);
        assert(out.tokens.subrange(0, own.len() as int) =~= own);
    }
}

/// The type of a field ends at the first `=` or `,` at or after the place
/// where it starts, or at the end of the list where there is neither.
pub proof fn law_type_ends_at_the_first_mark(s: Seq<TokenView>, p: int)
    requires
        0 <= p <= s.len(),
    ensures
        ({
            let end = type_end(s, p);
            &&& p <= end <= s.len()
            &&& end < s.len() ==> s[end].is_punct('=') || s[end].is_punct(',')
            &&& forall|k: int| p <= k < end ==> !s[k].is_punct('=') && !s[k].is_punct(',')
        }),
    decreases s.len() - p,
{
    if p < s.len() && !s[p].is_punct('=') && !s[p].is_punct(',') {
        law_type_ends_at_the_first_mark(s, p + 1);
    }
}

/// A field, and the discriminant of a variant, ends with the first `,` at or
/// after the place given, or at the end of the list where there is none.
pub proof fn law_comma_is_the_first(s: Seq<TokenView>, p: int)
    requires
        0 <= p <= s.len(),
    ensures
        ({
            let end = after_comma(s, p);
            &&& p <= end <= s.len()
            &&& end < s.len() ==> p < end && s[end - 1].is_punct(',')
            &&& forall|k: int| p <= k < end - 1 ==> !s[k].is_punct(',')
            &&& end == s.len() && p < end && !s[end - 1].is_punct(',') ==> forall|k: int|
                p <= k < end ==> !s[k].is_punct(',')
        }),
    decreases s.len() - p,
{
    if p < s.len() && !s[p].is_punct(',') {
        law_comma_is_the_first(s, p + 1);
    }
}

/// The body of a declaration is the first group in braces after its name.
pub proof fn law_body_is_the_first_group_in_braces(s: Seq<TokenView>, p: int)
    requires
        0 <= p <= s.len(),
    ensures
        ({
            let start = body_start(s, p);
            &&& p <= start <= s.len()
            &&& start < s.len() ==> s[start].is_group(Delimiter::Brace)
            &&& forall|k: int| p <= k < start ==> !s[k].is_group(Delimiter::Brace)
        }),
    decreases s.len() - p,
{
    if p < s.len() && !s[p].is_group(Delimiter::Brace) {
        law_body_is_the_first_group_in_braces(s, p + 1);
    }
}

/// A field with a default value of its own comes out as it went in, whether
/// it opts out or not: nothing is added, and but for `auto_default`
/// attributes, which never reach the output, every token is copied.
pub proof fn law_own_default_is_kept(s: Seq<TokenView>, p: int, is_skip_variant: bool)
    requires
        0 <= p <= s.len(),
        field(s, p) matches Ok(f) && f.is_present(s) && f.has_default(s),
    ensures
        ({
            let f = field(s, p)->Ok_0;
            &&& f.tokens(s, is_skip_variant) == f.attributes.kept + s.subrange(
                f.attributes.end,
                f.end,
            )
            &&& f.attributes.kept == s.subrange(p, f.attributes.end) ==> f.tokens(
                s,
                is_skip_variant,
            ) == s.subrange(p, f.end)
            &&& fields(s, p, is_skip_variant) matches Ok(out) ==> out.tokens.subrange(
                0,
                f.tokens(s, is_skip_variant).len() as int,
            ) == f.tokens(s, is_skip_variant)
        }),
{
    let f = field(s, p)->Ok_0;
    lemma_field_bounds(s, p);
    let own = f.tokens(s, is_skip_variant);
    assert(own =~= f.attributes.kept + s.subrange(f.attributes.end, f.end));
    if f.attributes.kept == s.subrange(p, f.attributes.end) {
        assert(own =~= s.subrange(p, f.end));
    }
    if let Ok(out) = fields(s, p, is_skip_variant) {
        assert(out.tokens.subrange(0, own.len() as int) =~= own);
    }
}

/// Every field of the list that starts at `p` in `s` has a default value of
/// its own.
pub open spec fn every_field_has_default(s: Seq<TokenView>, p: int) -> bool
    decreases s.len() - p,
{
    match field(s, p) {
        Ok(f) => {
            if 0 <= p <= s.len() && f.is_present(s) {
                proof {
                    lemma_field_bounds(s, p);
                }
                f.has_default(s) && every_field_has_default(s, f.end)
            } else {
                true
            }
        },
        Err(_) => true,
    }
}

/// A list of fields that all have a default value of their own, and no
/// `auto_default` attribute, comes out as it went in, and nothing is
/// reported.
pub proof fn law_fields_with_own_defaults_are_copied(
    s: Seq<TokenView>,
    p: int,
    is_skip_variant: bool,
)
    requires
        0 <= p <= s.len(),
        unmarked(s),
        every_field_has_default(s, p),
    ensures
        fields(s, p, is_skip_variant) matches Ok(out) ==> out == (Streamed {
            tokens: s.subrange(p, s.len() as int),
            errors: Seq::empty(),
        }),
    decreases s.len() - p,
{
    law_unmarked_attributes_are_kept(s, p, None);
    lemma_field_bounds(s, p);
    if let Ok(f) = field(s, p) {
        if f.is_present(s) {
            law_fields_with_own_defaults_are_copied(s, f.end, is_skip_variant);
            if let Ok(out) = fields(s, p, is_skip_variant) {
                assert(out.tokens =~= s.subrange(p, s.len() as int));
                assert(out.errors =~= Seq::<CompileErrorView>::empty());
            }
        } else if let Ok(out) = fields(s, p, is_skip_variant) {
            assert(out.tokens =~= s.subrange(p, s.len() as int));
        }
    }
}

/// A field that opts out, by its own attribute or by that of its variant,
/// gets nothing added, whether it has a default value or not.
pub proof fn law_skipped_field_gets_nothing(s: Seq<TokenView>, p: int, is_skip_variant: bool)
    requires
        0 <= p <= s.len(),
        field(s, p) matches Ok(f) && f.is_present(s) && f.is_skip(is_skip_variant),
    ensures
        ({
            let f = field(s, p)->Ok_0;
            &&& f.added(s, is_skip_variant) == Seq::<TokenView>::empty()
            &&& f.tokens(s, is_skip_variant) == f.attributes.kept + s.subrange(
                f.attributes.end,
                f.end,
            )
            &&& fields(s, p, is_skip_variant) matches Ok(out) ==> out.tokens.subrange(
                0,
                f.tokens(s, is_skip_variant).len() as int,
            ) == f.tokens(s, is_skip_variant)
        }),
{
    let f = field(s, p)->Ok_0;
    lemma_field_bounds(s, p);
    let own = f.tokens(s, is_skip_variant);
    assert(own =~= f.attributes.kept + s.subrange(f.attributes.end, f.end));
    if let Ok(out) = fields(s, p, is_skip_variant) {
        assert(out.tokens.subrange(0, own.len() as int) =~= own);
    }
}

/// A field opts out exactly if it is marked itself or its variant is: the
/// mark is handed down and cannot be taken back. Under a marked variant
/// every field opts out, and so nothing is added to any of them.
pub proof fn law_skip_is_inherited(s: Seq<TokenView>, p: int, is_skip_variant: bool)
    requires
        field(s, p) is Ok,
    ensures
        ({
            let f = field(s, p)->Ok_0;
            &&& f.is_skip(is_skip_variant) == (f.attributes.skip is Some || is_skip_variant)
            &&& f.is_skip(true)
            &&& f.added(s, true) == Seq::<TokenView>::empty()
            &&& f.is_skip(false) ==> f.is_skip(true)
        }),
{
}

/// The fields of a marked variant come out as they went in, where none of
/// them has an `auto_default` attribute of its own: no token is added,
/// dropped or moved, and nothing is reported.
pub proof fn law_marked_variant_keeps_its_fields(s: Seq<TokenView>, p: int)
    requires
        0 <= p <= s.len(),
        unmarked(s),
    ensures
        fields(s, p, true) matches Ok(out) ==> out == (Streamed {
            tokens: s.subrange(p, s.len() as int),
            errors: Seq::empty(),
        }),
    decreases s.len() - p,
{
    law_unmarked_attributes_are_kept(s, p, None);
    lemma_field_bounds(s, p);
    if let Ok(f) = field(s, p) {
        if f.is_present(s) {
            law_marked_variant_keeps_its_fields(s, f.end);
            if let Ok(out) = fields(s, p, true) {
                assert(out.tokens =~= s.subrange(p, s.len() as int));
                assert(out.errors =~= Seq::<CompileErrorView>::empty());
            }
        } else if let Ok(out) = fields(s, p, true) {
            assert(out.tokens =~= s.subrange(p, s.len() as int));
        }
    }
}

/// A named variant hands its mark down to its fields: they are rewritten as
/// fields that all opt out, and the variant itself is not reported.
pub proof fn law_named_variant_hands_its_mark_down(
    s: Seq<TokenView>,
    p: int,
    is_skip: bool,
    span: Span,
)
    requires
        shape(s, p) == Shape::Named,
    ensures
        payload(s, p, is_skip, span) matches Ok(v) ==> {
            &&& fields(s[p]->stream, 0, is_skip) matches Ok(inside)
            &&& v.errors == inside.errors
            &&& v.tokens[0] == (TokenView::Group {
                delimiter: Delimiter::Brace,
                stream: inside.tokens,
                span: s[p].span(),
            })
        },
{
}

/// A unit variant and a variant with unnamed fields come out as they went
/// in, with their discriminant and comma. A mark on them is reported at the
/// name of the variant and changes nothing else.
pub proof fn law_variant_without_named_fields_is_copied(
    s: Seq<TokenView>,
    p: int,
    is_skip: bool,
    span: Span,
)
    requires
        0 <= p <= s.len(),
        shape(s, p) != Shape::Named,
    ensures
        payload(s, p, is_skip, span) matches Ok(v) ==> {
            &&& p <= v.end <= s.len()
            &&& v.tokens == s.subrange(p, v.end)
            &&& v.errors == misplaced_skip(is_skip, span)
            &&& !is_skip ==> v.errors == Seq::<CompileErrorView>::empty()
        },
{
    lemma_payload_bounds(s, p, is_skip, span);
}

/// A list of variants of which none has named fields or an `auto_default`
/// attribute comes out as it went in, and nothing is reported.
pub proof fn law_variants_without_named_fields_are_copied(s: Seq<TokenView>, p: int)
    requires
        0 <= p <= s.len(),
        unmarked(s),
        without_braces(s),
    ensures
        variants(s, p) matches Ok(out) ==> out == (Streamed {
            tokens: s.subrange(p, s.len() as int),
            errors: Seq::empty(),
        }),
    decreases s.len() - p,
{
    law_unmarked_attributes_are_kept(s, p, None);
    if let Ok(attrs) = attributes(s, p, None) {
        let name = vis_end(s, attrs.end);
        if name < s.len() {
            lemma_payload_bounds(s, name + 1, false, s[name].span());
            if let Ok(v) = payload(s, name + 1, false, s[name].span()) {
                assert(shape(s, name + 1) != Shape::Named);
                law_variants_without_named_fields_are_copied(s, v.end);
                if let Ok(out) = variants(s, p) {
                    assert(out.tokens =~= s.subrange(p, s.len() as int));
                    assert(out.errors =~= Seq::<CompileErrorView>::empty());
                }
            }
        } else if let Ok(out) = variants(s, p) {
            assert(out.tokens =~= s.subrange(p, s.len() as int));
        }
    }
}

/// An empty list of fields, and an empty list of variants, stays empty, and
/// nothing is reported about it.
pub proof fn law_empty_body_stays_empty(kind: ItemKind, is_skip_variant: bool)
    ensures
        body(kind, Seq::empty()) == Ok::<Streamed, SyntaxError>(
            Streamed { tokens: Seq::empty(), errors: Seq::empty() },
        ),
        fields(Seq::empty(), 0, is_skip_variant) == Ok::<Streamed, SyntaxError>(
            Streamed { tokens: Seq::empty(), errors: Seq::empty() },
        ),
{
    let s = Seq::<TokenView>::empty();
    let nothing = Streamed { tokens: Seq::empty(), errors: Seq::empty() };
    assert(attributes(s, 0, None) == Ok::<Attributes, SyntaxError>(
        Attributes { kept: Seq::empty(), skip: None, errors: Seq::empty(), end: 0 },
    ));
    assert(s.subrange(0, 0) =~= s);
    assert(Seq::<TokenView>::empty() + s.subrange(0, 0) =~= Seq::<TokenView>::empty());
    assert(fields(s, 0, is_skip_variant) == Ok::<Streamed, SyntaxError>(nothing));
    assert(fields(s, 0, false) == Ok::<Streamed, SyntaxError>(nothing));
    assert(variants(s, 0) == Ok::<Streamed, SyntaxError>(nothing));
}

/// `item` is a declaration with an empty body: attributes, a visibility, the
/// keyword `struct` or `enum`, a name, any tokens but a group in braces, and
/// last a pair of braces with nothing inside.
pub open spec fn is_empty_declaration(item: Seq<TokenView>) -> bool {
    placed_attributes(item, 0, false) matches Ok(attrs) && ({
        let keyword = vis_end(item, attrs.end);
        &&& item_kind(item, keyword) is Some
        &&& keyword + 1 < item.len()
        &&& body_start(item, keyword + 2) == item.len() - 1
        &&& item[item.len() - 1] matches TokenView::Group { stream, .. } && stream.len() == 0
    })
}

/// A declaration with an empty body is returned unchanged, with no
/// diagnostic: a `struct` without fields, an `enum` without variants.
///
/// This holds where the invocation has no arguments and no attribute of the
/// declaration is `auto_default`.
pub proof fn law_empty_declaration_is_unchanged(args: Seq<TokenView>, item: Seq<TokenView>)
    requires
        args.len() == 0,
        unmarked(item),
        is_empty_declaration(item),
    ensures
        rewritten(args, item) == Ok::<Streamed, SyntaxError>(
            Streamed { tokens: item, errors: Seq::empty() },
        ),
        expansion(args, item) == Ok::<Seq<TokenView>, SyntaxError>(item),
{
    let attrs = placed_attributes(item, 0, false)->Ok_0;
    let keyword = vis_end(item, attrs.end);
    let kind = item_kind(item, keyword)->0;
    let start = body_start(item, keyword + 2);
    law_unmarked_attributes_are_kept(item, 0, None);
    lemma_body_start_bounds(item, keyword + 2);
    law_empty_body_stays_empty(kind, false);
    assert(item[start]->stream =~= Seq::<TokenView>::empty());
    let out = rewritten(args, item)->Ok_0;
    assert(usage(args) + attrs.errors =~= Seq::<CompileErrorView>::empty());
    assert(out.errors =~= Seq::<CompileErrorView>::empty());
    assert(item[start] == (TokenView::Group {
        delimiter: Delimiter::Brace,
        stream: Seq::<TokenView>::empty(),
        span: item[start].span(),
    }));
    assert(out.tokens =~= item);
    assert(error_tokens(Seq::<CompileErrorView>::empty()) =~= Seq::<TokenView>::empty());
    assert(item + Seq::<TokenView>::empty() =~= item);
}

/// Whatever the body holds, the tokens of a declaration from its visibility
/// to the start of its body stand in the output as they are and in their
/// order, right after the attributes that are kept: the visibility, the
/// keyword, the name, the generics and the `where` clause.
pub proof fn law_header_is_copied(args: Seq<TokenView>, item: Seq<TokenView>)
    requires
        rewritten(args, item) matches Ok(out) && out.tokens.len() > 0,
    ensures
        ({
            let attrs = placed_attributes(item, 0, false)->Ok_0;
            let start = body_start(item, vis_end(item, attrs.end) + 2);
            let out = rewritten(args, item)->Ok_0;
            let kept = attrs.kept.len() as int;
            &&& placed_attributes(item, 0, false) is Ok
            &&& 0 <= attrs.end <= start < item.len()
            &&& out.tokens.len() == kept + (start - attrs.end) + 1
            &&& out.tokens.subrange(0, kept) == attrs.kept
            &&& out.tokens.subrange(kept, kept + (start - attrs.end)) == item.subrange(
                attrs.end,
                start,
            )
            &&& out.tokens.last() is Group
            &&& item[start] is Group
            &&& out.tokens.last().span() == item[start].span()
        }),
{
    lemma_attributes_bounds(item, 0, None);
    let attrs = placed_attributes(item, 0, false)->Ok_0;
    let keyword = vis_end(item, attrs.end);
    let start = body_start(item, keyword + 2);
    lemma_body_start_bounds(item, keyword + 2);
    let out = rewritten(args, item)->Ok_0;
    let kept = attrs.kept.len() as int;
    assert(out.tokens.subrange(0, kept) =~= attrs.kept);
    assert(out.tokens.subrange(kept, kept + (start - attrs.end)) =~= item.subrange(
        attrs.end,
        start,
    ));
}

/// Whatever is done to a field, its tokens from the visibility to the end
/// of its type stand in the output as they are and in their order, right
/// after the attributes that are kept.
pub proof fn law_field_head_is_copied(s: Seq<TokenView>, p: int, is_skip_variant: bool)
    requires
        0 <= p <= s.len(),
        field(s, p) matches Ok(f) && f.is_present(s),
    ensures
        ({
            let f = field(s, p)->Ok_0;
            let kept = f.attributes.kept.len() as int;
            &&& p <= f.attributes.end <= f.name < f.value <= f.end <= s.len()
            &&& f.name == vis_end(s, f.attributes.end)
            &&& f.tokens(s, is_skip_variant).subrange(kept, kept + (f.value - f.attributes.end))
                == s.subrange(f.attributes.end, f.value)
        }),
{
    let f = field(s, p)->Ok_0;
    lemma_field_bounds(s, p);
    let kept = f.attributes.kept.len() as int;
    assert(f.tokens(s, is_skip_variant).subrange(kept, kept + (f.value - f.attributes.end))
        =~= s.subrange(f.attributes.end, f.value));
}

/// Whatever is done to a variant, its visibility and its name stand in the
/// output as they are, right after the attributes that are kept.
pub proof fn law_variant_head_is_copied(s: Seq<TokenView>, p: int)
    requires
        0 <= p <= s.len(),
        attributes(s, p, None) matches Ok(attrs) && vis_end(s, attrs.end) < s.len(),
    ensures
        ({
            let attrs = attributes(s, p, None)->Ok_0;
            let name = vis_end(s, attrs.end);
            let kept = attrs.kept.len() as int;
            &&& p <= attrs.end <= name
            &&& variants(s, p) matches Ok(out) ==> out.tokens.subrange(
                kept,
                kept + (name + 1 - attrs.end),
            ) == s.subrange(attrs.end, name + 1)
        }),
{
    lemma_attributes_bounds(s, p, None);
    let attrs = attributes(s, p, None)->Ok_0;
    let name = vis_end(s, attrs.end);
    let kept = attrs.kept.len() as int;
    if let Ok(out) = variants(s, p) {
        assert(out.tokens.subrange(kept, kept + (name + 1 - attrs.end)) =~= s.subrange(
            attrs.end,
            name + 1,
        ));
    }
}

/// The mark of a variant decides only whether default values are added: the
/// list of its fields can be read with the mark exactly if it can without,
/// and the same is reported either way.
pub proof fn law_mark_changes_no_report(s: Seq<TokenView>, p: int)
    requires
        0 <= p <= s.len(),
    ensures
        match (fields(s, p, true), fields(s, p, false)) {
            (Ok(marked), Ok(plain)) => marked.errors == plain.errors,
            (Err(e), Err(d)) => e == d,
            _ => false,
        },
    decreases s.len() - p,
{
    lemma_field_bounds(s, p);
    if let Ok(f) = field(s, p) {
        if f.is_present(s) {
            law_mark_changes_no_report(s, f.end);
        }
    }
}

/// Fields of which none has an `auto_default` attribute are rewritten
/// without any report.
pub proof fn law_unmarked_fields_report_nothing(s: Seq<TokenView>, p: int, is_skip_variant: bool)
    requires
        0 <= p <= s.len(),
        unmarked(s),
    ensures
        fields(s, p, is_skip_variant) matches Ok(out) ==> out.errors == Seq::<
            CompileErrorView,
        >::empty(),
    decreases s.len() - p,
{
    law_unmarked_attributes_are_kept(s, p, None);
    lemma_field_bounds(s, p);
    if let Ok(f) = field(s, p) {
        if f.is_present(s) {
            law_unmarked_fields_report_nothing(s, f.end, is_skip_variant);
            if let Ok(out) = fields(s, p, is_skip_variant) {
                assert(out.errors =~= Seq::<CompileErrorView>::empty());
            }
        }
    }
}

/// No attribute of a variant in `s` is `auto_default`, nor one of a field
/// of a variant.
pub open spec fn unmarked_variants(s: Seq<TokenView>) -> bool {
    &&& unmarked(s)
    &&& forall|j: int|
        0 <= j < s.len() && (#[trigger] s[j]).is_group(Delimiter::Brace) ==> unmarked(
            s[j]->stream,
        )
}

/// Variants of which none has an `auto_default` attribute, on itself or on
/// a field, are rewritten without any report.
pub proof fn law_unmarked_variants_report_nothing(s: Seq<TokenView>, p: int)
    requires
        0 <= p <= s.len(),
        unmarked_variants(s),
    ensures
        variants(s, p) matches Ok(out) ==> out.errors == Seq::<CompileErrorView>::empty(),
    decreases s.len() - p,
{
    law_unmarked_attributes_are_kept(s, p, None);
    if let Ok(attrs) = attributes(s, p, None) {
        let name = vis_end(s, attrs.end);
        if name < s.len() {
            lemma_payload_bounds(s, name + 1, false, s[name].span());
            if let Ok(v) = payload(s, name + 1, false, s[name].span()) {
                if shape(s, name + 1) == Shape::Named {
                    law_unmarked_fields_report_nothing(s[name + 1]->stream, 0, false);
                }
                law_unmarked_variants_report_nothing(s, v.end);
                if let Ok(out) = variants(s, p) {
                    assert(out.errors =~= Seq::<CompileErrorView>::empty());
                }
            }
        }
    }
}

/// No attribute of the declaration `item` is `auto_default`: none on the
/// declaration itself, none on a field or a variant in its body, none on a
/// field of a variant.
pub open spec fn unmarked_declaration(item: Seq<TokenView>) -> bool {
    &&& unmarked(item)
    &&& forall|j: int|
        0 <= j < item.len() && (#[trigger] item[j]).is_group(Delimiter::Brace)
            ==> unmarked_variants(item[j]->stream)
}

/// Every diagnostic has a cause: a declaration that is invoked without
/// arguments and has no `auto_default` attribute anywhere is rewritten
/// without any report, and the output is the rewritten declaration alone.
pub proof fn law_no_report_without_cause(args: Seq<TokenView>, item: Seq<TokenView>)
    requires
        args.len() == 0,
        unmarked_declaration(item),
        rewritten(args, item) matches Ok(out) && out.tokens.len() > 0,
    ensures
        rewritten(args, item)->Ok_0.errors == Seq::<CompileErrorView>::empty(),
        expansion(args, item) == Ok::<Seq<TokenView>, SyntaxError>(
            rewritten(args, item)->Ok_0.tokens,
        ),
{
    law_unmarked_attributes_are_kept(item, 0, None);
    let attrs = placed_attributes(item, 0, false)->Ok_0;
    let keyword = vis_end(item, attrs.end);
    let start = body_start(item, keyword + 2);
    lemma_body_start_bounds(item, keyword + 2);
    let inside = item[start]->stream;
    law_unmarked_fields_report_nothing(inside, 0, false);
    let out = rewritten(args, item)->Ok_0;
    assert(item[start].is_group(Delimiter::Brace));
    law_unmarked_variants_report_nothing(inside, 0);
    assert(out.errors =~= Seq::<CompileErrorView>::empty());
    assert(error_tokens(Seq::<CompileErrorView>::empty()) =~= Seq::<TokenView>::empty());
    assert(out.tokens + Seq::<TokenView>::empty() =~= out.tokens);
}

/// Every diagnostic takes eight tokens in the output.
pub proof fn law_each_report_takes_eight_tokens(errors: Seq<CompileErrorView>)
    ensures
        error_tokens(errors).len() == 8 * errors.len(),
    decreases errors.len(),
{
    if errors.len() > 0 {
        law_each_report_takes_eight_tokens(errors.drop_last());
    }
}

/// Of several marks on one field or variant the first holds: later ones
/// do not take its place.
pub proof fn law_first_mark_holds(s: Seq<TokenView>, p: int, first: Span)
    requires
        0 <= p <= s.len(),
    ensures
        attributes(s, p, Some(first)) matches Ok(a) ==> a.skip == Some(first),
    decreases s.len() - p,
{
    if attribute_at(s, p) {
        law_first_mark_holds(s, p + 2, first);
    }
}

/// A mark on the declaration itself is reported, at the span of its `skip`,
/// whatever else the declaration holds; the declaration is rewritten as if
/// the mark were not there.
pub proof fn law_mark_on_declaration_is_reported(args: Seq<TokenView>, item: Seq<TokenView>)
    requires
        attributes(item, 0, None) matches Ok(a) && a.skip is Some,
        rewritten(args, item) is Ok,
    ensures
        ({
            let mark = attributes(item, 0, None)->Ok_0.skip->0;
            rewritten(args, item)->Ok_0.errors.contains(skip_on_container(mark))
        }),
{
    let a = attributes(item, 0, None)->Ok_0;
    let placed = placed_attributes(item, 0, false)->Ok_0;
    let report = skip_on_container(a.skip->0);
    let out = rewritten(args, item)->Ok_0;
    let at = usage(args).len() + a.errors.len();
    assert(placed.errors[a.errors.len() as int] == report);
    assert(out.errors[at as int] == report);
}

} // verus!
