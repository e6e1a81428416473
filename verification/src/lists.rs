//! What holds of whole lists and whole declarations: of every field at its
//! place in a list, of lists of any length, of runs of attributes, and of an
//! `enum` without named fields.

use crate::expansion;
use crate::error::{error_tokens, CompileErrorView, SyntaxError};
use crate::fields::{
    after_colon, default_tokens, field, fields, lemma_field_bounds, lemma_type_end_bounds, type_end,
};
use crate::item::{body, body_start, item_kind, lemma_body_start_bounds, rewritten, usage, ItemKind};
use crate::laws::{attribute_at, law_type_ends_at_the_first_mark};
use crate::skip::skip_attribute;
use crate::stream::{
    after_comma, attributes, duplicate_skip, lemma_after_comma_bounds, lemma_streamed_after_nothing,
    lemma_streamed_after_twice, placed_attributes, streamed_after, variant_end, vis_end, Attributes,
    Streamed,
};
use crate::token::{Delimiter, Span, TokenView};
use crate::variants::{lemma_variant_end_bounds, payload, shape, variants, Payload, Shape};
use vstd::prelude::*;

verus! {

/// Where the attributes that start at `p` in `s` end, if each of them is a
/// `#` with a group and none is `auto_default`; `None` where one of them is
/// not so.
pub open spec fn plain_attributes_end(s: Seq<TokenView>, p: int) -> Option<int>
    decreases s.len() - p,
{
    if 0 <= p < s.len() && s[p].is_punct('#') {
        if attribute_at(s, p) && skip_attribute(s[p + 1]->stream).attribute is Absent {
            plain_attributes_end(s, p + 2)
        } else {
            None
        }
    } else {
        Some(p)
    }
}

/// Attributes of which none is `auto_default` can be read, are all kept,
/// mark nothing and report nothing.
pub proof fn law_plain_attributes_are_kept(s: Seq<TokenView>, p: int, skip: Option<Span>)
    requires
        0 <= p <= s.len(),
        plain_attributes_end(s, p) is Some,
    ensures
        ({
            let end = plain_attributes_end(s, p)->0;
            &&& p <= end <= s.len()
            &&& end < s.len() ==> !s[end].is_punct('#')
            &&& attributes(s, p, skip) == Ok::<Attributes, SyntaxError>(
                Attributes { kept: s.subrange(p, end), skip, errors: Seq::empty(), end },
            )
        }),
    decreases s.len() - p,
{
    let end = plain_attributes_end(s, p)->0;
    if p < s.len() && s[p].is_punct('#') {
        law_plain_attributes_are_kept(s, p + 2, skip);
        let a = attributes(s, p, skip)->Ok_0;
        assert(a.kept =~= s.subrange(p, end));
        assert(a.errors =~= Seq::<CompileErrorView>::empty());
    } else {
        let a = attributes(s, p, skip)->Ok_0;
        assert(a.kept =~= s.subrange(p, end));
    }
}

/// The place after the name at `name` in `s` and the fields in
/// parentheses that may follow it.
pub open spec fn after_unnamed_fields(s: Seq<TokenView>, name: int) -> int {
    if 0 <= name + 1 < s.len() && s[name + 1].is_group(Delimiter::Parenthesis) {
        name + 2
    } else {
        name + 1
    }
}

/// From `p` on, `s` is a list of unit variants and variants with unnamed
/// fields. Each is made of attributes, none of them `auto_default`; a
/// visibility, if any; a name; fields in parentheses, if any; `=` and a
/// discriminant, if any; and a comma, which the last variant may lack.
pub open spec fn unit_and_positional_variants(s: Seq<TokenView>, p: int) -> bool
    decreases s.len() - p,
{
    if 0 <= p < s.len() {
        match plain_attributes_end(s, p) {
            Some(attrs_end) => {
                let name = vis_end(s, attrs_end);
                let after = after_unnamed_fields(s, name);
                if p <= name < s.len() && s[name] is Ident {
                    match variant_end(s, after) {
                        Some(end) => {
                            proof {
                                lemma_variant_end_bounds(s, after);
                            }
                            unit_and_positional_variants(s, end)
                        },
                        None => false,
                    }
                } else {
                    false
                }
            },
            None => false,
        }
    } else {
        p == s.len()
    }
}

/// The first variant of a list of unit variants and variants with unnamed
/// fields can be read; what follows its name is copied, and nothing is
/// reported.
pub proof fn lemma_unit_or_positional_variant_is_copied(s: Seq<TokenView>, p: int)
    requires
        0 <= p < s.len(),
        unit_and_positional_variants(s, p),
    ensures
        ({
            let attrs_end = plain_attributes_end(s, p)->0;
            let name = vis_end(s, attrs_end);
            let end = variant_end(s, after_unnamed_fields(s, name))->0;
            &&& p <= attrs_end <= name < end <= s.len()
            &&& unit_and_positional_variants(s, end)
            &&& attributes(s, p, None) == Ok::<Attributes, SyntaxError>(
                Attributes {
                    kept: s.subrange(p, attrs_end),
                    skip: None,
                    errors: Seq::empty(),
                    end: attrs_end,
                },
            )
            &&& payload(s, name + 1, false, s[name].span()) == Ok::<
                Payload,
                SyntaxError,
            >(
                Payload {
                    tokens: s.subrange(name + 1, end),
                    errors: Seq::empty(),
                    end,
                },
            )
        }),
{
    law_plain_attributes_are_kept(s, p, None);
    let name = vis_end(s, plain_attributes_end(s, p)->0);
    lemma_variant_end_bounds(s, after_unnamed_fields(s, name));
    assert(shape(s, name + 1) != Shape::Named);
}

/// A list of unit variants and variants with unnamed fields, none with an
/// `auto_default` attribute, can always be read, and comes out as it went in:
/// every variant, its fields, its discriminant and its comma in their order,
/// no comma added or taken away, and nothing reported.
pub proof fn law_unit_and_positional_variants_are_unchanged(s: Seq<TokenView>, p: int)
    requires
        0 <= p <= s.len(),
        unit_and_positional_variants(s, p),
    ensures
        variants(s, p) == Ok::<Streamed, SyntaxError>(
            Streamed { tokens: s.subrange(p, s.len() as int), errors: Seq::empty() },
        ),
    decreases s.len() - p,
{
    if p < s.len() {
        lemma_unit_or_positional_variant_is_copied(s, p);
        let attrs_end = plain_attributes_end(s, p)->0;
        let name = vis_end(s, attrs_end);
        let end = variant_end(s, after_unnamed_fields(s, name))->0;
        law_unit_and_positional_variants_are_unchanged(s, end);
        let nothing = Seq::<CompileErrorView>::empty();
        assert(s.subrange(p, attrs_end) + s.subrange(attrs_end, name + 1) + s.subrange(
            name + 1,
            end,
        ) + s.subrange(end, s.len() as int) =~= s.subrange(p, s.len() as int));
        assert(nothing + nothing + nothing =~= nothing);
    } else {
        assert(Seq::<TokenView>::empty() + s.subrange(p, p) =~= s.subrange(p, s.len() as int));
    }
}

/// `item` is a declaration with the keyword `keyword` and nothing after its
/// body: attributes, none of them `auto_default`; a visibility, if any; the
/// keyword; a name; any tokens but a group in braces; and last the body, a
/// group in braces.
pub open spec fn is_declaration(item: Seq<TokenView>, keyword: Seq<char>) -> bool {
    plain_attributes_end(item, 0) matches Some(attrs_end) && ({
        let at = vis_end(item, attrs_end);
        &&& 0 <= at < item.len()
        &&& item[at].is_ident(keyword)
        &&& at + 1 < item.len()
        &&& body_start(item, at + 2) == item.len() - 1
    })
}

/// The stream inside the body of the declaration `item`.
pub open spec fn body_of(item: Seq<TokenView>) -> Seq<TokenView> {
    item[item.len() - 1]->stream
}

/// An `enum` of which every variant is a unit variant or has unnamed fields,
/// and which has no `auto_default` attribute anywhere, comes out of an
/// invocation without arguments token for token as it went in, and without
/// any diagnostic.
pub proof fn law_enum_without_named_fields_is_unchanged(
    args: Seq<TokenView>,
    item: Seq<TokenView>,
)
    requires
        args.len() == 0,
        is_declaration(item, "enum"@),
        unit_and_positional_variants(body_of(item), 0),
    ensures
        rewritten(args, item) == Ok::<Streamed, SyntaxError>(
            Streamed { tokens: item, errors: Seq::empty() },
        ),
        expansion(args, item) == Ok::<Seq<TokenView>, SyntaxError>(item),
{
    law_plain_attributes_are_kept(item, 0, None);
    let at = vis_end(item, plain_attributes_end(item, 0)->0);
    lemma_enum_is_no_struct(item[at]);
    let inside = body_of(item);
    law_unit_and_positional_variants_are_unchanged(inside, 0);
    assert(inside.subrange(0, inside.len() as int) =~= inside);
    law_declaration_with_unchanged_body_is_unchanged(args, item, ItemKind::Enum);
}

/// A declaration of which the body comes out as it went in, with nothing
/// reported, comes out as it went in as a whole, with nothing reported,
/// where it is invoked without arguments, has no `auto_default` attribute
/// of its own and ends with its body.
pub proof fn law_declaration_with_unchanged_body_is_unchanged(
    args: Seq<TokenView>,
    item: Seq<TokenView>,
    kind: ItemKind,
)
    requires
        args.len() == 0,
        plain_attributes_end(item, 0) matches Some(attrs_end) && ({
            let at = vis_end(item, attrs_end);
            &&& item_kind(item, at) == Some(kind)
            &&& at + 1 < item.len()
            &&& body_start(item, at + 2) == item.len() - 1
        }),
        body(kind, body_of(item)) == Ok::<Streamed, SyntaxError>(
            Streamed { tokens: body_of(item), errors: Seq::empty() },
        ),
    ensures
        rewritten(args, item) == Ok::<Streamed, SyntaxError>(
            Streamed { tokens: item, errors: Seq::empty() },
        ),
        expansion(args, item) == Ok::<Seq<TokenView>, SyntaxError>(item),
{
    law_plain_attributes_are_kept(item, 0, None);
    let attrs = placed_attributes(item, 0, false)->Ok_0;
    let at = vis_end(item, attrs.end);
    let start = body_start(item, at + 2);
    lemma_body_start_bounds(item, at + 2);
    lemma_pieces_make_the_whole(item, attrs.end);
    lemma_nothing_reported(args);
}

/// A sequence is its start, its middle and its last element.
proof fn lemma_pieces_make_the_whole(item: Seq<TokenView>, cut: int)
    requires
        0 <= cut < item.len(),
        item.last() is Group,
    ensures
        item.subrange(0, cut) + item.subrange(cut, item.len() - 1).push(
            TokenView::Group {
                delimiter: item.last()->delimiter,
                stream: item.last()->stream,
                span: item.last().span(),
            },
        ) == item,
        item + Seq::<TokenView>::empty() == item,
{
    let last = TokenView::Group {
        delimiter: item.last()->delimiter,
        stream: item.last()->stream,
        span: item.last().span(),
    };
    assert(last == item.last());
    assert(item.subrange(0, cut) + item.subrange(cut, item.len() - 1).push(last) =~= item);
    assert(item + Seq::<TokenView>::empty() =~= item);
}

/// Where there are no arguments and nothing else is reported, nothing is
/// reported, and no token stands for it.
proof fn lemma_nothing_reported(args: Seq<TokenView>)
    requires
        args.len() == 0,
    ensures
        usage(args) + Seq::<CompileErrorView>::empty() + Seq::<CompileErrorView>::empty()
            == Seq::<CompileErrorView>::empty(),
        error_tokens(Seq::<CompileErrorView>::empty()) == Seq::<TokenView>::empty(),
{
    let nothing = Seq::<CompileErrorView>::empty();
    assert(usage(args) + nothing + nothing =~= nothing);
    assert(error_tokens(nothing) =~= Seq::<TokenView>::empty());
}

/// The keyword `enum` is not the keyword `struct`.
pub proof fn lemma_enum_is_no_struct(token: TokenView)
    requires
        token.is_ident("enum"@),
    ensures
        !token.is_ident("struct"@),
{
    reveal_strlit("enum");
    reveal_strlit("struct");
    assert("enum"@.len() == 4);
    assert("struct"@.len() == 6);
}

/// A field of the list that starts at `from` in `s` starts at `p`, or the
/// list ends there: `p` is `from`, or it is reached from `from` field by
/// field.
pub open spec fn is_field_start(s: Seq<TokenView>, from: int, p: int) -> bool
    decreases s.len() - from,
{
    if p == from {
        true
    } else {
        match field(s, from) {
            Ok(f) => {
                if 0 <= from <= s.len() && f.is_present(s) {
                    proof {
                        lemma_field_bounds(s, from);
                    }
                    is_field_start(s, f.end, p)
                } else {
                    false
                }
            },
            Err(_) => false,
        }
    }
}

/// What the fields of `s` from `from` up to the field that starts at `p`
/// come to in the output.
pub open spec fn fields_before(s: Seq<TokenView>, from: int, p: int, is_skip_variant: bool) -> Streamed
    decreases s.len() - from,
{
    if p == from {
        Streamed { tokens: Seq::empty(), errors: Seq::empty() }
    } else {
        match field(s, from) {
            Ok(f) => {
                if 0 <= from <= s.len() && f.is_present(s) {
                    proof {
                        lemma_field_bounds(s, from);
                    }
                    let rest = fields_before(s, f.end, p, is_skip_variant);
                    Streamed {
                        tokens: f.tokens(s, is_skip_variant) + rest.tokens,
                        errors: f.attributes.errors + rest.errors,
                    }
                } else {
                    Streamed { tokens: Seq::empty(), errors: Seq::empty() }
                }
            },
            Err(_) => Streamed { tokens: Seq::empty(), errors: Seq::empty() },
        }
    }
}

/// A list is rewritten field by field: what comes of the whole list is what
/// comes of the fields before any one of its fields, and then what comes of
/// the list from that field on. Neither depends on the other.
pub proof fn law_list_is_rewritten_field_by_field(
    s: Seq<TokenView>,
    from: int,
    p: int,
    is_skip_variant: bool,
)
    requires
        0 <= from <= s.len(),
        is_field_start(s, from, p),
    ensures
        from <= p <= s.len(),
        fields(s, from, is_skip_variant) == streamed_after(
            fields_before(s, from, p, is_skip_variant).tokens,
            fields_before(s, from, p, is_skip_variant).errors,
            fields(s, p, is_skip_variant),
        ),
    decreases s.len() - from,
{
    if p == from {
        lemma_streamed_after_nothing(fields(s, p, is_skip_variant));
    } else {
        let f = field(s, from)->Ok_0;
        lemma_field_bounds(s, from);
        law_list_is_rewritten_field_by_field(s, f.end, p, is_skip_variant);
        let rest = fields_before(s, f.end, p, is_skip_variant);
        lemma_streamed_after_twice(
            f.tokens(s, is_skip_variant),
            f.attributes.errors,
            rest.tokens,
            rest.errors,
            fields(s, p, is_skip_variant),
        );
    }
}

/// The field that starts at `p` in `s` has one attribute, and that is
/// `auto_default(skip)`.
pub open spec fn has_only_the_mark(s: Seq<TokenView>, p: int) -> bool {
    &&& attribute_at(s, p)
    &&& skip_attribute(s[p + 1]->stream).attribute is Skip
    &&& p + 2 < s.len() ==> !s[p + 2].is_punct('#')
}

/// Wherever in a list a field stands that is marked `#[auto_default(skip)]`
/// and has no default value: in the output it stands at its place as it
/// went in, without the mark. Its tokens from the visibility to the end of
/// the type are followed directly by its comma, or by the end of the list;
/// nothing is added, and nothing is reported about it. This holds whether or
/// not the variant around the list is marked.
pub proof fn law_marked_field_stands_unchanged_at_its_place(
    s: Seq<TokenView>,
    p: int,
    is_skip_variant: bool,
)
    requires
        is_field_start(s, 0, p),
        has_only_the_mark(s, p),
        field(s, p) matches Ok(f) && f.is_present(s) && !f.has_default(s),
    ensures
        ({
            let f = field(s, p)->Ok_0;
            let before = fields_before(s, 0, p, is_skip_variant);
            &&& 0 <= p && p + 2 <= f.name < f.value <= f.end <= s.len()
            &&& f.value < f.end ==> f.end == f.value + 1 && s[f.value].is_punct(',')
            &&& f.value == f.end ==> f.end == s.len()
            &&& fields(s, 0, is_skip_variant) == streamed_after(
                before.tokens + s.subrange(p + 2, f.end),
                before.errors,
                fields(s, f.end, is_skip_variant),
            )
        }),
{
    let f = field(s, p)->Ok_0;
    let before = fields_before(s, 0, p, is_skip_variant);
    law_list_is_rewritten_field_by_field(s, 0, p, is_skip_variant);
    lemma_field_bounds(s, p);
    law_type_ends_at_the_first_mark(s, after_colon(s, f.name));
    lemma_after_comma_bounds(s, f.value);
    // The one attribute is the mark: it is left out, marks the field and
    // reports nothing.
    let found = skip_attribute(s[p + 1]->stream).attribute.skip();
    assert(attributes(s, p + 2, found) == Ok::<Attributes, SyntaxError>(
        Attributes { kept: Seq::empty(), skip: found, errors: Seq::empty(), end: p + 2 },
    ));
    assert(skip_attribute(s[p + 1]->stream).errors =~= Seq::<CompileErrorView>::empty());
    assert(f.attributes.kept =~= Seq::<TokenView>::empty());
    assert(f.attributes.errors =~= Seq::<CompileErrorView>::empty());
    assert(f.attributes.end == p + 2);
    assert(f.attributes.skip is Some);
    assert(f.tokens(s, is_skip_variant) =~= s.subrange(p + 2, f.end));
    lemma_streamed_after_twice(
        before.tokens,
        before.errors,
        f.tokens(s, is_skip_variant),
        f.attributes.errors,
        fields(s, f.end, is_skip_variant),
    );
    assert(before.errors + f.attributes.errors =~= before.errors);
}

/// Wherever in a list a field stands that has no default value and does
/// not opt out: in the output it stands at its place with the default value
/// added once, at the span of its name, directly before its comma or at the
/// end of the list.
pub proof fn law_default_is_added_to_the_field_at_its_place(
    s: Seq<TokenView>,
    p: int,
    is_skip_variant: bool,
)
    requires
        is_field_start(s, 0, p),
        field(s, p) matches Ok(f) && f.is_present(s) && !f.has_default(s) && !f.is_skip(
            is_skip_variant,
        ),
    ensures
        ({
            let f = field(s, p)->Ok_0;
            let before = fields_before(s, 0, p, is_skip_variant);
            &&& 0 <= p <= f.attributes.end <= f.name < f.value <= f.end <= s.len()
            &&& f.value < f.end ==> f.end == f.value + 1 && s[f.value].is_punct(',')
            &&& f.value == f.end ==> f.end == s.len()
            &&& fields(s, 0, is_skip_variant) == streamed_after(
                before.tokens + (f.attributes.kept + s.subrange(f.attributes.end, f.value)
                    + default_tokens(s[f.name].span()) + s.subrange(f.value, f.end)),
                before.errors + f.attributes.errors,
                fields(s, f.end, is_skip_variant),
            )
        }),
{
    let f = field(s, p)->Ok_0;
    let before = fields_before(s, 0, p, is_skip_variant);
    law_list_is_rewritten_field_by_field(s, 0, p, is_skip_variant);
    lemma_field_bounds(s, p);
    law_type_ends_at_the_first_mark(s, after_colon(s, f.name));
    lemma_after_comma_bounds(s, f.value);
    lemma_streamed_after_twice(
        before.tokens,
        before.errors,
        f.tokens(s, is_skip_variant),
        f.attributes.errors,
        fields(s, f.end, is_skip_variant),
    );
}

/// From `p` on, `s` is a list of fields without attributes and without
/// default values. Each is made of a visibility, if any; a name; a colon; a
/// type, in which no `=` and no `,` stands outside of brackets; and a comma,
/// which the last field may lack.
pub open spec fn fields_without_defaults(s: Seq<TokenView>, p: int) -> bool
    decreases s.len() - p,
{
    if 0 <= p < s.len() {
        let name = vis_end(s, p);
        let value = type_end(s, name + 2);
        if !s[p].is_punct('#') && name + 1 < s.len() && s[name] is Ident && s[name + 1].is_punct(
            ':',
        ) && (value < s.len() ==> s[value].is_punct(',')) {
            proof {
                lemma_type_end_bounds(s, name + 2);
                lemma_after_comma_bounds(s, value);
            }
            fields_without_defaults(s, after_comma(s, value))
        } else {
            false
        }
    } else {
        p == s.len()
    }
}

/// How many fields the list of fields without default values has that
/// starts at `p` in `s`.
pub open spec fn number_of_fields(s: Seq<TokenView>, p: int) -> nat
    decreases s.len() - p,
{
    if 0 <= p < s.len() && fields_without_defaults(s, p) {
        let value = type_end(s, vis_end(s, p) + 2);
        proof {
            lemma_type_end_bounds(s, vis_end(s, p) + 2);
            lemma_after_comma_bounds(s, value);
        }
        1 + number_of_fields(s, after_comma(s, value))
    } else {
        0
    }
}

/// The list of fields without default values that starts at `p` in `s`,
/// with the default value added to each field: at the span of its name,
/// after its type and before its comma.
pub open spec fn with_defaults(s: Seq<TokenView>, p: int) -> Seq<TokenView>
    decreases s.len() - p,
{
    if 0 <= p < s.len() && fields_without_defaults(s, p) {
        let name = vis_end(s, p);
        let value = type_end(s, name + 2);
        let end = after_comma(s, value);
        proof {
            lemma_type_end_bounds(s, name + 2);
            lemma_after_comma_bounds(s, value);
        }
        s.subrange(p, value) + default_tokens(s[name].span()) + s.subrange(value, end)
            + with_defaults(s, end)
    } else {
        Seq::empty()
    }
}

/// A list of any number of fields, none with an attribute or a default
/// value, can always be read, and every field of it gets the default value:
/// once for each field, directly before the comma of that field or, for a
/// last field without comma, at the end. Nothing else is added or taken
/// away, so the list ends with a comma exactly if it did before, and nothing
/// is reported.
pub proof fn law_every_field_gets_its_default(s: Seq<TokenView>, p: int)
    requires
        0 <= p <= s.len(),
        fields_without_defaults(s, p),
    ensures
        fields(s, p, false) == Ok::<Streamed, SyntaxError>(
            Streamed { tokens: with_defaults(s, p), errors: Seq::empty() },
        ),
        with_defaults(s, p).len() == (s.len() - p) + 14 * number_of_fields(s, p),
        p < s.len() ==> with_defaults(s, p).len() > 0 && (with_defaults(s, p).last().is_punct(',')
            <==> s.last().is_punct(',')),
    decreases s.len() - p,
{
    if p < s.len() {
        let name = vis_end(s, p);
        let value = type_end(s, name + 2);
        let end = after_comma(s, value);
        law_type_ends_at_the_first_mark(s, name + 2);
        lemma_after_comma_bounds(s, value);
        lemma_field_bounds(s, p);
        let f = field(s, p)->Ok_0;
        assert(f.attributes == Attributes {
            kept: Seq::<TokenView>::empty(),
            skip: None::<Span>,
            errors: Seq::<CompileErrorView>::empty(),
            end: p,
        });
        assert(f.name == name && f.value == value && f.end == end);
        let own = s.subrange(p, value) + default_tokens(s[name].span()) + s.subrange(value, end);
        assert(f.tokens(s, false) =~= own);
        law_every_field_gets_its_default(s, end);
        let rest = with_defaults(s, end);
        assert(fields(s, p, false)->Ok_0.tokens =~= with_defaults(s, p));
        assert(fields(s, p, false)->Ok_0.errors =~= Seq::<CompileErrorView>::empty());
        assert(with_defaults(s, p) == own + rest);
        if end < s.len() {
            assert(with_defaults(s, p).last() == rest.last());
        } else if value < s.len() {
            assert(rest.len() == 0);
            assert(with_defaults(s, p).last() == s[value]);
        } else {
            assert(rest.len() == 0);
            assert(with_defaults(s, p).last() == default_tokens(s[name].span())[13]);
        }
    } else {
        let out = fields(s, p, false)->Ok_0;
        assert(out.tokens =~= Seq::<TokenView>::empty());
    }
}

/// Where the marks `#[auto_default(skip)]` that start at `p` in `s` end:
/// the place of the first token that does not start another one.
pub open spec fn marks_end(s: Seq<TokenView>, p: int) -> int
    decreases s.len() - p,
{
    if attribute_at(s, p) && skip_attribute(s[p + 1]->stream).attribute is Skip {
        marks_end(s, p + 2)
    } else {
        p
    }
}

/// The reports of the marks that start at `p` in `s`: one for each mark
/// that has a mark before it, at the span of its `skip`, in their order.
/// `seen` says whether a mark stands before `p`.
pub open spec fn later_marks(s: Seq<TokenView>, p: int, seen: bool) -> Seq<CompileErrorView>
    decreases s.len() - p,
{
    if attribute_at(s, p) && skip_attribute(s[p + 1]->stream).attribute is Skip {
        let span = skip_attribute(s[p + 1]->stream).attribute->0;
        let here = if seen {
            seq![duplicate_skip(span)]
        } else {
            Seq::empty()
        };
        here + later_marks(s, p + 2, true)
    } else {
        Seq::empty()
    }
}

/// Of any number of marks on one field or variant, the first holds and
/// every later one is reported as a duplicate; none reaches the output.
pub proof fn law_every_later_mark_is_reported(s: Seq<TokenView>, p: int, skip: Option<Span>)
    requires
        0 <= p <= s.len(),
        marks_end(s, p) == s.len() || !s[marks_end(s, p)].is_punct('#'),
    ensures
        p <= marks_end(s, p) <= s.len(),
        ({
            let first = if skip is None && marks_end(s, p) > p {
                skip_attribute(s[p + 1]->stream).attribute.skip()
            } else {
                skip
            };
            attributes(s, p, skip) == Ok::<Attributes, SyntaxError>(
                Attributes {
                    kept: Seq::empty(),
                    skip: first,
                    errors: later_marks(s, p, skip is Some),
                    end: marks_end(s, p),
                },
            )
        }),
    decreases s.len() - p,
{
    if attribute_at(s, p) && skip_attribute(s[p + 1]->stream).attribute is Skip {
        let found = skip_attribute(s[p + 1]->stream).attribute.skip();
        let next = if skip is Some {
            skip
        } else {
            found
        };
        law_every_later_mark_is_reported(s, p + 2, next);
        let a = attributes(s, p, skip)->Ok_0;
        assert(skip_attribute(s[p + 1]->stream).errors =~= Seq::<CompileErrorView>::empty());
        assert(a.kept =~= Seq::<TokenView>::empty());
        assert(a.errors =~= later_marks(s, p, skip is Some));
    }
}

/// Attributes do not end before the place where they start, and not past
/// the end.
pub proof fn lemma_plain_attributes_end_bounds(s: Seq<TokenView>, p: int)
    requires
        0 <= p <= s.len(),
    ensures
        plain_attributes_end(s, p) matches Some(end) ==> p <= end <= s.len(),
    decreases s.len() - p,
{
    if p < s.len() && s[p].is_punct('#') && attribute_at(s, p) {
        lemma_plain_attributes_end_bounds(s, p + 2);
    }
}

/// A declaration that is invoked without arguments, has no `auto_default`
/// attribute of its own and ends with its body comes out as it went in up
/// to the body, followed by the rewritten body in braces at the span of the
/// body; what is reported is what is reported about the body.
pub proof fn law_declaration_keeps_all_but_its_body(
    args: Seq<TokenView>,
    item: Seq<TokenView>,
    kind: ItemKind,
)
    requires
        args.len() == 0,
        plain_attributes_end(item, 0) matches Some(attrs_end) && ({
            let at = vis_end(item, attrs_end);
            &&& item_kind(item, at) == Some(kind)
            &&& at + 1 < item.len()
            &&& body_start(item, at + 2) == item.len() - 1
        }),
        body(kind, body_of(item)) is Ok,
    ensures
        ({
            let inside = body(kind, body_of(item))->Ok_0;
            let tokens = item.drop_last().push(
                TokenView::Group {
                    delimiter: Delimiter::Brace,
                    stream: inside.tokens,
                    span: item.last().span(),
                },
            );
            &&& rewritten(args, item) == Ok::<Streamed, SyntaxError>(
                Streamed { tokens, errors: inside.errors },
            )
            &&& expansion(args, item) == Ok::<Seq<TokenView>, SyntaxError>(
                tokens + error_tokens(inside.errors),
            )
        }),
{
    law_plain_attributes_are_kept(item, 0, None);
    let attrs = placed_attributes(item, 0, false)->Ok_0;
    let at = vis_end(item, attrs.end);
    lemma_body_start_bounds(item, at + 2);
    let inside = body(kind, body_of(item))->Ok_0;
    let group = TokenView::Group {
        delimiter: Delimiter::Brace,
        stream: inside.tokens,
        span: item.last().span(),
    };
    lemma_head_and_body(item, attrs.end, group);
    lemma_nothing_reported_before(args, inside.errors);
}

/// The start and the middle of a sequence are all but its last element.
proof fn lemma_head_and_body(item: Seq<TokenView>, cut: int, group: TokenView)
    requires
        0 <= cut < item.len(),
    ensures
        item.subrange(0, cut) + item.subrange(cut, item.len() - 1).push(group)
            == item.drop_last().push(group),
{
    assert(item.subrange(0, cut) + item.subrange(cut, item.len() - 1).push(group)
        =~= item.drop_last().push(group));
}

/// Where there are no arguments and the attributes report nothing, what is
/// reported is what comes after.
proof fn lemma_nothing_reported_before(args: Seq<TokenView>, errors: Seq<CompileErrorView>)
    requires
        args.len() == 0,
    ensures
        usage(args) + Seq::<CompileErrorView>::empty() + errors == errors,
{
    assert(usage(args) + Seq::<CompileErrorView>::empty() + errors =~= errors);
}

} // verus!
