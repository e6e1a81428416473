//! Fields and variants by their parts. A list is put together from its
//! fields, each from its name, its type and its comma, and the laws say what
//! comes of the tokens of such a list.

use crate::expansion;
use crate::error::{error_tokens, CompileErrorView, SyntaxError};
use crate::fields::{default_tokens, field, fields};
use crate::item::ItemKind;
use crate::lists::{
    after_unnamed_fields, body_of, fields_without_defaults, is_declaration,
    law_declaration_keeps_all_but_its_body, law_enum_without_named_fields_is_unchanged,
    law_every_field_gets_its_default, law_unit_and_positional_variants_are_unchanged,
    number_of_fields, plain_attributes_end, unit_and_positional_variants, with_defaults,
};
use crate::places::{
    is_closed_list, law_lists_are_rewritten_one_after_the_other, lemma_after_comma_of_a_run,
    lemma_closed_list_does_not_look_back, lemma_fields_do_not_look_back,
    lemma_list_does_not_look_back, lemma_type_end_of_a_run, lemma_variants_do_not_look_back,
};
use crate::skip::skip_attribute;
use crate::stream::{
    after_comma, attributes, lemma_streamed_after_twice, streamed_after, variant_end, vis_end,
    Attributes, Streamed,
};
use crate::token::{Delimiter, TokenView};
use crate::variants::variants;
use vstd::prelude::*;

verus! {

/// A field without attributes, visibility and default value, by its parts.
pub struct PlainField {
    /// The name, an identifier.
    pub name: TokenView,
    /// The colon after the name.
    pub colon: TokenView,
    /// The tokens of the type.
    pub ty: Seq<TokenView>,
    /// The comma after the field, if it has one.
    pub comma: Option<TokenView>,
}

impl PlainField {
    /// The parts are what they are called. The name is not `pub`, which
    /// would be read as a visibility; no `=` and no `,` stands in the type
    /// outside of brackets.
    pub open spec fn well_formed(self) -> bool {
        &&& self.name is Ident
        &&& !self.name.is_ident("pub"@)
        &&& self.colon.is_punct(':')
        &&& forall|k: int|
            0 <= k < self.ty.len() ==> !(#[trigger] self.ty[k]).is_punct('=') && !self.ty[k].is_punct(
                ',',
            )
        &&& self.comma matches Some(comma) ==> comma.is_punct(',')
    }

    /// The comma, as a sequence of one token or none.
    pub open spec fn comma_tokens(self) -> Seq<TokenView> {
        match self.comma {
            Some(comma) => seq![comma],
            None => Seq::empty(),
        }
    }

    /// The tokens of the field: `name: ty,`.
    pub open spec fn tokens(self) -> Seq<TokenView> {
        seq![self.name, self.colon] + self.ty + self.comma_tokens()
    }

    /// The tokens of the field with the default value added:
    /// `name: ty = ::core::default::Default::default(),`.
    pub open spec fn tokens_with_default(self) -> Seq<TokenView> {
        seq![self.name, self.colon] + self.ty + default_tokens(self.name.span())
            + self.comma_tokens()
    }
}

/// The fields of `list` are well formed, and each but the last has a comma.
pub open spec fn is_list_of_plain_fields(list: Seq<PlainField>) -> bool {
    forall|i: int|
        0 <= i < list.len() ==> (#[trigger] list[i]).well_formed() && (i + 1 < list.len()
            ==> list[i].comma is Some)
}

/// The tokens of the fields of `list`, one field after the other.
pub open spec fn tokens_of(list: Seq<PlainField>) -> Seq<TokenView>
    decreases list.len(),
{
    if list.len() == 0 {
        Seq::empty()
    } else {
        list[0].tokens() + tokens_of(list.subrange(1, list.len() as int))
    }
}

/// The tokens of the fields of `list`, each with the default value added.
pub open spec fn tokens_with_defaults_of(list: Seq<PlainField>) -> Seq<TokenView>
    decreases list.len(),
{
    if list.len() == 0 {
        Seq::empty()
    } else {
        list[0].tokens_with_default() + tokens_with_defaults_of(
            list.subrange(1, list.len() as int),
        )
    }
}

/// The fields `f1: T1, ..., fn: Tn` come out as `f1: T1 = D, ..., fn: Tn = D`,
/// with `D` the default value at the span of the field's name: for every
/// number of fields, with or without a comma after the last, and with nothing
/// reported.
pub proof fn law_plain_fields_get_their_defaults(list: Seq<PlainField>)
    requires
        is_list_of_plain_fields(list),
    ensures
        fields(tokens_of(list), 0, false) == Ok::<Streamed, SyntaxError>(
            Streamed { tokens: tokens_with_defaults_of(list), errors: Seq::empty() },
        ),
{
    lemma_plain_fields_are_recognized(list);
    law_every_field_gets_its_default(tokens_of(list), 0);
}

/// The tokens of a list of plain fields are a list of fields without
/// default values, and adding the defaults to the tokens is adding them to
/// each field.
#[verifier::rlimit(50)]
pub proof fn lemma_plain_fields_are_recognized(list: Seq<PlainField>)
    requires
        is_list_of_plain_fields(list),
    ensures
        fields_without_defaults(tokens_of(list), 0),
        with_defaults(tokens_of(list), 0) == tokens_with_defaults_of(list),
        number_of_fields(tokens_of(list), 0) == list.len(),
    decreases list.len(),
{
    let s = tokens_of(list);
    if list.len() > 0 {
        let first = list[0];
        let rest = list.subrange(1, list.len() as int);
        let head = first.tokens();
        let tail = tokens_of(rest);
        let k = head.len() as int;
        let value = 2 + first.ty.len() as int;
        assert(first.well_formed());
        assert(is_list_of_plain_fields(rest)) by {
            assert forall|i: int| 0 <= i < rest.len() implies (#[trigger] rest[i]).well_formed()
                && (i + 1 < rest.len() ==> rest[i].comma is Some) by {
                assert(rest[i] == list[i + 1]);
            }
        }
        lemma_plain_fields_are_recognized(rest);
        assert(s == head + tail);
        assert(s.subrange(k, s.len() as int) =~= tail);
        assert(s[0] == first.name);
        assert(s[1] == first.colon);
        assert(vis_end(s, 0) == 0);
        // The type runs up to the comma, or to the end of the list.
        assert forall|j: int| 2 <= j < value implies !s[j].is_punct('=') && !s[j].is_punct(
            ',',
        ) by {
            assert(s[j] == first.ty[j - 2]);
        }
        if first.comma is Some {
            assert(s[value] == first.comma->0);
            assert(k == value + 1);
        } else {
            assert(list.len() == 1);
            assert(tail =~= Seq::<TokenView>::empty());
            assert(k == value && s.len() == value);
        }
        lemma_type_end_of_a_run(s, 2, value);
        assert(after_comma(s, value) == k);
        lemma_list_does_not_look_back(s, k, 0);
        assert(s.subrange(0, value) =~= seq![first.name, first.colon] + first.ty);
        assert(s.subrange(value, k) =~= first.comma_tokens());
        assert(with_defaults(s, 0) =~= tokens_with_defaults_of(list));
    }
}

/// An attribute, by its parts.
pub struct PlainAttribute {
    /// The `#`.
    pub pound: TokenView,
    /// The group after it.
    pub group: TokenView,
}

/// The discriminant of a variant, by its parts.
pub struct Discriminant {
    /// The `=`.
    pub equals: TokenView,
    /// The tokens of the value.
    pub tokens: Seq<TokenView>,
}

/// A unit variant or a variant with unnamed fields, by its parts.
pub struct PlainVariant {
    /// The attributes, each a `#` and a group.
    pub attributes: Seq<PlainAttribute>,
    /// The name, an identifier.
    pub name: TokenView,
    /// The unnamed fields in parentheses, if the variant has any.
    pub fields: Option<TokenView>,
    /// The `=` and the tokens of the discriminant, if the variant has one.
    pub discriminant: Option<Discriminant>,
    /// The comma after the variant, if it has one.
    pub comma: Option<TokenView>,
}

/// The tokens of `attributes`, one attribute after the other.
pub open spec fn attribute_tokens(attributes: Seq<PlainAttribute>) -> Seq<TokenView>
    decreases attributes.len(),
{
    if attributes.len() == 0 {
        Seq::empty()
    } else {
        seq![attributes[0].pound, attributes[0].group] + attribute_tokens(
            attributes.subrange(1, attributes.len() as int),
        )
    }
}

impl PlainVariant {
    /// The parts are what they are called. No attribute is `auto_default`;
    /// the name is not `pub`, which would be read as a visibility; no `,`
    /// stands in the discriminant outside of brackets.
    pub open spec fn well_formed(self) -> bool {
        &&& forall|i: int|
            0 <= i < self.attributes.len() ==> {
                let attribute = #[trigger] self.attributes[i];
                &&& attribute.pound.is_punct('#')
                &&& attribute.group is Group
                &&& skip_attribute(attribute.group->stream).attribute is Absent
            }
        &&& self.name is Ident
        &&& !self.name.is_ident("pub"@)
        &&& self.fields matches Some(fields) ==> fields.is_group(Delimiter::Parenthesis)
        &&& self.discriminant matches Some(discriminant) ==> {
            &&& discriminant.equals.is_punct('=')
            &&& forall|k: int|
                0 <= k < discriminant.tokens.len() ==> !(#[trigger] discriminant.tokens[k]).is_punct(
                    ',',
                )
        }
        &&& self.comma matches Some(comma) ==> comma.is_punct(',')
    }

    /// What follows the name: the fields, the discriminant and the comma,
    /// as far as the variant has them.
    pub open spec fn tail(self) -> Seq<TokenView> {
        (match self.fields {
            Some(fields) => seq![fields],
            None => Seq::empty(),
        }) + (match self.discriminant {
            Some(discriminant) => seq![discriminant.equals] + discriminant.tokens,
            None => Seq::empty(),
        }) + (match self.comma {
            Some(comma) => seq![comma],
            None => Seq::empty(),
        })
    }

    /// The tokens of the variant: `#[..] Name(..) = discriminant,`.
    pub open spec fn tokens(self) -> Seq<TokenView> {
        attribute_tokens(self.attributes) + seq![self.name] + self.tail()
    }
}

/// The variants of `list` are well formed, and each but the last has a
/// comma.
pub open spec fn is_list_of_plain_variants(list: Seq<PlainVariant>) -> bool {
    forall|i: int|
        0 <= i < list.len() ==> (#[trigger] list[i]).well_formed() && (i + 1 < list.len()
            ==> list[i].comma is Some)
}

/// The tokens of the variants of `list`, one variant after the other.
pub open spec fn variant_tokens_of(list: Seq<PlainVariant>) -> Seq<TokenView>
    decreases list.len(),
{
    if list.len() == 0 {
        Seq::empty()
    } else {
        list[0].tokens() + variant_tokens_of(list.subrange(1, list.len() as int))
    }
}

/// Unit variants and variants with unnamed fields, in any number, with or
/// without attributes, discriminants and a comma after the last, come out
/// as they went in, with nothing reported.
pub proof fn law_plain_variants_are_unchanged(list: Seq<PlainVariant>)
    requires
        is_list_of_plain_variants(list),
    ensures
        variants(variant_tokens_of(list), 0) == Ok::<Streamed, SyntaxError>(
            Streamed { tokens: variant_tokens_of(list), errors: Seq::empty() },
        ),
{
    let s = variant_tokens_of(list);
    lemma_plain_variants_are_recognized(list);
    law_unit_and_positional_variants_are_unchanged(s, 0);
    assert(s.subrange(0, s.len() as int) =~= s);
}

/// In `s`, the attributes `attributes` stand from `p` on, and a token that
/// is no `#` stands after them: there the attributes end.
#[verifier::rlimit(50)]
pub proof fn lemma_plain_attributes_of_a_run(
    s: Seq<TokenView>,
    p: int,
    attributes: Seq<PlainAttribute>,
)
    requires
        0 <= p,
        p + 2 * attributes.len() < s.len(),
        s.subrange(p, p + 2 * attributes.len()) == attribute_tokens(attributes),
        attribute_tokens(attributes).len() == 2 * attributes.len(),
        !s[p + 2 * attributes.len()].is_punct('#'),
        forall|i: int|
            0 <= i < attributes.len() ==> {
                let attribute = #[trigger] attributes[i];
                &&& attribute.pound.is_punct('#')
                &&& attribute.group is Group
                &&& skip_attribute(attribute.group->stream).attribute is Absent
            },
    ensures
        plain_attributes_end(s, p) == Some(p + 2 * attributes.len()),
    decreases attributes.len(),
{
    if attributes.len() > 0 {
        let rest = attributes.subrange(1, attributes.len() as int);
        let all = attribute_tokens(attributes);
        let run = s.subrange(p, p + 2 * attributes.len());
        assert(attributes[0].pound.is_punct('#'));
        assert(s[p] == run[0]);
        assert(s[p + 1] == run[1]);
        assert(all[0] == attributes[0].pound);
        assert(all[1] == attributes[0].group);
        lemma_attribute_tokens_len(rest);
        assert(s.subrange(p + 2, p + 2 + 2 * rest.len()) =~= attribute_tokens(rest)) by {
            assert(all.subrange(2, all.len() as int) =~= attribute_tokens(rest));
            assert(s.subrange(p + 2, p + 2 + 2 * rest.len()) =~= run.subrange(
                2,
                run.len() as int,
            ));
        }
        assert forall|i: int| 0 <= i < rest.len() implies {
            let attribute = #[trigger] rest[i];
            &&& attribute.pound.is_punct('#')
            &&& attribute.group is Group
            &&& skip_attribute(attribute.group->stream).attribute is Absent
        } by {
            assert(rest[i] == attributes[i + 1]);
        }
        lemma_plain_attributes_of_a_run(s, p + 2, rest);
    }
}

/// Every attribute takes two tokens.
pub proof fn lemma_attribute_tokens_len(attributes: Seq<PlainAttribute>)
    ensures
        attribute_tokens(attributes).len() == 2 * attributes.len(),
    decreases attributes.len(),
{
    if attributes.len() > 0 {
        lemma_attribute_tokens_len(attributes.subrange(1, attributes.len() as int));
    }
}

/// The tokens of a list of plain variants are a list of unit variants and
/// variants with unnamed fields.
#[verifier::rlimit(50)]
pub proof fn lemma_plain_variants_are_recognized(list: Seq<PlainVariant>)
    requires
        is_list_of_plain_variants(list),
    ensures
        unit_and_positional_variants(variant_tokens_of(list), 0),
    decreases list.len(),
{
    let s = variant_tokens_of(list);
    if list.len() > 0 {
        let first = list[0];
        let rest = list.subrange(1, list.len() as int);
        let tail = variant_tokens_of(rest);
        let k = first.tokens().len() as int;
        assert(first.well_formed());
        assert(is_list_of_plain_variants(rest)) by {
            assert forall|i: int| 0 <= i < rest.len() implies (#[trigger] rest[i]).well_formed()
                && (i + 1 < rest.len() ==> rest[i].comma is Some) by {
                assert(rest[i] == list[i + 1]);
            }
        }
        lemma_plain_variants_are_recognized(rest);
        if first.comma is None {
            assert(list.len() == 1);
            assert(tail =~= Seq::<TokenView>::empty());
        }
        lemma_plain_variant_is_read(first, tail);
        assert(s.subrange(k, s.len() as int) =~= tail);
        lemma_variants_do_not_look_back(s, k, 0);
    }
}

/// In front of `tail`, the tokens of a plain variant are read as one
/// variant: its attributes end at its name, and the variant ends where its
/// tokens end.
#[verifier::rlimit(50)]
pub proof fn lemma_plain_variant_is_read(first: PlainVariant, tail: Seq<TokenView>)
    requires
        first.well_formed(),
        first.comma is None ==> tail.len() == 0,
    ensures
        ({
            let s = first.tokens() + tail;
            let name = 2 * first.attributes.len() as int;
            &&& 0 < s.len()
            &&& plain_attributes_end(s, 0) == Some(name)
            &&& vis_end(s, name) == name
            &&& name < s.len()
            &&& s[name] is Ident
            &&& variant_end(s, after_unnamed_fields(s, name)) == Some(
                first.tokens().len() as int,
            )
        }),
{
    let s = first.tokens() + tail;
    let k = first.tokens().len() as int;
    let attrs = attribute_tokens(first.attributes);
    let name = attrs.len() as int;
    lemma_attribute_tokens_len(first.attributes);
    assert(s[name] == first.name);
    assert(s.subrange(0, name) =~= attrs);
    lemma_plain_attributes_of_a_run(s, 0, first.attributes);
    let after = after_unnamed_fields(s, name);
    let fields_len: int = if first.fields is Some {
        1
    } else {
        0
    };
    assert(after == name + 1 + fields_len) by {
        if first.fields is Some {
            assert(s[name + 1] == first.fields->0);
        } else if name + 1 < s.len() {
            if name + 1 < k {
                assert(s[name + 1] == first.tail()[0]);
            } else {
                assert(first.comma is None);
            }
        }
    }
    if first.discriminant is Some {
        let expr = first.discriminant->0.tokens;
        assert(s[after] == first.discriminant->0.equals);
        assert forall|j: int| after + 1 <= j < after + 1 + expr.len() implies !s[j].is_punct(
            ',',
        ) by {
            assert(s[j] == expr[j - after - 1]);
        }
        if first.comma is Some {
            assert(s[after + 1 + expr.len()] == first.comma->0);
        }
        lemma_after_comma_of_a_run(s, after + 1, after + 1 + expr.len());
    } else if first.comma is Some {
        assert(s[after] == first.comma->0);
    }
}

/// A `struct` with the fields `f1: T1, ..., fn: Tn`, which have neither
/// attributes nor default values, comes out of an invocation without
/// arguments with the default value added to each of its fields, and
/// nothing reported: the output is the declaration up to its body, and the
/// body `{ f1: T1 = D, ..., fn: Tn = D }`.
pub proof fn law_struct_of_plain_fields_gets_its_defaults(
    args: Seq<TokenView>,
    item: Seq<TokenView>,
    list: Seq<PlainField>,
)
    requires
        args.len() == 0,
        is_declaration(item, "struct"@),
        body_of(item) == tokens_of(list),
        is_list_of_plain_fields(list),
    ensures
        expansion(args, item) == Ok::<Seq<TokenView>, SyntaxError>(
            item.drop_last().push(
                TokenView::Group {
                    delimiter: Delimiter::Brace,
                    stream: tokens_with_defaults_of(list),
                    span: item.last().span(),
                },
            ),
        ),
{
    law_plain_fields_get_their_defaults(list);
    law_declaration_keeps_all_but_its_body(args, item, ItemKind::Struct);
    let tokens = item.drop_last().push(
        TokenView::Group {
            delimiter: Delimiter::Brace,
            stream: tokens_with_defaults_of(list),
            span: item.last().span(),
        },
    );
    assert(error_tokens(Seq::<CompileErrorView>::empty()) =~= Seq::<TokenView>::empty());
    assert(tokens + Seq::<TokenView>::empty() =~= tokens);
}

/// An `enum` with unit variants and variants with unnamed fields, none
/// with an `auto_default` attribute, comes out of an invocation without
/// arguments token for token as it went in.
pub proof fn law_enum_of_plain_variants_is_unchanged(
    args: Seq<TokenView>,
    item: Seq<TokenView>,
    list: Seq<PlainVariant>,
)
    requires
        args.len() == 0,
        is_declaration(item, "enum"@),
        body_of(item) == variant_tokens_of(list),
        is_list_of_plain_variants(list),
    ensures
        expansion(args, item) == Ok::<Seq<TokenView>, SyntaxError>(item),
{
    lemma_plain_variants_are_recognized(list);
    law_enum_without_named_fields_is_unchanged(args, item);
}

/// A field `#[auto_default(skip)] name: ty,` at the start of a list comes
/// out as `name: ty,`, with nothing reported, and the rest of the list comes
/// out as on its own.
#[verifier::rlimit(50)]
pub proof fn lemma_marked_plain_field_is_first(
    mark: PlainAttribute,
    marked: PlainField,
    after: Seq<TokenView>,
    is_skip_variant: bool,
)
    requires
        mark.pound.is_punct('#'),
        mark.group is Group,
        skip_attribute(mark.group->stream).attribute is Skip,
        marked.well_formed(),
        marked.comma is None ==> after.len() == 0,
    ensures
        fields(seq![mark.pound, mark.group] + marked.tokens() + after, 0, is_skip_variant)
            == streamed_after(marked.tokens(), Seq::empty(), fields(after, 0, is_skip_variant)),
{
    let s = seq![mark.pound, mark.group] + marked.tokens() + after;
    let value = 4 + marked.ty.len() as int;
    let end = 2 + marked.tokens().len() as int;
    assert(s[0] == mark.pound);
    assert(s[1] == mark.group);
    assert(s[2] == marked.name);
    assert(s[3] == marked.colon);
    let found = skip_attribute(mark.group->stream).attribute.skip();
    assert(skip_attribute(mark.group->stream).errors =~= Seq::<CompileErrorView>::empty());
    assert(attributes(s, 2, found) == Ok::<Attributes, SyntaxError>(
        Attributes { kept: Seq::empty(), skip: found, errors: Seq::empty(), end: 2 },
    ));
    let f = field(s, 0)->Ok_0;
    assert(f.attributes.kept =~= Seq::<TokenView>::empty());
    assert(f.attributes.errors =~= Seq::<CompileErrorView>::empty());
    assert(f.attributes.skip is Some && f.attributes.end == 2);
    assert(f.name == 2);
    assert forall|j: int| 4 <= j < value implies !s[j].is_punct('=') && !s[j].is_punct(',') by {
        assert(s[j] == marked.ty[j - 4]);
    }
    if marked.comma is Some {
        assert(s[value] == marked.comma->0);
        assert(end == value + 1);
    } else {
        assert(end == value && s.len() == value);
    }
    lemma_type_end_of_a_run(s, 4, value);
    assert(f.value == value && f.end == end);
    assert(f.tokens(s, is_skip_variant) =~= marked.tokens());
    assert(s.subrange(end, s.len() as int) =~= after);
    lemma_fields_do_not_look_back(s, end, 0, is_skip_variant);
}

/// A field `#[auto_default(skip)] name: ty,` stands in the output as
/// `name: ty,`, wherever in a list it stands and whether or not the variant
/// around the list is marked: after the fields `before`, which come out as
/// on their own, and before the fields `after`, which do too. Nothing is
/// added to the field, and nothing is reported about it.
pub proof fn law_marked_plain_field_is_unchanged(
    before: Seq<TokenView>,
    mark: PlainAttribute,
    marked: PlainField,
    after: Seq<TokenView>,
    is_skip_variant: bool,
)
    requires
        is_closed_list(before, 0),
        mark.pound.is_punct('#'),
        mark.group is Group,
        skip_attribute(mark.group->stream).attribute is Skip,
        marked.well_formed(),
        marked.comma is None ==> after.len() == 0,
    ensures
        fields(before, 0, is_skip_variant) is Ok,
        fields(
            before + (seq![mark.pound, mark.group] + marked.tokens() + after),
            0,
            is_skip_variant,
        ) == streamed_after(
            fields(before, 0, is_skip_variant)->Ok_0.tokens + marked.tokens(),
            fields(before, 0, is_skip_variant)->Ok_0.errors,
            fields(after, 0, is_skip_variant),
        ),
{
    let rest = seq![mark.pound, mark.group] + marked.tokens() + after;
    let first = fields(before, 0, is_skip_variant);
    law_lists_are_rewritten_one_after_the_other(before, rest, is_skip_variant);
    lemma_marked_plain_field_is_first(mark, marked, after, is_skip_variant);
    lemma_streamed_after_twice(
        first->Ok_0.tokens,
        first->Ok_0.errors,
        marked.tokens(),
        Seq::empty(),
        fields(after, 0, is_skip_variant),
    );
    assert(first->Ok_0.errors + Seq::<CompileErrorView>::empty() =~= first->Ok_0.errors);
}

/// The tokens of plain fields that all have their comma are a list of
/// which each field ends with its comma.
#[verifier::rlimit(50)]
pub proof fn law_plain_fields_with_commas_are_closed(list: Seq<PlainField>)
    requires
        is_list_of_plain_fields(list),
        forall|i: int| 0 <= i < list.len() ==> (#[trigger] list[i]).comma is Some,
    ensures
        is_closed_list(tokens_of(list), 0),
    decreases list.len(),
{
    let s = tokens_of(list);
    if list.len() > 0 {
        let first = list[0];
        let rest = list.subrange(1, list.len() as int);
        let tail = tokens_of(rest);
        let k = first.tokens().len() as int;
        let value = 2 + first.ty.len() as int;
        assert(first.well_formed() && first.comma is Some);
        assert(is_list_of_plain_fields(rest)) by {
            assert forall|i: int| 0 <= i < rest.len() implies (#[trigger] rest[i]).well_formed()
                && (i + 1 < rest.len() ==> rest[i].comma is Some) by {
                assert(rest[i] == list[i + 1]);
            }
        }
        assert forall|i: int| 0 <= i < rest.len() implies (#[trigger] rest[i]).comma is Some by {
            assert(rest[i] == list[i + 1]);
        }
        law_plain_fields_with_commas_are_closed(rest);
        assert(s == first.tokens() + tail);
        assert(s.subrange(k, s.len() as int) =~= tail);
        assert(s[0] == first.name);
        assert(s[1] == first.colon);
        assert forall|j: int| 2 <= j < value implies !s[j].is_punct('=') && !s[j].is_punct(
            ',',
        ) by {
            assert(s[j] == first.ty[j - 2]);
        }
        assert(s[value] == first.comma->0);
        lemma_type_end_of_a_run(s, 2, value);
        let f = field(s, 0)->Ok_0;
        assert(f.name == 0 && f.value == value && f.end == k);
        lemma_closed_list_does_not_look_back(s, k, 0);
    }
}

} // verus!
