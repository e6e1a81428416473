use auto_default::cursor::Cursor;
use auto_default::error::{push_error, stream_errors, CompileError, SyntaxError};
use auto_default::fields::{
    add_default_field_values, stream_field, stream_field_value, stream_type,
};
use auto_default::item::{stream_generics, stream_keyword, ItemKind};
use auto_default::skip::{is_skip_attribute, SkipAttribute};
use auto_default::stream::{
    is_variant_end, stream_attrs, stream_enum_variant_discriminant_and_comma, stream_ident,
    stream_through_comma, stream_token, stream_vis, IsSkip, IsSkipAllowed,
};
use auto_default::token::{
    append_tokens, copy_token, push_token, same_text, Delimiter, Spacing, Span, Token,
};
use auto_default::variants::{
    add_default_variant_values, disallow_skip, stream_variant, stream_variant_payload,
};

fn at(tag: u64) -> Span {
    Span::Source(tag)
}

fn id(name: &str, tag: u64) -> Token {
    Token::ident(name, at(tag))
}

fn p(ch: char, tag: u64) -> Token {
    Token::punct(ch, Spacing::Alone, at(tag))
}

fn lit(text: &str, tag: u64) -> Token {
    Token::literal(text, at(tag))
}

fn paren(stream: Vec<Token>, tag: u64) -> Token {
    Token::group(Delimiter::Parenthesis, stream, at(tag))
}

fn brace(stream: Vec<Token>, tag: u64) -> Token {
    Token::group(Delimiter::Brace, stream, at(tag))
}

fn bracket(stream: Vec<Token>, tag: u64) -> Token {
    Token::group(Delimiter::Bracket, stream, at(tag))
}

/// `#[auto_default(skip)]`, with the tags `tag` to `tag + 4` in the order `# [ auto_default ( skip`.
fn skip_attr(tag: u64) -> Vec<Token> {
    vec![
        p('#', tag),
        bracket(vec![id("auto_default", tag + 2), paren(vec![id("skip", tag + 4)], tag + 3)], tag + 1),
    ]
}

/// `#[name]`, with the tags `tag` to `tag + 2`.
fn attr(name: &str, tag: u64) -> Vec<Token> {
    vec![p('#', tag), bracket(vec![id(name, tag + 2)], tag + 1)]
}

fn cat(parts: Vec<Vec<Token>>) -> Vec<Token> {
    parts.into_iter().flatten().collect()
}

/// The tokens that `default` gives for a field at `span`.
fn expected_default(span: Span) -> Vec<Token> {
    let colon = || Token::Punct { ch: ':', spacing: Spacing::Joint, span };
    let ident = |name: &str| Token::Ident { name: name.to_string(), span };
    vec![
        Token::Punct { ch: '=', spacing: Spacing::Alone, span },
        colon(),
        colon(),
        ident("core"),
        colon(),
        colon(),
        ident("default"),
        colon(),
        colon(),
        ident("Default"),
        colon(),
        colon(),
        ident("default"),
        Token::Group { delimiter: Delimiter::Parenthesis, stream: Vec::new(), span },
    ]
}

#[test]
fn constructors_build_the_variants() {
    assert_eq!(id("a", 1), Token::Ident { name: "a".to_string(), span: at(1) });
    assert_eq!(
        Token::punct(':', Spacing::Joint, at(2)),
        Token::Punct { ch: ':', spacing: Spacing::Joint, span: at(2) }
    );
    assert_eq!(lit("40", 3), Token::Literal { text: "40".to_string(), span: at(3) });
    assert_eq!(
        Token::string("say \"hi\"", at(4)),
        Token::StringLiteral { value: "say \"hi\"".to_string(), span: at(4) }
    );
    assert_eq!(
        brace(vec![id("a", 6)], 5),
        Token::Group { delimiter: Delimiter::Brace, stream: vec![id("a", 6)], span: at(5) }
    );
}

#[test]
fn span_and_with_span() {
    let group = paren(vec![id("inner", 2)], 1);
    for token in [id("a", 1), p(',', 1), lit("1", 1), Token::string("s", at(1)), group.clone()] {
        assert_eq!(token.span(), at(1));
        assert_eq!(token.clone().with_span(Span::CallSite).span(), Span::CallSite);
    }
    // The tokens inside a group keep their spans.
    assert_eq!(group.with_span(at(9)), paren(vec![id("inner", 2)], 9));
    assert_eq!(id("a", 1).with_span(at(7)), id("a", 7));
}

#[test]
fn token_predicates() {
    assert!(p('#', 0).is_punct('#'));
    assert!(Token::punct('#', Spacing::Joint, at(0)).is_punct('#'));
    assert!(!p('#', 0).is_punct(','));
    assert!(!id("pub", 0).is_punct('#'));
    assert!(id("pub", 0).is_ident("pub"));
    assert!(!id("public", 0).is_ident("pub"));
    assert!(!lit("pub", 0).is_ident("pub"));
    assert!(brace(Vec::new(), 0).is_group(Delimiter::Brace));
    assert!(!brace(Vec::new(), 0).is_group(Delimiter::Parenthesis));
    assert!(!id("a", 0).is_group(Delimiter::Brace));
    assert!(same_text(&"skip".to_string(), "skip"));
    assert!(!same_text(&"skip".to_string(), "skipp"));
    assert!(!same_text(&"".to_string(), "skip"));
}

#[test]
fn group_stream_gives_the_inside_of_groups_only() {
    let group = bracket(vec![id("a", 1), p(',', 2)], 0);
    assert_eq!(group.group_stream(), Some(&vec![id("a", 1), p(',', 2)]));
    assert_eq!(id("a", 1).group_stream(), None);
    assert_eq!(Token::string("a", at(1)).group_stream(), None);
}

#[test]
fn clone_copies_nested_groups() {
    let token = brace(vec![id("a", 1), paren(vec![lit("1", 3), bracket(Vec::new(), 4)], 2)], 0);
    let copy = token.clone();
    assert_eq!(copy, token);
    assert_eq!(
        copy,
        Token::Group {
            delimiter: Delimiter::Brace,
            stream: vec![
                id("a", 1),
                Token::Group {
                    delimiter: Delimiter::Parenthesis,
                    stream: vec![
                        lit("1", 3),
                        Token::Group {
                            delimiter: Delimiter::Bracket,
                            stream: Vec::new(),
                            span: at(4)
                        },
                    ],
                    span: at(2),
                },
            ],
            span: at(0),
        }
    );
}

#[test]
fn sinks_grow_at_the_end() {
    let mut sink = vec![id("a", 0)];
    push_token(&mut sink, id("b", 1));
    copy_token(&mut sink, &id("c", 2));
    append_tokens(&mut sink, vec![id("d", 3), id("e", 4)]);
    append_tokens(&mut sink, Vec::new());
    assert_eq!(sink, vec![id("a", 0), id("b", 1), id("c", 2), id("d", 3), id("e", 4)]);
}

#[test]
fn cursor_reads_in_order_and_stops_at_the_end() {
    let tokens = vec![id("a", 0), p(':', 1)];
    let mut cursor = Cursor::new(&tokens);
    assert_eq!(cursor.peek(), Some(&tokens[0]));
    assert_eq!(cursor.peek(), Some(&tokens[0]));
    assert_eq!(cursor.next(), Some(&tokens[0]));
    assert_eq!(cursor.peek(), Some(&tokens[1]));
    assert_eq!(cursor.next(), Some(&tokens[1]));
    assert_eq!(cursor.peek(), None);
    assert_eq!(cursor.next(), None);
    assert_eq!(cursor.next(), None);
    let empty = Vec::new();
    let mut cursor = Cursor::new(&empty);
    assert_eq!(cursor.peek(), None);
    assert_eq!(cursor.next(), None);
}

#[test]
fn compile_error_becomes_an_invocation_of_compile_error() {
    let error = CompileError::new(at(3), "no arguments expected");
    assert_eq!(error.span, at(3));
    assert_eq!(error.message, "no arguments expected");
    let colon = || Token::punct(':', Spacing::Joint, at(3));
    let expected = vec![
        colon(),
        colon(),
        id("core", 3),
        colon(),
        colon(),
        id("compile_error", 3),
        p('!', 3),
        brace(vec![Token::string("no arguments expected", at(3))], 3),
    ];
    let mut sink = vec![id("before", 0)];
    error.stream_into(&mut sink);
    assert_eq!(sink, cat(vec![vec![id("before", 0)], expected.clone()]));
    assert_eq!(error.into_tokens(), expected);
}

#[test]
fn errors_are_streamed_in_their_order() {
    let mut errors = Vec::new();
    push_error(&mut errors, CompileError::new(at(1), "first"));
    push_error(&mut errors, CompileError::new(Span::CallSite, "second"));
    assert_eq!(
        errors,
        vec![
            CompileError { span: at(1), message: "first".to_string() },
            CompileError { span: Span::CallSite, message: "second".to_string() },
        ]
    );
    let mut sink = vec![id("x", 0)];
    stream_errors(&errors, &mut sink);
    assert_eq!(
        sink,
        cat(vec![
            vec![id("x", 0)],
            CompileError::new(at(1), "first").into_tokens(),
            CompileError::new(Span::CallSite, "second").into_tokens(),
        ])
    );
    let mut untouched = vec![id("x", 0)];
    stream_errors(&Vec::new(), &mut untouched);
    assert_eq!(untouched, vec![id("x", 0)]);
}

#[test]
fn skip_attribute_is_recognized() {
    let mut errors = Vec::new();
    let attr = vec![id("auto_default", 0), paren(vec![id("skip", 2)], 1)];
    assert_eq!(is_skip_attribute(&attr, &mut errors), SkipAttribute::Skip(at(2)));
    assert_eq!(errors, Vec::new());
}

#[test]
fn other_attributes_are_not_touched() {
    let mut errors = Vec::new();
    assert_eq!(is_skip_attribute(&Vec::new(), &mut errors), SkipAttribute::Absent);
    let attr = vec![id("derive", 0), paren(vec![id("skip", 2)], 1)];
    assert_eq!(is_skip_attribute(&attr, &mut errors), SkipAttribute::Absent);
    let attr = vec![p('!', 0), id("auto_default", 1)];
    assert_eq!(is_skip_attribute(&attr, &mut errors), SkipAttribute::Absent);
    let attr = vec![lit("auto_default", 0)];
    assert_eq!(is_skip_attribute(&attr, &mut errors), SkipAttribute::Absent);
    assert_eq!(errors, Vec::new());
}

#[test]
fn malformed_skip_attributes_are_reported() {
    let cases: Vec<(Vec<Token>, Span, &str)> = vec![
        (vec![id("auto_default", 0)], at(0), "expected `(skip)` after this"),
        (vec![id("auto_default", 0), p('=', 1), id("skip", 2)], at(1), "expected `(skip)`"),
        (vec![id("auto_default", 0), brace(vec![id("skip", 2)], 1)], at(1), "expected `(skip)`"),
        (vec![id("auto_default", 0), bracket(vec![id("skip", 2)], 1)], at(1), "expected `(skip)`"),
        (vec![id("auto_default", 0), paren(Vec::new(), 1)], at(1), "expected `(skip)`, found `()`"),
        (vec![id("auto_default", 0), paren(vec![lit("1", 2)], 1)], at(2), "expected `skip`"),
        (vec![id("auto_default", 0), paren(vec![id("not_skip", 2)], 1)], at(2), "expected `skip`"),
        (
            vec![id("auto_default", 0), paren(vec![id("skip", 2), id("a", 3)], 1)],
            at(3),
            "unexpected token",
        ),
        // Nothing may follow the parentheses.
        (
            vec![id("auto_default", 0), paren(vec![id("skip", 2)], 1), id("more", 3)],
            at(3),
            "unexpected token",
        ),
        (
            vec![id("auto_default", 0), paren(vec![id("skip", 2)], 1), paren(vec![id("skip", 4)], 3)],
            at(3),
            "unexpected token",
        ),
    ];
    for (attr, span, message) in cases {
        let mut errors = vec![CompileError::new(at(99), "earlier")];
        assert_eq!(is_skip_attribute(&attr, &mut errors), SkipAttribute::Malformed);
        assert_eq!(
            errors,
            vec![CompileError::new(at(99), "earlier"), CompileError::new(span, message)]
        );
    }
}

#[test]
fn stream_token_copies_one_token_if_there_is_one() {
    let tokens = vec![p(':', 0), brace(vec![id("a", 2)], 1)];
    let mut source = Cursor::new(&tokens);
    let mut sink = Vec::new();
    stream_token(&mut source, &mut sink);
    assert_eq!(sink, tokens[..1].to_vec());
    stream_token(&mut source, &mut sink);
    stream_token(&mut source, &mut sink);
    assert_eq!(sink, tokens);
    assert_eq!(source.peek(), None);
}

#[test]
fn stream_ident_copies_one_token_whatever_it_is() {
    let tokens = vec![id("name", 0), paren(Vec::new(), 1)];
    let mut source = Cursor::new(&tokens);
    let mut sink = Vec::new();
    assert_eq!(stream_ident(&mut source, &mut sink), Some(at(0)));
    assert_eq!(stream_ident(&mut source, &mut sink), Some(at(1)));
    assert_eq!(stream_ident(&mut source, &mut sink), None);
    assert_eq!(sink, tokens);
}

#[test]
fn stream_vis_copies_pub_and_its_restriction() {
    let cases: Vec<(Vec<Token>, usize)> = vec![
        (vec![id("pub", 0), paren(vec![id("crate", 2)], 1), id("a", 3)], 2),
        (vec![id("pub", 0), paren(vec![id("in", 2), id("crate", 3)], 1)], 2),
        (vec![id("pub", 0), id("a", 1)], 1),
        (vec![id("pub", 0), brace(Vec::new(), 1)], 1),
        (vec![id("pub", 0)], 1),
        (vec![id("a", 0), id("pub", 1)], 0),
        (vec![paren(Vec::new(), 0)], 0),
        (Vec::new(), 0),
    ];
    for (tokens, copied) in cases {
        let mut source = Cursor::new(&tokens);
        let mut sink = vec![id("before", 9)];
        stream_vis(&mut source, &mut sink);
        assert_eq!(sink, cat(vec![vec![id("before", 9)], tokens[..copied].to_vec()]));
        assert_eq!(source.peek(), tokens.get(copied));
    }
}

#[test]
fn stream_through_comma_takes_the_comma_with_it() {
    let cases: Vec<(Vec<Token>, usize)> = vec![
        (vec![p('=', 0), lit("1", 1), p(',', 2), id("b", 3)], 3),
        (vec![p(',', 0), p(',', 1)], 1),
        (vec![p('=', 0), lit("1", 1)], 2),
        // A comma inside a group does not end anything.
        (vec![paren(vec![p(',', 1)], 0), id("a", 2)], 2),
        (Vec::new(), 0),
    ];
    for (tokens, copied) in cases {
        let mut source = Cursor::new(&tokens);
        let mut sink = Vec::new();
        stream_through_comma(&mut source, &mut sink);
        assert_eq!(sink, tokens[..copied].to_vec());
        assert_eq!(source.peek(), tokens.get(copied));
    }
}

#[test]
fn stream_type_stops_before_the_default_or_the_comma() {
    let cases: Vec<(Vec<Token>, usize)> = vec![
        (vec![id("some", 0), p(':', 1), p(':', 2), id("Type", 3), p(',', 4)], 4),
        (vec![id("u8", 0), p('=', 1), lit("1", 2)], 1),
        (vec![id("u8", 0)], 1),
        (vec![p(',', 0)], 0),
        (vec![paren(vec![id("u8", 1), p(',', 2), id("u8", 3)], 0), p(',', 4)], 1),
        (Vec::new(), 0),
    ];
    for (tokens, copied) in cases {
        let mut source = Cursor::new(&tokens);
        let mut sink = Vec::new();
        stream_type(&mut source, &mut sink);
        assert_eq!(sink, tokens[..copied].to_vec());
        assert_eq!(source.peek(), tokens.get(copied));
    }
}

#[test]
fn stream_generics_stops_before_the_body() {
    let cases: Vec<(Vec<Token>, usize)> = vec![
        (vec![p('<', 0), id("T", 1), p('>', 2), brace(Vec::new(), 3), id("x", 4)], 3),
        (vec![brace(Vec::new(), 0)], 0),
        (vec![paren(vec![id("u32", 1)], 0), p(';', 2)], 2),
        (Vec::new(), 0),
    ];
    for (tokens, copied) in cases {
        let mut source = Cursor::new(&tokens);
        let mut sink = Vec::new();
        stream_generics(&mut source, &mut sink);
        assert_eq!(sink, tokens[..copied].to_vec());
        assert_eq!(source.peek(), tokens.get(copied));
    }
}

#[test]
fn stream_keyword_tells_struct_from_enum() {
    let tokens = vec![id("struct", 0), id("enum", 1), id("union", 2)];
    let mut source = Cursor::new(&tokens);
    let mut sink = Vec::new();
    assert_eq!(stream_keyword(&mut source, &mut sink), Ok(ItemKind::Struct));
    assert_eq!(stream_keyword(&mut source, &mut sink), Ok(ItemKind::Enum));
    assert_eq!(stream_keyword(&mut source, &mut sink), Err(at(2)));
    // What is no keyword stays unread.
    assert_eq!(source.peek(), Some(&tokens[2]));
    assert_eq!(sink, tokens[..2].to_vec());
    let empty = Vec::new();
    let mut source = Cursor::new(&empty);
    assert_eq!(stream_keyword(&mut source, &mut sink), Err(Span::CallSite));
    let literal = vec![lit("struct", 0)];
    let mut source = Cursor::new(&literal);
    assert_eq!(stream_keyword(&mut source, &mut sink), Err(at(0)));
}

#[test]
fn discriminant_and_comma() {
    let cases: Vec<(Vec<Token>, usize)> = vec![
        (vec![p(',', 0), id("B", 1)], 1),
        (vec![p('=', 0), lit("1", 1), p('+', 2), lit("1", 3), p(',', 4), id("B", 5)], 5),
        (vec![p('=', 0), lit("2", 1)], 2),
        (vec![p('=', 0)], 1),
        (Vec::new(), 0),
    ];
    for (tokens, copied) in cases {
        let mut source = Cursor::new(&tokens);
        assert!(is_variant_end(&source));
        let mut sink = Vec::new();
        stream_enum_variant_discriminant_and_comma(&mut source, &mut sink);
        assert_eq!(sink, tokens[..copied].to_vec());
        assert_eq!(source.peek(), tokens.get(copied));
    }
}

#[test]
fn a_variant_ends_at_a_comma_a_discriminant_or_the_end_only() {
    for tokens in [
        vec![id("B", 0)],
        vec![p(';', 0)],
        vec![lit("1", 0)],
        vec![paren(Vec::new(), 0), p(',', 1)],
        vec![brace(Vec::new(), 0)],
    ] {
        let source = Cursor::new(&tokens);
        assert!(!is_variant_end(&source));
    }
    let tokens = vec![id("A", 0), p(',', 1)];
    let mut source = Cursor::new(&tokens);
    assert!(!is_variant_end(&source));
    let _ = source.next();
    assert!(is_variant_end(&source));
    let _ = source.next();
    assert!(is_variant_end(&source));
}

#[test]
fn stream_attrs_keeps_other_attributes_and_finds_skip() {
    let tokens = cat(vec![attr("a", 0), skip_attr(3), attr("b", 8), vec![id("field", 11)]]);
    let mut source = Cursor::new(&tokens);
    let mut sink = Vec::new();
    let mut errors = Vec::new();
    let found = stream_attrs(&mut source, &mut sink, &mut errors, IsSkipAllowed(true));
    assert_eq!(found, Ok(IsSkip(true)));
    assert_eq!(sink, cat(vec![attr("a", 0), attr("b", 8)]));
    assert_eq!(errors, Vec::new());
    assert_eq!(source.peek(), Some(&id("field", 11)));
}

#[test]
fn stream_attrs_without_skip() {
    // Attributes end at the first token that is no `#`; later ones belong to something else.
    let tokens = cat(vec![attr("a", 0), vec![id("field", 3)], attr("late", 4)]);
    for allowed in [true, false] {
        let mut source = Cursor::new(&tokens);
        let mut sink = Vec::new();
        let mut errors = Vec::new();
        let found = stream_attrs(&mut source, &mut sink, &mut errors, IsSkipAllowed(allowed));
        assert_eq!(found, Ok(IsSkip(false)));
        assert_eq!(sink, attr("a", 0));
        assert_eq!(errors, Vec::new());
        assert_eq!(source.peek(), Some(&id("field", 3)));
    }
    let none = Vec::new();
    let mut source = Cursor::new(&none);
    let mut sink = Vec::new();
    let mut errors = Vec::new();
    let found = stream_attrs(&mut source, &mut sink, &mut errors, IsSkipAllowed(true));
    assert_eq!(found, Ok(IsSkip(false)));
    assert_eq!(sink, Vec::new());
    assert_eq!(errors, Vec::new());
}

#[test]
fn stream_attrs_reports_skip_where_it_is_not_allowed() {
    let tokens = cat(vec![skip_attr(0), skip_attr(5)]);
    let mut source = Cursor::new(&tokens);
    let mut sink = Vec::new();
    let mut errors = Vec::new();
    let found = stream_attrs(&mut source, &mut sink, &mut errors, IsSkipAllowed(false));
    assert_eq!(found, Ok(IsSkip(true)));
    assert_eq!(sink, Vec::new());
    // The duplicate is reported at the second `skip`, the placement at the first.
    assert_eq!(
        errors,
        vec![
            CompileError::new(at(9), "duplicate `#[auto_default(skip)]`"),
            CompileError::new(at(4), "`#[auto_default(skip)]` is not allowed on container"),
        ]
    );
}

#[test]
fn stream_attrs_drops_a_malformed_skip_and_does_not_count_it() {
    let malformed = vec![p('#', 0), bracket(vec![id("auto_default", 2)], 1)];
    let tokens = cat(vec![malformed, attr("kept", 3), vec![id("field", 6)]]);
    let mut source = Cursor::new(&tokens);
    let mut sink = Vec::new();
    let mut errors = Vec::new();
    let found = stream_attrs(&mut source, &mut sink, &mut errors, IsSkipAllowed(false));
    assert_eq!(found, Ok(IsSkip(false)));
    assert_eq!(sink, attr("kept", 3));
    assert_eq!(errors, vec![CompileError::new(at(2), "expected `(skip)` after this")]);
}

#[test]
fn stream_attrs_takes_a_group_in_any_brackets() {
    let tokens = vec![p('#', 0), paren(vec![id("a", 2)], 1), p('#', 3), brace(Vec::new(), 4)];
    let mut source = Cursor::new(&tokens);
    let mut sink = Vec::new();
    let mut errors = Vec::new();
    let found = stream_attrs(&mut source, &mut sink, &mut errors, IsSkipAllowed(true));
    assert_eq!(found, Ok(IsSkip(false)));
    assert_eq!(sink, tokens);
}

#[test]
fn stream_attrs_cannot_read_a_pound_without_group() {
    for tokens in [vec![p('#', 0)], vec![p('#', 0), id("a", 1)], cat(vec![attr("a", 0), vec![p('#', 3), p('!', 4)]])] {
        let mut source = Cursor::new(&tokens);
        let mut sink = Vec::new();
        let mut errors = Vec::new();
        let found = stream_attrs(&mut source, &mut sink, &mut errors, IsSkipAllowed(true));
        assert_eq!(found, Err(SyntaxError::AttributeWithoutGroup));
    }
}

#[test]
fn default_is_the_qualified_call() {
    assert_eq!(auto_default::fields::default(at(5)), expected_default(at(5)));
    assert_eq!(auto_default::fields::default(Span::CallSite), expected_default(Span::CallSite));
    assert_eq!(auto_default::fields::default(at(5)).len(), 14);
}

#[test]
fn field_value_gets_the_default_between_type_and_comma() {
    // What follows the name, how much of it belongs to the field, where the default goes.
    let cases: Vec<(Vec<Token>, usize, Option<usize>)> = vec![
        (vec![p(':', 0), id("u8", 1), p(',', 2), id("b", 3)], 3, Some(2)),
        (vec![p(':', 0), id("u8", 1)], 2, Some(2)),
        (vec![p(':', 0), id("u8", 1), p('=', 2), lit("1", 3), p(',', 4), id("b", 5)], 5, None),
        (vec![p(':', 0), id("u8", 1), p('=', 2), lit("1", 3)], 4, None),
        (vec![p(',', 0), id("b", 1)], 2, Some(2)),
        (Vec::new(), 0, Some(0)),
    ];
    for (tokens, taken, added_at) in cases {
        for skip in [false, true] {
            let mut source = Cursor::new(&tokens);
            let mut sink = vec![id("a", 9)];
            stream_field_value(&mut source, &mut sink, IsSkip(skip), at(9));
            let expected = match added_at {
                Some(value) if !skip => cat(vec![
                    vec![id("a", 9)],
                    tokens[..value].to_vec(),
                    expected_default(at(9)),
                    tokens[value..taken].to_vec(),
                ]),
                _ => cat(vec![vec![id("a", 9)], tokens[..taken].to_vec()]),
            };
            assert_eq!(sink, expected);
            assert_eq!(source.peek(), tokens.get(taken));
        }
    }
}

#[test]
fn stream_field_takes_one_field_at_a_time() {
    // #[a] pub x: u8, #[auto_default(skip)] y: u8, #[b]
    let tokens = cat(vec![
        attr("a", 0),
        vec![id("pub", 3), id("x", 4), p(':', 5), id("u8", 6), p(',', 7)],
        skip_attr(8),
        vec![id("y", 13), p(':', 14), id("u8", 15), p(',', 16)],
        attr("b", 17),
    ]);
    let mut source = Cursor::new(&tokens);
    let mut sink = Vec::new();
    let mut errors = Vec::new();
    assert_eq!(stream_field(&mut source, &mut sink, &mut errors, IsSkip(false)), Ok(true));
    // The attribute is two tokens, `#` and the group: the comma is the seventh token.
    let first = cat(vec![tokens[..6].to_vec(), expected_default(at(4)), vec![p(',', 7)]]);
    assert_eq!(sink, first);
    assert_eq!(source.peek(), Some(&p('#', 8)));
    assert_eq!(stream_field(&mut source, &mut sink, &mut errors, IsSkip(false)), Ok(true));
    let second = cat(vec![first, tokens[9..13].to_vec()]);
    assert_eq!(sink, second);
    // The list ends, and the attribute that stands there is still streamed.
    assert_eq!(stream_field(&mut source, &mut sink, &mut errors, IsSkip(false)), Ok(false));
    assert_eq!(sink, cat(vec![second.clone(), attr("b", 17)]));
    assert_eq!(source.peek(), None);
    assert_eq!(stream_field(&mut source, &mut sink, &mut errors, IsSkip(false)), Ok(false));
    assert_eq!(sink, cat(vec![second, attr("b", 17)]));
    assert_eq!(errors, Vec::new());
    let broken = vec![p('#', 0), id("x", 1)];
    let mut source = Cursor::new(&broken);
    assert_eq!(
        stream_field(&mut source, &mut sink, &mut errors, IsSkip(false)),
        Err(SyntaxError::AttributeWithoutGroup)
    );
}

#[test]
fn stream_variant_takes_one_variant_at_a_time() {
    // A(u8) = 1, #[auto_default(skip)] B, pub C { x: u8 }
    let field = vec![id("x", 13), p(':', 14), id("u8", 15)];
    let tokens = cat(vec![
        vec![id("A", 0), paren(vec![id("u8", 2)], 1), p('=', 3), lit("1", 4), p(',', 5)],
        skip_attr(6),
        vec![id("B", 11), p(',', 12), id("pub", 20), id("C", 21), brace(field.clone(), 22)],
    ]);
    let mut source = Cursor::new(&tokens);
    let mut sink = Vec::new();
    let mut errors = Vec::new();
    assert_eq!(stream_variant(&mut source, &mut sink, &mut errors), Ok(true));
    assert_eq!(sink, tokens[..5].to_vec());
    assert_eq!(errors, Vec::new());
    assert_eq!(stream_variant(&mut source, &mut sink, &mut errors), Ok(true));
    assert_eq!(sink, cat(vec![tokens[..5].to_vec(), tokens[7..9].to_vec()]));
    assert_eq!(
        errors,
        vec![CompileError::new(
            at(11),
            "`#[auto_default(skip)]` is only allowed on variants with named fields"
        )]
    );
    assert_eq!(stream_variant(&mut source, &mut sink, &mut errors), Ok(true));
    assert_eq!(
        sink,
        cat(vec![
            tokens[..5].to_vec(),
            tokens[7..11].to_vec(),
            vec![brace(cat(vec![field, expected_default(at(13))]), 22)],
        ])
    );
    assert_eq!(errors.len(), 1);
    assert_eq!(stream_variant(&mut source, &mut sink, &mut errors), Ok(false));
    let broken = vec![id("A", 0), id("B", 1)];
    let mut source = Cursor::new(&broken);
    assert_eq!(
        stream_variant(&mut source, &mut sink, &mut errors),
        Err(SyntaxError::UnexpectedAfterVariantName)
    );
}

#[test]
fn fields_are_rewritten_into_braces_at_the_given_span() {
    // a: u8, b: u8 = 1
    let fields = vec![
        id("a", 0),
        p(':', 1),
        id("u8", 2),
        p(',', 3),
        id("b", 4),
        p(':', 5),
        id("u8", 6),
        p('=', 7),
        lit("1", 8),
    ];
    let mut errors = Vec::new();
    let group = add_default_field_values(&fields, at(20), &mut errors, IsSkip(false));
    assert_eq!(
        group,
        Ok(brace(
            cat(vec![fields[..3].to_vec(), expected_default(at(0)), fields[3..].to_vec()]),
            20
        ))
    );
    assert_eq!(errors, Vec::new());
    // The same fields in a variant that is marked.
    let group = add_default_field_values(&fields, at(20), &mut errors, IsSkip(true));
    assert_eq!(group, Ok(brace(fields.clone(), 20)));
    assert_eq!(errors, Vec::new());
}

#[test]
fn field_without_comma_at_the_end_gets_its_default() {
    let fields = vec![id("pub", 0), id("a", 1), p(':', 2), id("u8", 3)];
    let mut errors = Vec::new();
    let group = add_default_field_values(&fields, Span::CallSite, &mut errors, IsSkip(false));
    assert_eq!(
        group,
        Ok(Token::group(
            Delimiter::Brace,
            cat(vec![fields.clone(), expected_default(at(1))]),
            Span::CallSite
        ))
    );
}

#[test]
fn no_fields_give_empty_braces() {
    let mut errors = Vec::new();
    for skip in [false, true] {
        let group = add_default_field_values(&Vec::new(), at(1), &mut errors, IsSkip(skip));
        assert_eq!(group, Ok(brace(Vec::new(), 1)));
    }
    assert_eq!(errors, Vec::new());
}

#[test]
fn fields_pass_on_what_cannot_be_read() {
    let fields = vec![id("a", 0), p(':', 1), id("u8", 2), p(',', 3), p('#', 4)];
    let mut errors = Vec::new();
    assert_eq!(
        add_default_field_values(&fields, at(9), &mut errors, IsSkip(false)),
        Err(SyntaxError::AttributeWithoutGroup)
    );
}

#[test]
fn disallow_skip_reports_a_mark_only() {
    let mut errors = Vec::new();
    disallow_skip(IsSkip(false), at(1), &mut errors);
    assert_eq!(errors, Vec::new());
    disallow_skip(IsSkip(true), at(1), &mut errors);
    assert_eq!(
        errors,
        vec![CompileError::new(
            at(1),
            "`#[auto_default(skip)]` is only allowed on variants with named fields"
        )]
    );
}

#[test]
fn payload_of_each_shape() {
    let field = vec![id("a", 11), p(':', 12), id("u8", 13)];
    // Named: the fields are rewritten, the mark is handed down and not reported.
    let tokens = vec![brace(field.clone(), 10), p('=', 1), lit("4", 2), p(',', 3), id("Next", 4)];
    for skip in [false, true] {
        let mut source = Cursor::new(&tokens);
        let mut sink = Vec::new();
        let mut errors = Vec::new();
        let done = stream_variant_payload(&mut source, &mut sink, &mut errors, IsSkip(skip), at(0));
        assert_eq!(done, Ok(()));
        let inside = if skip { field.clone() } else { cat(vec![field.clone(), expected_default(at(11))]) };
        assert_eq!(sink, cat(vec![vec![brace(inside, 10)], tokens[1..4].to_vec()]));
        assert_eq!(errors, Vec::new());
        assert_eq!(source.peek(), Some(&id("Next", 4)));
    }
    // Positional and unit: copied, the mark is reported at the name.
    let positional = vec![paren(field.clone(), 10), p(',', 1), id("Next", 2)];
    let unit = vec![p('=', 0), lit("1", 1), p(',', 2), id("Next", 3)];
    for (tokens, copied) in [(positional, 2), (unit, 3), (Vec::new(), 0)] {
        for skip in [false, true] {
            let mut source = Cursor::new(&tokens);
            let mut sink = Vec::new();
            let mut errors = Vec::new();
            let done =
                stream_variant_payload(&mut source, &mut sink, &mut errors, IsSkip(skip), at(7));
            assert_eq!(done, Ok(()));
            assert_eq!(sink, tokens[..copied].to_vec());
            assert_eq!(errors.len(), if skip { 1 } else { 0 });
            assert!(errors.iter().all(|error| error.span == at(7)));
            assert_eq!(source.peek(), tokens.get(copied));
        }
    }
}

#[test]
fn payload_that_cannot_be_read() {
    let cases: Vec<(Vec<Token>, SyntaxError)> = vec![
        (vec![id("B", 0)], SyntaxError::UnexpectedAfterVariantName),
        (vec![bracket(Vec::new(), 0)], SyntaxError::UnexpectedAfterVariantName),
        (vec![paren(Vec::new(), 0), id("B", 1)], SyntaxError::UnexpectedAfterVariantFields),
        (vec![brace(Vec::new(), 0), id("B", 1)], SyntaxError::UnexpectedAfterVariantFields),
        (vec![brace(vec![p('#', 1)], 0)], SyntaxError::AttributeWithoutGroup),
    ];
    for (tokens, expected) in cases {
        let mut source = Cursor::new(&tokens);
        let mut sink = Vec::new();
        let mut errors = Vec::new();
        let done = stream_variant_payload(&mut source, &mut sink, &mut errors, IsSkip(true), at(7));
        assert_eq!(done, Err(expected));
    }
}

#[test]
fn variants_are_rewritten_into_braces_at_the_given_span() {
    // A, pub B { x: u8 }, #[auto_default(skip)] C(u8) = 2
    let field = vec![id("x", 5), p(':', 6), id("u8", 7)];
    let variants = cat(vec![
        vec![id("A", 0), p(',', 1), id("pub", 2), id("B", 3), brace(field.clone(), 4), p(',', 8)],
        skip_attr(9),
        vec![id("C", 14), paren(vec![id("u8", 16)], 15), p('=', 17), lit("2", 18)],
    ]);
    let mut errors = Vec::new();
    let group = add_default_variant_values(&variants, at(30), &mut errors);
    assert_eq!(
        group,
        Ok(brace(
            cat(vec![
                variants[..4].to_vec(),
                vec![brace(cat(vec![field, expected_default(at(5))]), 4), p(',', 8)],
                variants[8..].to_vec(),
            ]),
            30
        ))
    );
    assert_eq!(
        errors,
        vec![CompileError::new(
            at(14),
            "`#[auto_default(skip)]` is only allowed on variants with named fields"
        )]
    );
}

#[test]
fn no_variants_give_empty_braces() {
    let mut errors = Vec::new();
    assert_eq!(add_default_variant_values(&Vec::new(), at(1), &mut errors), Ok(brace(Vec::new(), 1)));
    assert_eq!(errors, Vec::new());
}
