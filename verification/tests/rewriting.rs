use auto_default::auto_default;
use auto_default::error::{CompileError, SyntaxError};
use auto_default::item::{rewrite, Rewritten};
use auto_default::token::{Delimiter, Spacing, Span, Token};

fn is_punct_char(c: char) -> bool {
    "#,=:;<>!&|+-*/.?'@$%^~".contains(c)
}

fn closing(delimiter: Delimiter) -> char {
    match delimiter {
        Delimiter::Parenthesis => ')',
        Delimiter::Brace => '}',
        Delimiter::Bracket => ']',
        Delimiter::Invisible => ' ',
    }
}

/// Splits `chars` into tokens up to the bracket `until`. Token number `n`, counted from
/// `*next` on in the order in which the tokens start, is at `Span::Source(n)`.
fn lex_until(chars: &[char], at: &mut usize, next: &mut u64, until: Option<char>) -> Vec<Token> {
    let mut tokens = Vec::new();
    while *at < chars.len() {
        let c = chars[*at];
        if c.is_whitespace() {
            *at += 1;
            continue;
        }
        if Some(c) == until {
            *at += 1;
            return tokens;
        }
        let span = Span::Source(*next);
        *next += 1;
        if c == '(' || c == '{' || c == '[' {
            let delimiter = match c {
                '(' => Delimiter::Parenthesis,
                '{' => Delimiter::Brace,
                _ => Delimiter::Bracket,
            };
            *at += 1;
            let stream = lex_until(chars, at, next, Some(closing(delimiter)));
            tokens.push(Token::Group { delimiter, stream, span });
        } else if c == '"' {
            let start = *at;
            *at += 1;
            while chars[*at] != '"' {
                *at += 1;
            }
            *at += 1;
            let text: String = chars[start..*at].iter().collect();
            tokens.push(Token::Literal { text, span });
        } else if c.is_ascii_digit() {
            let start = *at;
            while *at < chars.len() && (chars[*at].is_alphanumeric() || chars[*at] == '_') {
                *at += 1;
            }
            let text: String = chars[start..*at].iter().collect();
            tokens.push(Token::Literal { text, span });
        } else if c.is_alphabetic() || c == '_' {
            let start = *at;
            while *at < chars.len() && (chars[*at].is_alphanumeric() || chars[*at] == '_') {
                *at += 1;
            }
            let name: String = chars[start..*at].iter().collect();
            tokens.push(Token::Ident { name, span });
        } else {
            assert!(is_punct_char(c), "unexpected character {:?}", c);
            *at += 1;
            let joint = *at < chars.len() && is_punct_char(chars[*at]);
            let spacing = if joint { Spacing::Joint } else { Spacing::Alone };
            tokens.push(Token::Punct { ch: c, spacing, span });
        }
    }
    assert!(until.is_none(), "unclosed bracket");
    tokens
}

fn lex(source: &str) -> Vec<Token> {
    let chars: Vec<char> = source.chars().collect();
    let mut at = 0;
    let mut next = 0;
    lex_until(&chars, &mut at, &mut next, None)
}

/// The text of `tokens`, one space between any two, whatever their spans and spacing.
fn render(tokens: &[Token]) -> String {
    let mut words: Vec<String> = Vec::new();
    for token in tokens {
        match token {
            Token::Ident { name, .. } => words.push(name.clone()),
            Token::Punct { ch, .. } => words.push(ch.to_string()),
            Token::Literal { text, .. } => words.push(text.clone()),
            Token::StringLiteral { value, .. } => words.push(format!("{:?}", value)),
            Token::Group { delimiter, stream, .. } => {
                let (open, close) = match delimiter {
                    Delimiter::Parenthesis => ("(", ")"),
                    Delimiter::Brace => ("{", "}"),
                    Delimiter::Bracket => ("[", "]"),
                    Delimiter::Invisible => ("", ""),
                };
                words.push(open.to_string());
                let inside = render(stream);
                if !inside.is_empty() {
                    words.push(inside);
                }
                words.push(close.to_string());
            }
        }
    }
    words.join(" ")
}

fn text(source: &str) -> String {
    render(&lex(source))
}

const DEFAULT: &str = "= ::core::default::Default::default()";

/// Rewrites the declaration `source`, invoked without arguments.
fn run(source: &str) -> Rewritten {
    rewrite(&Vec::new(), &lex(source)).expect("the declaration can be read")
}

/// The declaration `source` is rewritten into `expected`, and nothing is reported.
fn rewrites_to(source: &str, expected: &str) -> bool {
    let output = run(source);
    output.errors.is_empty() && render(&output.tokens) == text(expected)
}

fn messages(output: &Rewritten) -> Vec<&str> {
    output.errors.iter().map(|error| error.message.as_str()).collect()
}

/// The position of the first token of `tokens` that is the identifier `name`.
fn span_of(tokens: &[Token], name: &str) -> Span {
    for token in tokens {
        match token {
            Token::Ident { name: n, span } if n == name => return *span,
            Token::Group { stream, .. } => {
                let found = span_of(stream, name);
                if found != Span::CallSite {
                    return found;
                }
            }
            _ => {}
        }
    }
    Span::CallSite
}

#[test]
fn default_test() {
    let source = "#[derive(PartialEq, Debug)] struct X { default: i8 = 40, }";
    assert!(rewrites_to(source, source));
}

#[test]
fn mixed_test() {
    assert!(rewrites_to(
        "#[derive(PartialEq, Debug)] struct X { no_default: i8, default: i8 = 10, }",
        &format!(
            "#[derive(PartialEq, Debug)] struct X {{ no_default: i8 {DEFAULT}, default: i8 = 10, }}"
        ),
    ));
}

#[test]
fn unit() {
    let plain = "#[rustfmt::skip] #[derive(PartialEq, Debug)] pub enum Unit { Unit, UnitNoComma }";
    let output = run(plain);
    assert_eq!(output.tokens, lex(plain));
    assert_eq!(output.errors, Vec::new());
    let numbered = "#[rustfmt::skip] #[derive(PartialEq, Debug)] \
                    pub enum UnitDiscriminant { Unit = 1, UnitNoComma = 2 }";
    let output = run(numbered);
    assert_eq!(output.tokens, lex(numbered));
    assert_eq!(output.errors, Vec::new());
}

#[test]
fn tuple_discriminant() {
    let source = "#[rustfmt::skip] #[derive(PartialEq, Debug)] #[repr(u8)] \
                  pub enum TupleDiscriminant { Tuple(u32) = 1, TupleNoComma(u32) = 2 }";
    let output = run(source);
    assert_eq!(output.tokens, lex(source));
    assert_eq!(output.errors, Vec::new());
}

#[test]
fn named_discriminant() {
    assert!(rewrites_to(
        "#[rustfmt::skip] #[derive(PartialEq, Debug)] #[repr(u8)] \
         pub enum NamedDiscriminant { Named { a: u32, c: u32 = 40 } = 1, NamedNoComma { a: u32 } = 2 }",
        &format!(
            "#[rustfmt::skip] #[derive(PartialEq, Debug)] #[repr(u8)] \
             pub enum NamedDiscriminant {{ Named {{ a: u32 {DEFAULT}, c: u32 = 40 }} = 1, \
             NamedNoComma {{ a: u32 {DEFAULT} }} = 2 }}"
        ),
    ));
}

#[test]
fn field_without_default_gets_one_and_an_explicit_default_stays() {
    assert!(rewrites_to(
        "struct Person { age: u8, flag: bool = false }",
        &format!("struct Person {{ age: u8 {DEFAULT}, flag: bool = false }}"),
    ));
    // The field with the default of its own is copied token for token.
    let input = lex("struct Person { age: u8, flag: bool = false }");
    let output = rewrite(&Vec::new(), &input).unwrap();
    match (&input[2], &output.tokens[2]) {
        (Token::Group { stream: given, .. }, Token::Group { stream: made, .. }) => {
            assert_eq!(made.len(), given.len() + 14);
            assert_eq!(made[..3], given[..3]);
            assert_eq!(made[17..], given[3..]);
        }
        other => panic!("expected two bodies, found {:?}", other),
    }
}

#[test]
fn every_field_of_a_list_gets_its_default_once() {
    for count in 0..5 {
        for trailing_comma in [false, true] {
            if count == 0 && trailing_comma {
                continue;
            }
            let names: Vec<String> = (0..count).map(|i| format!("f{i}")).collect();
            let given: Vec<String> = names.iter().map(|name| format!("{name}: Vec<T{name}>")).collect();
            let made: Vec<String> =
                names.iter().map(|name| format!("{name}: Vec<T{name}> {DEFAULT}")).collect();
            let end = if trailing_comma { "," } else { "" };
            let source = format!("struct X {{ {}{end} }}", given.join(", "));
            let expected = format!("struct X {{ {}{end} }}", made.join(", "));
            let input = lex(&source);
            let output = rewrite(&Vec::new(), &input).unwrap();
            assert_eq!(render(&output.tokens), text(&expected));
            assert_eq!(output.errors, Vec::new());
            match (&input[2], &output.tokens[2]) {
                (Token::Group { stream: given, .. }, Token::Group { stream: made, .. }) => {
                    assert_eq!(made.len(), given.len() + 14 * count);
                    let added = made
                        .iter()
                        .filter(|token| token.is_punct('='))
                        .map(|token| token.span())
                        .collect::<Vec<Span>>();
                    let fields =
                        names.iter().map(|name| span_of(given, name)).collect::<Vec<Span>>();
                    assert_eq!(added, fields);
                }
                other => panic!("expected two bodies, found {:?}", other),
            }
        }
    }
}

#[test]
fn marked_field_stands_unchanged_at_any_place() {
    for place in 0..3 {
        let mut given = vec!["a: u8".to_string(), "b: u8".to_string(), "c: u8".to_string()];
        let mut made: Vec<String> = given.iter().map(|field| format!("{field} {DEFAULT}")).collect();
        given[place] = format!("#[auto_default(skip)] m: (u8, u8)");
        made[place] = "m: (u8, u8)".to_string();
        for skip_variant in [false, true] {
            let source = if skip_variant {
                format!("enum E {{ #[auto_default(skip)] V {{ {} }} }}", given.join(", "))
            } else {
                format!("enum E {{ V {{ {} }} }}", given.join(", "))
            };
            let expected = if skip_variant {
                "enum E { V { a: u8, b: u8, c: u8 } }".replace(
                    ["a: u8", "b: u8", "c: u8"][place],
                    "m: (u8, u8)",
                )
            } else {
                format!("enum E {{ V {{ {} }} }}", made.join(", "))
            };
            assert!(rewrites_to(&source, &expected));
        }
    }
}

#[test]
fn enum_of_unit_and_positional_variants_is_unchanged() {
    for source in [
        "#[derive(Debug)] pub enum E { A }",
        "enum E { A, }",
        "pub(crate) enum E<T> where T: Copy { #[doc = \"first\"] A, pub B(T, u8), C = 3, D(u8) = 4 + 1 }",
        "enum E { A(u8), B(u8, u8), #[allow(dead_code)] #[cfg(test)] C, }",
    ] {
        let input = lex(source);
        let output = auto_default(Vec::new(), input.clone()).unwrap();
        assert_eq!(output, input);
    }
}

#[test]
fn enum_without_variants_is_unchanged() {
    let source = "#[derive(PartialEq, Debug)] pub enum Empty {}";
    let output = run(source);
    assert_eq!(output.tokens, lex(source));
    assert_eq!(output.errors, Vec::new());
}

#[test]
fn enum_shapes_without_discriminant() {
    let source = "pub enum Tuple { Tuple(u32), TupleNoComma(u32) }";
    let output = run(source);
    assert_eq!(output.tokens, lex(source));
    assert!(rewrites_to(
        "pub enum Named { Named { a: u32 }, NamedNoComma { a: u32 } }",
        &format!("pub enum Named {{ Named {{ a: u32 {DEFAULT} }}, NamedNoComma {{ a: u32 {DEFAULT} }} }}"),
    ));
}

#[test]
fn struct_without_fields_keeps_its_visibility() {
    for source in [
        "#[derive(PartialEq, Debug)] pub struct A {}",
        "#[derive(PartialEq, Debug)] pub(crate) struct B {}",
        "#[rustfmt::skip] #[derive(PartialEq, Debug)] pub(in crate) struct C {}",
        "struct D {}",
    ] {
        let output = run(source);
        assert_eq!(output.tokens, lex(source));
        assert_eq!(output.errors, Vec::new());
    }
}

#[test]
fn generics_and_where_clause_are_copied() {
    assert!(rewrites_to(
        "pub struct Foo<Bar, Baz: Trait> where Baz: Quux { pub(crate) bar: Bar, pub baz: Baz = make() }",
        &format!(
            "pub struct Foo<Bar, Baz: Trait> where Baz: Quux \
             {{ pub(crate) bar: Bar {DEFAULT}, pub baz: Baz = make() }}"
        ),
    ));
}

#[test]
fn injected_tokens_carry_the_span_of_the_field() {
    let input = lex("struct User { age: u8, is_admin: bool = false }");
    let age = span_of(&input, "age");
    assert_eq!(age, Span::Source(3));
    let output = auto_default(Vec::new(), input).unwrap();
    let colon = |spacing| Token::Punct { ch: ':', spacing, span: age };
    let ident = |name: &str| Token::Ident { name: name.to_string(), span: age };
    let expected_fields = vec![
        Token::Ident { name: "age".to_string(), span: Span::Source(3) },
        Token::Punct { ch: ':', spacing: Spacing::Alone, span: Span::Source(4) },
        Token::Ident { name: "u8".to_string(), span: Span::Source(5) },
        Token::Punct { ch: '=', spacing: Spacing::Alone, span: age },
        colon(Spacing::Joint),
        colon(Spacing::Joint),
        ident("core"),
        colon(Spacing::Joint),
        colon(Spacing::Joint),
        ident("default"),
        colon(Spacing::Joint),
        colon(Spacing::Joint),
        ident("Default"),
        colon(Spacing::Joint),
        colon(Spacing::Joint),
        ident("default"),
        Token::Group { delimiter: Delimiter::Parenthesis, stream: Vec::new(), span: age },
        Token::Punct { ch: ',', spacing: Spacing::Alone, span: Span::Source(6) },
        Token::Ident { name: "is_admin".to_string(), span: Span::Source(7) },
        Token::Punct { ch: ':', spacing: Spacing::Alone, span: Span::Source(8) },
        Token::Ident { name: "bool".to_string(), span: Span::Source(9) },
        Token::Punct { ch: '=', spacing: Spacing::Alone, span: Span::Source(10) },
        Token::Ident { name: "false".to_string(), span: Span::Source(11) },
    ];
    assert_eq!(
        output,
        vec![
            Token::Ident { name: "struct".to_string(), span: Span::Source(0) },
            Token::Ident { name: "User".to_string(), span: Span::Source(1) },
            Token::Group {
                delimiter: Delimiter::Brace,
                stream: expected_fields,
                span: Span::Source(2),
            },
        ]
    );
}

#[test]
fn skipped_field_gets_no_default_and_loses_the_attribute() {
    assert!(rewrites_to(
        "struct User { #[auto_default(skip)] age: u8, is_admin: bool }",
        &format!("struct User {{ age: u8, is_admin: bool {DEFAULT} }}"),
    ));
    assert!(rewrites_to(
        "struct X { #[doc = \"kept\"] #[auto_default(skip)] #[allow(unused)] skipped: (), not_skipped: (), }",
        &format!("struct X {{ #[doc = \"kept\"] #[allow(unused)] skipped: (), not_skipped: () {DEFAULT}, }}"),
    ));
}

#[test]
fn skipped_field_keeps_its_own_default() {
    assert!(rewrites_to(
        "struct X { #[auto_default(skip)] a: u8 = 3, b: u8 }",
        &format!("struct X {{ a: u8 = 3, b: u8 {DEFAULT} }}"),
    ));
}

#[test]
fn skip_on_named_variant_holds_for_its_fields_only() {
    assert!(rewrites_to(
        "enum Foo { A { #[auto_default(skip)] skipped: (), not_skipped: (), }, \
         #[auto_default(skip)] B { skipped: () }, C { given: u8 } }",
        &format!(
            "enum Foo {{ A {{ skipped: (), not_skipped: () {DEFAULT}, }}, \
             B {{ skipped: () }}, C {{ given: u8 {DEFAULT} }} }}"
        ),
    ));
}

#[test]
fn nested_skip_is_allowed() {
    assert!(rewrites_to(
        "#[derive(PartialEq, Eq, Debug)] enum Z { #[auto_default(skip)] A { #[auto_default(skip)] field: (), not_skip: (), }, }",
        "#[derive(PartialEq, Eq, Debug)] enum Z { A { field: (), not_skip: (), }, }",
    ));
}

#[test]
fn skip_on_the_declaration_is_reported() {
    for (source, expected) in [
        (
            "#[auto_default(skip)] struct X { field: (), }",
            format!("struct X {{ field: () {DEFAULT}, }}"),
        ),
        (
            "#[auto_default(skip)] enum Foo { A { field: () }, }",
            format!("enum Foo {{ A {{ field: () {DEFAULT} }}, }}"),
        ),
    ] {
        let input = lex(source);
        let output = rewrite(&Vec::new(), &input).unwrap();
        assert_eq!(render(&output.tokens), text(&expected));
        assert_eq!(
            output.errors,
            vec![CompileError::new(
                span_of(&input, "skip"),
                "`#[auto_default(skip)]` is not allowed on container"
            )]
        );
    }
}

#[test]
fn second_skip_is_reported_and_the_first_holds() {
    let input = lex("struct X { #[auto_default(skip)] #[auto_default(skip)] field: (), }");
    let output = rewrite(&Vec::new(), &input).unwrap();
    assert_eq!(render(&output.tokens), text("struct X { field: (), }"));
    // Counting from 0, the tokens start in the order
    // `struct X { # [ auto_default ( skip # [ auto_default ( skip`: the second `skip` is token 12.
    assert_eq!(
        output.errors,
        vec![CompileError::new(Span::Source(12), "duplicate `#[auto_default(skip)]`")]
    );
}

#[test]
fn every_skip_after_the_first_is_reported() {
    let output = run(
        "struct X { #[auto_default(skip)] #[auto_default(skip)] #[auto_default(skip)] field: () }",
    );
    assert_eq!(render(&output.tokens), text("struct X { field: () }"));
    assert_eq!(
        messages(&output),
        vec!["duplicate `#[auto_default(skip)]`", "duplicate `#[auto_default(skip)]`"]
    );
}

#[test]
fn skip_on_unit_and_positional_variants_is_reported() {
    let input = lex("enum Enum { #[auto_default(skip)] Unit, #[auto_default(skip)] Tuple(u32), }");
    let output = rewrite(&Vec::new(), &input).unwrap();
    assert_eq!(render(&output.tokens), text("enum Enum { Unit, Tuple(u32), }"));
    let message = "`#[auto_default(skip)]` is only allowed on variants with named fields";
    assert_eq!(
        output.errors,
        vec![
            CompileError::new(span_of(&input, "Unit"), message),
            CompileError::new(span_of(&input, "Tuple"), message),
        ]
    );
}

#[test]
fn skip_on_last_unit_variant_without_comma_is_reported() {
    let output = run("enum E { A = 1, #[auto_default(skip)] B }");
    assert_eq!(render(&output.tokens), text("enum E { A = 1, B }"));
    assert_eq!(
        messages(&output),
        vec!["`#[auto_default(skip)]` is only allowed on variants with named fields"]
    );
}

#[test]
fn malformed_skip_is_reported_and_dropped() {
    let input = lex(
        "struct X { #[auto_default(skip a)] a: (), #[auto_default(not_skip)] b: (), \
         #[auto_default{skip}] c: (), #[auto_default()] d: (), #[auto_default] e: (), \
         #[auto_default(1)] f: (), }",
    );
    let output = rewrite(&Vec::new(), &input).unwrap();
    assert_eq!(
        render(&output.tokens),
        text(&format!(
            "struct X {{ a: () {DEFAULT}, b: () {DEFAULT}, c: () {DEFAULT}, d: () {DEFAULT}, \
             e: () {DEFAULT}, f: () {DEFAULT}, }}"
        ))
    );
    assert_eq!(
        messages(&output),
        vec![
            "unexpected token",
            "expected `skip`",
            "expected `(skip)`",
            "expected `(skip)`, found `()`",
            "expected `(skip)` after this",
            "expected `skip`",
        ]
    );
    assert_eq!(output.errors[0].span, span_of(&input, "a"));
    assert_eq!(output.errors[1].span, span_of(&input, "not_skip"));
}

#[test]
fn skip_with_more_after_the_parentheses_is_no_mark() {
    for source in [
        "struct X { #[auto_default(skip) x] a: u8 }",
        "struct X { #[auto_default(skip)(skip)] a: u8 }",
    ] {
        let input = lex(source);
        let output = rewrite(&Vec::new(), &input).unwrap();
        assert_eq!(render(&output.tokens), text(&format!("struct X {{ a: u8 {DEFAULT} }}")));
        // `struct X { # [ auto_default ( skip` are the tokens 0 to 7; what follows `(skip)` is
        // token 8.
        assert_eq!(output.errors, vec![CompileError::new(Span::Source(8), "unexpected token")]);
    }
    // On a variant, and on the declaration, it is reported and marks nothing either.
    let output = run("enum E { #[auto_default(skip) x] A { a: u8 }, #[auto_default(skip) x] B }");
    assert_eq!(
        render(&output.tokens),
        text(&format!("enum E {{ A {{ a: u8 {DEFAULT} }}, B }}"))
    );
    assert_eq!(messages(&output), vec!["unexpected token", "unexpected token"]);
    let output = run("#[auto_default(skip) x] struct X {}");
    assert_eq!(messages(&output), vec!["unexpected token"]);
}

#[test]
fn every_added_token_is_at_the_span_of_the_field() {
    let input = lex("struct X { first: u8, pub second: u8 }");
    let output = rewrite(&Vec::new(), &input).unwrap();
    match &output.tokens[2] {
        Token::Group { stream, .. } => {
            let first = span_of(&input, "first");
            let second = span_of(&input, "second");
            assert_eq!(stream.len(), 3 + 14 + 1 + 4 + 14);
            assert!(stream[3..17].iter().all(|token| token.span() == first));
            assert!(stream[22..36].iter().all(|token| token.span() == second));
            assert!(stream[3].is_punct('='));
            assert!(stream[22].is_punct('='));
        }
        other => panic!("expected the body, found {:?}", other),
    }
}

#[test]
fn arguments_are_reported_and_the_declaration_is_rewritten() {
    let args = vec![
        Token::ident("skip", Span::Source(100)),
        Token::punct(',', Spacing::Alone, Span::Source(101)),
    ];
    let output = rewrite(&args, &lex("struct X { a: u8 }")).unwrap();
    assert_eq!(render(&output.tokens), text(&format!("struct X {{ a: u8 {DEFAULT} }}")));
    assert_eq!(output.errors, vec![CompileError::new(Span::Source(100), "no arguments expected")]);
}

#[test]
fn not_a_struct_or_enum_gives_the_report_only() {
    let input = lex("pub fn f() {}");
    let output = rewrite(&Vec::new(), &input).unwrap();
    assert_eq!(output.tokens, Vec::new());
    assert_eq!(
        output.errors,
        vec![CompileError::new(span_of(&input, "fn"), "expected a `struct` or an `enum`")]
    );
    let output = rewrite(&Vec::new(), &lex("#[derive(Debug)] pub")).unwrap();
    assert_eq!(output.tokens, Vec::new());
    assert_eq!(
        output.errors,
        vec![CompileError::new(Span::CallSite, "expected a `struct` or an `enum`")]
    );
    let output = rewrite(&Vec::new(), &Vec::new()).unwrap();
    assert_eq!(
        output.errors,
        vec![CompileError::new(Span::CallSite, "expected a `struct` or an `enum`")]
    );
}

#[test]
fn declaration_without_braces_gives_the_report_only() {
    for source in ["struct Foo;", "pub struct Foo(u32);", "enum Foo"] {
        let input = lex(source);
        let output = rewrite(&Vec::new(), &input).unwrap();
        assert_eq!(output.tokens, Vec::new());
        assert_eq!(
            output.errors,
            vec![CompileError::new(span_of(&input, "Foo"), "expected struct with named fields")]
        );
    }
}

#[test]
fn earlier_reports_stay_before_the_one_that_ends_the_rewrite() {
    let args = vec![Token::ident("x", Span::Source(50))];
    let output = rewrite(&args, &lex("#[auto_default(skip)] union U { a: u8 }")).unwrap();
    assert_eq!(output.tokens, Vec::new());
    assert_eq!(
        messages(&output),
        vec![
            "no arguments expected",
            "`#[auto_default(skip)]` is not allowed on container",
            "expected a `struct` or an `enum`",
        ]
    );
}

#[test]
fn input_that_cannot_be_read() {
    let read = |source: &str| rewrite(&Vec::new(), &lex(source));
    assert_eq!(read("# struct X {}"), Err(SyntaxError::AttributeWithoutGroup));
    assert_eq!(read("struct X { a: u8, # }"), Err(SyntaxError::AttributeWithoutGroup));
    assert_eq!(read("enum X { A { # b: u8 } }"), Err(SyntaxError::AttributeWithoutGroup));
    assert_eq!(read("pub struct"), Err(SyntaxError::MissingName));
    assert_eq!(read("enum"), Err(SyntaxError::MissingName));
    assert_eq!(read("enum E { A B }"), Err(SyntaxError::UnexpectedAfterVariantName));
    assert_eq!(read("enum E { A [u8] }"), Err(SyntaxError::UnexpectedAfterVariantName));
    assert_eq!(read("enum E { A(u8) B }"), Err(SyntaxError::UnexpectedAfterVariantFields));
    assert_eq!(read("enum E { A { a: u8 } B }"), Err(SyntaxError::UnexpectedAfterVariantFields));
    assert_eq!(
        auto_default(Vec::new(), lex("enum E { A B }")),
        Err(SyntaxError::UnexpectedAfterVariantName)
    );
}

#[test]
fn diagnostics_follow_the_declaration_as_compile_error_invocations() {
    let input = lex("#[auto_default(skip)] struct X {}");
    let skip = span_of(&input, "skip");
    let output = auto_default(Vec::new(), input).unwrap();
    let colon = Token::punct(':', Spacing::Joint, skip);
    assert_eq!(
        output,
        vec![
            Token::ident("struct", Span::Source(5)),
            Token::ident("X", Span::Source(6)),
            Token::group(Delimiter::Brace, Vec::new(), Span::Source(7)),
            colon.clone(),
            colon.clone(),
            Token::ident("core", skip),
            colon.clone(),
            colon.clone(),
            Token::ident("compile_error", skip),
            Token::punct('!', Spacing::Alone, skip),
            Token::group(
                Delimiter::Brace,
                vec![Token::string("`#[auto_default(skip)]` is not allowed on container", skip)],
                skip,
            ),
        ]
    );
}

#[test]
fn fatal_report_is_the_whole_output() {
    let output = auto_default(Vec::new(), lex("type T = u8;")).unwrap();
    assert_eq!(
        output,
        CompileError::new(Span::Source(0), "expected a `struct` or an `enum`").into_tokens()
    );
}

#[test]
fn tokens_after_the_body_are_not_read() {
    let output = run("struct X { a: u8 } struct Y;");
    assert_eq!(render(&output.tokens), text(&format!("struct X {{ a: u8 {DEFAULT} }}")));
}

#[test]
fn field_without_colon_or_type() {
    assert!(rewrites_to("struct X { a }", &format!("struct X {{ a {DEFAULT} }}")));
    assert!(rewrites_to("struct X { a, b: u8 }", &format!("struct X {{ a, b: u8 {DEFAULT} }}")));
}

#[test]
fn attributes_at_the_end_of_a_list_are_kept() {
    assert!(rewrites_to("struct X { a: u8 = 1, #[cfg(any())] pub }", "struct X { a: u8 = 1, #[cfg(any())] pub }"));
    assert!(rewrites_to("enum X { A, #[cfg(any())] }", "enum X { A, #[cfg(any())] }"));
    assert!(rewrites_to("enum X { A, #[auto_default(skip)] }", "enum X { A, }"));
}

#[test]
fn compile_test() {
    // A field whose type has no default still gets one, at the span of the field.
    let input = lex("struct X { default: DoesNotImplDefault, }");
    let output = rewrite(&Vec::new(), &input).unwrap();
    assert_eq!(
        render(&output.tokens),
        text(&format!("struct X {{ default: DoesNotImplDefault {DEFAULT}, }}"))
    );
    match &output.tokens[2] {
        Token::Group { stream, .. } => assert_eq!(stream[4].span(), span_of(&input, "default")),
        other => panic!("expected the body, found {:?}", other),
    }

    // Skipped fields have no default value.
    assert!(rewrites_to(
        "struct X { #[auto_default(skip)] skipped: (), not_skipped: (), }",
        &format!("struct X {{ skipped: (), not_skipped: () {DEFAULT}, }}"),
    ));
    assert!(rewrites_to(
        "enum Foo { A { #[auto_default(skip)] skipped: (), not_skipped: (), }, \
         #[auto_default(skip)] B { skipped: () }, }",
        &format!("enum Foo {{ A {{ skipped: (), not_skipped: () {DEFAULT}, }}, B {{ skipped: () }}, }}"),
    ));

    // `#[auto_default(skip)]` is not allowed on containers.
    let container = "`#[auto_default(skip)]` is not allowed on container";
    assert_eq!(messages(&run("#[auto_default(skip)] struct X { field: (), }")), vec![container]);
    assert_eq!(
        messages(&run("#[auto_default(skip)] enum Foo { A { field: () }, }")),
        vec![container]
    );

    // Invalid syntax of the skip attribute.
    assert_eq!(
        messages(&run(
            "struct X { #[auto_default(skip a)] a: (), #[auto_default(not_skip)] b: (), \
             #[auto_default{skip}] c: (), #[auto_default()] d: (), #[auto_default] e: (), }"
        )),
        vec![
            "unexpected token",
            "expected `skip`",
            "expected `(skip)`",
            "expected `(skip)`, found `()`",
            "expected `(skip)` after this",
        ]
    );

    // Unit and tuple variants cannot be skipped.
    let variant = "`#[auto_default(skip)]` is only allowed on variants with named fields";
    assert_eq!(
        messages(&run("enum Enum { #[auto_default(skip)] Unit, #[auto_default(skip)] Tuple(u32), }")),
        vec![variant, variant]
    );

    // Two `skip` attributes on a single field or variant.
    let duplicate = "duplicate `#[auto_default(skip)]`";
    assert_eq!(
        messages(&run("struct X { #[auto_default(skip)] #[auto_default(skip)] field: (), }")),
        vec![duplicate]
    );
    assert_eq!(
        messages(&run(
            "enum Z { A { #[auto_default(skip)] #[auto_default(skip)] field: (), }, \
             #[auto_default(skip)] #[auto_default(skip)] B { field: () }, }"
        )),
        vec![duplicate, duplicate]
    );
}
