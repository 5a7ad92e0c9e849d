use routegen::parser::{parse_declaration, GrammarErrorKind, Token};

fn ident(s: &str) -> Token {
    Token::Ident(s.to_string())
}

#[test]
fn parse_single_route() {
    let tokens = vec![ident("handler")];
    let d = parse_declaration(&tokens).unwrap();
    assert!(d.mutator.is_none());
    assert_eq!(d.routes.len(), 1);
    assert_eq!(d.routes[0].segments, vec!["handler".to_string()]);
}

#[test]
fn parse_qualified_routes_in_order() {
    let tokens = vec![
        ident("users"),
        Token::PathSep,
        ident("list"),
        Token::Comma,
        ident("users"),
        Token::PathSep,
        ident("create"),
    ];
    let d = parse_declaration(&tokens).unwrap();
    assert!(d.mutator.is_none());
    assert_eq!(d.routes.len(), 2);
    assert_eq!(
        d.routes[0].segments,
        vec!["users".to_string(), "list".to_string()]
    );
    assert_eq!(
        d.routes[1].segments,
        vec!["users".to_string(), "create".to_string()]
    );
}

#[test]
fn parse_trailing_comma_ignored() {
    let tokens = vec![ident("a"), Token::Comma, ident("b"), Token::Comma];
    let d = parse_declaration(&tokens).unwrap();
    assert_eq!(d.routes.len(), 2);
    assert_eq!(d.routes[1].segments, vec!["b".to_string()]);
}

#[test]
fn parse_mutator_clause() {
    let tokens = vec![
        ident("spec"),
        Token::Colon,
        ident("mymod"),
        Token::PathSep,
        ident("tweak"),
        Token::Semi,
        ident("handler"),
    ];
    let d = parse_declaration(&tokens).unwrap();
    let m = d.mutator.unwrap();
    assert_eq!(m.segments, vec!["mymod".to_string(), "tweak".to_string()]);
    assert_eq!(d.routes.len(), 1);
    assert_eq!(d.routes[0].segments, vec!["handler".to_string()]);
}

#[test]
fn parse_empty_input_fails() {
    let tokens: Vec<Token> = vec![];
    let e = parse_declaration(&tokens).unwrap_err();
    assert_eq!(e.kind, GrammarErrorKind::EmptyRouteList);
    assert_eq!(e.position, 0);
}

#[test]
fn parse_mutator_without_routes_fails() {
    let tokens = vec![ident("spec"), Token::Colon, ident("m"), Token::Semi];
    let e = parse_declaration(&tokens).unwrap_err();
    assert_eq!(e.kind, GrammarErrorKind::EmptyRouteList);
    assert_eq!(e.position, 4);
}

#[test]
fn parse_leading_keyword_is_never_a_route() {
    // `spec` at the very start always opens a mutator clause, even when the
    // author meant a route of that name: position alone disambiguates.
    let tokens = vec![ident("spec")];
    let e = parse_declaration(&tokens).unwrap_err();
    assert_eq!(e.kind, GrammarErrorKind::ExpectedColon);
    assert_eq!(e.position, 1);
}

#[test]
fn parse_keyword_elsewhere_is_a_plain_identifier() {
    let tokens = vec![ident("a"), Token::Comma, ident("spec")];
    let d = parse_declaration(&tokens).unwrap();
    assert_eq!(d.routes.len(), 2);
    assert_eq!(d.routes[1].segments, vec!["spec".to_string()]);
}

#[test]
fn parse_mutator_missing_semicolon_fails() {
    let tokens = vec![ident("spec"), Token::Colon, ident("m"), ident("handler")];
    let e = parse_declaration(&tokens).unwrap_err();
    assert_eq!(e.kind, GrammarErrorKind::ExpectedSemicolon);
    assert_eq!(e.position, 3);
}

#[test]
fn parse_missing_separator_fails() {
    let tokens = vec![ident("a"), ident("b")];
    let e = parse_declaration(&tokens).unwrap_err();
    assert_eq!(e.kind, GrammarErrorKind::ExpectedComma);
    assert_eq!(e.position, 1);
}

#[test]
fn parse_double_comma_fails() {
    let tokens = vec![ident("a"), Token::Comma, Token::Comma, ident("b")];
    let e = parse_declaration(&tokens).unwrap_err();
    assert_eq!(e.kind, GrammarErrorKind::ExpectedIdentifier);
    assert_eq!(e.position, 2);
}

#[test]
fn parse_dangling_scope_separator_fails() {
    let tokens = vec![ident("a"), Token::PathSep];
    let e = parse_declaration(&tokens).unwrap_err();
    assert_eq!(e.kind, GrammarErrorKind::ExpectedIdentifier);
    assert_eq!(e.position, 2);
}

#[test]
fn operation_id_joins_segments_with_underscores() {
    let tokens = vec![
        ident("a"),
        Token::PathSep,
        ident("b"),
        Token::PathSep,
        ident("c"),
    ];
    let d = parse_declaration(&tokens).unwrap();
    assert_eq!(d.routes[0].operation_id(), "a_b_c");
}

#[test]
fn operation_id_single_segment_is_unchanged() {
    let tokens = vec![ident("handler")];
    let d = parse_declaration(&tokens).unwrap();
    assert_eq!(d.routes[0].operation_id(), "handler");
}

#[test]
fn companion_reference_replaces_only_last_segment() {
    let tokens = vec![
        ident("a"),
        Token::PathSep,
        ident("b"),
        Token::PathSep,
        ident("c"),
    ];
    let d = parse_declaration(&tokens).unwrap();
    let companion = d.routes[0].companion_reference("register_c".to_string());
    assert_eq!(
        companion.segments,
        vec!["a".to_string(), "b".to_string(), "register_c".to_string()]
    );
    // The route reference itself is untouched.
    assert_eq!(
        d.routes[0].segments,
        vec!["a".to_string(), "b".to_string(), "c".to_string()]
    );
}

#[test]
fn parse_deeply_qualified_route() {
    let tokens = vec![
        ident("a"),
        Token::PathSep,
        ident("b"),
        Token::PathSep,
        ident("c"),
        Token::PathSep,
        ident("d"),
    ];
    let d = parse_declaration(&tokens).unwrap();
    assert_eq!(d.routes.len(), 1);
    assert_eq!(
        d.routes[0].segments,
        vec![
            "a".to_string(),
            "b".to_string(),
            "c".to_string(),
            "d".to_string()
        ]
    );
    assert_eq!(d.routes[0].operation_id(), "a_b_c_d");
}

#[test]
fn parse_keyword_as_inner_segment() {
    let tokens = vec![ident("users"), Token::PathSep, ident("spec")];
    let d = parse_declaration(&tokens).unwrap();
    assert!(d.mutator.is_none());
    assert_eq!(
        d.routes[0].segments,
        vec!["users".to_string(), "spec".to_string()]
    );
    assert_eq!(d.routes[0].operation_id(), "users_spec");
}

#[test]
fn parse_mutator_clause_with_trailing_comma_routes() {
    let tokens = vec![
        ident("spec"),
        Token::Colon,
        ident("tweak"),
        Token::Semi,
        ident("a"),
        Token::Comma,
        ident("b"),
        Token::Comma,
    ];
    let d = parse_declaration(&tokens).unwrap();
    assert_eq!(d.mutator.unwrap().segments, vec!["tweak".to_string()]);
    assert_eq!(d.routes.len(), 2);
}
