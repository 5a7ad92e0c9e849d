use std::cell::Cell;

use routegen::document::{PackageMetadata, SpecificationDocument};
use routegen::emitter::{generate, GenError, RouteBinding};
use routegen::parser::{GrammarErrorKind, Token};
use routegen::path::RoutePath;

fn ident(s: &str) -> Token {
    Token::Ident(s.to_string())
}

fn meta(name: &str, version: &str, description: &str, repo: &str, home: &str) -> PackageMetadata {
    PackageMetadata {
        name: name.to_string(),
        version: version.to_string(),
        description: description.to_string(),
        repository_url: repo.to_string(),
        homepage_url: home.to_string(),
    }
}

fn naming(s: String) -> String {
    format!("add_operation_for_{}", s)
}

fn companion(_reference: RoutePath, id: String) -> Result<String, String> {
    Ok(format!("fragment:{}", id))
}

fn keep(_m: RoutePath, d: SpecificationDocument) -> SpecificationDocument {
    d
}

fn two_route_tokens() -> Vec<Token> {
    vec![
        ident("users"),
        Token::PathSep,
        ident("list"),
        Token::Comma,
        ident("users"),
        Token::PathSep,
        ident("create"),
    ]
}

fn served(mut collection: Vec<RouteBinding>) -> (SpecificationDocument, String) {
    match collection.pop().unwrap() {
        RouteBinding::DocumentHandler(doc, path) => (doc, path),
        RouteBinding::Dispatch(_) => panic!("the synthesized binding must come last"),
    }
}

#[test]
fn collection_has_one_binding_per_route_plus_document() {
    let tokens = two_route_tokens();
    let m = meta("svc", "1.0.0", "", "", "");
    let collection = generate(&tokens, &m, "/doc.json".to_string(), naming, companion, keep)
        .unwrap();
    assert_eq!(collection.len(), 3);
    match &collection[0] {
        RouteBinding::Dispatch(p) => {
            assert_eq!(p.segments, vec!["users".to_string(), "list".to_string()])
        }
        RouteBinding::DocumentHandler(_, _) => panic!("dispatch bindings come first"),
    }
    match &collection[1] {
        RouteBinding::Dispatch(p) => {
            assert_eq!(p.segments, vec!["users".to_string(), "create".to_string()])
        }
        RouteBinding::DocumentHandler(_, _) => panic!("dispatch bindings come first"),
    }
    let (doc, path) = served(collection);
    assert_eq!(path, "/doc.json");
    assert_eq!(doc.title, "svc");
}

#[test]
fn operations_keep_declaration_order() {
    let tokens = vec![
        ident("c"),
        Token::Comma,
        ident("a"),
        Token::Comma,
        ident("b"),
    ];
    let m = meta("svc", "1.0.0", "", "", "");
    let collection = generate(&tokens, &m, "/doc.json".to_string(), naming, companion, keep)
        .unwrap();
    let (doc, _) = served(collection);
    let ids: Vec<&str> = doc.operations.iter().map(|o| o.id.as_str()).collect();
    assert_eq!(ids, vec!["c", "a", "b"]);
    assert_eq!(doc.operations[1].fragment, "fragment:a");
}

#[test]
fn companion_receives_derived_reference_and_identifier() {
    let seen: Cell<bool> = Cell::new(false);
    let tokens = vec![ident("users"), Token::PathSep, ident("list")];
    let m = meta("svc", "1.0.0", "", "", "");
    let checking = |reference: RoutePath, id: String| -> Result<String, String> {
        assert_eq!(
            reference.segments,
            vec!["users".to_string(), "add_operation_for_list".to_string()]
        );
        assert_eq!(id, "users_list");
        seen.set(true);
        Ok("fragment".to_string())
    };
    let collection =
        generate(&tokens, &m, "/doc.json".to_string(), naming, checking, keep).unwrap();
    assert!(seen.get());
    assert_eq!(collection.len(), 2);
}

#[test]
fn registration_failure_names_the_offending_route() {
    let tokens = two_route_tokens();
    let m = meta("svc", "1.0.0", "", "", "");
    let failing = |_reference: RoutePath, id: String| -> Result<String, String> {
        if id == "users_create" {
            Err("no companion".to_string())
        } else {
            Ok("fragment".to_string())
        }
    };
    let err = generate(&tokens, &m, "/doc.json".to_string(), naming, failing, keep).unwrap_err();
    match err {
        GenError::Registration(route) => {
            assert_eq!(
                route.segments,
                vec!["users".to_string(), "create".to_string()]
            );
        }
        _ => panic!("a failing companion invocation must abort the generation"),
    }
}

#[test]
fn zero_routes_fail_with_grammar_error_and_no_artifact() {
    let tokens = vec![
        ident("spec"),
        Token::Colon,
        ident("mymod"),
        Token::PathSep,
        ident("tweak"),
        Token::Semi,
    ];
    let m = meta("svc", "1.0.0", "", "", "");
    let err = generate(&tokens, &m, "/doc.json".to_string(), naming, companion, keep).unwrap_err();
    match err {
        GenError::Grammar(e) => assert_eq!(e.kind, GrammarErrorKind::EmptyRouteList),
        _ => panic!("an empty route list is a grammar error"),
    }
}

#[test]
fn missing_package_name_is_a_configuration_error() {
    let tokens = vec![ident("handler")];
    let m = meta("", "1.0.0", "", "", "");
    let err = generate(&tokens, &m, "/doc.json".to_string(), naming, companion, keep).unwrap_err();
    assert!(matches!(err, GenError::Configuration));
}

#[test]
fn missing_package_version_is_a_configuration_error() {
    let tokens = vec![ident("handler")];
    let m = meta("svc", "", "", "", "");
    let err = generate(&tokens, &m, "/doc.json".to_string(), naming, companion, keep).unwrap_err();
    assert!(matches!(err, GenError::Configuration));
}

#[test]
fn description_kept_only_when_non_empty() {
    let tokens = vec![ident("handler")];
    let with = meta("svc", "1.0.0", "a service", "", "");
    let (doc, _) = served(
        generate(&tokens, &with, "/doc.json".to_string(), naming, companion, keep).unwrap(),
    );
    assert_eq!(doc.description, Some("a service".to_string()));

    let without = meta("svc", "1.0.0", "", "", "");
    let (doc, _) = served(
        generate(&tokens, &without, "/doc.json".to_string(), naming, companion, keep).unwrap(),
    );
    assert!(doc.description.is_none());
}

#[test]
fn contact_homepage_overwrites_repository() {
    let tokens = vec![ident("handler")];
    let m = meta("svc", "1.0.0", "", "https://repo", "https://home");
    let (doc, _) = served(
        generate(&tokens, &m, "/doc.json".to_string(), naming, companion, keep).unwrap(),
    );
    let contact = doc.contact.unwrap();
    assert_eq!(contact.label, "Homepage");
    assert_eq!(contact.url, "https://home");
}

#[test]
fn contact_from_repository_alone() {
    let tokens = vec![ident("handler")];
    let m = meta("svc", "1.0.0", "", "https://repo", "");
    let (doc, _) = served(
        generate(&tokens, &m, "/doc.json".to_string(), naming, companion, keep).unwrap(),
    );
    let contact = doc.contact.unwrap();
    assert_eq!(contact.label, "Repository");
    assert_eq!(contact.url, "https://repo");
}

#[test]
fn no_contact_when_both_facts_absent() {
    let tokens = vec![ident("handler")];
    let m = meta("svc", "1.0.0", "", "", "");
    let (doc, _) = served(
        generate(&tokens, &m, "/doc.json".to_string(), naming, companion, keep).unwrap(),
    );
    assert!(doc.contact.is_none());
}

#[test]
fn mutator_observes_assembled_document_and_changes_persist() {
    let calls: Cell<u32> = Cell::new(0);
    let tokens = vec![
        ident("spec"),
        Token::Colon,
        ident("mymod"),
        Token::PathSep,
        ident("tweak"),
        Token::Semi,
        ident("users"),
        Token::PathSep,
        ident("list"),
        Token::Comma,
        ident("users"),
        Token::PathSep,
        ident("create"),
    ];
    let m = meta("svc", "1.0.0", "", "", "");
    let mutating = |reference: RoutePath, mut d: SpecificationDocument| -> SpecificationDocument {
        calls.set(calls.get() + 1);
        // The mutator runs on the fully assembled document: every operation
        // is registered and the metadata is populated before it runs.
        assert_eq!(
            reference.segments,
            vec!["mymod".to_string(), "tweak".to_string()]
        );
        assert_eq!(d.operations.len(), 2);
        assert_eq!(d.operations[0].id, "users_list");
        assert_eq!(d.operations[1].id, "users_create");
        assert_eq!(d.title, "svc");
        assert_eq!(d.version, "1.0.0");
        d.description = Some("mutated".to_string());
        d
    };
    let collection =
        generate(&tokens, &m, "/doc.json".to_string(), naming, companion, mutating).unwrap();
    assert_eq!(calls.get(), 1);
    assert_eq!(collection.len(), 3);
    let (doc, _) = served(collection);
    // The mutation persists into the served payload.
    assert_eq!(doc.description, Some("mutated".to_string()));
}

#[test]
fn full_scenario_with_mutator_and_empty_optional_facts() {
    let calls: Cell<u32> = Cell::new(0);
    let tokens = vec![
        ident("spec"),
        Token::Colon,
        ident("mymod"),
        Token::PathSep,
        ident("tweak"),
        Token::Semi,
        ident("users"),
        Token::PathSep,
        ident("list"),
        Token::Comma,
        ident("users"),
        Token::PathSep,
        ident("create"),
    ];
    let m = meta("svc", "1.0.0", "", "", "");
    let counting = |_reference: RoutePath, d: SpecificationDocument| -> SpecificationDocument {
        calls.set(calls.get() + 1);
        d
    };
    let collection =
        generate(&tokens, &m, "/doc.json".to_string(), naming, companion, counting).unwrap();
    assert_eq!(collection.len(), 3);
    assert_eq!(calls.get(), 1);
    let (doc, _) = served(collection);
    assert_eq!(doc.operations.len(), 2);
    assert_eq!(doc.operations[0].id, "users_list");
    assert_eq!(doc.operations[1].id, "users_create");
    assert!(doc.description.is_none());
    assert!(doc.contact.is_none());
}

#[test]
fn colliding_identifiers_overwrite_last_write_wins() {
    let counter: Cell<u32> = Cell::new(0);
    let tokens = vec![ident("a"), Token::Comma, ident("a")];
    let m = meta("svc", "1.0.0", "", "", "");
    let numbered = |_reference: RoutePath, id: String| -> Result<String, String> {
        let c = counter.get();
        counter.set(c + 1);
        Ok(format!("{}#{}", id, c))
    };
    let collection =
        generate(&tokens, &m, "/doc.json".to_string(), naming, numbered, keep).unwrap();
    // Both routes are still dispatched...
    assert_eq!(collection.len(), 3);
    let (doc, _) = served(collection);
    // ...but the colliding registration overwrote the earlier entry.
    assert_eq!(doc.operations.len(), 1);
    assert_eq!(doc.operations[0].id, "a");
    assert_eq!(doc.operations[0].fragment, "a#1");
}

fn assert_documents_identical(a: &SpecificationDocument, b: &SpecificationDocument) {
    assert_eq!(a.title, b.title);
    assert_eq!(a.version, b.version);
    assert_eq!(a.description, b.description);
    match (&a.contact, &b.contact) {
        (None, None) => {}
        (Some(x), Some(y)) => {
            assert_eq!(x.label, y.label);
            assert_eq!(x.url, y.url);
        }
        _ => panic!("one document has a contact entry and the other has none"),
    }
    assert_eq!(a.operations.len(), b.operations.len());
    for (x, y) in a.operations.iter().zip(b.operations.iter()) {
        assert_eq!(x.id, y.id);
        assert_eq!(x.fragment, y.fragment);
    }
}

#[test]
fn generation_is_idempotent_on_identical_inputs() {
    let tokens = two_route_tokens();
    let m = meta("svc", "1.0.0", "a service", "https://repo", "https://home");
    let first = generate(&tokens, &m, "/doc.json".to_string(), naming, companion, keep).unwrap();
    let second = generate(&tokens, &m, "/doc.json".to_string(), naming, companion, keep).unwrap();
    assert_eq!(first.len(), second.len());
    let (doc1, path1) = served(first);
    let (doc2, path2) = served(second);
    assert_eq!(path1, path2);
    assert_documents_identical(&doc1, &doc2);
}
