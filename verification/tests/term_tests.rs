//! The term encoding: serialization, parsing, and the round trip.

use de::errors::StoreError;
use de::term::{hdt_bgp_str_to_term, term_to_hdt_bgp_str, LiteralSuffix, RdfTerm};

fn round_trips(t: &RdfTerm) -> RdfTerm {
    let encoded = term_to_hdt_bgp_str(t);
    hdt_bgp_str_to_term(encoded.as_str()).expect("well-formed term should parse back")
}

#[test]
fn iri_round_trip() {
    let t = RdfTerm::Iri("http://example.org/Banana".to_string());
    let encoded = term_to_hdt_bgp_str(&t);
    assert_eq!(encoded, "http://example.org/Banana");
    match round_trips(&t) {
        RdfTerm::Iri(i) => assert_eq!(i, "http://example.org/Banana"),
        _ => panic!("expected an IRI back"),
    }
}

#[test]
fn plain_literal_round_trip() {
    let t = RdfTerm::Literal("yellow".to_string(), LiteralSuffix::Plain);
    let encoded = term_to_hdt_bgp_str(&t);
    assert_eq!(encoded, "\"yellow\"");
    match round_trips(&t) {
        RdfTerm::Literal(v, LiteralSuffix::Plain) => assert_eq!(v, "yellow"),
        _ => panic!("expected a plain literal back"),
    }
}

#[test]
fn language_literal_round_trip() {
    let t = RdfTerm::Literal("gelb".to_string(), LiteralSuffix::Lang("de-DE".to_string()));
    let encoded = term_to_hdt_bgp_str(&t);
    assert_eq!(encoded, "\"gelb\"@de-DE");
    match round_trips(&t) {
        RdfTerm::Literal(v, LiteralSuffix::Lang(l)) => {
            assert_eq!(v, "gelb");
            assert_eq!(l, "de-DE");
        }
        _ => panic!("expected a language-tagged literal back"),
    }
}

#[test]
fn typed_literal_round_trip() {
    let t = RdfTerm::Literal(
        "42".to_string(),
        LiteralSuffix::Typed("http://www.w3.org/2001/XMLSchema#integer".to_string()),
    );
    let encoded = term_to_hdt_bgp_str(&t);
    assert_eq!(encoded, "\"42\"^^<http://www.w3.org/2001/XMLSchema#integer>");
    match round_trips(&t) {
        RdfTerm::Literal(v, LiteralSuffix::Typed(d)) => {
            assert_eq!(v, "42");
            assert_eq!(d, "http://www.w3.org/2001/XMLSchema#integer");
        }
        _ => panic!("expected a typed literal back"),
    }
}

#[test]
fn literal_with_escapes_round_trip() {
    let tricky = "line one\nquote \" and backslash \\ end".to_string();
    let t = RdfTerm::Literal(tricky.clone(), LiteralSuffix::Plain);
    let encoded = term_to_hdt_bgp_str(&t);
    assert_eq!(encoded, "\"line one\\nquote \\\" and backslash \\\\ end\"");
    match round_trips(&t) {
        RdfTerm::Literal(v, LiteralSuffix::Plain) => assert_eq!(v, tricky),
        _ => panic!("expected the literal back"),
    }
}

#[test]
fn blank_node_round_trip() {
    let t = RdfTerm::BlankNode("b42".to_string());
    let encoded = term_to_hdt_bgp_str(&t);
    assert_eq!(encoded, "_:b42");
    match round_trips(&t) {
        RdfTerm::BlankNode(b) => assert_eq!(b, "b42"),
        _ => panic!("expected a blank node back"),
    }
}

#[test]
fn malformed_terms_are_parse_errors() {
    for bad in ["", "\"unterminated", "\"bad escape \\q\"", "_:", "_:bad label", "no colon here"] {
        match hdt_bgp_str_to_term(bad) {
            Err(StoreError::ParseError(_)) => {}
            other => panic!("expected ParseError for {:?}, got {:?}", bad, other.is_ok()),
        }
    }
}

#[test]
fn error_statuses_are_fixed() {
    assert_eq!(StoreError::ParseError("x".to_string()).status(), 400);
    assert_eq!(StoreError::AlreadyExists("x".to_string()).status(), 400);
    assert_eq!(StoreError::Forbidden("x".to_string()).status(), 403);
    assert_eq!(StoreError::NotFound("x".to_string()).status(), 404);
    assert_eq!(StoreError::InputNotFound("x".to_string()).status(), 404);
    assert_eq!(StoreError::NotAcceptable("x".to_string()).status(), 406);
    assert_eq!(StoreError::UnsupportedFormat("x".to_string()).status(), 415);
    assert_eq!(StoreError::StoreLoadError("x".to_string()).status(), 500);
    assert_eq!(StoreError::InternalError("x".to_string()).status(), 500);
    assert_eq!(StoreError::Forbidden("stop".to_string()).message(), "stop");
}
