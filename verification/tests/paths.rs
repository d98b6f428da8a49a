//! Building access paths, unit by unit and from text.

use illustruct::access::{Indirection, Path};
use illustruct::parse::access_expr;

#[test]
fn access_single() {
    assert_eq!(Path::new("abc").0, vec![Indirection::Field("abc".to_string())]);
}

#[test]
fn access_field() {
    assert_eq!(
        Path::new("abc").field("def").0,
        vec![
            Indirection::Field("abc".to_string()),
            Indirection::Field("def".to_string()),
        ],
    );
}

#[test]
fn access_multi_field() {
    assert_eq!(
        Path::new("abc").field("def").field("ghi").0,
        vec![
            Indirection::Field("abc".to_string()),
            Indirection::Field("def".to_string()),
            Indirection::Field("ghi".to_string()),
        ],
    );
}

#[test]
fn access_deref() {
    assert_eq!(
        Path::new("abc").deref().0,
        vec![Indirection::Field("abc".to_string()), Indirection::Deref],
    );
}

#[test]
fn access_index() {
    assert_eq!(
        Path::new("abc").index(2).0,
        vec![Indirection::Field("abc".to_string()), Indirection::Index(2)],
    );
}

#[test]
fn access_arrow() {
    assert_eq!(
        Path::new("abc").arrow("def").0,
        vec![
            Indirection::Field("abc".to_string()),
            Indirection::Arrow("def".to_string()),
        ],
    );
}

#[test]
fn mod_single() {
    assert_eq!(Path::new("abc").0, vec![Indirection::Field("abc".to_string())]);
}

#[test]
fn mod_field() {
    assert_eq!(
        Path::new("abc").field("def").0,
        vec![
            Indirection::Field("abc".to_string()),
            Indirection::Field("def".to_string()),
        ],
    );
}

#[test]
fn mod_multi_field() {
    assert_eq!(
        Path::new("abc").field("def").field("ghi").0,
        vec![
            Indirection::Field("abc".to_string()),
            Indirection::Field("def".to_string()),
            Indirection::Field("ghi".to_string()),
        ],
    );
}

#[test]
fn mod_deref() {
    assert_eq!(
        Path::new("abc").deref().0,
        vec![Indirection::Field("abc".to_string()), Indirection::Deref],
    );
}

#[test]
fn mod_index() {
    assert_eq!(
        Path::new("abc").index(2).0,
        vec![Indirection::Field("abc".to_string()), Indirection::Index(2)],
    );
}

#[test]
fn mod_arrow() {
    assert_eq!(
        Path::new("abc").arrow("def").0,
        vec![
            Indirection::Field("abc".to_string()),
            Indirection::Arrow("def".to_string()),
        ],
    );
}

#[test]
fn parse_bare_identifier() {
    let p = access_expr("abc").expect("path");
    assert_eq!(p.0, vec![Indirection::Field("abc".to_string())]);
}

#[test]
fn parse_fields_and_index() {
    let p = access_expr("buf.head[3].tail").expect("path");
    assert_eq!(
        p.0,
        vec![
            Indirection::Field("buf".to_string()),
            Indirection::Field("head".to_string()),
            Indirection::Index(3),
            Indirection::Field("tail".to_string()),
        ],
    );
}

#[test]
fn parse_leading_star_becomes_trailing_deref() {
    let p = access_expr("*node->next").expect("path");
    assert_eq!(
        p.0,
        vec![
            Indirection::Field("node".to_string()),
            Indirection::Arrow("next".to_string()),
            Indirection::Deref,
        ],
    );
}

#[test]
fn parse_underscored_names() {
    let p = access_expr("_a1._b2").expect("path");
    assert_eq!(
        p.0,
        vec![
            Indirection::Field("_a1".to_string()),
            Indirection::Field("_b2".to_string()),
        ],
    );
}

#[test]
fn parse_rejects_malformed_text() {
    assert!(access_expr("").is_none());
    assert!(access_expr("*").is_none());
    assert!(access_expr("1abc").is_none());
    assert!(access_expr("abc.").is_none());
    assert!(access_expr("abc..d").is_none());
    assert!(access_expr("abc[]").is_none());
    assert!(access_expr("abc[12").is_none());
    assert!(access_expr("abc->").is_none());
    assert!(access_expr("abc def").is_none());
    assert!(access_expr("abc#").is_none());
}

#[test]
fn pop_front_consumes_left_to_right() {
    let mut p = Path::new("abc").field("def");
    assert_eq!(p.pop_front(), Some(Indirection::Field("abc".to_string())));
    assert_eq!(p.pop_front(), Some(Indirection::Field("def".to_string())));
    assert_eq!(p.pop_front(), None);
}

#[test]
fn indirection_operators() {
    assert_eq!(Indirection::Field("x".to_string()).operator(), ".");
    assert_eq!(Indirection::Arrow("x".to_string()).operator(), "->");
    assert_eq!(Indirection::Deref.operator(), "*");
    assert_eq!(Indirection::Index(7).operator(), "[]");
    assert!(Indirection::Field("x".to_string()).is_field());
    assert!(!Indirection::Deref.is_field());
    assert_eq!(Indirection::Field("x".to_string()).as_field(), Some("x"));
    assert_eq!(Indirection::Index(7).as_field(), None);
}
