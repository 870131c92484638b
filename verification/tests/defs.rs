use rsvg_core::defs::{Defs, ExternDocument, NodeRef, ReferenceEnv};
use rsvg_core::href::Href;

fn empty_env() -> ReferenceEnv {
    ReferenceEnv {
        allowed: Vec::new(),
        documents: Vec::new(),
    }
}

fn extern_env() -> ReferenceEnv {
    ReferenceEnv {
        allowed: vec![(
            "other.svg".to_string(),
            "https://example.com/other.svg".to_string(),
        )],
        documents: vec![(
            "https://example.com/other.svg".to_string(),
            ExternDocument {
                ids: vec![("part1".to_string(), 7)],
            },
        )],
    }
}

#[test]
fn insert_first_write_wins() {
    let mut defs = Defs::new();
    defs.insert("a", 1);
    defs.insert("a", 2);
    let env = empty_env();
    let found = defs.lookup(&env, &Href::parse("#a").unwrap());
    assert_eq!(found, Some(NodeRef::Local(1)));
}

#[test]
fn lookup_plain_uri_is_none() {
    let mut defs = Defs::new();
    defs.insert("a", 1);
    let env = extern_env();
    assert_eq!(defs.lookup(&env, &Href::parse("other.svg").unwrap()), None);
}

#[test]
fn lookup_fragment() {
    let mut defs = Defs::new();
    defs.insert("a", 1);
    defs.insert("b", 2);
    let env = empty_env();
    assert_eq!(
        defs.lookup(&env, &Href::parse("#b").unwrap()),
        Some(NodeRef::Local(2))
    );
    assert_eq!(defs.lookup(&env, &Href::parse("#missing").unwrap()), None);
}

#[test]
fn lookup_external_document() {
    let mut defs = Defs::new();
    let env = extern_env();
    assert_eq!(
        defs.lookup(&env, &Href::parse("other.svg#part1").unwrap()),
        Some(NodeRef::External(7))
    );
    assert_eq!(
        defs.lookup(&env, &Href::parse("other.svg#missing").unwrap()),
        None
    );
    // The cached document answers again without another load.
    assert_eq!(
        defs.lookup(&env, &Href::parse("other.svg#part1").unwrap()),
        Some(NodeRef::External(7))
    );
}

#[test]
fn rejected_reference_not_found() {
    // The boundary rejects the URL: the reference quietly does not resolve.
    let mut defs = Defs::new();
    defs.insert("part1", 1);
    let env = empty_env();
    assert_eq!(
        defs.lookup(&env, &Href::parse("other.svg#part1").unwrap()),
        None
    );
}

#[test]
fn failed_load_cached_as_not_found() {
    let mut defs = Defs::new();
    let env = ReferenceEnv {
        allowed: vec![(
            "other.svg".to_string(),
            "https://example.com/other.svg".to_string(),
        )],
        documents: Vec::new(),
    };
    assert_eq!(
        defs.lookup(&env, &Href::parse("other.svg#part1").unwrap()),
        None
    );
    // Asking again hits the cached failure, still without an error.
    assert_eq!(
        defs.lookup(&env, &Href::parse("other.svg#part1").unwrap()),
        None
    );
}
