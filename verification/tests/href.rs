use rsvg_core::href::{is_href, set_href, Href, HrefError};

#[test]
fn parse() {
    assert_eq!(Href::parse("uri").unwrap(), Href::PlainUri("uri".to_string()));
    assert_eq!(
        Href::parse("#fragment").unwrap(),
        Href::FragmentId("fragment".to_string())
    );
    assert_eq!(
        Href::parse("uri#fragment").unwrap(),
        Href::UriWithFragmentId("uri".to_string(), "fragment".to_string())
    );
}

#[test]
fn parse_errors() {
    assert_eq!(Href::parse(""), Err(HrefError::ParseError));
    assert_eq!(Href::parse("#"), Err(HrefError::ParseError));
    assert_eq!(Href::parse("uri#"), Err(HrefError::ParseError));
}

#[test]
fn without_fragment() {
    assert_eq!(
        Href::without_fragment("uri").unwrap(),
        Href::PlainUri("uri".to_string())
    );

    assert_eq!(
        Href::without_fragment("#foo"),
        Err(HrefError::FragmentForbidden)
    );

    assert_eq!(
        Href::without_fragment("uri#foo"),
        Err(HrefError::FragmentForbidden)
    );
}

#[test]
fn with_fragment() {
    assert_eq!(
        Href::with_fragment("#foo").unwrap(),
        Href::FragmentId("foo".to_string())
    );

    assert_eq!(
        Href::with_fragment("uri#foo").unwrap(),
        Href::UriWithFragmentId("uri".to_string(), "foo".to_string())
    );

    assert_eq!(Href::with_fragment("uri"), Err(HrefError::FragmentRequired));
}

#[test]
fn parse_splits_on_last_hash() {
    assert_eq!(
        Href::parse("a#b#c").unwrap(),
        Href::UriWithFragmentId("a#b".to_string(), "c".to_string())
    );
}

#[test]
fn serialize_round_trip() {
    for text in ["uri", "#frag", "uri#frag", "a#b#c"] {
        let h = Href::parse(text).unwrap();
        let again = Href::parse(h.serialize().as_str()).unwrap();
        assert_eq!(h, again);
    }
    assert_eq!(Href::parse("uri#frag").unwrap().serialize(), "uri#frag");
}

#[test]
fn is_href_names() {
    assert!(is_href("http://www.w3.org/1999/xlink", "href"));
    assert!(is_href("", "href"));
    assert!(!is_href("", "src"));
    assert!(!is_href("http://www.w3.org/1999/xlink", "title"));
    assert!(!is_href("http://www.w3.org/2000/svg", "href"));
}

#[test]
fn set_href_prefers_plain_href() {
    let mut dest: Option<i32> = None;
    set_href("http://www.w3.org/1999/xlink", "href", &mut dest, 1);
    assert_eq!(dest, Some(1));

    // A later xlink:href does not displace what is already set.
    set_href("http://www.w3.org/1999/xlink", "href", &mut dest, 2);
    assert_eq!(dest, Some(1));

    // A plain href always wins.
    set_href("", "href", &mut dest, 3);
    assert_eq!(dest, Some(3));
}
