use rsvg_core::css::{LoadingError, Resource, ResourceEnv, Stylesheet};
use rsvg_core::style::Declaration;
use rsvg_core::tree::{ElementData, NodeData, Tree};

const SVG_NS: &str = "http://www.w3.org/2000/svg";

fn empty_env() -> ResourceEnv {
    ResourceEnv {
        allowed: Vec::new(),
        fetched: Vec::new(),
    }
}

fn element(name: &str, id: Option<&str>, class: Option<&str>) -> NodeData {
    NodeData::Element(ElementData {
        local_name: name.to_string(),
        namespace: SVG_NS.to_string(),
        id: id.map(|s| s.to_string()),
        class: class.map(|s| s.to_string()),
        is_link: false,
    })
}

fn decl<'a>(tree: &'a Tree, idx: usize, prop: &str) -> Option<&'a Declaration> {
    tree.node_style(idx).lookup(prop)
}

#[test]
fn cascade_scenario() {
    // One <foo> element and one element with id="baz"; the first rule must
    // touch only the foo element, the second only the baz element.
    let env = empty_env();
    let sheet =
        Stylesheet::from_data("foo,.bar{fill:red;stroke:green;} #baz{stroke-width:42;}", &env)
            .unwrap();
    let mut tree = Tree::new();
    let root = tree.add_node(None, element("svg", None, None));
    let foo = tree.add_node(Some(root), element("foo", None, None));
    let baz = tree.add_node(Some(root), element("rect", Some("baz"), None));
    sheet.apply(&mut tree);

    assert_eq!(decl(&tree, foo, "fill").unwrap().value, "red");
    assert_eq!(decl(&tree, foo, "stroke").unwrap().value, "green");
    assert!(decl(&tree, foo, "stroke-width").is_none());

    assert_eq!(decl(&tree, baz, "stroke-width").unwrap().value, "42");
    assert!(decl(&tree, baz, "fill").is_none());
    assert!(decl(&tree, baz, "stroke").is_none());

    assert!(decl(&tree, root, "fill").is_none());
}

#[test]
fn later_rule_wins() {
    let env = empty_env();
    let sheet = Stylesheet::from_data("foo{fill:red;} foo{fill:blue;}", &env).unwrap();
    let mut tree = Tree::new();
    let foo = tree.add_node(None, element("foo", None, None));
    sheet.apply(&mut tree);
    assert_eq!(decl(&tree, foo, "fill").unwrap().value, "blue");
}

#[test]
fn important_survives_later_normal_rule() {
    let env = empty_env();
    let sheet = Stylesheet::from_data("foo{fill:red !important;} foo{fill:blue;}", &env).unwrap();
    let mut tree = Tree::new();
    let foo = tree.add_node(None, element("foo", None, None));
    sheet.apply(&mut tree);
    let d = decl(&tree, foo, "fill").unwrap();
    assert_eq!(d.value, "red");
    assert!(d.important);
}

#[test]
fn last_declaration_in_block_wins() {
    let env = empty_env();
    let sheet = Stylesheet::from_data("foo{fill:red;fill:blue;}", &env).unwrap();
    let mut tree = Tree::new();
    let foo = tree.add_node(None, element("foo", None, None));
    sheet.apply(&mut tree);
    assert_eq!(decl(&tree, foo, "fill").unwrap().value, "blue");
}

#[test]
fn invalid_rule_dropped_rest_parses() {
    let env = empty_env();
    // The first rule has an unsupported pseudo-class, the second is fine.
    let sheet = Stylesheet::from_data("foo:hover{fill:red;} bar{fill:blue;}", &env).unwrap();
    assert_eq!(sheet.qualified_rules.len(), 1);
    // An unknown at-rule is skipped whole, block included.
    let sheet2 = Stylesheet::from_data("@media screen { foo{fill:red;} } bar{fill:blue;}", &env)
        .unwrap();
    assert_eq!(sheet2.qualified_rules.len(), 1);
    // An invalid declaration is dropped alone; its neighbours survive.
    let sheet3 = Stylesheet::from_data("foo{fill:red;;nonsense;stroke:green;}", &env).unwrap();
    assert_eq!(sheet3.qualified_rules.len(), 1);
    let mut tree = Tree::new();
    let foo = tree.add_node(None, element("foo", None, None));
    sheet3.apply(&mut tree);
    assert_eq!(decl(&tree, foo, "fill").unwrap().value, "red");
    assert_eq!(decl(&tree, foo, "stroke").unwrap().value, "green");
}

fn import_env(content_type: &str, body: &str) -> ResourceEnv {
    ResourceEnv {
        allowed: vec![(
            "other.css".to_string(),
            "https://example.com/other.css".to_string(),
        )],
        fetched: vec![(
            "https://example.com/other.css".to_string(),
            Resource {
                content_type: Some(content_type.to_string()),
                body: Some(body.to_string()),
            },
        )],
    }
}

#[test]
fn import_expands_in_place() {
    let env = import_env("text/css", ".x{fill:blue;}");
    let sheet = Stylesheet::from_data("@import \"other.css\"; foo{fill:red;}", &env).unwrap();
    assert_eq!(sheet.qualified_rules.len(), 2);
    // The imported rule comes first: later rules of the importing text win.
    let mut tree = Tree::new();
    let foo = tree.add_node(None, element("foo", None, Some("x")));
    sheet.apply(&mut tree);
    assert_eq!(decl(&tree, foo, "fill").unwrap().value, "red");

    // url(...) form resolves the same way.
    let sheet2 = Stylesheet::from_data("@import url(other.css); foo{fill:red;}", &env).unwrap();
    assert_eq!(sheet2.qualified_rules.len(), 2);
}

#[test]
fn import_not_css_ignored() {
    // A non-text/css resource is silently ignored; the rest still parses.
    let env = import_env("text/html", ".x{fill:blue;}");
    let sheet = Stylesheet::from_data("@import \"other.css\"; foo{fill:red;}", &env).unwrap();
    assert_eq!(sheet.qualified_rules.len(), 1);
}

#[test]
fn import_rejected_by_boundary_ignored() {
    let env = empty_env();
    let sheet = Stylesheet::from_data("@import \"other.css\"; foo{fill:red;}", &env).unwrap();
    assert_eq!(sheet.qualified_rules.len(), 1);
}

#[test]
fn from_href_errors() {
    let env = import_env("text/css", ".x{fill:blue;}");
    assert!(Stylesheet::from_href("other.css", &env).is_ok());
    assert_eq!(
        Stylesheet::from_href("nope.css", &env),
        Err(LoadingError::BadUrl)
    );
    let env2 = import_env("text/plain", ".x{fill:blue;}");
    assert_eq!(
        Stylesheet::from_href("other.css", &env2),
        Err(LoadingError::BadCss)
    );
    let env3 = ResourceEnv {
        allowed: vec![("other.css".to_string(), "https://example.com/other.css".to_string())],
        fetched: Vec::new(),
    };
    assert_eq!(
        Stylesheet::from_href("other.css", &env3),
        Err(LoadingError::FetchFailed)
    );
}

#[test]
fn selector_combinators() {
    let env = empty_env();
    let sheet = Stylesheet::from_data(
        "g rect{fill:a;} g > rect{stroke:b;} circle + rect{opacity:c;} circle ~ rect{marker:d;}",
        &env,
    )
    .unwrap();
    let mut tree = Tree::new();
    let root = tree.add_node(None, element("g", None, None));
    let circle = tree.add_node(Some(root), element("circle", None, None));
    let _chars = tree.add_node(Some(root), NodeData::Chars("  ".to_string()));
    let rect = tree.add_node(Some(root), element("rect", None, None));
    sheet.apply(&mut tree);
    assert_eq!(decl(&tree, rect, "fill").unwrap().value, "a");
    assert_eq!(decl(&tree, rect, "stroke").unwrap().value, "b");
    // The character-data node between the siblings is transparent.
    assert_eq!(decl(&tree, rect, "opacity").unwrap().value, "c");
    assert_eq!(decl(&tree, rect, "marker").unwrap().value, "d");
    assert!(decl(&tree, circle, "fill").is_none());
}

#[test]
fn structural_pseudo_classes() {
    let env = empty_env();
    let sheet = Stylesheet::from_data(":root{fill:r;} rect:empty{stroke:e;}", &env).unwrap();
    let mut tree = Tree::new();
    let root = tree.add_node(None, element("svg", None, None));
    let empty_rect = tree.add_node(Some(root), element("rect", None, None));
    let full_rect = tree.add_node(Some(root), element("rect", None, None));
    let _text = tree.add_node(Some(full_rect), NodeData::Chars("words".to_string()));
    sheet.apply(&mut tree);
    assert_eq!(decl(&tree, root, "fill").unwrap().value, "r");
    assert!(decl(&tree, empty_rect, "fill").is_none());
    assert_eq!(decl(&tree, empty_rect, "stroke").unwrap().value, "e");
    assert!(decl(&tree, full_rect, "stroke").is_none());
}

#[test]
fn class_tokens_split_on_whitespace() {
    let env = empty_env();
    let sheet = Stylesheet::from_data(".bar{fill:red;}", &env).unwrap();
    let mut tree = Tree::new();
    let a = tree.add_node(None, element("g", None, Some("foo bar baz")));
    let b = tree.add_node(None, element("g", None, Some("foobar")));
    sheet.apply(&mut tree);
    assert_eq!(decl(&tree, a, "fill").unwrap().value, "red");
    assert!(decl(&tree, b, "fill").is_none());
}

#[test]
fn apply_twice_same_styles() {
    // Cascade determinism: a second application finds the same matches and
    // leaves the same computed styles.
    let env = empty_env();
    let sheet = Stylesheet::from_data("foo{fill:red;} .x{stroke:green;}", &env).unwrap();
    let mut t1 = Tree::new();
    let f1 = t1.add_node(None, element("foo", None, Some("x")));
    let mut t2 = Tree::new();
    let f2 = t2.add_node(None, element("foo", None, Some("x")));
    sheet.apply(&mut t1);
    sheet.apply(&mut t2);
    assert_eq!(t1.node_style(f1), t2.node_style(f2));
    sheet.apply(&mut t1);
    assert_eq!(t1.node_style(f1), t2.node_style(f2));
}

#[test]
fn comments_and_strings_in_css() {
    let env = empty_env();
    let sheet = Stylesheet::from_data(
        "/* a { */ foo{fill:red;} bar{font-family:\"Br};ce\";stroke:green;}",
        &env,
    )
    .unwrap();
    assert_eq!(sheet.qualified_rules.len(), 2);
    let mut tree = Tree::new();
    let bar = tree.add_node(None, element("bar", None, None));
    sheet.apply(&mut tree);
    assert_eq!(decl(&tree, bar, "stroke").unwrap().value, "green");
}

#[test]
fn empty_stylesheet() {
    let env = empty_env();
    let sheet = Stylesheet::from_data("", &env).unwrap();
    assert_eq!(sheet.qualified_rules.len(), 0);
    let sheet2 = Stylesheet::from_data("  /* nothing here */  ", &env).unwrap();
    assert_eq!(sheet2.qualified_rules.len(), 0);
}

#[test]
fn import_cycle_terminates() {
    // A stylesheet that imports itself: the cycle is cut off instead of
    // recursing forever, and each level's own rules still come through.
    let env = ResourceEnv {
        allowed: vec![(
            "self.css".to_string(),
            "https://example.com/self.css".to_string(),
        )],
        fetched: vec![(
            "https://example.com/self.css".to_string(),
            Resource {
                content_type: Some("text/css".to_string()),
                body: Some("@import \"self.css\"; a{fill:x;}".to_string()),
            },
        )],
    };
    let sheet = Stylesheet::from_data("@import \"self.css\"; b{fill:y;}", &env).unwrap();
    assert_eq!(sheet.qualified_rules.len(), 2);
}

#[test]
fn keyword_case_insensitivity() {
    let env = import_env("text/css", ".x{fill:blue;}");
    let sheet = Stylesheet::from_data("@IMPORT url( \"other.css\" ); foo{fill:red !IMPORTANT;}", &env)
        .unwrap();
    assert_eq!(sheet.qualified_rules.len(), 2);
    let mut tree = Tree::new();
    let foo = tree.add_node(None, element("foo", None, None));
    sheet.apply(&mut tree);
    let d = decl(&tree, foo, "fill").unwrap();
    assert_eq!(d.value, "red");
    assert!(d.important);
}

#[test]
fn escaped_quote_in_string_value() {
    let env = empty_env();
    let sheet = Stylesheet::from_data("foo{content:\"a\\\"b\";stroke:green;}", &env).unwrap();
    let mut tree = Tree::new();
    let foo = tree.add_node(None, element("foo", None, None));
    sheet.apply(&mut tree);
    assert_eq!(decl(&tree, foo, "stroke").unwrap().value, "green");
    assert!(decl(&tree, foo, "content").is_some());
}
