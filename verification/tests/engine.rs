use skilltreedocs::emit::{skillparse, ser_elem, tabparse};
use skilltreedocs::records::{find_package, find_skill, find_tab, known_contains, Package, Skill, Tab};
use skilltreedocs::text::{normalize, trim};
use skilltreedocs::tree::{Attr, Elem, Node};

fn elem(name: &str, attrs: Vec<Attr>, children: Vec<Node>) -> Elem {
    Elem { name: name.to_string(), attrs, children }
}

fn attr(name: &str, value: &str) -> Attr {
    Attr { name: name.to_string(), value: value.to_string() }
}

/// A shape/group pair following the export convention, labeled `label`.
fn shape_pair(label: &str) -> Vec<Node> {
    let container = elem("div", vec![], vec![Node::Text(label.to_string())]);
    let group = elem(
        "g",
        vec![],
        vec![Node::Element(elem(
            "switch",
            vec![],
            vec![Node::Element(elem(
                "foreignObject",
                vec![],
                vec![Node::Element(elem(
                    "div",
                    vec![],
                    vec![Node::Element(elem("div", vec![], vec![Node::Element(container)]))],
                ))],
            ))],
        ))],
    );
    vec![
        Node::Element(elem("rect", vec![attr("width", "80")], vec![])),
        Node::Element(group),
    ]
}

fn diagram(labels: &[&str]) -> Elem {
    let mut children = vec![];
    for l in labels {
        children.extend(shape_pair(l));
    }
    elem("html", vec![], children)
}

#[test]
fn normalize_examples() {
    assert_eq!(normalize("Back Tuck"), "backtuck");
    assert_eq!(normalize("12 Airplane!"), "12airplane");
    assert_eq!(normalize("  "), "");
}

#[test]
fn normalize_idempotent_on_samples() {
    for s in ["Back Tuck", "12 Airplane!", "  ", "Handstand", "a-B_c 9!", "\nFront\tTuck\r"] {
        let once = normalize(s);
        assert_eq!(normalize(&once), once);
    }
}

#[test]
fn normalize_drops_separators() {
    assert_eq!(normalize("tab\nlabel"), "tablabel");
    assert_eq!(normalize("Half-In"), "halfin");
}

#[test]
fn trim_label_text() {
    assert_eq!(trim("  Handstand \n"), "Handstand");
    assert_eq!(trim(""), "");
    assert_eq!(trim(" \t "), "");
    assert_eq!(trim("a b"), "a b");
}

#[test]
fn serializer_exact() {
    let e = elem(
        "a",
        vec![attr("href", "/skill/x")],
        vec![Node::Text("x".to_string())],
    );
    assert_eq!(ser_elem(&e), "<a href=\"/skill/x\">x</a>");
}

#[test]
fn round_trip_known_skill() {
    // One shape/group pair labeled "Handstand", known set {"handstand"}.
    let root = diagram(&["Handstand"]);
    let known = vec!["handstand".to_string()];
    let (content, missing) = tabparse(&root, &known, "MAG", "Floor").unwrap();
    assert_eq!(missing.len(), 0);
    assert!(content.starts_with("{% extends \"user\" %}{% block content %}"));
    assert!(content.ends_with("{% endblock %}"));
    assert!(content.contains(
        "fill=\"hsl({% if skills.handstand %}{{ skills.handstand }}{% else %}0{% endif %}, 50%, 50%)\""
    ));
    assert!(content.contains("class=\"skill\""));
    assert_eq!(content.matches("<input type=\"range\"").count(), 1);
    assert!(content.contains("href=\"/skill/handstand\""));
    assert!(content.contains("&s=handstand&"));
    assert!(content.contains(">Handstand</a>"));
    // the transient marker never reaches the output
    assert!(!content.contains("<marker"));
}

#[test]
fn missing_reference_recorded() {
    // Same diagram, empty known-skill set: one diagnostic, shape still
    // annotated with the fallback-to-0 expression.
    let root = diagram(&["Handstand"]);
    let known: Vec<String> = vec![];
    let (content, missing) = tabparse(&root, &known, "MAG", "Floor").unwrap();
    assert_eq!(missing.len(), 1);
    assert_eq!(missing[0].package_identifier, "MAG");
    assert_eq!(missing[0].tab_identifier, "Floor");
    assert_eq!(missing[0].raw_label, "Handstand");
    assert!(content.contains("{% else %}0{% endif %}"));
    assert!(content.contains("skills.handstand"));
}

#[test]
fn one_missing_per_unresolved_shape() {
    let root = diagram(&["Handstand", "Back Tuck", "Handstand", ""]);
    let known = vec!["backtuck".to_string()];
    let (_, missing) = tabparse(&root, &known, "P", "T").unwrap();
    // two unresolved "Handstand" shapes, one resolved, one empty label
    assert_eq!(missing.len(), 2);
    assert_eq!(missing[0].raw_label, "Handstand");
    assert_eq!(missing[1].raw_label, "Handstand");
}

#[test]
fn empty_label_is_decorative() {
    let root = diagram(&["   "]);
    let known: Vec<String> = vec![];
    let (content, missing) = tabparse(&root, &known, "P", "T").unwrap();
    assert_eq!(missing.len(), 0);
    assert!(!content.contains("class=\"skill\""));
    assert!(!content.contains("<input"));
}

#[test]
fn structural_violation_no_sibling_group() {
    // A shape with no following element sibling breaks the convention.
    let root = elem(
        "html",
        vec![],
        vec![Node::Element(elem("rect", vec![], vec![]))],
    );
    let known: Vec<String> = vec![];
    let err = tabparse(&root, &known, "MAG", "Tramp").unwrap_err();
    assert_eq!(err.package_identifier, "MAG");
    assert_eq!(err.tab_identifier, "Tramp");
}

#[test]
fn structural_violation_missing_nested_path() {
    // The sibling group lacks the switch wrapper.
    let root = elem(
        "html",
        vec![],
        vec![
            Node::Element(elem("rect", vec![], vec![])),
            Node::Element(elem("g", vec![], vec![])),
        ],
    );
    let known: Vec<String> = vec![];
    let err = tabparse(&root, &known, "P", "T").unwrap_err();
    assert_eq!(err.package_identifier, "P");
    assert_eq!(err.tab_identifier, "T");
}

#[test]
fn fill_attribute_is_replaced() {
    // A pre-set export fill color is replaced by the placeholder.
    let mut children = shape_pair("Handstand");
    if let Node::Element(rect) = &mut children[0] {
        rect.attrs.push(attr("fill", "#cce5ff"));
    }
    let root = elem("html", vec![], children);
    let known = vec!["handstand".to_string()];
    let (content, _) = tabparse(&root, &known, "P", "T").unwrap();
    assert!(!content.contains("#cce5ff"));
    assert!(content.contains("fill=\"hsl("));
}

#[test]
fn skill_page_from_markdown() {
    let content = skillparse("# Title\n\nBody");
    assert_eq!(
        content,
        "{% extends \"docs\" %}{% block content %}<h1>Title</h1>\n<p>Body</p>\n{% endblock %}"
    );
}

#[test]
fn lookups() {
    let skills = vec![
        Skill { identifier: "backtuck".to_string(), content: "c1".to_string() },
        Skill { identifier: "handstand".to_string(), content: "c2".to_string() },
    ];
    assert_eq!(find_skill(&skills, "handstand"), Some(1));
    assert_eq!(find_skill(&skills, "nothing"), None);

    let packages = vec![Package {
        identifier: "MAG".to_string(),
        tabs: vec![Tab { identifier: "Tramp".to_string(), content: "t".to_string() }],
    }];
    let p = find_package(&packages, "MAG").unwrap();
    assert_eq!(p, 0);
    assert_eq!(find_tab(&packages[0].tabs, "Tramp"), Some(0));
    assert_eq!(find_tab(&packages[0].tabs, "Pommel"), None);

    let known = vec!["a".to_string(), "b".to_string()];
    assert!(known_contains(&known, &"b".to_string()));
    assert!(!known_contains(&known, &"c".to_string()));
}

#[test]
fn index_greeting() {
    assert_eq!(
        skilltreedocs::index(),
        "Welcome to skilltreedocs. Try to /skills and /packages route for relevant paths"
    );
}
