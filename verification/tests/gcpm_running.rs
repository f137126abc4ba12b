//! Running elements, and nodes written out as markup.

use fulgur::gcpm::escape::{escape_attribute_value, escape_text_content};
use fulgur::gcpm::running::{DomAttribute, DomElement, DomNode, RunningElementStore, serialize_node};
use fulgur::limits::MAX_DOM_DEPTH;

#[test]
fn test_running_store_instance_registration() {
    let mut store = RunningElementStore::new();
    let id_a = store.register(10, "header".to_string(), "<h1>A</h1>".to_string());
    let id_b = store.register(20, "header".to_string(), "<h1>B</h1>".to_string());

    assert_ne!(id_a, id_b);
    assert_eq!(store.get_html(id_a), Some("<h1>A</h1>"));
    assert_eq!(store.get_html(id_b), Some("<h1>B</h1>"));
    assert_eq!(store.instance_for_node(10), Some(id_a));
    assert_eq!(store.instance_for_node(20), Some(id_b));
    assert_eq!(store.instance_for_node(99), None);
}

#[test]
fn test_running_store_name_lookup() {
    let mut store = RunningElementStore::new();
    let id = store.register(5, "footer".to_string(), "<p>F</p>".to_string());
    assert_eq!(store.name_of(id), Some("footer"));
}

#[test]
fn test_running_store_invalid_instance_id_returns_none() {
    let store = RunningElementStore::new();
    assert!(store.get_html(999).is_none());
    assert!(store.name_of(999).is_none());
}

#[test]
fn default_gives_empty_store() {
    let store = RunningElementStore::default();
    assert_eq!(store.instance_count(), 0);
    assert_eq!(store.instance_for_node(0), None);
}

#[test]
fn instance_count_tracks_registrations() {
    let mut store = RunningElementStore::new();
    assert_eq!(store.instance_count(), 0);
    store.register(1, "header".to_string(), "<h1>A</h1>".to_string());
    assert_eq!(store.instance_count(), 1);
    store.register(2, "header".to_string(), "<h1>B</h1>".to_string());
    assert_eq!(store.instance_count(), 2);
}

#[test]
fn later_registrations_leave_earlier_instances_alone() {
    let mut store = RunningElementStore::new();
    let first = store.register(1, "header".to_string(), "<i>1</i>".to_string());
    for node in 2..20 {
        store.register(node, "other".to_string(), "<i>x</i>".to_string());
    }
    assert_eq!(store.get_html(first), Some("<i>1</i>"));
    assert_eq!(store.name_of(first), Some("header"));
}

fn text(content: &str) -> DomNode {
    DomNode::Text(content.to_string())
}

fn node(tag: &str, html: bool, attributes: &[(&str, &str)], children: Vec<DomNode>) -> DomNode {
    DomNode::Element(DomElement {
        tag: tag.to_string(),
        html,
        attributes: attributes
            .iter()
            .map(|(name, value)| DomAttribute { name: name.to_string(), value: value.to_string() })
            .collect(),
        children,
    })
}

fn element(tag: &str, children: Vec<DomNode>) -> DomNode {
    node(tag, true, &[], children)
}

#[test]
fn serialize_node_re_escapes_markup_in_text_nodes() {
    let out = serialize_node(&element(
        "div",
        vec![text(r#"Report for <a href="javascript:alert(1)">x</a>"#)],
    ));
    assert!(!out.contains("<a "), "escaped anchor was resurrected as markup: {out}");
    assert!(
        out.contains("&lt;a href=") && out.contains("&gt;x&lt;/a&gt;"),
        "anchor text was not re-escaped: {out}"
    );
}

#[test]
fn serialize_node_escapes_bare_ampersand_in_text() {
    let out = serialize_node(&element("div", vec![text("Tom & Jerry")]));
    assert!(out.contains("Tom &amp; Jerry"), "{out}");
}

#[test]
fn serialize_node_keeps_authored_elements_intact() {
    let out = serialize_node(&element(
        "div",
        vec![
            element("b", vec![text("bold")]),
            text(" "),
            node("a", true, &[("href", "https://ok.test")], vec![text("link")]),
        ],
    ));
    assert!(out.contains("<b>bold</b>"), "{out}");
    assert!(out.contains(r#"<a href="https://ok.test">link</a>"#), "{out}");
}

#[test]
fn serialize_node_closes_childless_non_void_elements() {
    let out = serialize_node(&element(
        "div",
        vec![element("span", vec![]), element("b", vec![text("X")])],
    ));
    assert!(out.contains("<span></span>"), "{out}");
    assert!(out.contains("<b>X</b>"), "{out}");
    assert!(!out.contains("<span />"), "{out}");
}

#[test]
fn serialize_node_closes_empty_style_element() {
    let out = serialize_node(&element(
        "div",
        vec![element("style", vec![]), element("b", vec![text("X")])],
    ));
    assert!(out.contains("<style></style>"), "{out}");
    assert!(!out.contains("<style />"), "{out}");
}

#[test]
fn serialize_node_keeps_void_elements_self_closing() {
    let out = serialize_node(&element("div", vec![text("a"), element("br", vec![]), text("b")]));
    assert!(out.contains("<br />"), "{out}");
}

#[test]
fn serialize_node_keeps_every_raw_text_mode_verbatim() {
    // The text of these elements reaches the tree without its references read.
    for tag in ["style", "script", "xmp", "iframe", "noembed", "noframes"] {
        let out = serialize_node(&element("div", vec![element(tag, vec![text("A &amp; B")])]));
        assert!(
            out.contains(&format!("<{tag}>A &amp; B</{tag}>")),
            "{tag} content was re-encoded: {out}"
        );
    }
}

#[test]
fn serialize_node_escapes_escapable_raw_text_elements() {
    // The text of these elements reaches the tree with its references read.
    for tag in ["textarea", "title", "noscript"] {
        let out = serialize_node(&element("div", vec![element(tag, vec![text("A & B")])]));
        assert!(
            out.contains(&format!("<{tag}>A &amp; B</{tag}>")),
            "{tag} content lost its escaping: {out}"
        );
    }
}

#[test]
fn serialize_node_handles_foreign_content() {
    let out = serialize_node(&element(
        "div",
        vec![node(
            "svg",
            false,
            &[("viewBox", "0 0 10 10")],
            vec![
                node("circle", false, &[("r", "4")], vec![]),
                node("style", false, &[], vec![text("circle > * {fill:red}")]),
            ],
        )],
    ));
    assert!(out.contains(r#"<circle r="4" />"#), "{out}");
    assert!(out.contains("<style>circle &gt; * {fill:red}</style>"), "{out}");
}

#[test]
fn serialize_node_keeps_raw_text_of_style_element_verbatim() {
    let out = serialize_node(&element(
        "div",
        vec![
            element("style", vec![text(".a > b { color: red }")]),
            element("b", vec![text("x")]),
        ],
    ));
    assert!(
        out.contains(".a > b { color: red }"),
        "style CSS was corrupted by escaping: {out}"
    );
}

#[test]
fn serialize_node_skips_comments_and_whatever_is_too_deep() {
    assert_eq!(serialize_node(&DomNode::Other), "");
    let mut tree = text("deep");
    for _ in 0..MAX_DOM_DEPTH {
        tree = element("i", vec![tree]);
    }
    let out = serialize_node(&tree);
    assert!(!out.contains("deep"));
    assert_eq!(out.matches("<i>").count(), MAX_DOM_DEPTH);
    assert_eq!(out.matches("</i>").count(), MAX_DOM_DEPTH);
}

fn escape_text(s: &str) -> String {
    let mut out = String::new();
    escape_text_content(s, &mut out);
    out
}

#[test]
fn escape_text_content_escapes_markup_specials() {
    assert_eq!(escape_text("a<b>c"), "a&lt;b&gt;c");
    assert_eq!(escape_text("a&b"), "a&amp;b");
    assert_eq!(escape_text("&<>"), "&amp;&lt;&gt;");
}

#[test]
fn escape_text_content_leaves_quotes_and_plain_text_alone() {
    assert_eq!(escape_text(r#"say "hi" 123"#), r#"say "hi" 123"#);
    assert_eq!(escape_text(""), "");
}

fn escape(s: &str) -> String {
    let mut out = String::new();
    escape_attribute_value(s, &mut out);
    out
}

#[test]
fn escape_attribute_value_ampersand() {
    assert_eq!(escape("a&b"), "a&amp;b");
    assert_eq!(escape("&&"), "&amp;&amp;");
}

#[test]
fn escape_attribute_value_double_quote() {
    assert_eq!(escape("say \"hi\""), "say &quot;hi&quot;");
}

#[test]
fn escape_attribute_value_angle_brackets() {
    assert_eq!(escape("a<b>c"), "a&lt;b&gt;c");
    assert_eq!(escape("<>"), "&lt;&gt;");
}

#[test]
fn escape_attribute_value_passthrough_regular_chars() {
    assert_eq!(escape("hello world!"), "hello world!");
    assert_eq!(escape("abc123"), "abc123");
}

#[test]
fn escape_attribute_value_empty() {
    assert_eq!(escape(""), "");
}

#[test]
fn escape_attribute_value_all_specials_combined() {
    assert_eq!(escape("&\"<>"), "&amp;&quot;&lt;&gt;");
}
