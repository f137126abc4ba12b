//! References to other places of the document.

use fulgur::gcpm::CounterStyle;
use fulgur::gcpm::TargetTextKind;
use fulgur::gcpm::first_letter::compute_first_letter;
use fulgur::gcpm::target_ref::{
    AnchorEntry, AnchorMap, fragment_id_from_href, page_for_node, resolve_target_counter, resolve_target_counters,
    resolve_target_text,
};
use fulgur::name_map::NameMap;
use fulgur::pagination::{Fragment, PaginationGeometry, PaginationGeometryTable};

fn make_map() -> AnchorMap {
    let mut m = AnchorMap::new();
    let mut counters = NameMap::new();
    counters.insert("section".into(), vec![1, 2]);
    m.insert(
        "sec-1-2",
        AnchorEntry {
            page_num: 7,
            counters,
            text: "Introduction".into(),
            before_text: "Before".into(),
            after_text: "After".into(),
        },
    );
    m
}

#[test]
fn fragment_id_strips_hash() {
    assert_eq!(fragment_id_from_href("#sec1"), Some("sec1"));
}

#[test]
fn fragment_id_rejects_external() {
    assert_eq!(fragment_id_from_href("https://example.com/"), None);
    assert_eq!(fragment_id_from_href("foo.html#bar"), None);
    assert_eq!(fragment_id_from_href("#"), None);
    assert_eq!(fragment_id_from_href(""), None);
}

#[test]
fn target_counter_page_uses_page_num() {
    let m = make_map();
    assert_eq!(
        resolve_target_counter("#sec-1-2", "page", CounterStyle::Decimal, &m),
        "7"
    );
}

#[test]
fn target_counter_page_name_ignores_user_defined_counter() {
    let mut m = AnchorMap::new();
    let mut counters = NameMap::new();
    counters.insert("page".into(), vec![999]);
    m.insert(
        "x",
        AnchorEntry {
            page_num: 5,
            counters,
            text: String::new(),
            before_text: String::new(),
            after_text: String::new(),
        },
    );
    assert_eq!(
        resolve_target_counter("#x", "page", CounterStyle::Decimal, &m),
        "5"
    );
}

#[test]
fn target_counter_named_uses_innermost() {
    let m = make_map();
    assert_eq!(
        resolve_target_counter("#sec-1-2", "section", CounterStyle::Decimal, &m),
        "2"
    );
}

#[test]
fn target_counter_missing_fragment_returns_empty() {
    let m = make_map();
    assert_eq!(
        resolve_target_counter("#nope", "page", CounterStyle::Decimal, &m),
        ""
    );
}

#[test]
fn target_counter_external_href_returns_empty() {
    let m = make_map();
    assert_eq!(
        resolve_target_counter("https://example.com/", "page", CounterStyle::Decimal, &m),
        ""
    );
}

#[test]
fn target_counters_joins_chain() {
    let m = make_map();
    assert_eq!(
        resolve_target_counters("#sec-1-2", "section", ".", CounterStyle::Decimal, &m),
        "1.2"
    );
}

#[test]
fn target_text_returns_text() {
    let m = make_map();
    assert_eq!(
        resolve_target_text("#sec-1-2", TargetTextKind::Content, &m),
        "Introduction"
    );
}

#[test]
fn target_text_returns_before_after_and_first_letter() {
    let m = make_map();
    assert_eq!(
        resolve_target_text("#sec-1-2", TargetTextKind::Before, &m),
        "Before"
    );
    assert_eq!(
        resolve_target_text("#sec-1-2", TargetTextKind::After, &m),
        "After"
    );
    assert_eq!(
        resolve_target_text("#sec-1-2", TargetTextKind::FirstLetter, &m),
        "I"
    );
}

#[test]
fn target_text_first_letter_is_grapheme_cluster() {
    let mut m = AnchorMap::new();
    m.insert(
        "sec-1-2",
        AnchorEntry { text: "A\u{0301}BC".to_string(), page_num: 7, ..AnchorEntry::default() },
    );
    assert_eq!(
        resolve_target_text("#sec-1-2", TargetTextKind::FirstLetter, &m),
        "A\u{0301}"
    );
}

#[test]
fn first_letter_ascii() {
    assert_eq!(compute_first_letter("Hello world"), "H");
}
#[test]
fn first_letter_skips_leading_punct_and_keeps_trailing() {
    assert_eq!(compute_first_letter("「『Hello』"), "「『H");
}
#[test]
fn first_letter_digit_counts_as_letter() {
    assert_eq!(compute_first_letter("123abc"), "1");
}
#[test]
fn first_letter_empty_and_all_punct() {
    assert_eq!(compute_first_letter(""), "");
    assert_eq!(compute_first_letter("   "), "");
    assert_eq!(compute_first_letter("...!?"), "");
}
#[test]
fn first_letter_space_before_letter_yields_nothing() {
    assert_eq!(compute_first_letter("『 H"), "");
}
#[test]
fn first_letter_grapheme_cluster() {
    assert_eq!(compute_first_letter("e\u{0301}tude"), "e\u{0301}");
}
#[test]
fn first_letter_includes_leading_currency_symbol() {
    assert_eq!(compute_first_letter("$Hello"), "$H");
}
#[test]
fn first_letter_trailing_punct_then_more_letters() {
    assert_eq!(compute_first_letter("H!Hello"), "H!");
}
#[test]
fn first_letter_trailing_punct_then_nonletter() {
    assert_eq!(compute_first_letter("「Hello」 world"), "「H");
}
#[test]
fn first_letter_large_tail_stops_early() {
    let mut s = String::from("H");
    s.push_str(&"x".repeat(1_000_000));
    assert_eq!(compute_first_letter(&s), "H");
}

#[test]
fn target_text_missing_returns_empty() {
    let m = make_map();
    assert_eq!(
        resolve_target_text("#nope", TargetTextKind::Content, &m),
        ""
    );
}

#[test]
fn page_for_node_returns_first_page_for_split_node() {
    let mut table = PaginationGeometryTable::<f32>::new();
    table.insert(
        42,
        PaginationGeometry {
            fragments: vec![
                Fragment {
                    page_index: 2,
                    x: 0.0_f32,
                    y: 0.0_f32,
                    width: 0.0_f32,
                    height: 0.0_f32,
                },
                Fragment {
                    page_index: 3,
                    x: 0.0_f32,
                    y: 0.0_f32,
                    width: 0.0_f32,
                    height: 0.0_f32,
                },
            ],
            is_repeat: false,
        },
    );
    assert_eq!(page_for_node(&table, 42), Some(3)); // page_index 2 -> 1-based page 3
}

#[test]
fn page_for_node_returns_none_for_absent_node() {
    let table = PaginationGeometryTable::<f32>::new();
    assert_eq!(page_for_node(&table, 999), None);
}

#[test]
fn page_for_node_returns_none_for_node_with_no_fragments() {
    let mut table = PaginationGeometryTable::<f32>::new();
    table.insert(
        7,
        PaginationGeometry {
            fragments: vec![],
            is_repeat: false,
        },
    );
    assert_eq!(page_for_node(&table, 7), None);
}

#[test]
fn anchor_map_is_empty_after_construction() {
    let m = AnchorMap::new();
    assert!(m.is_empty());
}

#[test]
fn anchor_map_is_not_empty_after_insert() {
    let mut m = AnchorMap::new();
    m.insert("a", AnchorEntry::default());
    assert!(!m.is_empty());
}

#[test]
fn target_counter_undefined_named_counter_returns_empty() {
    let m = make_map();
    assert_eq!(
        resolve_target_counter("#sec-1-2", "no-such-counter", CounterStyle::Decimal, &m),
        ""
    );
}

#[test]
fn target_counters_external_href_returns_empty() {
    let m = make_map();
    assert_eq!(
        resolve_target_counters("foo.html#bar", "section", ".", CounterStyle::Decimal, &m),
        ""
    );
}

#[test]
fn target_counters_missing_fragment_returns_empty() {
    let m = make_map();
    assert_eq!(
        resolve_target_counters("#nope", "section", ".", CounterStyle::Decimal, &m),
        ""
    );
}

#[test]
fn target_counters_undefined_counter_returns_empty() {
    let m = make_map();
    assert_eq!(
        resolve_target_counters("#sec-1-2", "undefined", ".", CounterStyle::Decimal, &m),
        ""
    );
}

#[test]
fn target_text_external_href_returns_empty() {
    let m = make_map();
    assert_eq!(
        resolve_target_text("https://example.com/", TargetTextKind::Content, &m),
        ""
    );
}
