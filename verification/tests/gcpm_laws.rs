//! What holds of generated content as a whole, on concrete values.

use fulgur::gcpm::content::{
    resolve_content_to_html, resolve_content_to_string, resolve_content_to_string_with_anchor, resolve_element_policy,
    resolve_string_policy,
};
use fulgur::gcpm::counter::CounterState;
use fulgur::gcpm::escape::{css_escape_string, push_escaped_html_text};
use fulgur::gcpm::first_letter::compute_first_letter;
use fulgur::gcpm::margin_box::MarginBoxPosition;
use fulgur::gcpm::numeral::{format_counter, to_alpha, to_decimal, to_roman};
use fulgur::gcpm::parser::parse_gcpm;
use fulgur::gcpm::running::{DomNode, RunningElementStore, serialize_node};
use fulgur::gcpm::target_ref::{AnchorEntry, AnchorMap, resolve_target_counter, resolve_target_text};
use fulgur::gcpm::{
    ContentItem, CounterStyle, ElementPolicy, GcpmContext, Margin, PartialMargin, StringPolicy, TargetTextKind,
    TargetUrl,
};
use fulgur::name_map::NameMap;
use fulgur::pagination::{PageRunningState, StringSetPageState};

#[test]
fn decimals_read_back() {
    for value in [0, 7, -7, 1234567, i32::MAX, i32::MIN] {
        assert_eq!(to_decimal(value).parse::<i32>(), Ok(value));
    }
}

#[test]
fn letters_read_back() {
    for value in [1, 26, 27, 52, 53, 702, 703, 18278, 18279, 1_000_000] {
        let mut read: i64 = 0;
        for letter in to_alpha(value, b'A').unwrap().bytes() {
            read = read * 26 + i64::from(letter - b'A') + 1;
        }
        assert_eq!(read, i64::from(value));
    }
    assert_eq!(to_alpha(0, b'a'), None);
    assert_eq!(to_alpha(-1, b'a'), None);
}

#[test]
fn romans_read_back() {
    let worth = |c: char| match c {
        'I' => 1,
        'V' => 5,
        'X' => 10,
        'L' => 50,
        'C' => 100,
        'D' => 500,
        _ => 1000,
    };
    for value in 1..=3999 {
        let digits: Vec<i32> = to_roman(value).unwrap().chars().map(worth).collect();
        let mut read = 0;
        for i in 0..digits.len() {
            let next = digits.get(i + 1).copied().unwrap_or(0);
            read += if digits[i] < next { -digits[i] } else { digits[i] };
        }
        assert_eq!(read, value);
    }
    assert_eq!(to_roman(0), None);
    assert_eq!(to_roman(4000), None);
    assert_eq!(format_counter(4000, CounterStyle::UpperRoman), "4000");
}

fn read_html(markup: &str) -> String {
    markup.replace("&lt;", "<").replace("&gt;", ">").replace("&quot;", "\"").replace("&amp;", "&")
}

#[test]
fn html_is_the_escaped_text() {
    let items = vec![
        ContentItem::String("<b> & \"c\"".to_string()),
        ContentItem::Counter { name: "page".to_string(), style: CounterStyle::LowerRoman },
    ];
    let none = NameMap::new();
    let text = resolve_content_to_string(&items, &NameMap::new(), 4, 9, &none);
    let html = resolve_content_to_html(&items, &RunningElementStore::new(), &[], &NameMap::new(), 4, 9, 3, &none);
    assert_eq!(text, "<b> & \"c\"iv");
    let mut escaped = String::new();
    push_escaped_html_text(&mut escaped, &text);
    assert_eq!(html, escaped);
    assert_eq!(read_html(&html), text);
}

#[test]
fn text_is_that_of_the_parts() {
    let a = ContentItem::String("a".to_string());
    let b = ContentItem::Counter { name: "pages".to_string(), style: CounterStyle::Decimal };
    let text = |items: &[ContentItem]| resolve_content_to_string(items, &NameMap::new(), 1, 12, &NameMap::new());
    assert_eq!(text(&[a.clone(), b.clone()]), text(&[a]) + &text(&[b]));
}

#[test]
fn references_wait_for_targets() {
    let item = ContentItem::TargetText { url: TargetUrl::Literal("#x".to_string()), kind: TargetTextKind::Content };
    let mut map = AnchorMap::new();
    map.insert(
        "x",
        AnchorEntry {
            page_num: 2,
            counters: NameMap::new(),
            text: "Heading".to_string(),
            before_text: String::new(),
            after_text: String::new(),
        },
    );
    let resolve = |anchors: Option<&AnchorMap>| {
        resolve_content_to_string_with_anchor(
            &[item.clone()],
            &NameMap::new(),
            1,
            1,
            &NameMap::new(),
            anchors,
            None,
        )
    };
    assert_eq!(resolve(None), "");
    assert_eq!(resolve(Some(&map)), "Heading");
}

fn page_with(name: &str, instance_ids: Vec<usize>) -> NameMap<PageRunningState> {
    let mut page = NameMap::new();
    page.insert(name.to_string(), PageRunningState { instance_ids });
    page
}

#[test]
fn start_ignores_its_page() {
    let mut store = RunningElementStore::new();
    let a = store.register(1, "h".to_string(), "A".to_string());
    let b = store.register(2, "h".to_string(), "B".to_string());
    let with = [page_with("h", vec![a]), page_with("h", vec![b])];
    let without = [page_with("h", vec![a]), NameMap::new()];
    for states in [&with, &without] {
        assert_eq!(resolve_element_policy("h", ElementPolicy::Start, 1, states, &store), Some("A"));
    }
}

#[test]
fn policies_agree_on_a_page_without_the_element() {
    let mut store = RunningElementStore::new();
    let a = store.register(1, "h".to_string(), "A".to_string());
    let states = [page_with("h", vec![a]), NameMap::new()];
    for policy in [ElementPolicy::First, ElementPolicy::Start, ElementPolicy::Last, ElementPolicy::FirstExcept] {
        assert_eq!(resolve_element_policy("h", policy, 1, &states, &store), Some("A"));
    }
    let unset = StringSetPageState { start: Some("S".to_string()), first: None, last: None };
    for policy in [StringPolicy::First, StringPolicy::Start, StringPolicy::Last, StringPolicy::FirstExcept] {
        assert_eq!(resolve_string_policy(&unset, policy), "S");
    }
}

#[test]
fn leaving_an_element_undoes_its_counters() {
    let mut state = CounterState::new();
    state.reset("c", 1);
    state.reset("d", 8);
    state.reset_in_scope("c", 5, 10);
    state.reset_in_scope("c", 6, 10);
    assert_eq!(state.chain("c"), [1, 5, 6]);
    assert_eq!(state.get("c"), 6);
    state.leave_element(10);
    assert_eq!(state.chain("c"), [1]);
    state.leave_element(10);
    assert_eq!(state.chain("c"), [1]);
    assert_eq!(state.chain("d"), [8]);
    state.reset("c", 2);
    state.reset("c", 3);
    assert_eq!(state.chain("c"), [3]);
}

#[test]
fn increments_reach_the_largest_number() {
    let mut state = CounterState::new();
    state.set("c", i32::MAX - 1);
    state.increment("c", 1);
    assert_eq!(state.get("c"), i32::MAX);
    state.increment("c", i32::MIN);
    assert_eq!(state.get("c"), -1);
}

fn contexts() -> [GcpmContext; 3] {
    [
        parse_gcpm(".a { position: running(x); }"),
        parse_gcpm("@page { @top-left { content: \"t\"; } }"),
        parse_gcpm("h1 { string-set: s content(text); color: red; }"),
    ]
}

fn summary(context: &GcpmContext) -> (usize, usize, usize, String) {
    (
        context.running_mappings.len(),
        context.margin_boxes.len(),
        context.string_set_mappings.len(),
        context.cleaned_css.clone(),
    )
}

#[test]
fn style_sheets_extend_in_any_grouping() {
    let [mut left, b, c] = contexts();
    left.extend_from(b);
    left.extend_from(c);
    let [mut right, mut bc, c] = contexts();
    bc.extend_from(c);
    right.extend_from(bc);
    assert_eq!(summary(&left), summary(&right));
    assert_eq!(left.margin_boxes[0].position, MarginBoxPosition::TopLeft);

    let [mut a, _, _] = contexts();
    let before = summary(&a);
    a.extend_from(parse_gcpm(""));
    assert_eq!(summary(&a), before);
    let mut empty = parse_gcpm("");
    assert!(empty.is_empty());
    empty.extend_from(a);
    assert_eq!(summary(&empty), before);
}

#[test]
fn later_margins_win_side_by_side() {
    let a = PartialMargin { top: Some(1), right: Some(2), bottom: None, left: None };
    let b = PartialMargin { top: None, right: Some(3), bottom: Some(4), left: None };
    let start = Margin { top: 9, right: 9, bottom: 9, left: 9 };
    let mut together = a;
    together.merge(&b);
    let mut one_by_one = start;
    a.apply_to_margin(&mut one_by_one);
    b.apply_to_margin(&mut one_by_one);
    let mut at_once = start;
    together.apply_to_margin(&mut at_once);
    assert_eq!(at_once, one_by_one);
    assert_eq!(at_once, Margin { top: 1, right: 3, bottom: 4, left: 9 });
}

#[test]
fn other_links_resolve_to_nothing() {
    let map = AnchorMap::new();
    for href in ["https://example.com/#x", "#unknown", "#", ""] {
        assert_eq!(resolve_target_counter(href, "page", CounterStyle::Decimal, &map), "");
        assert_eq!(resolve_target_text(href, TargetTextKind::Content, &map), "");
    }
}

#[test]
fn escaped_text_has_no_markup_and_reads_back() {
    for text in ["<a href=\"x\">&amp;</a>", "plain", "", "&lt;", "\u{e4}<\u{1f600}>"] {
        let mut escaped = String::new();
        push_escaped_html_text(&mut escaped, text);
        assert!(!escaped.contains('<') && !escaped.contains('>'));
        assert_eq!(read_html(&escaped), text);
        assert_eq!(serialize_node(&DomNode::Text(text.to_string())), escaped);
    }
}

#[test]
fn css_strings_read_back() {
    for text in ["plain", "quote \" and \\", "line\nbreak\r\ttab", "a\u{1}b", "\u{e4}\u{1f600}"] {
        let css = format!("@page {{ @top-left {{ content: \"{}\"; }} }}", css_escape_string(text));
        let context = parse_gcpm(&css);
        assert_eq!(context.margin_boxes[0].content, [ContentItem::String(text.to_string())]);
    }
}

#[test]
fn texts_start_with_their_first_letter() {
    for text in ["  \"Hello\" world", "(1) one", "\u{2014}", "a", "", "  x"] {
        assert!(text.trim_start().starts_with(&compute_first_letter(text)));
    }
    assert_eq!(compute_first_letter("  \"Hello\""), "\"H");
}

#[test]
fn changes_to_a_style_sheet_come_in_order() {
    let css = "a { position: running(one); color: red } @page { margin: 0 } b { string-set: s content(text); top: 0 }";
    let context = parse_gcpm(css);
    assert_eq!(context.cleaned_css.matches("display: none").count(), 1);
    assert!(!context.cleaned_css.contains("@page"));
    assert!(!context.cleaned_css.contains("string-set"));
    let red = context.cleaned_css.find("color: red").unwrap();
    let top = context.cleaned_css.find("top: 0").unwrap();
    assert!(red < top);
    let plain = "p > a { color: red } /* \"x */ @media print { b { top: 0 } }";
    assert_eq!(parse_gcpm(plain).cleaned_css, plain);
}

#[test]
fn a_clone_keeps_the_counters_and_goes_its_own_way() {
    let mut counters = CounterState::new();
    counters.reset_in_scope("item", 2, 7);
    counters.reset_in_scope("item", 5, 8);
    let mut other = counters.clone();
    assert_eq!(other.chain("item"), vec![2, 5]);
    other.increment("item", 1);
    assert_eq!(other.get("item"), 6);
    assert_eq!(counters.get("item"), 5);

    let mut map = AnchorMap::new();
    map.insert("a", AnchorEntry { page_num: 3, ..AnchorEntry::default() });
    let copy = map.clone();
    assert_eq!(copy.get("a").map(|e| e.page_num), Some(3));
    assert!(copy.get("b").is_none());
}
