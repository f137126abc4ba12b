//! Counters, and content lists made text.

use fulgur::gcpm::content::{
    resolve_content_to_html, resolve_content_to_string, resolve_content_to_string_with_anchor, resolve_element_policy,
};
use fulgur::gcpm::counter::CounterState;
use fulgur::gcpm::numeral::{format_counter, format_counter_chain};
use fulgur::gcpm::running::RunningElementStore;
use fulgur::gcpm::target_ref::{AnchorEntry, AnchorMap};
use fulgur::gcpm::{ContentItem, CounterStyle, ElementPolicy, LeaderStyle, StringPolicy, TargetUrl};
use fulgur::name_map::NameMap;
use fulgur::pagination::{PageRunningState, StringSetPageState};

#[test]
fn test_resolve_counters() {
    let items = vec![
        ContentItem::String("Page ".into()),
        ContentItem::Counter {
            name: "page".into(),
            style: CounterStyle::Decimal,
        },
        ContentItem::String(" of ".into()),
        ContentItem::Counter {
            name: "pages".into(),
            style: CounterStyle::Decimal,
        },
    ];
    assert_eq!(
        resolve_content_to_string(&items, &NameMap::new(), 3, 10, &NameMap::new()),
        "Page 3 of 10"
    );
}

fn single_page_store(
    name: &str,
    html: &str,
) -> (RunningElementStore, Vec<NameMap<PageRunningState>>) {
    let mut store = RunningElementStore::new();
    let id = store.register(1, name.to_string(), html.to_string());
    let mut page_state = NameMap::new();
    page_state.insert(
        name.to_string(),
        PageRunningState {
            instance_ids: vec![id],
        },
    );
    (store, vec![page_state])
}

#[test]
fn test_element_becomes_empty() {
    let items = vec![
        ContentItem::String("Before".into()),
        ContentItem::Element {
            name: "hdr".into(),
            policy: ElementPolicy::First,
        },
        ContentItem::String("After".into()),
    ];
    assert_eq!(
        resolve_content_to_string(&items, &NameMap::new(), 1, 5, &NameMap::new()),
        "BeforeAfter"
    );
}

#[test]
fn test_resolve_html_with_running_element() {
    let items = vec![ContentItem::Element {
        name: "hdr".into(),
        policy: ElementPolicy::First,
    }];
    let (store, states) = single_page_store("hdr", "<b>Header</b>");
    assert_eq!(
        resolve_content_to_html(
            &items,
            &store,
            &states,
            &NameMap::new(),
            1,
            1,
            0,
            &NameMap::new()
        ),
        "<b>Header</b>"
    );
}

#[test]
fn test_resolve_html_mixed() {
    let items = vec![
        ContentItem::Element {
            name: "hdr".into(),
            policy: ElementPolicy::First,
        },
        ContentItem::String(" - Page ".into()),
        ContentItem::Counter {
            name: "page".into(),
            style: CounterStyle::Decimal,
        },
        ContentItem::String("/".into()),
        ContentItem::Counter {
            name: "pages".into(),
            style: CounterStyle::Decimal,
        },
    ];

    let mut store = RunningElementStore::new();
    let id0 = store.register(1, "hdr".into(), "<span>P1</span>".into());
    let id1 = store.register(2, "hdr".into(), "<span>P2</span>".into());
    let id2 = store.register(3, "hdr".into(), "<span>P3</span>".into());
    let mk = |ids: Vec<usize>| -> NameMap<PageRunningState> {
        let mut m = NameMap::new();
        m.insert("hdr".to_string(), PageRunningState { instance_ids: ids });
        m
    };
    let states = vec![mk(vec![id0]), mk(vec![id1]), mk(vec![id2])];

    assert_eq!(
        resolve_content_to_html(
            &items,
            &store,
            &states,
            &NameMap::new(),
            2,
            3,
            1,
            &NameMap::new()
        ),
        "<span>P2</span> - Page 2/3"
    );
}

#[test]
fn test_resolve_html_escapes_literal_string() {
    let items = vec![ContentItem::String("A & B <script>".into())];
    let store = RunningElementStore::new();
    let states: Vec<NameMap<PageRunningState>> = vec![NameMap::new()];
    assert_eq!(
        resolve_content_to_html(
            &items,
            &store,
            &states,
            &NameMap::new(),
            1,
            1,
            0,
            &NameMap::new()
        ),
        "A &amp; B &lt;script&gt;"
    );
}

#[test]
fn test_resolve_string_ref_first() {
    let items = vec![ContentItem::StringRef {
        name: "title".to_string(),
        policy: StringPolicy::First,
    }];
    let mut state = NameMap::new();
    state.insert(
        "title".to_string(),
        StringSetPageState {
            start: Some("Previous".to_string()),
            first: Some("Current".to_string()),
            last: Some("Current".to_string()),
        },
    );
    assert_eq!(
        resolve_content_to_html(
            &items,
            &RunningElementStore::new(),
            &[],
            &state,
            1,
            1,
            0,
            &NameMap::new()
        ),
        "Current"
    );
}

#[test]
fn test_resolve_string_ref_first_falls_back_to_start() {
    let items = vec![ContentItem::StringRef {
        name: "title".to_string(),
        policy: StringPolicy::First,
    }];
    let mut state = NameMap::new();
    state.insert(
        "title".to_string(),
        StringSetPageState {
            start: Some("Inherited".to_string()),
            first: None,
            last: None,
        },
    );
    assert_eq!(
        resolve_content_to_html(
            &items,
            &RunningElementStore::new(),
            &[],
            &state,
            1,
            1,
            0,
            &NameMap::new()
        ),
        "Inherited"
    );
}

#[test]
fn test_resolve_string_ref_start() {
    let items = vec![ContentItem::StringRef {
        name: "title".to_string(),
        policy: StringPolicy::Start,
    }];
    let mut state = NameMap::new();
    state.insert(
        "title".to_string(),
        StringSetPageState {
            start: Some("Start Value".to_string()),
            first: Some("First Value".to_string()),
            last: Some("Last Value".to_string()),
        },
    );
    assert_eq!(
        resolve_content_to_html(
            &items,
            &RunningElementStore::new(),
            &[],
            &state,
            1,
            1,
            0,
            &NameMap::new()
        ),
        "Start Value"
    );
}

#[test]
fn test_resolve_string_ref_last() {
    let items = vec![ContentItem::StringRef {
        name: "title".to_string(),
        policy: StringPolicy::Last,
    }];
    let mut state = NameMap::new();
    state.insert(
        "title".to_string(),
        StringSetPageState {
            start: None,
            first: Some("First".to_string()),
            last: Some("Last".to_string()),
        },
    );
    assert_eq!(
        resolve_content_to_html(
            &items,
            &RunningElementStore::new(),
            &[],
            &state,
            1,
            1,
            0,
            &NameMap::new()
        ),
        "Last"
    );
}

#[test]
fn test_resolve_string_ref_first_except_on_set_page() {
    let items = vec![ContentItem::StringRef {
        name: "title".to_string(),
        policy: StringPolicy::FirstExcept,
    }];
    let mut state = NameMap::new();
    state.insert(
        "title".to_string(),
        StringSetPageState {
            start: Some("Old".to_string()),
            first: Some("New".to_string()),
            last: Some("New".to_string()),
        },
    );
    assert_eq!(
        resolve_content_to_html(
            &items,
            &RunningElementStore::new(),
            &[],
            &state,
            1,
            1,
            0,
            &NameMap::new()
        ),
        ""
    );
}

#[test]
fn test_resolve_string_ref_first_except_on_no_set_page() {
    let items = vec![ContentItem::StringRef {
        name: "title".to_string(),
        policy: StringPolicy::FirstExcept,
    }];
    let mut state = NameMap::new();
    state.insert(
        "title".to_string(),
        StringSetPageState {
            start: Some("Inherited".to_string()),
            first: None,
            last: None,
        },
    );
    assert_eq!(
        resolve_content_to_html(
            &items,
            &RunningElementStore::new(),
            &[],
            &state,
            1,
            1,
            0,
            &NameMap::new()
        ),
        "Inherited"
    );
}

#[test]
fn test_resolve_string_ref_unknown_name() {
    let items = vec![ContentItem::StringRef {
        name: "nonexistent".to_string(),
        policy: StringPolicy::First,
    }];
    assert_eq!(
        resolve_content_to_html(
            &items,
            &RunningElementStore::new(),
            &[],
            &NameMap::new(),
            1,
            1,
            0,
            &NameMap::new(),
        ),
        ""
    );
}

#[test]
fn test_resolve_string_ref_html_escapes_special_characters() {
    let items = vec![ContentItem::StringRef {
        name: "title".to_string(),
        policy: StringPolicy::First,
    }];
    let mut state = NameMap::new();
    state.insert(
        "title".to_string(),
        StringSetPageState {
            start: None,
            first: Some("A & B <script>".to_string()),
            last: Some("A & B <script>".to_string()),
        },
    );
    assert_eq!(
        resolve_content_to_html(
            &items,
            &RunningElementStore::new(),
            &[],
            &state,
            1,
            1,
            0,
            &NameMap::new()
        ),
        "A &amp; B &lt;script&gt;"
    );
}

#[test]
fn test_resolve_element_policy_scenarios() {
    let mut store = RunningElementStore::new();
    let id_a = store.register(1, "hdr".into(), "<h1>A</h1>".into());
    let id_b = store.register(2, "hdr".into(), "<h1>B</h1>".into());
    let id_c = store.register(3, "hdr".into(), "<h1>C</h1>".into());

    let mut p0 = NameMap::new();
    p0.insert(
        "hdr".to_string(),
        PageRunningState {
            instance_ids: vec![id_a, id_b],
        },
    );
    let mut p1 = NameMap::new();
    p1.insert(
        "hdr".to_string(),
        PageRunningState {
            instance_ids: vec![id_c],
        },
    );
    let p2 = NameMap::new();
    let states = vec![p0, p1, p2];

    assert_eq!(
        resolve_element_policy("hdr", ElementPolicy::First, 0, &states, &store),
        Some("<h1>A</h1>")
    );
    assert_eq!(
        resolve_element_policy("hdr", ElementPolicy::First, 1, &states, &store),
        Some("<h1>C</h1>")
    );
    assert_eq!(
        resolve_element_policy("hdr", ElementPolicy::First, 2, &states, &store),
        Some("<h1>C</h1>")
    );

    assert_eq!(
        resolve_element_policy("hdr", ElementPolicy::Last, 0, &states, &store),
        Some("<h1>B</h1>")
    );
    assert_eq!(
        resolve_element_policy("hdr", ElementPolicy::Last, 1, &states, &store),
        Some("<h1>C</h1>")
    );
    assert_eq!(
        resolve_element_policy("hdr", ElementPolicy::Last, 2, &states, &store),
        Some("<h1>C</h1>")
    );

    assert_eq!(
        resolve_element_policy("hdr", ElementPolicy::Start, 0, &states, &store),
        None, // no preceding pages
    );
    assert_eq!(
        resolve_element_policy("hdr", ElementPolicy::Start, 1, &states, &store),
        Some("<h1>B</h1>"), // P0.instance_ids.last()
    );
    assert_eq!(
        resolve_element_policy("hdr", ElementPolicy::Start, 2, &states, &store),
        Some("<h1>C</h1>"), // P1.instance_ids.last()
    );

    assert_eq!(
        resolve_element_policy("hdr", ElementPolicy::FirstExcept, 0, &states, &store),
        None
    );
    assert_eq!(
        resolve_element_policy("hdr", ElementPolicy::FirstExcept, 1, &states, &store),
        None
    );
    assert_eq!(
        resolve_element_policy("hdr", ElementPolicy::FirstExcept, 2, &states, &store),
        Some("<h1>C</h1>")
    );
}

#[test]
fn test_resolve_element_policy_no_assignments_anywhere() {
    let store = RunningElementStore::new();
    let states: Vec<NameMap<PageRunningState>> = vec![NameMap::new(), NameMap::new(), NameMap::new()];

    for policy in [
        ElementPolicy::First,
        ElementPolicy::Start,
        ElementPolicy::Last,
        ElementPolicy::FirstExcept,
    ] {
        for page in 0..3 {
            assert_eq!(
                resolve_element_policy("hdr", policy, page, &states, &store),
                None,
            );
        }
    }
}

#[test]
fn test_resolve_element_policy_name_not_found() {
    let mut store = RunningElementStore::new();
    store.register(1, "other".into(), "<h1>X</h1>".into());
    let mut p0 = NameMap::new();
    p0.insert(
        "other".to_string(),
        PageRunningState {
            instance_ids: vec![0],
        },
    );
    let states = vec![p0];

    assert_eq!(
        resolve_element_policy("missing", ElementPolicy::First, 0, &states, &store),
        None,
    );
}

#[test]
fn test_format_counter_decimal() {
    assert_eq!(format_counter(1, CounterStyle::Decimal), "1");
    assert_eq!(format_counter(42, CounterStyle::Decimal), "42");
    assert_eq!(format_counter(0, CounterStyle::Decimal), "0");
    assert_eq!(format_counter(-5, CounterStyle::Decimal), "-5");
}

#[test]
fn test_format_counter_upper_roman() {
    assert_eq!(format_counter(1, CounterStyle::UpperRoman), "I");
    assert_eq!(format_counter(4, CounterStyle::UpperRoman), "IV");
    assert_eq!(format_counter(9, CounterStyle::UpperRoman), "IX");
    assert_eq!(format_counter(14, CounterStyle::UpperRoman), "XIV");
    assert_eq!(format_counter(3999, CounterStyle::UpperRoman), "MMMCMXCIX");
    assert_eq!(format_counter(0, CounterStyle::UpperRoman), "0");
    assert_eq!(format_counter(4000, CounterStyle::UpperRoman), "4000");
}

#[test]
fn test_format_counter_lower_roman() {
    assert_eq!(format_counter(1, CounterStyle::LowerRoman), "i");
    assert_eq!(format_counter(14, CounterStyle::LowerRoman), "xiv");
}

#[test]
fn test_format_counter_upper_alpha() {
    assert_eq!(format_counter(1, CounterStyle::UpperAlpha), "A");
    assert_eq!(format_counter(26, CounterStyle::UpperAlpha), "Z");
    assert_eq!(format_counter(27, CounterStyle::UpperAlpha), "AA");
    assert_eq!(format_counter(0, CounterStyle::UpperAlpha), "0");
}

#[test]
fn test_format_counter_lower_alpha() {
    assert_eq!(format_counter(1, CounterStyle::LowerAlpha), "a");
    assert_eq!(format_counter(26, CounterStyle::LowerAlpha), "z");
}

#[test]
fn test_resolve_custom_counter() {
    let items = vec![
        ContentItem::String("Chapter ".into()),
        ContentItem::Counter {
            name: "chapter".into(),
            style: CounterStyle::UpperRoman,
        },
    ];
    let mut custom_counters = NameMap::new();
    custom_counters.insert("chapter".to_string(), 4);
    assert_eq!(
        resolve_content_to_string(&items, &NameMap::new(), 1, 1, &custom_counters),
        "Chapter IV"
    );
}

#[test]
fn test_counter_state_reset_and_get() {
    let mut state = CounterState::new();
    state.reset("chapter", 0);
    assert_eq!(state.get("chapter"), 0);
}

#[test]
fn test_counter_state_increment() {
    let mut state = CounterState::new();
    state.reset("chapter", 0);
    state.increment("chapter", 1);
    assert_eq!(state.get("chapter"), 1);
    state.increment("chapter", 1);
    assert_eq!(state.get("chapter"), 2);
}

#[test]
fn test_counter_state_set() {
    let mut state = CounterState::new();
    state.reset("chapter", 0);
    state.set("chapter", 5);
    assert_eq!(state.get("chapter"), 5);
}

#[test]
fn test_counter_state_implicit_zero() {
    let mut state = CounterState::new();
    state.increment("chapter", 1);
    assert_eq!(state.get("chapter"), 1);
}

#[test]
fn test_counter_state_snapshot() {
    let mut state = CounterState::new();
    state.reset("chapter", 0);
    state.increment("chapter", 1);
    state.reset("section", 0);
    let snap = state.snapshot();
    assert_eq!(snap.get("chapter"), Some(&1));
    assert_eq!(snap.get("section"), Some(&0));
}

#[test]
fn test_resolve_content_to_html_with_leader_wraps_in_flex() {
    let items = vec![
        ContentItem::String("Title".into()),
        ContentItem::Leader {
            style: LeaderStyle::Dotted,
        },
        ContentItem::Counter {
            name: "page".into(),
            style: CounterStyle::Decimal,
        },
    ];
    let store = RunningElementStore::new();
    let html = resolve_content_to_html(
        &items,
        &store,
        &[],
        &NameMap::new(),
        1,
        5,
        0,
        &NameMap::new(),
    );

    assert!(
        html.contains("display:flex"),
        "expected flex container, got: {html}"
    );
    assert!(
        html.contains("flex:1"),
        "expected flex:1 leader, got: {html}"
    );
    assert!(html.contains("Title"), "expected Title, got: {html}");
    assert!(html.contains('1'), "expected page number, got: {html}");
    assert!(
        html.contains(".."),
        "expected dotted leader fill, got: {html}"
    );
}

#[test]
fn test_resolve_content_to_html_without_leader_is_flat() {
    let items = vec![
        ContentItem::String("Page ".into()),
        ContentItem::Counter {
            name: "page".into(),
            style: CounterStyle::Decimal,
        },
    ];
    let store = RunningElementStore::new();
    let html = resolve_content_to_html(
        &items,
        &store,
        &[],
        &NameMap::new(),
        3,
        10,
        2,
        &NameMap::new(),
    );

    assert!(
        !html.contains("display:flex"),
        "unexpected flex wrapper: {html}"
    );
    assert!(html.contains("Page "), "expected 'Page ', got: {html}");
    assert!(html.contains('3'), "expected page number 3, got: {html}");
}

#[test]
fn test_resolve_content_to_string_with_string_ref() {
    let items = vec![
        ContentItem::String("Ch: ".into()),
        ContentItem::StringRef {
            name: "chapter".to_string(),
            policy: StringPolicy::First,
        },
    ];
    let mut states = NameMap::new();
    states.insert(
        "chapter".to_string(),
        StringSetPageState {
            start: None,
            first: Some("Introduction".to_string()),
            last: Some("Introduction".to_string()),
        },
    );
    assert_eq!(
        resolve_content_to_string(&items, &states, 1, 5, &NameMap::new()),
        "Ch: Introduction"
    );
}

#[test]
fn test_resolve_content_to_string_leader_is_empty() {
    let items = vec![
        ContentItem::String("A".into()),
        ContentItem::Leader {
            style: LeaderStyle::Dotted,
        },
        ContentItem::String("B".into()),
    ];
    assert_eq!(
        resolve_content_to_string(&items, &NameMap::new(), 1, 1, &NameMap::new()),
        "AB"
    );
}

#[test]
fn test_resolve_content_to_html_flat_custom_counter() {
    let items = vec![
        ContentItem::String("§".into()),
        ContentItem::Counter {
            name: "section".into(),
            style: CounterStyle::Decimal,
        },
    ];
    let mut custom = NameMap::new();
    custom.insert("section".to_string(), 7_i32);
    let store = RunningElementStore::new();
    let html = resolve_content_to_html(&items, &store, &[], &NameMap::new(), 1, 1, 0, &custom);

    assert!(!html.contains("display:flex"), "unexpected flex: {html}");
    assert!(html.contains('7'), "expected section 7, got: {html}");
}

#[test]
fn test_resolve_content_to_html_flex_pages_and_custom_counter() {
    let mut custom = NameMap::new();
    custom.insert("ch".to_string(), 3_i32);
    let items = vec![
        ContentItem::Counter {
            name: "ch".into(),
            style: CounterStyle::Decimal,
        },
        ContentItem::Leader {
            style: LeaderStyle::Dotted,
        },
        ContentItem::Counter {
            name: "pages".into(),
            style: CounterStyle::Decimal,
        },
    ];
    let store = RunningElementStore::new();
    let html = resolve_content_to_html(&items, &store, &[], &NameMap::new(), 1, 7, 0, &custom);

    assert!(html.contains("display:flex"), "expected flex: {html}");
    assert!(html.contains('3'), "expected ch=3, got: {html}");
    assert!(html.contains('7'), "expected total pages=7, got: {html}");
}

#[test]
fn test_resolve_content_to_html_flex_with_element_and_string_ref() {
    let (store, states) = single_page_store("hdr", "<b>Title</b>");
    let mut str_states = NameMap::new();
    str_states.insert(
        "chap".to_string(),
        StringSetPageState {
            start: None,
            first: Some("Intro".to_string()),
            last: Some("Intro".to_string()),
        },
    );

    let items = vec![
        ContentItem::Element {
            name: "hdr".into(),
            policy: ElementPolicy::First,
        },
        ContentItem::Leader {
            style: LeaderStyle::Solid,
        },
        ContentItem::StringRef {
            name: "chap".into(),
            policy: StringPolicy::First,
        },
    ];
    let html = resolve_content_to_html(
        &items,
        &store,
        &states,
        &str_states,
        1,
        1,
        0,
        &NameMap::new(),
    );

    assert!(html.contains("display:flex"), "expected flex: {html}");
    assert!(
        html.contains("<b>Title</b>"),
        "expected element html: {html}"
    );
    assert!(html.contains("Intro"), "expected string ref: {html}");
    assert!(html.contains('_'), "expected solid leader: {html}");
}

#[test]
fn test_resolve_content_to_html_flex_noop_variants() {
    let items = vec![
        ContentItem::ContentText,
        ContentItem::Attr("href".into()),
        ContentItem::Leader {
            style: LeaderStyle::Space,
        },
    ];
    let store = RunningElementStore::new();
    let html = resolve_content_to_html(
        &items,
        &store,
        &[],
        &NameMap::new(),
        1,
        1,
        0,
        &NameMap::new(),
    );

    assert!(html.contains("display:flex"), "expected flex: {html}");
    assert!(
        !html.contains("<span></span>"),
        "unexpected empty non-leader span: {html}"
    );
}

#[test]
fn test_resolve_content_to_html_flat_noop_variants() {
    let items = vec![
        ContentItem::ContentText,
        ContentItem::ContentBefore,
        ContentItem::ContentAfter,
        ContentItem::Attr("href".into()),
    ];
    let store = RunningElementStore::new();
    let html = resolve_content_to_html(
        &items,
        &store,
        &[],
        &NameMap::new(),
        1,
        1,
        0,
        &NameMap::new(),
    );

    assert!(!html.contains("display:flex"), "unexpected flex: {html}");
    assert_eq!(html, "", "expected empty output, got: {html}");
}

#[test]
fn test_counter_state_in_scope_basic() {
    let mut s = CounterState::new();
    s.reset_in_scope("section", 0, 1); // E (parent=1) creates instance
    s.increment_in_scope("section", 1, 1);
    assert_eq!(s.get("section"), 1);
    assert_eq!(s.chain("section"), vec![1]);
}

#[test]
fn test_counter_state_nested_chain() {
    let mut s = CounterState::new();
    s.reset_in_scope("item", 0, 1); // ol#2's reset: parent=1
    s.increment_in_scope("item", 1, 2); // li#3's increment, target=top
    s.reset_in_scope("item", 0, 3); // ol#4's reset: parent=3
    s.increment_in_scope("item", 1, 4); // li#5's increment, target=top
    assert_eq!(s.get("item"), 1);
    assert_eq!(s.chain("item"), vec![1, 1]);
}

#[test]
fn test_counter_state_leave_element_pops_children() {
    let mut s = CounterState::new();
    s.reset_in_scope("item", 0, 1); // pushed by element whose parent is 1
    s.reset_in_scope("item", 0, 2); // pushed by element whose parent is 2
    assert_eq!(s.chain("item"), vec![0, 0]);
    s.leave_element(2); // children of 2 popped
    assert_eq!(s.chain("item"), vec![0]);
    s.leave_element(1); // children of 1 popped
    assert_eq!(s.chain("item"), Vec::<i32>::new());
}

#[test]
fn test_counter_state_increment_without_reset_implicit_root() {
    let mut s = CounterState::new();
    s.increment_in_scope("foo", 5, 42);
    assert_eq!(s.get("foo"), 5);
    assert_eq!(s.chain("foo"), vec![5]);
    s.leave_element(42);
    assert_eq!(s.chain("foo"), vec![5]);
}

#[test]
fn test_counter_state_existing_api_backwards_compatible() {
    let mut s = CounterState::new();
    s.reset("page", 0);
    s.increment("page", 1);
    assert_eq!(s.get("page"), 1);
    let snap = s.snapshot();
    assert_eq!(snap.get("page"), Some(&1));
}

#[test]
fn test_counter_state_legacy_reset_does_not_grow_stack() {
    let mut s = CounterState::new();
    s.reset("page", 0);
    s.reset("page", 0);
    s.reset("page", 0);
    assert_eq!(s.chain("page"), vec![0]);
}

#[test]
fn test_counter_state_chain_snapshot() {
    let mut s = CounterState::new();
    s.reset_in_scope("item", 0, 1);
    s.increment_in_scope("item", 1, 1);
    s.reset_in_scope("item", 0, 2);
    s.increment_in_scope("item", 2, 2);
    let chain_snap = s.chain_snapshot();
    assert_eq!(chain_snap.get("item"), Some(&vec![1, 2]));
}

#[test]
fn test_format_counter_chain_basic() {
    assert_eq!(
        format_counter_chain(&[1, 2, 3], ".", CounterStyle::Decimal),
        "1.2.3"
    );
    assert_eq!(format_counter_chain(&[], ".", CounterStyle::Decimal), "");
    assert_eq!(format_counter_chain(&[5], ".", CounterStyle::Decimal), "5");
}

#[test]
fn test_format_counter_chain_with_style() {
    assert_eq!(
        format_counter_chain(&[1, 4, 9], "-", CounterStyle::UpperRoman),
        "I-IV-IX"
    );
}

#[test]
fn test_resolve_counters_in_margin_box_falls_back_to_single() {
    let items = vec![ContentItem::Counters {
        name: "chapter".into(),
        separator: ".".into(),
        style: CounterStyle::Decimal,
    }];
    let mut custom = NameMap::new();
    custom.insert("chapter".to_string(), 7);
    assert_eq!(
        resolve_content_to_string(&items, &NameMap::new(), 1, 1, &custom),
        "7"
    );
}

#[test]
fn test_resolve_counters_margin_box_page_and_pages() {
    let page_item = vec![ContentItem::Counters {
        name: "page".into(),
        separator: ".".into(),
        style: CounterStyle::Decimal,
    }];
    let pages_item = vec![ContentItem::Counters {
        name: "pages".into(),
        separator: ".".into(),
        style: CounterStyle::UpperRoman,
    }];
    assert_eq!(
        resolve_content_to_string(&page_item, &NameMap::new(), 5, 12, &NameMap::new()),
        "5"
    );
    assert_eq!(
        resolve_content_to_string(&pages_item, &NameMap::new(), 5, 12, &NameMap::new()),
        "XII"
    );
}

#[test]
fn test_set_in_scope_without_reset_creates_implicit_root() {
    let mut s = CounterState::new();
    s.set_in_scope("foo", 9, 42);
    assert_eq!(s.get("foo"), 9);
    assert_eq!(s.chain("foo"), vec![9]);
    s.leave_element(42);
    assert_eq!(s.chain("foo"), vec![9]);
}

#[test]
fn test_resolve_counters_in_html_flat_mode() {
    let items = vec![ContentItem::Counters {
        name: "chapter".into(),
        separator: ".".into(),
        style: CounterStyle::Decimal,
    }];
    let mut custom = NameMap::new();
    custom.insert("chapter".to_string(), 3);
    let store = RunningElementStore::new();
    let result =
        resolve_content_to_html(&items, &store, &[], &NameMap::new(), 1, 1, 0, &custom);
    assert_eq!(result, "3");
}

#[test]
fn resolve_target_counter_in_margin_box() {
    let mut map = AnchorMap::new();
    let mut counters = NameMap::new();
    counters.insert("page".into(), vec![5]);
    map.insert(
        "x",
        AnchorEntry {
            page_num: 5,
            counters,
            text: "Hello".into(),
            before_text: String::new(),
            after_text: String::new(),
        },
    );
    let items = vec![ContentItem::TargetCounter {
        url: TargetUrl::Attr("href".into()),
        counter_name: "page".into(),
        style: CounterStyle::Decimal,
    }];
    let states = NameMap::new();
    let custom = NameMap::new();
    let out = resolve_content_to_string_with_anchor(
        &items,
        &states,
        1,
        10,
        &custom,
        Some(&map),
        Some("#x"),
    );
    assert_eq!(out, "5");
}

#[test]
fn test_resolve_counters_in_html_flex_mode_with_leader() {
    let items = vec![
        ContentItem::Counters {
            name: "chapter".into(),
            separator: ".".into(),
            style: CounterStyle::Decimal,
        },
        ContentItem::Leader {
            style: LeaderStyle::Dotted,
        },
    ];
    let mut custom = NameMap::new();
    custom.insert("chapter".to_string(), 7);
    let store = RunningElementStore::new();
    let result =
        resolve_content_to_html(&items, &store, &[], &NameMap::new(), 1, 1, 0, &custom);
    assert!(
        result.contains("<span>7</span>"),
        "expected flex-mode counters() output to wrap value in <span>, got {result:?}"
    );
}

#[test]
fn unset_counters_show_what_an_unset_counter_shows() {
    let store = RunningElementStore::new();
    let none = NameMap::new();
    let states = NameMap::new();
    for (style, text) in [
        (CounterStyle::Decimal, "0"),
        (CounterStyle::UpperRoman, "0"),
        (CounterStyle::LowerAlpha, "0"),
    ] {
        let all = vec![ContentItem::Counters { name: "chapter".into(), separator: ".".into(), style }];
        let one = vec![ContentItem::Counter { name: "chapter".into(), style }];
        assert_eq!(resolve_content_to_string(&all, &states, 1, 1, &none), text);
        assert_eq!(resolve_content_to_string(&one, &states, 1, 1, &none), text);
        assert_eq!(resolve_content_to_html(&all, &store, &[], &states, 1, 1, 0, &none), text);
        assert_eq!(resolve_content_to_html(&one, &store, &[], &states, 1, 1, 0, &none), text);
    }
    let filled = vec![
        ContentItem::Counters { name: "chapter".into(), separator: ".".into(), style: CounterStyle::Decimal },
        ContentItem::Leader { style: LeaderStyle::Dotted },
    ];
    let html = resolve_content_to_html(&filled, &store, &[], &states, 1, 1, 0, &none);
    assert!(html.contains("<span>0</span>"), "{html}");
}
