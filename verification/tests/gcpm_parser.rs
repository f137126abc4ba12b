//! What is read out of a style sheet, and what is left of it.

use fulgur::gcpm::bookmark::BookmarkLevel;
use fulgur::gcpm::escape::css_escape_string;
use fulgur::gcpm::margin_box::MarginBoxPosition;
use fulgur::gcpm::parser::{CssEdit, build_cleaned_css, parse_gcpm};
use fulgur::gcpm::token::tokenize;
use fulgur::gcpm::{ContentItem, CounterMapping, CounterOp, CounterStyle, CssLength, ElementPolicy, LeaderStyle, LengthUnit, PageSizeDecl, ParsedSelector, PartialMargin, PseudoElement, StringPolicy, StringSetValue, TargetTextKind, TargetUrl};

/// A length in points.
fn pt(length: CssLength) -> f32 {
    let value = f32::from_bits(length.bits);
    match length.unit {
        LengthUnit::Mm => value * (72.0 / 25.4),
        LengthUnit::Cm => value * (72.0 / 2.54),
        LengthUnit::In => value * 72.0,
        LengthUnit::Pt => value,
        LengthUnit::Px => value * (72.0 / 96.0),
    }
}

fn in_points(margin: &PartialMargin<CssLength>) -> PartialMargin<f32> {
    PartialMargin {
        top: margin.top.map(pt),
        right: margin.right.map(pt),
        bottom: margin.bottom.map(pt),
        left: margin.left.map(pt),
    }
}

#[test]
fn test_empty_css() {
    let css = "body { color: red; }\np { margin: 0; }";
    let ctx = parse_gcpm(css);
    assert!(ctx.running_mappings.is_empty());
    assert!(ctx.margin_boxes.is_empty());
    assert_eq!(ctx.cleaned_css, css);
}

#[test]
fn test_extract_running_name() {
    let css = ".header { position: running(pageHeader); font-size: 12px; }";
    let ctx = parse_gcpm(css);
    assert!(
        ctx.running_mappings
            .iter()
            .any(|m| m.running_name == "pageHeader")
    );
    assert!(ctx.cleaned_css.contains("display: none"));
    assert!(!ctx.cleaned_css.contains("running"));
    assert!(ctx.cleaned_css.contains("font-size: 12px"));
}

#[test]
fn test_extract_margin_box() {
    let css = "@page { @top-center { content: element(pageHeader); } }";
    let ctx = parse_gcpm(css);
    assert_eq!(ctx.margin_boxes.len(), 1);
    let mb = &ctx.margin_boxes[0];
    assert_eq!(mb.position, MarginBoxPosition::TopCenter);
    assert_eq!(mb.page_selector, None);
    assert_eq!(
        mb.content,
        vec![ContentItem::Element {
            name: "pageHeader".to_string(),
            policy: ElementPolicy::First,
        }]
    );
    assert!(!ctx.cleaned_css.contains("@page"));
}

#[test]
fn test_extract_counter() {
    let css =
        r#"@page { @bottom-center { content: "Page " counter(page) " of " counter(pages); } }"#;
    let ctx = parse_gcpm(css);
    assert_eq!(ctx.margin_boxes.len(), 1);
    let mb = &ctx.margin_boxes[0];
    assert_eq!(mb.position, MarginBoxPosition::BottomCenter);
    assert_eq!(
        mb.content,
        vec![
            ContentItem::String("Page ".to_string()),
            ContentItem::Counter {
                name: "page".into(),
                style: CounterStyle::Decimal,
            },
            ContentItem::String(" of ".to_string()),
            ContentItem::Counter {
                name: "pages".into(),
                style: CounterStyle::Decimal,
            },
        ]
    );
}

#[test]
fn test_mixed_css_preserves_non_gcpm() {
    let css = "body { color: red; }\n@page { @top-center { content: element(hdr); } }\np { margin: 0; }";
    let ctx = parse_gcpm(css);
    assert_eq!(ctx.margin_boxes.len(), 1);
    assert!(ctx.cleaned_css.contains("body { color: red; }"));
    assert!(ctx.cleaned_css.contains("p { margin: 0; }"));
    assert!(!ctx.cleaned_css.contains("@page"));
    let without_rules = ctx
        .cleaned_css
        .replace("body { color: red; }", "")
        .replace("p { margin: 0; }", "");
    assert!(
        !without_rules.contains('}'),
        "stray brace in cleaned_css: {:?}",
        ctx.cleaned_css
    );
}

#[test]
fn test_page_selector() {
    let css = "@page :first { @top-center { content: element(firstHeader); } }";
    let ctx = parse_gcpm(css);
    assert_eq!(ctx.margin_boxes.len(), 1);
    let mb = &ctx.margin_boxes[0];
    assert_eq!(mb.page_selector, Some(":first".to_string()));
    assert_eq!(mb.position, MarginBoxPosition::TopCenter);
    assert_eq!(
        mb.content,
        vec![ContentItem::Element {
            name: "firstHeader".to_string(),
            policy: ElementPolicy::First,
        }]
    );
}

#[test]
fn test_ignores_gcpm_in_comments() {
    let css = "/* @page { @top-center { content: element(x); } } */ body { color: red; }";
    let ctx = parse_gcpm(css);
    assert!(ctx.margin_boxes.is_empty());
    assert!(ctx.cleaned_css.contains("body { color: red; }"));
}

#[test]
fn test_ignores_gcpm_in_string_literals() {
    let css = r#"body { content: "position: running(x)"; color: blue; }"#;
    let ctx = parse_gcpm(css);
    assert!(ctx.running_mappings.is_empty());
}

#[test]
fn test_running_name_case_insensitive_property() {
    let css = ".header { POSITION: running(pageHeader); }";
    let ctx = parse_gcpm(css);
    assert!(
        ctx.running_mappings
            .iter()
            .any(|m| m.running_name == "pageHeader")
    );
    assert!(ctx.cleaned_css.contains("display: none"));
}

#[test]
fn test_multiple_running_names() {
    let css = ".h { position: running(hdr); } .f { position: running(ftr); }";
    let ctx = parse_gcpm(css);
    assert!(ctx.running_mappings.iter().any(|m| m.running_name == "hdr"));
    assert!(ctx.running_mappings.iter().any(|m| m.running_name == "ftr"));
}

#[test]
fn test_running_with_other_declarations() {
    let css = ".header { color: red; position: running(hdr); font-size: 14px; }";
    let ctx = parse_gcpm(css);
    assert!(ctx.running_mappings.iter().any(|m| m.running_name == "hdr"));
    assert!(ctx.cleaned_css.contains("color: red"));
    assert!(ctx.cleaned_css.contains("font-size: 14px"));
}

#[test]
fn test_page_with_multiple_margin_boxes() {
    let css = "@page { @top-left { content: \"Left\"; } @top-center { content: element(hdr); } @top-right { content: counter(page); } }";
    let ctx = parse_gcpm(css);
    assert_eq!(ctx.margin_boxes.len(), 3);
}

#[test]
fn test_margin_box_with_extra_declarations() {
    let css = "@page { @top-center { content: element(hdr); font-size: 10pt; color: gray; } }";
    let ctx = parse_gcpm(css);
    assert_eq!(ctx.margin_boxes.len(), 1);
    let mb = &ctx.margin_boxes[0];
    assert_eq!(
        mb.content,
        vec![ContentItem::Element {
            name: "hdr".to_string(),
            policy: ElementPolicy::First,
        }]
    );
    assert!(mb.declarations.contains("font-size"));
    assert!(mb.declarations.contains("color"));
}

#[test]
fn test_page_left_right_selectors() {
    let css = r#"
    @page :left { @bottom-left { content: counter(page); } }
    @page :right { @bottom-right { content: counter(page); } }
"#;
    let ctx = parse_gcpm(css);
    assert_eq!(ctx.margin_boxes.len(), 2);
    assert_eq!(ctx.margin_boxes[0].page_selector, Some(":left".to_string()));
    assert_eq!(
        ctx.margin_boxes[1].page_selector,
        Some(":right".to_string())
    );
}

#[test]
fn test_class_selector_extraction() {
    let css = ".my-header { position: running(pageHeader); }";
    let ctx = parse_gcpm(css);
    assert_eq!(ctx.running_mappings.len(), 1);
    assert_eq!(
        ctx.running_mappings[0].parsed,
        ParsedSelector::Class("my-header".to_string())
    );
    assert_eq!(ctx.running_mappings[0].running_name, "pageHeader");
}

#[test]
fn test_id_selector_extraction() {
    let css = "#main-title { position: running(docTitle); }";
    let ctx = parse_gcpm(css);
    assert_eq!(ctx.running_mappings.len(), 1);
    assert_eq!(
        ctx.running_mappings[0].parsed,
        ParsedSelector::Id("main-title".to_string())
    );
    assert_eq!(ctx.running_mappings[0].running_name, "docTitle");
}

#[test]
fn test_tag_selector_extraction() {
    let css = "header { position: running(pageHeader); }";
    let ctx = parse_gcpm(css);
    assert_eq!(ctx.running_mappings.len(), 1);
    assert_eq!(
        ctx.running_mappings[0].parsed,
        ParsedSelector::Tag("header".to_string())
    );
    assert_eq!(ctx.running_mappings[0].running_name, "pageHeader");
}

#[test]
fn test_compound_selector_not_matched() {
    let css = ".a .b { position: running(hdr); }";
    let ctx = parse_gcpm(css);
    assert!(ctx.running_mappings.is_empty());
}

#[test]
fn test_group_selector_not_matched() {
    let css = ".a, .b { position: running(hdr); }";
    let ctx = parse_gcpm(css);
    assert!(ctx.running_mappings.is_empty());
}

#[test]
fn test_parse_string_set_content_text() {
    let css = "h1 { string-set: chapter-title content(text); }";
    let ctx = parse_gcpm(css);
    assert_eq!(ctx.string_set_mappings.len(), 1);
    let m = &ctx.string_set_mappings[0];
    assert_eq!(m.parsed, ParsedSelector::Tag("h1".to_string()));
    assert_eq!(m.name, "chapter-title");
    assert_eq!(m.values, vec![StringSetValue::ContentText]);
    assert!(!ctx.cleaned_css.contains("string-set"));
}

#[test]
fn test_parse_string_set_multiple_values() {
    let css = r#"h1 { string-set: title "Chapter " content(text) " - " attr(data-sub); }"#;
    let ctx = parse_gcpm(css);
    assert_eq!(ctx.string_set_mappings.len(), 1);
    let m = &ctx.string_set_mappings[0];
    assert_eq!(m.name, "title");
    assert_eq!(
        m.values,
        vec![
            StringSetValue::Literal("Chapter ".to_string()),
            StringSetValue::ContentText,
            StringSetValue::Literal(" - ".to_string()),
            StringSetValue::Attr("data-sub".to_string()),
        ]
    );
}

#[test]
fn test_parse_string_set_content_before_after() {
    let css = "h2 { string-set: sec content(before) content(text) content(after); }";
    let ctx = parse_gcpm(css);
    assert_eq!(ctx.string_set_mappings.len(), 1);
    assert_eq!(
        ctx.string_set_mappings[0].values,
        vec![
            StringSetValue::ContentBefore,
            StringSetValue::ContentText,
            StringSetValue::ContentAfter,
        ]
    );
}

#[test]
fn test_parse_string_function_default_policy() {
    let css = r#"@page { @top-center { content: string(chapter-title); } }"#;
    let ctx = parse_gcpm(css);
    assert_eq!(ctx.margin_boxes.len(), 1);
    assert_eq!(
        ctx.margin_boxes[0].content,
        vec![ContentItem::StringRef {
            name: "chapter-title".to_string(),
            policy: StringPolicy::First,
        }]
    );
}

#[test]
fn test_parse_string_function_with_policy() {
    let css = r#"@page { @top-center { content: string(title, last); } }"#;
    let ctx = parse_gcpm(css);
    assert_eq!(
        ctx.margin_boxes[0].content,
        vec![ContentItem::StringRef {
            name: "title".to_string(),
            policy: StringPolicy::Last,
        }]
    );
}

#[test]
fn test_parse_string_function_all_policies() {
    for (policy_str, policy) in [
        ("first", StringPolicy::First),
        ("start", StringPolicy::Start),
        ("last", StringPolicy::Last),
        ("first-except", StringPolicy::FirstExcept),
    ] {
        let css = format!(
            r#"@page {{ @top-center {{ content: string(title, {}); }} }}"#,
            policy_str
        );
        let ctx = parse_gcpm(&css);
        assert_eq!(
            ctx.margin_boxes[0].content,
            vec![ContentItem::StringRef {
                name: "title".to_string(),
                policy,
            }],
            "Failed for policy: {}",
            policy_str
        );
    }
}

#[test]
fn test_parse_element_function_default_policy() {
    let css = "@page { @top-center { content: element(hdr); } }";
    let ctx = parse_gcpm(css);
    let rule = ctx.margin_boxes.first().unwrap();
    assert_eq!(
        rule.content,
        vec![ContentItem::Element {
            name: "hdr".into(),
            policy: ElementPolicy::First,
        }]
    );
}

#[test]
fn test_parse_element_function_all_policies() {
    for (policy_str, policy) in [
        ("first", ElementPolicy::First),
        ("start", ElementPolicy::Start),
        ("last", ElementPolicy::Last),
        ("first-except", ElementPolicy::FirstExcept),
    ] {
        let css = format!(
            "@page {{ @top-center {{ content: element(hdr, {}); }} }}",
            policy_str
        );
        let ctx = parse_gcpm(&css);
        let rule = ctx.margin_boxes.first().unwrap();
        assert_eq!(
            rule.content,
            vec![ContentItem::Element {
                name: "hdr".into(),
                policy,
            }],
            "Failed for policy: {}",
            policy_str
        );
    }
}

#[test]
fn test_parse_element_function_invalid_policy() {
    let css = "@page { @top-center { content: element(hdr, bogus); } }";
    let ctx = parse_gcpm(css);
    let rule = ctx.margin_boxes.first().unwrap();
    assert!(rule.content.is_empty());
}

#[test]
fn test_parse_string_set_with_class_selector() {
    let css = ".chapter-heading { string-set: chapter content(text); }";
    let ctx = parse_gcpm(css);
    assert_eq!(ctx.string_set_mappings.len(), 1);
    assert_eq!(
        ctx.string_set_mappings[0].parsed,
        ParsedSelector::Class("chapter-heading".to_string())
    );
}

#[test]
fn test_string_set_last_declaration_without_semicolon() {
    let css = "h1 { color: red; string-set: title content(text) }\np { margin: 0; }";
    let ctx = parse_gcpm(css);
    assert_eq!(ctx.string_set_mappings.len(), 1);
    assert!(
        ctx.cleaned_css.contains("color: red"),
        "color: red should remain in cleaned_css: {:?}",
        ctx.cleaned_css
    );
    assert!(
        ctx.cleaned_css.contains("p { margin: 0; }"),
        "following rule must be intact — the h1 closing brace was not eaten: {:?}",
        ctx.cleaned_css
    );
    assert!(
        !ctx.cleaned_css.contains("string-set"),
        "string-set declaration should be removed: {:?}",
        ctx.cleaned_css
    );
}

#[test]
fn test_parse_custom_counter() {
    let css = r#"@page { @bottom-center { content: "Ch. " counter(chapter); } }"#;
    let ctx = parse_gcpm(css);
    assert_eq!(ctx.margin_boxes.len(), 1);
    assert_eq!(
        ctx.margin_boxes[0].content,
        vec![
            ContentItem::String("Ch. ".into()),
            ContentItem::Counter {
                name: "chapter".into(),
                style: CounterStyle::Decimal,
            },
        ]
    );
}

#[test]
fn test_parse_counter_with_style() {
    let css = r#"@page { @bottom-center { content: counter(chapter, upper-roman); } }"#;
    let ctx = parse_gcpm(css);
    assert_eq!(ctx.margin_boxes.len(), 1);
    assert_eq!(
        ctx.margin_boxes[0].content,
        vec![ContentItem::Counter {
            name: "chapter".into(),
            style: CounterStyle::UpperRoman,
        }]
    );
}

#[test]
fn test_parse_counter_lower_alpha_style() {
    let css = r#"@page { @bottom-center { content: counter(section, lower-alpha); } }"#;
    let ctx = parse_gcpm(css);
    assert_eq!(
        ctx.margin_boxes[0].content,
        vec![ContentItem::Counter {
            name: "section".into(),
            style: CounterStyle::LowerAlpha,
        }]
    );
}

#[test]
fn test_parse_counter_reset() {
    let css = "body { counter-reset: chapter 0; }";
    let ctx = parse_gcpm(css);
    assert_eq!(ctx.counter_mappings.len(), 1);
    assert_eq!(
        ctx.counter_mappings[0].parsed,
        ParsedSelector::Tag("body".into())
    );
    assert_eq!(
        ctx.counter_mappings[0].ops,
        vec![CounterOp::Reset {
            name: "chapter".into(),
            value: 0,
        }]
    );
}

#[test]
fn test_parse_counter_increment() {
    let css = "h2 { counter-increment: chapter; }";
    let ctx = parse_gcpm(css);
    assert_eq!(ctx.counter_mappings.len(), 1);
    assert_eq!(
        ctx.counter_mappings[0].ops,
        vec![CounterOp::Increment {
            name: "chapter".into(),
            value: 1,
        }]
    );
}

#[test]
fn test_parse_counter_set() {
    let css = "h2 { counter-set: chapter 5; }";
    let ctx = parse_gcpm(css);
    assert_eq!(ctx.counter_mappings.len(), 1);
    assert_eq!(
        ctx.counter_mappings[0].ops,
        vec![CounterOp::SetTo {
            name: "chapter".into(),
            value: 5,
        }]
    );
}

#[test]
fn test_parse_counter_multiple_names() {
    let css = "h2 { counter-reset: chapter 0 section 0; }";
    let ctx = parse_gcpm(css);
    assert_eq!(
        ctx.counter_mappings[0].ops,
        vec![
            CounterOp::Reset {
                name: "chapter".into(),
                value: 0,
            },
            CounterOp::Reset {
                name: "section".into(),
                value: 0,
            },
        ]
    );
}

#[test]
fn test_parse_counter_increment_default_value() {
    let css = "h2 { counter-increment: section; }";
    let ctx = parse_gcpm(css);
    assert_eq!(
        ctx.counter_mappings[0].ops,
        vec![CounterOp::Increment {
            name: "section".into(),
            value: 1,
        }]
    );
}

#[test]
fn test_parse_pseudo_element_content_with_counter() {
    let css = r#"h2::before { content: counter(chapter) ". "; }"#;
    let ctx = parse_gcpm(css);
    assert_eq!(ctx.content_counter_mappings.len(), 1);
    let m = &ctx.content_counter_mappings[0];
    assert_eq!(m.parsed, ParsedSelector::Tag("h2".into()));
    assert_eq!(m.pseudo, PseudoElement::Before);
    assert_eq!(
        m.content,
        vec![
            ContentItem::Counter {
                name: "chapter".into(),
                style: CounterStyle::Decimal,
            },
            ContentItem::String(". ".into()),
        ]
    );
}

#[test]
fn test_parse_counter_declarations_stripped_from_cleaned_css() {
    let css = "body { counter-reset: chapter; color: red; }";
    let ctx = parse_gcpm(css);
    assert!(!ctx.cleaned_css.contains("counter-reset"));
    assert!(ctx.cleaned_css.contains("color: red"));
}

#[test]
fn test_parse_pseudo_content_stripped_from_cleaned_css() {
    let css = r#"h2::before { content: counter(chapter) ". "; font-weight: bold; }"#;
    let ctx = parse_gcpm(css);
    assert!(!ctx.cleaned_css.contains("counter(chapter)"));
    assert!(ctx.cleaned_css.contains("font-weight: bold"));
}

#[test]
fn test_parse_pseudo_content_without_counter_kept_in_cleaned_css() {
    let css = r#".note::before { content: "Note: "; font-weight: bold; }"#;
    let ctx = parse_gcpm(css);
    assert!(
        ctx.cleaned_css.contains(r#"content: "Note: ""#),
        "literal content must survive in cleaned_css: {:?}",
        ctx.cleaned_css
    );
    assert!(ctx.cleaned_css.contains("font-weight: bold"));
}

#[test]
fn test_parse_pseudo_multi_item_plain_string_flattened_not_routed() {
    let css = r#"div::before { content: "AB" "CD"; color: red; }"#;
    let ctx = parse_gcpm(css);
    assert!(
        ctx.content_counter_mappings.is_empty(),
        "plain multi-item strings must not become counter content: {:?}",
        ctx.content_counter_mappings
    );
    assert_eq!(ctx.static_content_mappings.len(), 1);
    let m = &ctx.static_content_mappings[0];
    assert_eq!(m.parsed, ParsedSelector::Tag("div".into()));
    assert_eq!(m.pseudo, PseudoElement::Before);
    assert_eq!(m.text, "ABCD");
    assert!(
        !ctx.cleaned_css.contains("\"AB\""),
        "multi-item content must be stripped: {:?}",
        ctx.cleaned_css
    );
    assert!(ctx.cleaned_css.contains("color: red"));
}

#[test]
fn test_parse_pseudo_multi_item_plain_string_flatten_keeps_unescaped_text() {
    let css = r#"p::after { content: "a\"b" "c\\d"; }"#;
    let ctx = parse_gcpm(css);
    assert!(ctx.content_counter_mappings.is_empty());
    assert_eq!(ctx.static_content_mappings.len(), 1);
    assert_eq!(ctx.static_content_mappings[0].text, "a\"bc\\d");
}

#[test]
fn test_parse_pseudo_single_item_plain_string_not_recorded_as_static() {
    let css = r#".note::before { content: "Note: "; }"#;
    let ctx = parse_gcpm(css);
    assert!(ctx.content_counter_mappings.is_empty());
    assert!(
        ctx.static_content_mappings.is_empty(),
        "single-item plain content must not be recorded: {:?}",
        ctx.static_content_mappings
    );
    assert!(ctx.cleaned_css.contains(r#"content: "Note: ""#));
}

#[test]
fn test_parse_counter_reset_and_increment_in_same_rule() {
    let css = "h2 { counter-reset: section 0; counter-increment: chapter; }";
    let ctx = parse_gcpm(css);
    assert_eq!(ctx.counter_mappings.len(), 1);
    let mapping = &ctx.counter_mappings[0];
    assert!(
        mapping
            .ops
            .iter()
            .any(|op| matches!(op, CounterOp::Reset { name, .. } if name == "section")),
        "counter-reset must survive: {:?}",
        mapping.ops
    );
    assert!(
        mapping
            .ops
            .iter()
            .any(|op| matches!(op, CounterOp::Increment { name, .. } if name == "chapter")),
        "counter-increment must survive: {:?}",
        mapping.ops
    );
}

#[test]
fn test_parse_counter_increment_last_declaration_wins_within_property() {
    let css =
        "h2 { counter-increment: chapter; counter-reset: section; counter-increment: page; }";
    let ctx = parse_gcpm(css);
    assert_eq!(ctx.counter_mappings.len(), 1);
    let mapping = &ctx.counter_mappings[0];
    let increments: Vec<_> = mapping
        .ops
        .iter()
        .filter_map(|op| match op {
            CounterOp::Increment { name, .. } => Some(name.as_str()),
            _ => None,
        })
        .collect();
    assert_eq!(
        increments,
        vec!["page"],
        "only the last counter-increment should remain"
    );
    assert!(
        mapping
            .ops
            .iter()
            .any(|op| matches!(op, CounterOp::Reset { .. })),
        "counter-reset between two increments must survive"
    );
}

#[test]
fn test_parse_bookmark_level_integer() {
    let css = "h1 { bookmark-level: 1; }";
    let ctx = parse_gcpm(css);
    assert_eq!(ctx.bookmark_mappings.len(), 1);
    let m = &ctx.bookmark_mappings[0];
    assert_eq!(m.selector, ParsedSelector::Tag("h1".into()));
    assert_eq!(m.level, Some(BookmarkLevel::Integer(1)));
    assert!(m.label.is_none());
}

#[test]
fn test_parse_bookmark_level_none() {
    let css = "h1 { bookmark-level: none; }";
    let ctx = parse_gcpm(css);
    assert_eq!(ctx.bookmark_mappings.len(), 1);
    assert_eq!(ctx.bookmark_mappings[0].level, Some(BookmarkLevel::None_));
}

#[test]
fn test_parse_bookmark_label_content() {
    let css = "h1 { bookmark-label: content(); }";
    let ctx = parse_gcpm(css);
    assert_eq!(ctx.bookmark_mappings.len(), 1);
    let label = ctx.bookmark_mappings[0]
        .label
        .as_ref()
        .expect("label present");
    assert_eq!(label, &vec![ContentItem::ContentText]);
}

#[test]
fn test_parse_bookmark_label_content_text_equivalent() {
    let bare = parse_gcpm("h1 { bookmark-label: content(); }");
    let explicit = parse_gcpm("h1 { bookmark-label: content(text); }");
    assert_eq!(
        bare.bookmark_mappings[0].label,
        explicit.bookmark_mappings[0].label
    );
}

#[test]
fn test_parse_bookmark_label_literal_and_attr() {
    let css = r#".c { bookmark-label: "Ch. " attr(data-num) " - " content(text); }"#;
    let ctx = parse_gcpm(css);
    assert_eq!(ctx.bookmark_mappings.len(), 1);
    let label = ctx.bookmark_mappings[0]
        .label
        .as_ref()
        .expect("label present");
    assert_eq!(
        label,
        &vec![
            ContentItem::String("Ch. ".into()),
            ContentItem::Attr("data-num".into()),
            ContentItem::String(" - ".into()),
            ContentItem::ContentText,
        ]
    );
}

#[test]
fn test_parse_bookmark_combined() {
    let css = "h1 { bookmark-level: 1; bookmark-label: content(); }";
    let ctx = parse_gcpm(css);
    assert_eq!(ctx.bookmark_mappings.len(), 1);
    let m = &ctx.bookmark_mappings[0];
    assert_eq!(m.selector, ParsedSelector::Tag("h1".into()));
    assert_eq!(m.level, Some(BookmarkLevel::Integer(1)));
    assert_eq!(m.label.as_deref(), Some(&[ContentItem::ContentText][..]));
}

#[test]
fn test_parse_bookmark_only_level_produces_mapping() {
    let css = ".aside { bookmark-level: 2; }";
    let ctx = parse_gcpm(css);
    assert_eq!(ctx.bookmark_mappings.len(), 1);
    let m = &ctx.bookmark_mappings[0];
    assert_eq!(m.level, Some(BookmarkLevel::Integer(2)));
    assert!(m.label.is_none());
}

#[test]
fn test_parse_bookmark_only_label_produces_mapping() {
    let css = r#"h1 { bookmark-label: "Custom"; }"#;
    let ctx = parse_gcpm(css);
    assert_eq!(ctx.bookmark_mappings.len(), 1);
    let m = &ctx.bookmark_mappings[0];
    assert!(m.level.is_none());
    assert_eq!(m.label, Some(vec![ContentItem::String("Custom".into())]));
}

#[test]
fn test_parse_no_bookmark_no_mapping() {
    let css = "p { color: red; }";
    let ctx = parse_gcpm(css);
    assert!(ctx.bookmark_mappings.is_empty());
}

#[test]
fn test_parse_bookmark_pseudo_element_skipped() {
    let css = "h1::before { bookmark-level: 1; bookmark-label: content(); }";
    let ctx = parse_gcpm(css);
    assert!(
        ctx.bookmark_mappings.is_empty(),
        "bookmark-* on pseudo-elements must be ignored"
    );
}

#[test]
fn test_parse_bookmark_level_invalid_values_ignored() {
    for css in [
        "h1 { bookmark-level: 0; }",
        "h1 { bookmark-level: -1; }",
        "h1 { bookmark-level: 1.5; }",
        "h1 { bookmark-level: auto; }",
    ] {
        let ctx = parse_gcpm(css);
        assert!(
            ctx.bookmark_mappings.is_empty(),
            "{css:?} should not produce a bookmark mapping"
        );
    }
}

#[test]
fn test_page_margin_zero_parsed() {
    let css = "@page { margin: 0; }";
    let ctx = parse_gcpm(css);
    assert_eq!(ctx.page_settings.len(), 1, "expected 1 PageSettingsRule");
    let rule = &ctx.page_settings[0];
    assert!(rule.page_selector.is_none());
    assert_eq!(in_points(&rule.margin).top, Some(0.0));
    assert_eq!(in_points(&rule.margin).bottom, Some(0.0));
    assert_eq!(in_points(&rule.margin).left, Some(0.0));
    assert_eq!(in_points(&rule.margin).right, Some(0.0));
    assert!(
        !ctx.is_empty(),
        "gcpm should not be empty with page_settings"
    );
}

#[test]
fn test_page_margin_longhand_parsed() {
    let css = "@page :right { margin-top: 200px; margin-right: 500px; }";
    let ctx = parse_gcpm(css);
    assert_eq!(ctx.page_settings.len(), 1);
    let rule = &ctx.page_settings[0];
    assert_eq!(rule.page_selector, Some(":right".to_string()));
    assert_eq!(in_points(&rule.margin).top, Some(150.0));
    assert_eq!(in_points(&rule.margin).right, Some(375.0));
    assert_eq!(in_points(&rule.margin).bottom, None);
    assert_eq!(in_points(&rule.margin).left, None);
}

#[test]
fn test_page_margin_longhand_overrides_shorthand_in_same_rule() {
    let css = "@page { margin: 10px; margin-top: 50px; }";
    let ctx = parse_gcpm(css);
    let rule = &ctx.page_settings[0];
    assert_eq!(in_points(&rule.margin).top, Some(37.5));
    assert_eq!(in_points(&rule.margin).right, Some(7.5));
    assert_eq!(in_points(&rule.margin).bottom, Some(7.5));
    assert_eq!(in_points(&rule.margin).left, Some(7.5));
}

#[test]
fn test_parse_leader_no_args() {
    let css = "@page { @top-right { content: leader(); } }";
    let ctx = parse_gcpm(css);
    assert_eq!(
        ctx.margin_boxes[0].content,
        vec![ContentItem::Leader {
            style: LeaderStyle::Dotted
        }]
    );
}

#[test]
fn test_parse_leader_unknown_ident_falls_back_to_dotted() {
    let css = "@page { @top-right { content: leader(banana); } }";
    let ctx = parse_gcpm(css);
    assert_eq!(
        ctx.margin_boxes[0].content,
        vec![ContentItem::Leader {
            style: LeaderStyle::Dotted
        }]
    );
}

#[test]
fn test_parse_leader_dotted() {
    let css = "@page { @top-right { content: leader(dotted); } }";
    let ctx = parse_gcpm(css);
    assert_eq!(ctx.margin_boxes.len(), 1);
    assert_eq!(
        ctx.margin_boxes[0].content,
        vec![ContentItem::Leader {
            style: LeaderStyle::Dotted
        }]
    );
}

#[test]
fn test_parse_leader_solid() {
    let css = "@page { @top-right { content: leader(solid); } }";
    let ctx = parse_gcpm(css);
    assert_eq!(
        ctx.margin_boxes[0].content,
        vec![ContentItem::Leader {
            style: LeaderStyle::Solid
        }]
    );
}

#[test]
fn test_parse_leader_space() {
    let css = "@page { @top-right { content: leader(space); } }";
    let ctx = parse_gcpm(css);
    assert_eq!(
        ctx.margin_boxes[0].content,
        vec![ContentItem::Leader {
            style: LeaderStyle::Space
        }]
    );
}

#[test]
fn test_parse_leader_custom_string() {
    let css = r#"@page { @top-right { content: leader("."); } }"#;
    let ctx = parse_gcpm(css);
    assert_eq!(
        ctx.margin_boxes[0].content,
        vec![ContentItem::Leader {
            style: LeaderStyle::Custom(".".into())
        }]
    );
}

#[test]
fn test_parse_leader_with_surrounding_content() {
    let css = r#"@page { @top-right { content: "Title" leader(dotted) counter(page); } }"#;
    let ctx = parse_gcpm(css);
    assert_eq!(
        ctx.margin_boxes[0].content,
        vec![
            ContentItem::String("Title".into()),
            ContentItem::Leader {
                style: LeaderStyle::Dotted
            },
            ContentItem::Counter {
                name: "page".into(),
                style: CounterStyle::Decimal
            },
        ]
    );
}

#[test]
fn test_parse_leader_non_ident_non_string_arg_falls_back_to_dotted() {
    let css = "@page { @top-right { content: leader(123); } }";
    let ctx = parse_gcpm(css);
    assert_eq!(
        ctx.margin_boxes[0].content,
        vec![ContentItem::Leader {
            style: LeaderStyle::Dotted
        }]
    );
}

#[test]
fn test_parse_counters_with_separator_only() {
    let css = r#"li::before { content: counters(item, "."); }"#;
    let ctx = parse_gcpm(css);
    let mapping = &ctx.content_counter_mappings[0];
    assert_eq!(
        mapping.content,
        vec![ContentItem::Counters {
            name: "item".into(),
            separator: ".".into(),
            style: CounterStyle::Decimal,
        }]
    );
}

#[test]
fn test_parse_counters_with_style() {
    let css = r#"li::before { content: counters(item, "-", upper-roman); }"#;
    let ctx = parse_gcpm(css);
    let mapping = &ctx.content_counter_mappings[0];
    assert_eq!(
        mapping.content,
        vec![ContentItem::Counters {
            name: "item".into(),
            separator: "-".into(),
            style: CounterStyle::UpperRoman,
        }]
    );
}

#[test]
fn test_parse_counters_missing_separator_drops_item() {
    let css = r#"li::before { content: counters(item); }"#;
    let ctx = parse_gcpm(css);
    let any_counters = ctx
        .content_counter_mappings
        .iter()
        .flat_map(|m| m.content.iter())
        .any(|i| matches!(i, ContentItem::Counters { .. }));
    assert!(!any_counters, "invalid counters() should produce no item");
}

#[test]
fn test_parse_counters_non_string_separator_drops_item() {
    let css = r#"li::before { content: counters(item, 42); }"#;
    let ctx = parse_gcpm(css);
    let any_counters = ctx
        .content_counter_mappings
        .iter()
        .flat_map(|m| m.content.iter())
        .any(|i| matches!(i, ContentItem::Counters { .. }));
    assert!(
        !any_counters,
        "non-string separator should drop counters() item"
    );
}

#[test]
fn parse_target_counter_attr_href_page() {
    let css = r#"a::after { content: target-counter(attr(href), page); }"#;
    let g = parse_gcpm(css);
    let mapping = &g.content_counter_mappings[0];
    assert_eq!(
        mapping.content,
        vec![ContentItem::TargetCounter {
            url: TargetUrl::Attr("href".into()),
            counter_name: "page".into(),
            style: CounterStyle::Decimal,
        }]
    );
}

#[test]
fn parse_target_counter_attr_data_ref_page() {
    let css = r#"a::after { content: target-counter(attr(data-ref), page); }"#;
    let g = parse_gcpm(css);
    let mapping = &g.content_counter_mappings[0];
    assert_eq!(
        mapping.content,
        vec![ContentItem::TargetCounter {
            url: TargetUrl::Attr("data-ref".into()),
            counter_name: "page".into(),
            style: CounterStyle::Decimal,
        }]
    );
}

#[test]
fn parse_target_counters_with_separator() {
    let css = r#"a::after { content: target-counters(attr(href), section, "."); }"#;
    let g = parse_gcpm(css);
    let mapping = &g.content_counter_mappings[0];
    assert_eq!(
        mapping.content,
        vec![ContentItem::TargetCounters {
            url: TargetUrl::Attr("href".into()),
            counter_name: "section".into(),
            separator: ".".into(),
            style: CounterStyle::Decimal,
        }]
    );
}

#[test]
fn parse_target_text_default_form() {
    let css = r#"a::after { content: target-text(attr(href)); }"#;
    let g = parse_gcpm(css);
    let mapping = &g.content_counter_mappings[0];
    assert_eq!(
        mapping.content,
        vec![ContentItem::TargetText {
            url: TargetUrl::Attr("href".into()),
            kind: TargetTextKind::Content,
        }]
    );
}

#[test]
fn parse_target_counter_unquoted_url_literal() {
    let css = r##"a::after { content: target-counter(url(#sec1), page); }"##;
    let g = parse_gcpm(css);
    let mapping = &g.content_counter_mappings[0];
    assert_eq!(
        mapping.content,
        vec![ContentItem::TargetCounter {
            url: TargetUrl::Literal("#sec1".into()),
            counter_name: "page".into(),
            style: CounterStyle::Decimal,
        }]
    );
}

#[test]
fn parse_target_counter_string_literal() {
    let css = r##"a::after { content: target-counter("#sec1", page); }"##;
    let g = parse_gcpm(css);
    let mapping = &g.content_counter_mappings[0];
    assert_eq!(
        mapping.content,
        vec![ContentItem::TargetCounter {
            url: TargetUrl::Literal("#sec1".into()),
            counter_name: "page".into(),
            style: CounterStyle::Decimal,
        }]
    );
}

#[test]
fn parse_target_counter_url_literal() {
    let css = r##"a::after { content: target-counter(url("#sec1"), page); }"##;
    let g = parse_gcpm(css);
    let mapping = &g.content_counter_mappings[0];
    assert_eq!(
        mapping.content,
        vec![ContentItem::TargetCounter {
            url: TargetUrl::Literal("#sec1".into()),
            counter_name: "page".into(),
            style: CounterStyle::Decimal,
        }]
    );
}

#[test]
fn parse_target_counters_string_literal() {
    let css = r##"a::after { content: target-counters("#sec1", section, "."); }"##;
    let g = parse_gcpm(css);
    let mapping = &g.content_counter_mappings[0];
    assert_eq!(
        mapping.content,
        vec![ContentItem::TargetCounters {
            url: TargetUrl::Literal("#sec1".into()),
            counter_name: "section".into(),
            separator: ".".into(),
            style: CounterStyle::Decimal,
        }]
    );
}

#[test]
fn parse_target_counters_url_literal() {
    let css = r##"a::after { content: target-counters(url("#sec1"), section, "."); }"##;
    let g = parse_gcpm(css);
    let mapping = &g.content_counter_mappings[0];
    assert_eq!(
        mapping.content,
        vec![ContentItem::TargetCounters {
            url: TargetUrl::Literal("#sec1".into()),
            counter_name: "section".into(),
            separator: ".".into(),
            style: CounterStyle::Decimal,
        }]
    );
}

#[test]
fn parse_target_text_string_literal() {
    let css = r##"a::after { content: target-text("#sec1"); }"##;
    let g = parse_gcpm(css);
    let mapping = &g.content_counter_mappings[0];
    assert_eq!(
        mapping.content,
        vec![ContentItem::TargetText {
            url: TargetUrl::Literal("#sec1".into()),
            kind: TargetTextKind::Content,
        }]
    );
}

#[test]
fn parse_target_text_url_literal() {
    let css = r##"a::after { content: target-text(url("#sec1")); }"##;
    let g = parse_gcpm(css);
    let mapping = &g.content_counter_mappings[0];
    assert_eq!(
        mapping.content,
        vec![ContentItem::TargetText {
            url: TargetUrl::Literal("#sec1".into()),
            kind: TargetTextKind::Content,
        }]
    );
}

#[test]
fn parse_target_counter_two_arg_attr_drops_item() {
    let css = r##"a::after { content: target-counter(attr(href, string), page); }"##;
    let g = parse_gcpm(css);
    let any_target = g
        .content_counter_mappings
        .iter()
        .flat_map(|m| m.content.iter())
        .any(|i| matches!(i, ContentItem::TargetCounter { .. }));
    assert!(
        !any_target,
        "two-arg attr() should drop the target-counter item"
    );
}

#[test]
fn parse_target_counter_extra_trailing_token_drops_item() {
    let css =
        r##"a::after { content: target-counter(attr(href), page, lower-roman, extra); }"##;
    let g = parse_gcpm(css);
    let any_target = g
        .content_counter_mappings
        .iter()
        .flat_map(|m| m.content.iter())
        .any(|i| matches!(i, ContentItem::TargetCounter { .. }));
    assert!(
        !any_target,
        "extra trailing token should drop the target-counter item"
    );
}

#[test]
fn parse_target_counters_extra_trailing_token_drops_item() {
    let css = r##"a::after { content: target-counters(attr(href), section, ".", lower-roman, extra); }"##;
    let g = parse_gcpm(css);
    let any_target = g
        .content_counter_mappings
        .iter()
        .flat_map(|m| m.content.iter())
        .any(|i| matches!(i, ContentItem::TargetCounters { .. }));
    assert!(
        !any_target,
        "extra trailing token should drop the target-counters item"
    );
}

#[test]
fn parse_target_text_with_supported_2nd_arg() {
    for form in ["before", "after", "first-letter", "content"] {
        let css = format!(r##"a::after {{ content: target-text(attr(href), {form}); }}"##);
        let g = parse_gcpm(&css);
        let any_target = g
            .content_counter_mappings
            .iter()
            .flat_map(|m| m.content.iter())
            .any(|i| matches!(i, ContentItem::TargetText { .. }));
        assert!(any_target, "2nd arg `{form}` should parse as target-text");
    }
}

#[test]
fn parse_target_text_with_unknown_or_trailing_2nd_arg_drops_item() {
    for css in [
        r#"a::after { content: target-text(attr(href), unknown); }"#,
        r#"a::after { content: target-text(attr(href), before, extra); }"#,
    ] {
        let g = parse_gcpm(css);
        let any_target = g
            .content_counter_mappings
            .iter()
            .flat_map(|m| m.content.iter())
            .any(|i| matches!(i, ContentItem::TargetText { .. }));
        assert!(
            !any_target,
            "unsupported form should drop target-text: {css}"
        );
    }
}

#[test]
fn parse_target_counter_with_whitespace_and_case() {
    let css = r##"a::after { content: Target-Counter(  attr( href )  ,  page  ); }"##;
    let g = parse_gcpm(css);
    assert!(
        g.content_counter_mappings
            .iter()
            .any(|m| m.content.contains(&ContentItem::TargetCounter {
                url: TargetUrl::Attr("href".into()),
                counter_name: "page".into(),
                style: CounterStyle::Decimal,
            })),
        "expected mixed-case + whitespace to parse — got {:?}",
        g.content_counter_mappings
    );
}

#[test]
fn parse_target_counter_accepts_style_arg_for_forward_compat() {
    let css = r##"a::after { content: target-counter(attr(href), section, lower-roman); }"##;
    let g = parse_gcpm(css);
    let item = g
        .content_counter_mappings
        .iter()
        .flat_map(|m| m.content.iter())
        .find_map(|i| match i {
            ContentItem::TargetCounter {
                counter_name,
                style,
                ..
            } => Some((counter_name.clone(), *style)),
            _ => None,
        });
    assert_eq!(item, Some(("section".into(), CounterStyle::LowerRoman)));
}

fn assert_size(css: &str, expected: PageSizeDecl<CssLength>) {
    let ctx = parse_gcpm(css);
    assert_eq!(
        ctx.page_settings.len(),
        1,
        "expected 1 PageSettingsRule for: {css}"
    );
    let size = ctx.page_settings[0]
        .size
        .as_ref()
        .expect("size should be set");
    assert_eq!(size, &expected, "size mismatch for: {css}");
}

fn assert_no_page_settings(css: &str) {
    let ctx = parse_gcpm(css);
    assert!(
        ctx.page_settings.is_empty(),
        "expected no PageSettingsRule for: {css}, got: {:?}",
        ctx.page_settings
    );
}

/// Helper: compare f32 values with 0.01pt tolerance (avoids float precision surprises).
fn approx_eq(a: f32, b: f32) -> bool {
    (a - b).abs() < 0.01
}

#[test]
fn test_page_size_auto() {
    assert_size("@page { size: auto; }", PageSizeDecl::Auto);
}

#[test]
fn test_page_size_landscape_keyword() {
    assert_size(
        "@page { size: landscape; }",
        PageSizeDecl::KeywordWithOrientation("auto".to_string(), true),
    );
}

#[test]
fn test_page_size_portrait_keyword() {
    assert_size(
        "@page { size: portrait; }",
        PageSizeDecl::KeywordWithOrientation("auto".to_string(), false),
    );
}

#[test]
fn test_page_size_named_keyword() {
    assert_size(
        "@page { size: A4; }",
        PageSizeDecl::Keyword("A4".to_string()),
    );
}

#[test]
fn test_page_size_named_keyword_landscape() {
    assert_size(
        "@page { size: A4 landscape; }",
        PageSizeDecl::KeywordWithOrientation("A4".to_string(), true),
    );
}

#[test]
fn test_page_size_named_keyword_portrait() {
    assert_size(
        "@page { size: A4 portrait; }",
        PageSizeDecl::KeywordWithOrientation("A4".to_string(), false),
    );
}

#[test]
fn test_page_size_letter_keyword() {
    assert_size(
        "@page { size: letter; }",
        PageSizeDecl::Keyword("letter".to_string()),
    );
}

#[test]
fn test_page_size_two_dimensions_pt() {
    let ctx = parse_gcpm("@page { size: 100pt 200pt; }");
    assert_eq!(ctx.page_settings.len(), 1);
    match ctx.page_settings[0].size.as_ref().unwrap() {
        PageSizeDecl::Custom(w, h) => {
            assert!(approx_eq(pt(*w), 100.0), "width={w:?}");
            assert!(approx_eq(pt(*h), 200.0), "height={h:?}");
        }
        other => panic!("expected Custom, got {other:?}"),
    }
}

#[test]
fn test_page_size_one_dimension_pt() {
    let ctx = parse_gcpm("@page { size: 150pt; }");
    assert_eq!(ctx.page_settings.len(), 1);
    match ctx.page_settings[0].size.as_ref().unwrap() {
        PageSizeDecl::Custom(w, h) => {
            assert!(approx_eq(pt(*w), 150.0), "width={w:?}");
            assert!(approx_eq(pt(*h), 150.0), "height={h:?}");
        }
        other => panic!("expected Custom, got {other:?}"),
    }
}

#[test]
fn test_page_size_mm_unit() {
    let ctx = parse_gcpm("@page { size: 25.4mm; }");
    assert_eq!(ctx.page_settings.len(), 1);
    match ctx.page_settings[0].size.as_ref().unwrap() {
        PageSizeDecl::Custom(w, h) => {
            assert!(approx_eq(pt(*w), 72.0), "width={w:?}");
            assert!(approx_eq(pt(*h), 72.0), "height={h:?}");
        }
        other => panic!("expected Custom, got {other:?}"),
    }
}

#[test]
fn test_page_size_in_unit() {
    let ctx = parse_gcpm("@page { size: 1in 2in; }");
    assert_eq!(ctx.page_settings.len(), 1);
    match ctx.page_settings[0].size.as_ref().unwrap() {
        PageSizeDecl::Custom(w, h) => {
            assert!(approx_eq(pt(*w), 72.0), "width={w:?}");
            assert!(approx_eq(pt(*h), 144.0), "height={h:?}");
        }
        other => panic!("expected Custom, got {other:?}"),
    }
}

#[test]
fn test_page_size_cm_unit() {
    let ctx = parse_gcpm("@page { size: 2.54cm; }");
    match ctx.page_settings[0].size.as_ref().unwrap() {
        PageSizeDecl::Custom(w, h) => {
            assert!(approx_eq(pt(*w), 72.0), "width={w:?}");
            assert!(approx_eq(pt(*h), 72.0), "height={h:?}");
        }
        other => panic!("expected Custom, got {other:?}"),
    }
}

#[test]
fn test_page_size_px_unit() {
    let ctx = parse_gcpm("@page { size: 96px; }");
    match ctx.page_settings[0].size.as_ref().unwrap() {
        PageSizeDecl::Custom(w, h) => {
            assert!(approx_eq(pt(*w), 72.0), "width={w:?}");
            assert!(approx_eq(pt(*h), 72.0), "height={h:?}");
        }
        other => panic!("expected Custom, got {other:?}"),
    }
}

#[test]
fn test_page_size_unknown_unit_not_stored() {
    assert_no_page_settings("@page { size: 100ex; }");
    assert_no_page_settings("@page { size: 100vw 200vh; }");
}

#[test]
fn test_page_size_trailing_token_not_stored() {
    assert_no_page_settings("@page { size: A4 A3; }");
    assert_no_page_settings("@page { size: 100pt 200pt 50pt; }");
}

#[test]
fn test_page_size_with_selector() {
    let ctx = parse_gcpm("@page :first { size: A4; }");
    assert_eq!(ctx.page_settings.len(), 1);
    let rule = &ctx.page_settings[0];
    assert_eq!(rule.page_selector, Some(":first".to_string()));
    assert_eq!(rule.size, Some(PageSizeDecl::Keyword("A4".to_string())));
}

fn margin_rule(css: &str) -> PartialMargin<f32> {
    let ctx = parse_gcpm(css);
    assert_eq!(
        ctx.page_settings.len(),
        1,
        "expected 1 PageSettingsRule for: {css}"
    );
    in_points(&ctx.page_settings[0].margin)
}

#[test]
fn test_page_margin_shorthand_two_values() {
    let m = margin_rule("@page { margin: 10pt 20pt; }");
    assert!(approx_eq(m.top.unwrap(), 10.0));
    assert!(approx_eq(m.right.unwrap(), 20.0));
    assert!(approx_eq(m.bottom.unwrap(), 10.0));
    assert!(approx_eq(m.left.unwrap(), 20.0));
}

#[test]
fn test_page_margin_shorthand_three_values() {
    let m = margin_rule("@page { margin: 10pt 20pt 30pt; }");
    assert!(approx_eq(m.top.unwrap(), 10.0));
    assert!(approx_eq(m.right.unwrap(), 20.0));
    assert!(approx_eq(m.bottom.unwrap(), 30.0));
    assert!(approx_eq(m.left.unwrap(), 20.0));
}

#[test]
fn test_page_margin_shorthand_four_values() {
    let m = margin_rule("@page { margin: 10pt 20pt 30pt 40pt; }");
    assert!(approx_eq(m.top.unwrap(), 10.0));
    assert!(approx_eq(m.right.unwrap(), 20.0));
    assert!(approx_eq(m.bottom.unwrap(), 30.0));
    assert!(approx_eq(m.left.unwrap(), 40.0));
}

#[test]
fn test_page_margin_shorthand_with_mm() {
    let m = margin_rule("@page { margin: 25.4mm; }");
    assert!(approx_eq(m.top.unwrap(), 72.0), "top={:?}", m.top);
    assert!(approx_eq(m.right.unwrap(), 72.0));
    assert!(approx_eq(m.bottom.unwrap(), 72.0));
    assert!(approx_eq(m.left.unwrap(), 72.0));
}

#[test]
fn test_page_margin_shorthand_trailing_token_not_stored() {
    assert_no_page_settings("@page { margin: 10pt bogus; }");
}

#[test]
fn test_page_margin_longhand_bottom() {
    let m = margin_rule("@page { margin-bottom: 15pt; }");
    assert_eq!(m.top, None, "top must remain unset");
    assert_eq!(m.right, None);
    assert!(approx_eq(m.bottom.unwrap(), 15.0), "bottom={:?}", m.bottom);
    assert_eq!(m.left, None);
}

#[test]
fn test_page_margin_longhand_left() {
    let m = margin_rule("@page { margin-left: 25pt; }");
    assert_eq!(m.top, None);
    assert_eq!(m.right, None);
    assert_eq!(m.bottom, None);
    assert!(approx_eq(m.left.unwrap(), 25.0), "left={:?}", m.left);
}

#[test]
fn test_page_margin_all_four_longhands() {
    let m = margin_rule(
        "@page { margin-top: 10pt; margin-right: 20pt; margin-bottom: 30pt; margin-left: 40pt; }",
    );
    assert!(approx_eq(m.top.unwrap(), 10.0));
    assert!(approx_eq(m.right.unwrap(), 20.0));
    assert!(approx_eq(m.bottom.unwrap(), 30.0));
    assert!(approx_eq(m.left.unwrap(), 40.0));
}

#[test]
fn test_page_margin_longhand_trailing_token_not_stored() {
    assert_no_page_settings("@page { margin-left: 10pt bogus; }");
}

#[test]
fn test_page_margin_unknown_unit_not_stored() {
    assert_no_page_settings("@page { margin: 10em; }");
    assert_no_page_settings("@page { margin-top: 5vh; }");
}

#[test]
fn test_content_unknown_token_silently_skipped() {
    let css = r#"@page { @top-center { content: 42 "hello"; } }"#;
    let ctx = parse_gcpm(css);
    assert_eq!(ctx.margin_boxes.len(), 1);
    assert_eq!(
        ctx.margin_boxes[0].content,
        vec![ContentItem::String("hello".to_string())],
        "numeric token should be silently dropped"
    );
}

#[test]
fn test_string_set_content_unknown_arg_silently_dropped() {
    let css = "h1 { string-set: title content(unknown); }";
    let ctx = parse_gcpm(css);
    assert!(
        ctx.string_set_mappings.is_empty(),
        "content(unknown) alone should produce no mapping"
    );
}

#[test]
fn test_string_set_content_unknown_arg_mixed_with_valid() {
    let css = "h1 { string-set: title content(unknown) content(text); }";
    let ctx = parse_gcpm(css);
    assert_eq!(ctx.string_set_mappings.len(), 1);
    assert_eq!(
        ctx.string_set_mappings[0].values,
        vec![StringSetValue::ContentText],
    );
}

#[test]
fn test_counter_unknown_style_falls_back_to_decimal() {
    let css = r#"@page { @bottom-center { content: counter(page, bogus_style); } }"#;
    let ctx = parse_gcpm(css);
    assert_eq!(ctx.margin_boxes.len(), 1);
    assert_eq!(
        ctx.margin_boxes[0].content,
        vec![ContentItem::Counter {
            name: "page".into(),
            style: CounterStyle::Decimal,
        }]
    );
}

#[test]
fn test_string_ref_unknown_policy_falls_back_to_first() {
    let css = r#"@page { @top-center { content: string(title, bogus_policy); } }"#;
    let ctx = parse_gcpm(css);
    assert_eq!(ctx.margin_boxes.len(), 1);
    assert_eq!(
        ctx.margin_boxes[0].content,
        vec![ContentItem::StringRef {
            name: "title".to_string(),
            policy: StringPolicy::First,
        }],
        "unknown policy should fall back to First"
    );
}

#[test]
fn test_position_non_running_function_ignored() {
    let css = "h1 { position: translate(10px); }";
    let ctx = parse_gcpm(css);
    assert!(ctx.running_mappings.is_empty());
    assert!(ctx.cleaned_css.contains("position: translate(10px)"));
}

#[test]
fn test_page_size_and_margin_combined() {
    let css = "@page { size: A4 landscape; margin: 20pt; }";
    let ctx = parse_gcpm(css);
    assert_eq!(ctx.page_settings.len(), 1);
    let rule = &ctx.page_settings[0];
    assert_eq!(
        rule.size,
        Some(PageSizeDecl::KeywordWithOrientation("A4".to_string(), true))
    );
    let m = in_points(&rule.margin);
    assert!(approx_eq(m.top.unwrap(), 20.0));
    assert!(approx_eq(m.right.unwrap(), 20.0));
    assert!(approx_eq(m.bottom.unwrap(), 20.0));
    assert!(approx_eq(m.left.unwrap(), 20.0));
}

#[test]
fn test_page_size_does_not_appear_in_cleaned_css() {
    let css = "body { color: red; } @page { size: A4; margin: 10pt; } p { margin: 0; }";
    let ctx = parse_gcpm(css);
    assert!(!ctx.cleaned_css.contains("@page"));
    assert!(ctx.cleaned_css.contains("body { color: red; }"));
    assert!(ctx.cleaned_css.contains("p { margin: 0; }"));
}

#[test]
fn test_selector_delimiter_first_token_is_skipped() {
    let ctx =
        parse_gcpm("> p { position: running(header); } .valid { position: running(footer); }");
    assert!(
        !ctx.running_mappings
            .iter()
            .any(|m| m.running_name == "header")
    );
    assert!(
        ctx.running_mappings
            .iter()
            .any(|m| m.running_name == "footer")
    );
}

#[test]
fn test_unknown_pseudo_element_is_not_registered() {
    let ctx = parse_gcpm(
        "h1::first-line { position: running(header); } .valid { position: running(footer); }",
    );
    assert!(
        !ctx.running_mappings
            .iter()
            .any(|m| m.running_name == "header")
    );
    assert!(
        ctx.running_mappings
            .iter()
            .any(|m| m.running_name == "footer")
    );
}

#[test]
fn test_compound_selector_block_is_drained() {
    let ctx = parse_gcpm(
        ".foo.bar { position: running(header); } .valid { position: running(footer); }",
    );
    assert!(
        !ctx.running_mappings
            .iter()
            .any(|m| m.running_name == "header")
    );
    assert!(
        ctx.running_mappings
            .iter()
            .any(|m| m.running_name == "footer")
    );
}

#[test]
fn test_page_size_keyword_followed_by_non_ident_is_rejected() {
    assert_no_page_settings("@page { size: A4 100pt; }");
}

#[test]
fn test_page_size_second_dim_invalid_unit_is_ignored() {
    assert_no_page_settings("@page { size: 100pt 200em; }");
}

#[test]
fn test_page_size_string_literal_is_ignored() {
    assert_no_page_settings(r#"@page { size: "A4"; }"#);
}

#[test]
fn test_page_unknown_property_is_skipped() {
    let ctx = parse_gcpm("@page { color: red; size: A4; }");
    assert_eq!(ctx.page_settings.len(), 1);
    assert_eq!(
        ctx.page_settings[0].size,
        Some(PageSizeDecl::Keyword("A4".to_string()))
    );
}

#[test]
fn test_counter_reset_none_produces_no_ops() {
    let ctx = parse_gcpm("p { counter-reset: none; }");
    assert!(ctx.counter_mappings.is_empty());
}

#[test]
fn test_target_counter_url_with_extra_token_drops_item() {
    let css = r#"a::after { content: target-counter(url("a" "b"), page); }"#;
    let ctx = parse_gcpm(css);
    assert!(ctx.content_counter_mappings.is_empty());
}

#[test]
fn test_target_counter_numeric_first_arg_drops_item() {
    let css = r#"a::after { content: target-counter(42, page); }"#;
    let ctx = parse_gcpm(css);
    assert!(ctx.content_counter_mappings.is_empty());
}

#[test]
fn test_target_counters_invalid_url_drops_item() {
    let css = r#"a::after { content: target-counters(42, section, "."); }"#;
    let ctx = parse_gcpm(css);
    assert!(ctx.content_counter_mappings.is_empty());
}

#[test]
fn css_escape_string_passthrough_normal_chars() {
    assert_eq!(css_escape_string("hello world"), "hello world");
    assert_eq!(css_escape_string(""), "");
    assert_eq!(
        css_escape_string("ABC 123 !@#$%^&*()"),
        "ABC 123 !@#$%^&*()"
    );
}

#[test]
fn css_escape_string_escapes_double_quote() {
    assert_eq!(css_escape_string(r#"say "hi""#), r#"say \"hi\""#);
    assert_eq!(css_escape_string("\""), "\\\"");
}

#[test]
fn css_escape_string_escapes_backslash() {
    assert_eq!(css_escape_string("C:\\path"), "C:\\\\path");
    assert_eq!(css_escape_string("\\"), "\\\\");
}

#[test]
fn css_escape_string_escapes_newline() {
    assert_eq!(css_escape_string("line1\nline2"), "line1\\a line2");
    assert_eq!(css_escape_string("\n"), "\\a ");
}

#[test]
fn css_escape_string_escapes_carriage_return() {
    assert_eq!(css_escape_string("text\rend"), "text\\d end");
    assert_eq!(css_escape_string("\r"), "\\d ");
}

#[test]
fn css_escape_string_escapes_null_byte() {
    assert_eq!(css_escape_string("null\0byte"), "null\\0 byte");
    assert_eq!(css_escape_string("\0"), "\\0 ");
}

#[test]
fn css_escape_string_escapes_other_control_chars() {
    assert_eq!(css_escape_string("\t"), "\\9 ");
    assert_eq!(css_escape_string("\x01"), "\\1 ");
    assert_eq!(css_escape_string("\x1b"), "\\1b ");
}

#[test]
fn css_escape_string_mixed_content() {
    let input = "a\"b\\c\nd\re\0f\tg";
    let expected = "a\\\"b\\\\c\\a d\\d e\\0 f\\9 g";
    assert_eq!(css_escape_string(input), expected);
}

#[test]
fn parse_target_text_before_kind() {
    let css = r#"a::after { content: target-text(attr(href), before); }"#;
    let g = parse_gcpm(css);
    assert_eq!(
        g.content_counter_mappings[0].content,
        vec![ContentItem::TargetText {
            url: TargetUrl::Attr("href".into()),
            kind: TargetTextKind::Before,
        }]
    );
}

#[test]
fn parse_target_text_after_kind() {
    let css = r#"a::after { content: target-text(attr(href), after); }"#;
    let g = parse_gcpm(css);
    assert_eq!(
        g.content_counter_mappings[0].content,
        vec![ContentItem::TargetText {
            url: TargetUrl::Attr("href".into()),
            kind: TargetTextKind::After,
        }]
    );
}

#[test]
fn parse_target_text_first_letter_kind() {
    let css = r#"a::after { content: target-text(attr(href), first-letter); }"#;
    let g = parse_gcpm(css);
    assert_eq!(
        g.content_counter_mappings[0].content,
        vec![ContentItem::TargetText {
            url: TargetUrl::Attr("href".into()),
            kind: TargetTextKind::FirstLetter,
        }]
    );
}

#[test]
fn test_bookmark_label_content_before() {
    let css = "h1 { bookmark-label: content(before); }";
    let ctx = parse_gcpm(css);
    assert_eq!(ctx.bookmark_mappings.len(), 1);
    let label = ctx.bookmark_mappings[0]
        .label
        .as_ref()
        .expect("label present");
    assert_eq!(label, &vec![ContentItem::ContentBefore]);
}

#[test]
fn test_bookmark_label_content_after() {
    let css = "h1 { bookmark-label: content(after); }";
    let ctx = parse_gcpm(css);
    assert_eq!(ctx.bookmark_mappings.len(), 1);
    let label = ctx.bookmark_mappings[0]
        .label
        .as_ref()
        .expect("label present");
    assert_eq!(label, &vec![ContentItem::ContentAfter]);
}

#[test]
fn test_bookmark_label_content_before_and_after_together() {
    let css = "h1 { bookmark-label: content(before) content(text) content(after); }";
    let ctx = parse_gcpm(css);
    assert_eq!(ctx.bookmark_mappings.len(), 1);
    let label = ctx.bookmark_mappings[0]
        .label
        .as_ref()
        .expect("label present");
    assert_eq!(
        label,
        &vec![
            ContentItem::ContentBefore,
            ContentItem::ContentText,
            ContentItem::ContentAfter,
        ]
    );
}

#[test]
fn test_page_size_zero_dimension_not_stored() {
    assert_no_page_settings("@page { size: 0pt; }");
    assert_no_page_settings("@page { size: 0mm 200pt; }");
}

#[test]
fn test_counter_upper_alpha_style() {
    let css = r#"@page { @bottom-center { content: counter(chapter, upper-alpha); } }"#;
    let ctx = parse_gcpm(css);
    assert_eq!(ctx.margin_boxes.len(), 1);
    assert_eq!(
        ctx.margin_boxes[0].content,
        vec![ContentItem::Counter {
            name: "chapter".into(),
            style: CounterStyle::UpperAlpha,
        }]
    );
}

#[test]
fn test_counter_upper_latin_style_alias() {
    let css = r#"@page { @bottom-center { content: counter(chapter, upper-latin); } }"#;
    let ctx = parse_gcpm(css);
    assert_eq!(ctx.margin_boxes.len(), 1);
    assert_eq!(
        ctx.margin_boxes[0].content,
        vec![ContentItem::Counter {
            name: "chapter".into(),
            style: CounterStyle::UpperAlpha,
        }]
    );
}

#[test]
fn test_counter_lower_latin_style_alias() {
    let css = r#"@page { @bottom-center { content: counter(section, lower-latin); } }"#;
    let ctx = parse_gcpm(css);
    assert_eq!(ctx.margin_boxes.len(), 1);
    assert_eq!(
        ctx.margin_boxes[0].content,
        vec![ContentItem::Counter {
            name: "section".into(),
            style: CounterStyle::LowerAlpha,
        }]
    );
}

#[test]
fn test_non_page_at_rule_does_not_crash_and_is_preserved() {
    let css = "@media screen { body { color: red; } }";
    let ctx = parse_gcpm(css);
    assert!(ctx.margin_boxes.is_empty());
    assert!(ctx.page_settings.is_empty());
    assert!(ctx.running_mappings.is_empty());
    assert!(
        ctx.cleaned_css.contains("@media"),
        "non-page at-rule must survive in cleaned_css: {:?}",
        ctx.cleaned_css
    );
}

#[test]
fn test_non_page_at_rule_mixed_with_gcpm() {
    let css = "@media print { body { margin: 0; } } @page { size: A4; }";
    let ctx = parse_gcpm(css);
    assert_eq!(ctx.page_settings.len(), 1);
    assert_eq!(
        ctx.page_settings[0].size,
        Some(PageSizeDecl::Keyword("A4".to_string()))
    );
    assert!(
        ctx.cleaned_css
            .contains("@media print { body { margin: 0; } }"),
        "complete @media rule must survive in cleaned_css: {:?}",
        ctx.cleaned_css
    );
    assert!(
        !ctx.cleaned_css.contains("@page"),
        "@page must be removed: {:?}",
        ctx.cleaned_css
    );
}

#[test]
fn test_pseudo_counter_upper_alpha_style() {
    let css = r#"li::before { content: counter(item, upper-alpha) ". "; }"#;
    let ctx = parse_gcpm(css);
    assert_eq!(ctx.content_counter_mappings.len(), 1);
    let items = &ctx.content_counter_mappings[0].content;
    assert!(
        items.iter().any(|i| matches!(
            i,
            ContentItem::Counter {
                style: CounterStyle::UpperAlpha,
                ..
            }
        )),
        "expected UpperAlpha counter in items: {items:?}"
    );
}

#[test]
fn large_bookmark_levels_are_clamped() {
    for (written, level) in [("1", 1), ("254", 254), ("255", 255), ("256", 255), ("300", 255), ("99999999999", 255)] {
        let ctx = parse_gcpm(&format!("h1 {{ bookmark-level: {written}; }}"));
        assert_eq!(ctx.bookmark_mappings.len(), 1, "{written}");
        assert_eq!(ctx.bookmark_mappings[0].level, Some(BookmarkLevel::Integer(level)), "{written}");
    }
}

#[test]
fn a_redeclared_property_wins_unless_it_is_empty() {
    let ops = |css: &str| format!("{:?}", parse_gcpm(css).counter_mappings[0].ops);
    assert_eq!(ops("p { counter-reset: a 1; counter-reset: b 2; }"), ops("p { counter-reset: b 2; }"));
    assert_eq!(ops("p { counter-reset: a 1; counter-reset: none; }"), ops("p { counter-reset: a 1; }"));
}

fn removal() -> CssEdit {
    CssEdit::Remove { start: 6, end: 8 }
}

fn replacement(text: &str) -> CssEdit {
    CssEdit::Replace { start: 2, end: 5, replacement: text.to_string() }
}

#[test]
fn edits_are_made_by_their_starts() {
    let toks = tokenize("h{x:y}@page{}p{}");
    let mut given = vec![replacement(""), removal()];
    assert_eq!(build_cleaned_css(&toks, &mut given), "h{}\np{}");
    let mut swapped = vec![removal(), replacement("")];
    assert_eq!(build_cleaned_css(&toks, &mut swapped), "h{}\np{}");
    assert!(matches!(swapped[0], CssEdit::Replace { start: 2, .. }));
    assert!(matches!(swapped[1], CssEdit::Remove { start: 6, .. }));
}

#[test]
fn edits_with_one_start_stay_in_their_order() {
    let toks = tokenize("h{x:y}@page{}p{}");
    let mut given = vec![removal(), replacement("a"), replacement("b"), replacement("c")];
    assert_eq!(build_cleaned_css(&toks, &mut given), "h{abc}\np{}");
}

#[test]
fn no_edits_keep_the_sheet() {
    let css = "h{x:y}@page{}p{}";
    assert_eq!(build_cleaned_css(&tokenize(css), &mut Vec::new()), css);
}
