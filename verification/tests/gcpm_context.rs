//! What a style sheet says of paged media, as a whole.

use fulgur::gcpm::margin_box::MarginBoxPosition;
use fulgur::gcpm::{ContentItem, CounterStyle, GcpmContext, MarginBoxRule, ParsedSelector, RunningMapping};

#[test]
fn test_gcpm_context_is_empty() {
    let ctx = GcpmContext {
        margin_boxes: vec![],
        running_mappings: vec![],
        string_set_mappings: vec![],
        page_settings: vec![],
        counter_mappings: vec![],
        content_counter_mappings: vec![],
        static_content_mappings: vec![],
        bookmark_mappings: vec![],
        cleaned_css: String::new(),
    };
    assert!(ctx.is_empty());
}

#[test]
fn test_gcpm_context_not_empty_with_margin_box() {
    let ctx = GcpmContext {
        margin_boxes: vec![MarginBoxRule {
            page_selector: None,
            position: MarginBoxPosition::TopCenter,
            content: vec![ContentItem::Counter {
                name: "page".into(),
                style: CounterStyle::Decimal,
            }],
            declarations: String::new(),
        }],
        running_mappings: vec![],
        string_set_mappings: vec![],
        page_settings: vec![],
        counter_mappings: vec![],
        content_counter_mappings: vec![],
        static_content_mappings: vec![],
        bookmark_mappings: vec![],
        cleaned_css: String::new(),
    };
    assert!(!ctx.is_empty());
}

#[test]
fn test_gcpm_context_not_empty_with_running_name() {
    let ctx = GcpmContext {
        margin_boxes: vec![],
        running_mappings: vec![RunningMapping {
            parsed: ParsedSelector::Class("header".to_string()),
            running_name: "header".to_string(),
        }],
        string_set_mappings: vec![],
        page_settings: vec![],
        counter_mappings: vec![],
        content_counter_mappings: vec![],
        static_content_mappings: vec![],
        bookmark_mappings: vec![],
        cleaned_css: String::new(),
    };
    assert!(!ctx.is_empty());
}

#[test]
fn test_gcpm_context_extend_from_merges_all_fields() {
    let mut a = GcpmContext {
        margin_boxes: vec![],
        running_mappings: vec![RunningMapping {
            parsed: ParsedSelector::Class("a-header".to_string()),
            running_name: "a".to_string(),
        }],
        string_set_mappings: vec![],
        page_settings: vec![],
        counter_mappings: vec![],
        content_counter_mappings: vec![],
        static_content_mappings: vec![],
        bookmark_mappings: vec![],
        cleaned_css: "body { color: red; }".to_string(),
    };
    let b = GcpmContext {
        margin_boxes: vec![MarginBoxRule {
            page_selector: None,
            position: MarginBoxPosition::TopCenter,
            content: vec![],
            declarations: String::new(),
        }],
        running_mappings: vec![RunningMapping {
            parsed: ParsedSelector::Class("b-header".to_string()),
            running_name: "b".to_string(),
        }],
        string_set_mappings: vec![],
        page_settings: vec![],
        counter_mappings: vec![],
        content_counter_mappings: vec![],
        static_content_mappings: vec![],
        bookmark_mappings: vec![],
        cleaned_css: "p { margin: 0; }".to_string(),
    };

    a.extend_from(b);

    assert_eq!(a.running_mappings.len(), 2);
    assert_eq!(a.margin_boxes.len(), 1);
    assert_eq!(a.cleaned_css, "body { color: red; }\np { margin: 0; }");
}

#[test]
fn test_gcpm_context_extend_from_handles_empty_cleaned_css() {
    let mut a = GcpmContext {
        margin_boxes: vec![],
        running_mappings: vec![],
        string_set_mappings: vec![],
        page_settings: vec![],
        counter_mappings: vec![],
        content_counter_mappings: vec![],
        static_content_mappings: vec![],
        bookmark_mappings: vec![],
        cleaned_css: String::new(),
    };
    let b = GcpmContext {
        margin_boxes: vec![],
        running_mappings: vec![],
        string_set_mappings: vec![],
        page_settings: vec![],
        counter_mappings: vec![],
        content_counter_mappings: vec![],
        static_content_mappings: vec![],
        bookmark_mappings: vec![],
        cleaned_css: "body { color: blue; }".to_string(),
    };

    a.extend_from(b);

    assert_eq!(a.cleaned_css, "body { color: blue; }");
}
