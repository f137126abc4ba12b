//! The size, the margins and the orientation of pages.

use fulgur::config::{Config, ConfigOverrides, PageSize, PaperSizes};
use fulgur::gcpm::page_settings::{keyword_to_page_size, resolve_page_settings, selector_matches};
use fulgur::gcpm::{Margin, PageSettingsRule, PageSizeDecl, PartialMargin};

const A4: PageSize<f32> = PageSize { width: 595.28, height: 841.89 };
const A3: PageSize<f32> = PageSize { width: 841.89, height: 1190.55 };
const LETTER: PageSize<f32> = PageSize { width: 612.0, height: 792.0 };

fn default_config() -> Config<f32> {
    Config {
        page_size: A4,
        margin: Margin { top: 56.7, right: 56.7, bottom: 56.7, left: 56.7 },
        landscape: false,
        overrides: ConfigOverrides { page_size: false, margin: false, landscape: false },
        paper: PaperSizes { a4: A4, a3: A3, letter: LETTER },
    }
}

#[test]
fn test_no_page_settings_uses_config() {
    let config = default_config();
    let (size, margin, landscape) = resolve_page_settings(&[], 1, 10, &config);
    assert!((size.width - A4.width).abs() < 0.01);
    assert!((margin.top - config.margin.top).abs() < 0.01);
    assert!(!landscape);
}

#[test]
fn test_css_size_overrides_default_config() {
    let config = default_config(); // overrides all false
    let rules = vec![PageSettingsRule {
        page_selector: None,
        size: Some(PageSizeDecl::Keyword("letter".into())),
        margin: PartialMargin::default(),
    }];
    let (size, _, _) = resolve_page_settings(&rules, 1, 10, &config);
    assert!((size.width - LETTER.width).abs() < 0.01);
}

#[test]
fn test_cli_override_beats_css() {
    let config = Config {
        page_size: A3,
        overrides: ConfigOverrides { page_size: true, margin: false, landscape: false },
        ..default_config()
    };
    let rules = vec![PageSettingsRule {
        page_selector: None,
        size: Some(PageSizeDecl::Keyword("letter".into())),
        margin: PartialMargin::default(),
    }];
    let (size, _, _) = resolve_page_settings(&rules, 1, 10, &config);
    assert!((size.width - A3.width).abs() < 0.01);
}

#[test]
fn test_selector_first_matches_page_1() {
    let config = default_config();
    let rules = vec![
        PageSettingsRule {
            page_selector: None,
            size: None,
            margin: PartialMargin::from_uniform(20.0),
        },
        PageSettingsRule {
            page_selector: Some(":first".into()),
            size: None,
            margin: PartialMargin::from_uniform(50.0),
        },
    ];
    let (_, margin_p1, _) = resolve_page_settings(&rules, 1, 10, &config);
    assert!((margin_p1.top - 50.0).abs() < 0.01);
    let (_, margin_p2, _) = resolve_page_settings(&rules, 2, 10, &config);
    assert!((margin_p2.top - 20.0).abs() < 0.01);
}

#[test]
fn test_left_right_selectors() {
    let config = default_config();
    let rules = vec![
        PageSettingsRule {
            page_selector: Some(":left".into()),
            size: None,
            margin: PartialMargin::from_sides(20.0, 30.0, 20.0, 10.0),
        },
        PageSettingsRule {
            page_selector: Some(":right".into()),
            size: None,
            margin: PartialMargin::from_sides(20.0, 10.0, 20.0, 30.0),
        },
    ];
    let (_, m2, _) = resolve_page_settings(&rules, 2, 10, &config);
    assert!((m2.left - 10.0).abs() < 0.01);
    let (_, m3, _) = resolve_page_settings(&rules, 3, 10, &config);
    assert!((m3.left - 30.0).abs() < 0.01);
}

#[test]
fn test_page_size_landscape_from_css() {
    let config = default_config();
    let rules = vec![PageSettingsRule {
        page_selector: None,
        size: Some(PageSizeDecl::KeywordWithOrientation("A4".into(), true)),
        margin: PartialMargin::default(),
    }];
    let (_, _, landscape) = resolve_page_settings(&rules, 1, 10, &config);
    assert!(landscape);
}

#[test]
fn test_custom_page_size() {
    let config = default_config();
    let rules = vec![PageSettingsRule {
        page_selector: None,
        size: Some(PageSizeDecl::Custom(400.0, 600.0)),
        margin: PartialMargin::default(),
    }];
    let (size, _, landscape) = resolve_page_settings(&rules, 1, 10, &config);
    assert!((size.width - 400.0).abs() < 0.01);
    assert!((size.height - 600.0).abs() < 0.01);
    assert!(!landscape);
}

#[test]
fn test_partial_margin_inherits_unset_sides_from_default() {
    let config = default_config();
    let rules = vec![
        PageSettingsRule {
            page_selector: None,
            size: None,
            margin: PartialMargin::from_uniform(0.0),
        },
        PageSettingsRule {
            page_selector: Some(":right".into()),
            size: None,
            margin: PartialMargin {
                top: Some(150.0),
                right: Some(375.0),
                bottom: None,
                left: None,
            },
        },
    ];
    let (_, m, _) = resolve_page_settings(&rules, 1, 10, &config);
    assert!((m.top - 150.0).abs() < 0.01);
    assert!((m.right - 375.0).abs() < 0.01);
    assert!((m.bottom - 0.0).abs() < 0.01);
    assert!((m.left - 0.0).abs() < 0.01);
}

#[test]
fn test_partial_margin_falls_back_to_config_when_no_default_rule() {
    let config = default_config();
    let rules = vec![PageSettingsRule {
        page_selector: Some(":first".into()),
        size: None,
        margin: PartialMargin {
            top: Some(100.0),
            right: None,
            bottom: None,
            left: None,
        },
    }];
    let (_, m, _) = resolve_page_settings(&rules, 1, 10, &config);
    assert!((m.top - 100.0).abs() < 0.01);
    assert!((m.right - config.margin.right).abs() < 0.01);
    assert!((m.bottom - config.margin.bottom).abs() < 0.01);
    assert!((m.left - config.margin.left).abs() < 0.01);
}

#[test]
fn keywords_ignore_case_and_fall_back_to_a4() {
    let paper = default_config().paper;
    assert_eq!(keyword_to_page_size("A3", &paper), A3);
    assert_eq!(keyword_to_page_size("a3", &paper), A3);
    assert_eq!(keyword_to_page_size("LETTER", &paper), LETTER);
    assert_eq!(keyword_to_page_size("no-such-paper", &paper), A4);
}

#[test]
fn pages_alternate_sides() {
    for page in 1..8 {
        assert_ne!(selector_matches(":left", page), selector_matches(":right", page));
        assert_eq!(selector_matches(":left", page), selector_matches(":left", page + 2));
    }
    assert!(selector_matches(":right", 1));
    assert!(selector_matches(":first", 1));
    assert!(!selector_matches(":first", 2));
    assert!(!selector_matches(":blank", 1));
}

#[test]
fn overriding_margins_and_orientation_win() {
    let config = Config {
        landscape: true,
        overrides: ConfigOverrides { page_size: false, margin: true, landscape: true },
        ..default_config()
    };
    let rules = vec![PageSettingsRule {
        page_selector: None,
        size: Some(PageSizeDecl::KeywordWithOrientation("A4".into(), false)),
        margin: PartialMargin::from_uniform(1.0),
    }];
    let (size, margin, landscape) = resolve_page_settings(&rules, 1, 1, &config);
    assert_eq!(size, A4);
    assert_eq!(margin, config.margin);
    assert!(landscape);
}
