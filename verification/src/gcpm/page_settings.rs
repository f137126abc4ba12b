//! The size, margins and orientation of a page.
//!
//! A setting that the caller overrides wins. Otherwise it is that of the page rules
//! whose selector matches the page, or else that of the page rules without a selector,
//! or else the caller's default. Among rules of one layer the later wins.

use crate::config::{Config, PageSize, PaperSizes};
use crate::gcpm::grammar::same_word;
use crate::gcpm::{
    applied, merged, no_margin, Margin, PageSettingsModel, PageSettingsRule, PageSizeDecl,
    PageSizeModel, PartialMargin,
};
use crate::model::views;
use crate::text::lower;
use vstd::prelude::*;

verus! {

/// The page size that a keyword stands for: A4 for one that is not known.
pub open spec fn paper_named<L>(name: Seq<char>, paper: PaperSizes<L>) -> PageSize<L> {
    if same_word(name, "A4"@) {
        paper.a4
    } else if same_word(name, "A3"@) {
        paper.a3
    } else if same_word(name, "LETTER"@) {
        paper.letter
    } else {
        paper.a4
    }
}

/// Whether a page selector matches a page, counted from 1.
pub open spec fn selects(selector: Seq<char>, page_num: int) -> bool {
    if selector == ":first"@ {
        page_num == 1
    } else if selector == ":left"@ {
        page_num % 2 == 0
    } else if selector == ":right"@ {
        page_num % 2 == 1
    } else {
        false
    }
}

/// Whether a rule is in the layer of the rules without a selector, or in that of the
/// rules whose selector matches the page.
pub open spec fn in_layer<L>(rule: PageSettingsModel<L>, matched: bool, page_num: int) -> bool {
    match rule.page_selector {
        None => !matched,
        Some(s) => matched && selects(s, page_num),
    }
}

/// The size that the first `k` rules of a layer give.
pub open spec fn layer_size<L>(
    rules: Seq<PageSettingsModel<L>>,
    k: int,
    matched: bool,
    page_num: int,
) -> Option<PageSizeModel<L>>
    decreases k,
{
    if k <= 0 {
        None
    } else if in_layer(rules[k - 1], matched, page_num) && rules[k - 1].size is Some {
        rules[k - 1].size
    } else {
        layer_size(rules, k - 1, matched, page_num)
    }
}

/// The margins that the first `k` rules of a layer give.
pub open spec fn layer_margin<L>(
    rules: Seq<PageSettingsModel<L>>,
    k: int,
    matched: bool,
    page_num: int,
) -> PartialMargin<L>
    decreases k,
{
    if k <= 0 {
        no_margin()
    } else if in_layer(rules[k - 1], matched, page_num) {
        merged(layer_margin(rules, k - 1, matched, page_num), rules[k - 1].margin)
    } else {
        layer_margin(rules, k - 1, matched, page_num)
    }
}

/// The size that the page rules give for a page.
pub open spec fn css_size<L>(rules: Seq<PageSettingsModel<L>>, page_num: int) -> Option<
    PageSizeModel<L>,
> {
    let n = rules.len() as int;
    match layer_size(rules, n, true, page_num) {
        Some(size) => Some(size),
        None => layer_size(rules, n, false, page_num),
    }
}

/// The orientation that a size from a page rule asks for.
pub open spec fn css_landscape<L>(size: Option<PageSizeModel<L>>, fallback: bool) -> bool {
    match size {
        Some(PageSizeModel::KeywordWithOrientation(_, landscape)) => landscape,
        Some(PageSizeModel::Custom(_, _)) => false,
        _ => fallback,
    }
}

/// The size of a page.
pub open spec fn resolved_size<L>(size: Option<PageSizeModel<L>>, config: Config<L>) -> PageSize<L> {
    if config.overrides.page_size {
        config.page_size
    } else {
        match size {
            Some(PageSizeModel::Keyword(name)) => paper_named(name, config.paper),
            Some(PageSizeModel::KeywordWithOrientation(name, _)) => if name == "auto"@ {
                config.page_size
            } else {
                paper_named(name, config.paper)
            },
            Some(PageSizeModel::Custom(width, height)) => PageSize { width, height },
            Some(PageSizeModel::Auto) => config.page_size,
            None => config.page_size,
        }
    }
}

/// Whether a page is in landscape.
pub open spec fn resolved_landscape<L>(size: Option<PageSizeModel<L>>, config: Config<L>) -> bool {
    if config.overrides.landscape {
        config.landscape
    } else {
        css_landscape(size, config.landscape)
    }
}

/// The margins of a page: the sides that rules for the page set, over those that rules
/// for all pages set, over the caller's.
pub open spec fn resolved_margin<L>(
    rules: Seq<PageSettingsModel<L>>,
    page_num: int,
    config: Config<L>,
) -> Margin<L> {
    let n = rules.len() as int;
    if config.overrides.margin {
        config.margin
    } else {
        applied(
            layer_margin(rules, n, true, page_num),
            applied(layer_margin(rules, n, false, page_num), config.margin),
        )
    }
}

/// The page size that a keyword stands for.
pub fn keyword_to_page_size<L: Copy>(name: &str, paper: &PaperSizes<L>) -> (r: PageSize<L>)
    ensures
        r == paper_named(name@, *paper),
{
    if name.eq_ignore_ascii_case("A4") {
        paper.a4
    } else if name.eq_ignore_ascii_case("A3") {
        paper.a3
    } else if name.eq_ignore_ascii_case("LETTER") {
        paper.letter
    } else {
        paper.a4
    }
}

/// Whether a page selector matches a page, counted from 1.
pub fn selector_matches(selector: &str, page_num: usize) -> (r: bool)
    ensures
        r == selects(selector@, page_num as int),
{
    if *selector == *":first" {
        page_num == 1
    } else if *selector == *":left" {
        page_num % 2 == 0
    } else if *selector == *":right" {
        page_num % 2 == 1
    } else {
        false
    }
}

/// The orientation that a size from a page rule asks for.
fn resolve_landscape_from_css<L: Copy>(size: Option<&PageSizeDecl<L>>, fallback: bool) -> (r: bool)
    ensures
        r == css_landscape(
            match size {
                Some(s) => Some(s@),
                None => None,
            },
            fallback,
        ),
{
    match size {
        Some(PageSizeDecl::KeywordWithOrientation(_, landscape)) => *landscape,
        Some(PageSizeDecl::Custom(_, _)) => false,
        _ => fallback,
    }
}

/// The size, margins and orientation of a page, counted from 1.
pub fn resolve_page_settings<L: Copy>(
    rules: &[PageSettingsRule<L>],
    page_num: usize,
    _total_pages: usize,
    config: &Config<L>,
) -> (r: (PageSize<L>, Margin<L>, bool))
    ensures
        ({
            let size = css_size(views(rules@), page_num as int);
            &&& r.0 == resolved_size(size, *config)
            &&& r.1 == resolved_margin(views(rules@), page_num as int, *config)
            &&& r.2 == resolved_landscape(size, *config)
        }),
{
    let ghost all = views(rules@);
    let mut default_size: Option<&PageSizeDecl<L>> = None;
    let mut default_margin: PartialMargin<L> = PartialMargin::default();
    let mut matched_size: Option<&PageSizeDecl<L>> = None;
    let mut matched_margin: PartialMargin<L> = PartialMargin::default();
    let mut k: usize = 0;
    while k < rules.len()
        invariant
            k <= rules.len(),
            all == views(rules@),
            (match default_size {
                Some(s) => Some(s@),
                None => None,
            }) == layer_size(all, k as int, false, page_num as int),
            (match matched_size {
                Some(s) => Some(s@),
                None => None,
            }) == layer_size(all, k as int, true, page_num as int),
            default_margin == layer_margin(all, k as int, false, page_num as int),
            matched_margin == layer_margin(all, k as int, true, page_num as int),
        decreases rules.len() - k,
    {
        let rule = &rules[k];
        assert(all[k as int] == rule@);
        match &rule.page_selector {
            None => {
                match &rule.size {
                    Some(size) => {
                        default_size = Some(size);
                    },
                    None => {},
                }
                default_margin.merge(&rule.margin);
            },
            Some(selector) => {
                if selector_matches(selector.as_str(), page_num) {
                    match &rule.size {
                        Some(size) => {
                            matched_size = Some(size);
                        },
                        None => {},
                    }
                    matched_margin.merge(&rule.margin);
                }
            },
        }
        k += 1;
    }
    let size = match matched_size {
        Some(size) => Some(size),
        None => default_size,
    };
    let landscape = if config.overrides.landscape {
        config.landscape
    } else {
        resolve_landscape_from_css(size, config.landscape)
    };
    let page_size = if config.overrides.page_size {
        config.page_size
    } else {
        match size {
            Some(PageSizeDecl::Keyword(name)) => keyword_to_page_size(name.as_str(), &config.paper),
            Some(PageSizeDecl::KeywordWithOrientation(name, _)) => if *name.as_str() == *"auto" {
                config.page_size
            } else {
                keyword_to_page_size(name.as_str(), &config.paper)
            },
            Some(PageSizeDecl::Custom(w, h)) => PageSize { width: *w, height: *h },
            Some(PageSizeDecl::Auto) => config.page_size,
            None => config.page_size,
        }
    };
    let margin = if config.overrides.margin {
        config.margin
    } else {
        let mut m = config.margin;
        default_margin.apply_to_margin(&mut m);
        matched_margin.apply_to_margin(&mut m);
        m
    };
    (page_size, margin, landscape)
}

/// What the caller overrides does not depend on the style sheet.
pub proof fn law_overrides_win<L>(
    rules: Seq<PageSettingsModel<L>>,
    page_num: int,
    config: Config<L>,
)
    ensures
        config.overrides.page_size ==> resolved_size(css_size(rules, page_num), config)
            == config.page_size,
        config.overrides.margin ==> resolved_margin(rules, page_num, config) == config.margin,
        config.overrides.landscape ==> resolved_landscape(css_size(rules, page_num), config)
            == config.landscape,
{
}

/// Without page rules every setting is the caller's.
pub proof fn law_no_rules_leave_config<L>(page_num: int, config: Config<L>)
    ensures
        resolved_size(css_size(Seq::<PageSettingsModel<L>>::empty(), page_num), config)
            == config.page_size,
        resolved_margin(Seq::<PageSettingsModel<L>>::empty(), page_num, config) == config.margin,
        resolved_landscape(css_size(Seq::<PageSettingsModel<L>>::empty(), page_num), config)
            == config.landscape,
{
}

/// A size from a rule that matches the page wins over one from a rule for all pages,
/// wherever the two stand, and the later of two in one layer wins.
pub proof fn law_later_and_matching_rules_win<L>(
    rules: Seq<PageSettingsModel<L>>,
    rule: PageSettingsModel<L>,
    page_num: int,
)
    requires
        rule.size is Some,
    ensures
        in_layer(rule, true, page_num) ==> css_size(rules.push(rule), page_num) == rule.size,
        in_layer(rule, false, page_num) ==> css_size(rules.push(rule), page_num) == (if layer_size(
            rules,
            rules.len() as int,
            true,
            page_num,
        ) is Some {
            css_size(rules, page_num)
        } else {
            rule.size
        }),
{
    lemma_layer_size_prefix(rules, rule, rules.len() as int, true, page_num);
    lemma_layer_size_prefix(rules, rule, rules.len() as int, false, page_num);
}

proof fn lemma_layer_size_prefix<L>(
    rules: Seq<PageSettingsModel<L>>,
    rule: PageSettingsModel<L>,
    k: int,
    matched: bool,
    page_num: int,
)
    requires
        0 <= k <= rules.len(),
    ensures
        layer_size(rules.push(rule), k, matched, page_num) == layer_size(
            rules,
            k,
            matched,
            page_num,
        ),
    decreases k,
{
    if k > 0 {
        lemma_layer_size_prefix(rules, rule, k - 1, matched, page_num);
    }
}

/// Every page is selected by exactly one of `:left` and `:right`, the next page by the
/// other, and a page that `:first` selects is a right one.
pub proof fn law_sides_alternate(page_num: int)
    requires
        page_num >= 1,
    ensures
        selects(":left"@, page_num) != selects(":right"@, page_num),
        selects(":left"@, page_num) == selects(":right"@, page_num + 1),
        selects(":first"@, page_num) ==> selects(":right"@, page_num),
{
    reveal_strlit(":left");
    reveal_strlit(":right");
    reveal_strlit(":first");
    assert(":left"@.len() == 5);
    assert(":first"@[1] == 'f');
    assert(":right"@[1] == 'r');
}

/// Whether a rule is for all pages.
pub open spec fn for_all_pages<L>(rule: PageSettingsModel<L>) -> bool {
    rule.page_selector is None
}

/// Whether a rule is for a page alone or for its side of the sheet: the first page
/// is page 1, left pages have even numbers and right pages odd ones.
pub open spec fn for_this_page<L>(rule: PageSettingsModel<L>, page_num: int) -> bool {
    ||| rule.page_selector == Some(":first"@) && page_num == 1
    ||| rule.page_selector == Some(":left"@) && page_num % 2 == 0
    ||| rule.page_selector == Some(":right"@) && page_num % 2 == 1
}

proof fn lemma_layers<L>(rule: PageSettingsModel<L>, page_num: int)
    ensures
        in_layer(rule, false, page_num) == for_all_pages(rule),
        in_layer(rule, true, page_num) == for_this_page(rule, page_num),
{
    reveal_strlit(":left");
    reveal_strlit(":right");
    reveal_strlit(":first");
    assert(":left"@.len() == 5);
    assert(":first"@[1] == 'f');
    assert(":right"@[1] == 'r');
}

/// Whether the `i`-th of some rules sets a size and is the last that does among the
/// rules for the page, or, where `own` is false, among those for all pages.
pub open spec fn sets_size_last<L>(rules: Seq<PageSettingsModel<L>>, i: int, own: bool, page_num: int) -> bool {
    &&& 0 <= i < rules.len()
    &&& rules[i].size is Some
    &&& (if own { for_this_page(rules[i], page_num) } else { for_all_pages(rules[i]) })
    &&& forall|j: int|
        i < j < rules.len() && (if own { for_this_page(rules[j], page_num) } else { for_all_pages(rules[j]) })
            ==> (#[trigger] rules[j]).size is None
}

proof fn lemma_layer_size_is_last<L>(rules: Seq<PageSettingsModel<L>>, k: int, i: int, own: bool, page_num: int)
    requires
        sets_size_last(rules, i, own, page_num),
        i < k <= rules.len(),
    ensures
        layer_size(rules, k, own, page_num) == rules[i].size,
    decreases k,
{
    lemma_layers(rules[k - 1], page_num);
    if k - 1 > i {
        lemma_layer_size_is_last(rules, k - 1, i, own, page_num);
    }
}

proof fn lemma_layer_size_is_none<L>(rules: Seq<PageSettingsModel<L>>, k: int, own: bool, page_num: int)
    requires
        0 <= k <= rules.len(),
        forall|j: int|
            0 <= j < rules.len() && (if own { for_this_page(rules[j], page_num) } else { for_all_pages(rules[j]) })
                ==> (#[trigger] rules[j]).size is None,
    ensures
        layer_size(rules, k, own, page_num) is None,
    decreases k,
{
    if k > 0 {
        lemma_layers(rules[k - 1], page_num);
        lemma_layer_size_is_none(rules, k - 1, own, page_num);
    }
}

/// Whether the `i`-th of some rules is the one whose size counts on a page: the last
/// rule for the page that sets one or, where there is none, the last for all pages.
pub open spec fn size_in_effect<L>(rules: Seq<PageSettingsModel<L>>, i: int, page_num: int) -> bool {
    ||| sets_size_last(rules, i, true, page_num)
    ||| {
        &&& sets_size_last(rules, i, false, page_num)
        &&& forall|j: int| 0 <= j < rules.len() && for_this_page(rules[j], page_num) ==> (#[trigger] rules[j]).size is None
    }
}

proof fn lemma_size_in_effect<L>(rules: Seq<PageSettingsModel<L>>, i: int, page_num: int)
    requires
        size_in_effect(rules, i, page_num),
    ensures
        css_size(rules, page_num) == rules[i].size,
{
    let n = rules.len() as int;
    if sets_size_last(rules, i, true, page_num) {
        lemma_layer_size_is_last(rules, n, i, true, page_num);
    } else {
        lemma_layer_size_is_none(rules, n, true, page_num);
        lemma_layer_size_is_last(rules, n, i, false, page_num);
    }
}

/// A paper size that a rule in effect names, with or without an orientation, is the
/// size of the page: that of the named paper in any case of its letters, and A4 for a
/// name that is not known.
pub proof fn law_named_paper_is_the_page_size<L>(
    rules: Seq<PageSettingsModel<L>>,
    i: int,
    name: Seq<char>,
    page_num: int,
    config: Config<L>,
)
    requires
        size_in_effect(rules, i, page_num),
        !config.overrides.page_size,
        rules[i].size == Some(PageSizeModel::<L>::Keyword(name))
            || (name != "auto"@ && (rules[i].size == Some(PageSizeModel::<L>::KeywordWithOrientation(name, true))
            || rules[i].size == Some(PageSizeModel::<L>::KeywordWithOrientation(name, false)))),
    ensures
        ({
            let size = resolved_size(css_size(rules, page_num), config);
            &&& lower(name) == "a3"@ ==> size == config.paper.a3
            &&& lower(name) == "letter"@ ==> size == config.paper.letter
            &&& lower(name) != "a3"@ && lower(name) != "letter"@ ==> size == config.paper.a4
        }),
{
    lemma_size_in_effect(rules, i, page_num);
    lemma_paper_words();
}

proof fn lemma_paper_words()
    ensures
        lower("A4"@) == "a4"@,
        lower("A3"@) == "a3"@,
        lower("LETTER"@) == "letter"@,
        "a4"@ != "a3"@,
        "a4"@ != "letter"@,
        "a3"@ != "letter"@,
{
    reveal_strlit("A4");
    reveal_strlit("A3");
    reveal_strlit("LETTER");
    reveal_strlit("a4");
    reveal_strlit("a3");
    reveal_strlit("letter");
    assert(lower("A4"@) =~= "a4"@);
    assert(lower("A3"@) =~= "a3"@);
    assert(lower("LETTER"@) =~= "letter"@);
    assert("a4"@[1] != "a3"@[1]);
}

/// An orientation does not change the paper: a rule in effect gives the same page size
/// with either orientation as with the paper name alone, and the orientation is the
/// one that is written.
pub proof fn law_orientation_keeps_the_paper<L>(
    rules: Seq<PageSettingsModel<L>>,
    i: int,
    name: Seq<char>,
    landscape: bool,
    page_num: int,
    config: Config<L>,
)
    requires
        size_in_effect(rules, i, page_num),
        name != "auto"@,
    ensures
        ({
            let alone = rules.update(i, PageSettingsModel { size: Some(PageSizeModel::Keyword(name)), ..rules[i] });
            let turned = rules.update(
                i,
                PageSettingsModel { size: Some(PageSizeModel::KeywordWithOrientation(name, landscape)), ..rules[i] },
            );
            &&& resolved_size(css_size(turned, page_num), config) == resolved_size(css_size(alone, page_num), config)
            &&& !config.overrides.landscape ==> resolved_landscape(css_size(turned, page_num), config) == landscape
            &&& resolved_landscape(css_size(alone, page_num), config) == config.landscape
            &&& resolved_margin(turned, page_num, config) == resolved_margin(alone, page_num, config)
        }),
{
    let n = rules.len() as int;
    let alone = rules.update(i, PageSettingsModel { size: Some(PageSizeModel::Keyword(name)), ..rules[i] });
    let turned = rules.update(
        i,
        PageSettingsModel { size: Some(PageSizeModel::KeywordWithOrientation(name, landscape)), ..rules[i] },
    );
    assert(size_in_effect(alone, i, page_num));
    assert(size_in_effect(turned, i, page_num));
    lemma_size_in_effect(alone, i, page_num);
    lemma_size_in_effect(turned, i, page_num);
    lemma_margin_ignores_sizes(alone, turned, n, true, page_num);
    lemma_margin_ignores_sizes(alone, turned, n, false, page_num);
}

proof fn lemma_margin_ignores_sizes<L>(
    a: Seq<PageSettingsModel<L>>,
    b: Seq<PageSettingsModel<L>>,
    k: int,
    matched: bool,
    page_num: int,
)
    requires
        0 <= k <= a.len() == b.len(),
        forall|j: int|
            0 <= j < a.len() ==> (#[trigger] a[j]).page_selector == b[j].page_selector && a[j].margin == b[j].margin,
    ensures
        layer_margin(a, k, matched, page_num) == layer_margin(b, k, matched, page_num),
    decreases k,
{
    if k > 0 {
        lemma_margin_ignores_sizes(a, b, k - 1, matched, page_num);
        assert(a[k - 1].page_selector == b[k - 1].page_selector);
    }
}

/// Lengths in a rule in effect are the width and the height of the page, which is then
/// upright; `landscape` or `portrait` alone turn the configured page; `auto`, and page
/// rules without a size, leave the configured page as it is.
pub proof fn law_sizes_without_a_paper_name<L>(
    rules: Seq<PageSettingsModel<L>>,
    i: int,
    width: L,
    height: L,
    page_num: int,
    config: Config<L>,
)
    requires
        !config.overrides.page_size,
        !config.overrides.landscape,
    ensures
        ({
            let size = resolved_size(css_size(rules, page_num), config);
            let landscape = resolved_landscape(css_size(rules, page_num), config);
            &&& size_in_effect(rules, i, page_num) && rules[i].size == Some(PageSizeModel::Custom(width, height))
                ==> size == (PageSize { width, height }) && !landscape
            &&& size_in_effect(rules, i, page_num) && rules[i].size == Some(
                PageSizeModel::<L>::KeywordWithOrientation("auto"@, true),
            ) ==> size == config.page_size && landscape
            &&& size_in_effect(rules, i, page_num) && rules[i].size == Some(
                PageSizeModel::<L>::KeywordWithOrientation("auto"@, false),
            ) ==> size == config.page_size && !landscape
            &&& size_in_effect(rules, i, page_num) && rules[i].size == Some(PageSizeModel::<L>::Auto) ==> size
                == config.page_size && landscape == config.landscape
            &&& (forall|j: int|
                0 <= j < rules.len() && (for_all_pages(rules[j]) || for_this_page(rules[j], page_num)) ==> (
                #[trigger] rules[j]).size is None) ==> size == config.page_size && landscape == config.landscape
        }),
{
    let n = rules.len() as int;
    if size_in_effect(rules, i, page_num) {
        lemma_size_in_effect(rules, i, page_num);
    }
    if forall|j: int|
        0 <= j < rules.len() && (for_all_pages(rules[j]) || for_this_page(rules[j], page_num)) ==> (
        #[trigger] rules[j]).size is None {
        lemma_layer_size_is_none(rules, n, true, page_num);
        lemma_layer_size_is_none(rules, n, false, page_num);
    }
}

/// A side of a page.
pub ghost enum Side {
    Top,
    Right,
    Bottom,
    Left,
}

/// What some margins set on a side.
pub open spec fn set_on<L>(margin: PartialMargin<L>, side: Side) -> Option<L> {
    match side {
        Side::Top => margin.top,
        Side::Right => margin.right,
        Side::Bottom => margin.bottom,
        Side::Left => margin.left,
    }
}

/// The margin on a side.
pub open spec fn on_side<L>(margin: Margin<L>, side: Side) -> L {
    match side {
        Side::Top => margin.top,
        Side::Right => margin.right,
        Side::Bottom => margin.bottom,
        Side::Left => margin.left,
    }
}

/// Whether no rule from the `k`-th on sets a side, among those for the page or those
/// for all pages.
pub open spec fn unset_from<L>(rules: Seq<PageSettingsModel<L>>, k: int, own: bool, page_num: int, side: Side) -> bool {
    forall|j: int|
        k <= j < rules.len() && (if own { for_this_page(rules[j], page_num) } else { for_all_pages(rules[j]) })
            ==> set_on((#[trigger] rules[j]).margin, side) is None
}

proof fn lemma_layer_margin<L>(rules: Seq<PageSettingsModel<L>>, k: int, i: int, own: bool, page_num: int, side: Side)
    requires
        0 <= i <= k <= rules.len(),
        unset_from(rules, i, own, page_num, side),
        i > 0 ==> (if own { for_this_page(rules[i - 1], page_num) } else { for_all_pages(rules[i - 1]) })
            && set_on(rules[i - 1].margin, side) is Some,
    ensures
        set_on(layer_margin(rules, k, own, page_num), side) == if i > 0 {
            set_on(rules[i - 1].margin, side)
        } else {
            None
        },
    decreases k,
{
    if k > 0 {
        lemma_layers(rules[k - 1], page_num);
        if k > i {
            lemma_layer_margin(rules, k - 1, i, own, page_num, side);
        }
    }
}

/// Each side of a page has the margin that the last rule for the page that sets this
/// side gives it; where none does, the one of the last rule for all pages that sets
/// it; and where none does either, the configured one.
pub proof fn law_each_side_is_set_last<L>(
    rules: Seq<PageSettingsModel<L>>,
    i: int,
    page_num: int,
    config: Config<L>,
    side: Side,
)
    requires
        !config.overrides.margin,
    ensures
        ({
            let margin = on_side(resolved_margin(rules, page_num, config), side);
            &&& 0 <= i < rules.len() && for_this_page(rules[i], page_num) && set_on(rules[i].margin, side) is Some
                && unset_from(rules, i + 1, true, page_num, side) ==> Some(margin) == set_on(rules[i].margin, side)
            &&& 0 <= i < rules.len() && for_all_pages(rules[i]) && set_on(rules[i].margin, side) is Some
                && unset_from(rules, i + 1, false, page_num, side) && unset_from(rules, 0, true, page_num, side)
                ==> Some(margin) == set_on(rules[i].margin, side)
            &&& unset_from(rules, 0, false, page_num, side) && unset_from(rules, 0, true, page_num, side)
                ==> margin == on_side(config.margin, side)
        }),
{
    let n = rules.len() as int;
    if 0 <= i < rules.len() {
        if for_this_page(rules[i], page_num) && set_on(rules[i].margin, side) is Some && unset_from(
            rules,
            i + 1,
            true,
            page_num,
            side,
        ) {
            lemma_layer_margin(rules, n, i + 1, true, page_num, side);
        }
        if for_all_pages(rules[i]) && set_on(rules[i].margin, side) is Some && unset_from(
            rules,
            i + 1,
            false,
            page_num,
            side,
        ) {
            lemma_layer_margin(rules, n, i + 1, false, page_num, side);
        }
    }
    if unset_from(rules, 0, true, page_num, side) {
        lemma_layer_margin(rules, n, 0, true, page_num, side);
    }
    if unset_from(rules, 0, false, page_num, side) {
        lemma_layer_margin(rules, n, 0, false, page_num, side);
    }
}

} // verus!
