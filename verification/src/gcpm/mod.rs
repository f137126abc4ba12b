//! CSS generated content for paged media: what a style sheet says about running
//! elements, margin boxes, counters, named strings, page settings and bookmarks.

pub mod bookmark;
pub mod content;
pub mod counter;
pub mod cursor;
pub mod edits;
pub mod escape;
pub mod first_letter;
pub mod grammar;
pub mod margin_box;
pub mod markup;
pub mod numeral;
pub mod page_reading;
pub mod page_rule_reading;
pub mod page_settings;
pub mod parser;
pub mod reading;
pub mod rule_reading;
pub mod rules;
pub mod running;
pub mod sheet;
pub mod sheet_reading;
pub mod showing;
pub mod spelling;
pub mod target_ref;
pub mod token;
pub mod values;

use crate::gcpm::bookmark::{BookmarkMapping, BookmarkModel};
use crate::gcpm::margin_box::MarginBoxPosition;
use crate::model::{group_views, opt_view, views};
use vstd::prelude::*;

verus! {

broadcast use group_views;

/// A simple selector: a class, an id or a tag name.
#[derive(Debug, Clone, PartialEq, Eq)]
pub enum ParsedSelector {
    Class(String),
    Id(String),
    Tag(String),
}

/// The model of [`ParsedSelector`].
pub ghost enum SelectorModel {
    Class(Seq<char>),
    Id(Seq<char>),
    Tag(Seq<char>),
}

impl View for ParsedSelector {
    type V = SelectorModel;

    open spec fn view(&self) -> SelectorModel {
        match self {
            ParsedSelector::Class(s) => SelectorModel::Class(s@),
            ParsedSelector::Id(s) => SelectorModel::Id(s@),
            ParsedSelector::Tag(s) => SelectorModel::Tag(s@),
        }
    }
}

impl ParsedSelector {
    /// A selector equal to this one.
    pub fn duplicate(&self) -> (s: ParsedSelector)
        ensures
            s@ == self@,
    {
        match self {
            ParsedSelector::Class(s) => ParsedSelector::Class(s.clone()),
            ParsedSelector::Id(s) => ParsedSelector::Id(s.clone()),
            ParsedSelector::Tag(s) => ParsedSelector::Tag(s.clone()),
        }
    }
}

/// `position: running(<name>)` on the elements that a selector picks.
#[derive(Debug, Clone, PartialEq, Eq)]
pub struct RunningMapping {
    pub parsed: ParsedSelector,
    pub running_name: String,
}

/// The model of [`RunningMapping`].
pub ghost struct RunningModel {
    pub parsed: SelectorModel,
    pub running_name: Seq<char>,
}

impl View for RunningMapping {
    type V = RunningModel;

    open spec fn view(&self) -> RunningModel {
        RunningModel { parsed: self.parsed@, running_name: self.running_name@ }
    }
}

/// Which value of a named string a page shows.
#[derive(Debug, Clone, Copy, PartialEq, Eq, Structural)]
pub enum StringPolicy {
    /// The value in effect at the start of the page.
    Start,
    /// The first value set on the page, or else the one at its start.
    First,
    /// The last value set on the page, or else the one at its start.
    Last,
    /// Nothing on a page that sets the string, and the value at the start elsewhere.
    FirstExcept,
}

/// Which instance of a running element a page shows.
#[derive(Debug, Clone, Copy, PartialEq, Eq, Structural)]
pub enum ElementPolicy {
    First,
    Start,
    Last,
    FirstExcept,
}

impl Default for ElementPolicy {
    fn default() -> (p: Self)
        ensures
            p == ElementPolicy::First,
    {
        ElementPolicy::First
    }
}

/// One piece of the value of `string-set`.
#[derive(Debug, Clone, PartialEq, Eq)]
pub enum StringSetValue {
    ContentText,
    ContentBefore,
    ContentAfter,
    Attr(String),
    Literal(String),
}

/// The model of [`StringSetValue`].
pub ghost enum SetValueModel {
    ContentText,
    ContentBefore,
    ContentAfter,
    Attr(Seq<char>),
    Literal(Seq<char>),
}

impl View for StringSetValue {
    type V = SetValueModel;

    open spec fn view(&self) -> SetValueModel {
        match self {
            StringSetValue::ContentText => SetValueModel::ContentText,
            StringSetValue::ContentBefore => SetValueModel::ContentBefore,
            StringSetValue::ContentAfter => SetValueModel::ContentAfter,
            StringSetValue::Attr(s) => SetValueModel::Attr(s@),
            StringSetValue::Literal(s) => SetValueModel::Literal(s@),
        }
    }
}

/// `string-set: <name> <value>+` on the elements that a selector picks.
#[derive(Debug, Clone, PartialEq, Eq)]
pub struct StringSetMapping {
    pub parsed: ParsedSelector,
    pub name: String,
    pub values: Vec<StringSetValue>,
}

/// The model of [`StringSetMapping`].
pub ghost struct StringSetModel {
    pub parsed: SelectorModel,
    pub name: Seq<char>,
    pub values: Seq<SetValueModel>,
}

impl View for StringSetMapping {
    type V = StringSetModel;

    open spec fn view(&self) -> StringSetModel {
        StringSetModel {
            parsed: self.parsed@,
            name: self.name@,
            values: views(self.values@),
        }
    }
}

/// The units that a length in a page rule can have.
#[derive(Debug, Clone, Copy, PartialEq, Eq, Structural)]
pub enum LengthUnit {
    Mm,
    Cm,
    In,
    Pt,
    Px,
}

/// A length as it is written in a style sheet: the bits of an IEEE 754 single and
/// the unit. A bare `0` is a length in points.
#[derive(Debug, Clone, Copy, PartialEq, Eq, Structural)]
pub struct CssLength {
    pub bits: u32,
    pub unit: LengthUnit,
}

/// The value of `size` in a page rule, over lengths of type `L`.
#[derive(Debug, Clone, PartialEq)]
pub enum PageSizeDecl<L> {
    /// A page-size keyword such as `A4`.
    Keyword(String),
    /// A keyword, `auto` among them, and whether the page is in landscape.
    KeywordWithOrientation(String, bool),
    /// Width and height.
    Custom(L, L),
    Auto,
}

/// The model of [`PageSizeDecl`].
pub ghost enum PageSizeModel<L> {
    Keyword(Seq<char>),
    KeywordWithOrientation(Seq<char>, bool),
    Custom(L, L),
    Auto,
}

impl<L> View for PageSizeDecl<L> {
    type V = PageSizeModel<L>;

    open spec fn view(&self) -> PageSizeModel<L> {
        match self {
            PageSizeDecl::Keyword(s) => PageSizeModel::Keyword(s@),
            PageSizeDecl::KeywordWithOrientation(s, l) => PageSizeModel::KeywordWithOrientation(
                s@,
                *l,
            ),
            PageSizeDecl::Custom(w, h) => PageSizeModel::Custom(*w, *h),
            PageSizeDecl::Auto => PageSizeModel::Auto,
        }
    }
}

/// What one page rule says of the page box.
#[derive(Debug, Clone, PartialEq)]
pub struct PageSettingsRule<L> {
    pub page_selector: Option<String>,
    pub size: Option<PageSizeDecl<L>>,
    pub margin: PartialMargin<L>,
}

/// The model of [`PageSettingsRule`].
pub ghost struct PageSettingsModel<L> {
    pub page_selector: Option<Seq<char>>,
    pub size: Option<PageSizeModel<L>>,
    pub margin: PartialMargin<L>,
}

impl<L> View for PageSettingsRule<L> {
    type V = PageSettingsModel<L>;

    open spec fn view(&self) -> PageSettingsModel<L> {
        PageSettingsModel {
            page_selector: opt_view(self.page_selector),
            size: opt_view(self.size),
            margin: self.margin,
        }
    }
}

/// Margins of which any side may be left open.
#[derive(Debug, Clone, Copy, PartialEq)]
pub struct PartialMargin<L> {
    pub top: Option<L>,
    pub right: Option<L>,
    pub bottom: Option<L>,
    pub left: Option<L>,
}

/// All four margins of a page.
#[derive(Debug, Clone, Copy, PartialEq)]
pub struct Margin<L> {
    pub top: L,
    pub right: L,
    pub bottom: L,
    pub left: L,
}

/// `b` where it is set, and `a` otherwise.
pub open spec fn overlay<L>(a: Option<L>, b: Option<L>) -> Option<L> {
    if b is Some {
        b
    } else {
        a
    }
}

/// The sides of `b` over those of `a`.
pub open spec fn merged<L>(a: PartialMargin<L>, b: PartialMargin<L>) -> PartialMargin<L> {
    PartialMargin {
        top: overlay(a.top, b.top),
        right: overlay(a.right, b.right),
        bottom: overlay(a.bottom, b.bottom),
        left: overlay(a.left, b.left),
    }
}

/// The sides of `p` over those of `m`.
pub open spec fn applied<L>(p: PartialMargin<L>, m: Margin<L>) -> Margin<L> {
    Margin {
        top: p.top.unwrap_or(m.top),
        right: p.right.unwrap_or(m.right),
        bottom: p.bottom.unwrap_or(m.bottom),
        left: p.left.unwrap_or(m.left),
    }
}

/// Margins with no side set.
pub open spec fn no_margin<L>() -> PartialMargin<L> {
    PartialMargin { top: None, right: None, bottom: None, left: None }
}

impl<L: Copy> PartialMargin<L> {
    /// The same margin on all four sides.
    pub fn from_uniform(v: L) -> (m: Self)
        ensures
            m == (PartialMargin { top: Some(v), right: Some(v), bottom: Some(v), left: Some(v) }),
    {
        Self::from_sides(v, v, v, v)
    }

    /// All four sides, in the order of the `margin` shorthand.
    pub fn from_sides(top: L, right: L, bottom: L, left: L) -> (m: Self)
        ensures
            m == (PartialMargin {
                top: Some(top),
                right: Some(right),
                bottom: Some(bottom),
                left: Some(left),
            }),
    {
        Self { top: Some(top), right: Some(right), bottom: Some(bottom), left: Some(left) }
    }

    /// Whether no side is set.
    pub fn is_empty(&self) -> (b: bool)
        ensures
            b == (*self == no_margin::<L>()),
    {
        self.top.is_none() && self.right.is_none() && self.bottom.is_none() && self.left.is_none()
    }

    /// Replaces the sides of `target` that are set here.
    pub fn apply_to_margin(&self, target: &mut Margin<L>)
        ensures
            *final(target) == applied(*self, *old(target)),
    {
        if let Some(v) = self.top {
            target.top = v;
        }
        if let Some(v) = self.right {
            target.right = v;
        }
        if let Some(v) = self.bottom {
            target.bottom = v;
        }
        if let Some(v) = self.left {
            target.left = v;
        }
    }

    /// Replaces the sides here that are set in `other`.
    pub fn merge(&mut self, other: &PartialMargin<L>)
        ensures
            *final(self) == merged(*old(self), *other),
    {
        if let Some(v) = other.top {
            self.top = Some(v);
        }
        if let Some(v) = other.right {
            self.right = Some(v);
        }
        if let Some(v) = other.bottom {
            self.bottom = Some(v);
        }
        if let Some(v) = other.left {
            self.left = Some(v);
        }
    }
}

impl<L> Default for PartialMargin<L> {
    fn default() -> (m: Self)
        ensures
            m == no_margin::<L>(),
    {
        PartialMargin { top: None, right: None, bottom: None, left: None }
    }
}

/// One operation of `counter-reset`, `counter-increment` or `counter-set`.
#[derive(Debug, Clone, PartialEq, Eq)]
pub enum CounterOp {
    Reset { name: String, value: i32 },
    Increment { name: String, value: i32 },
    SetTo { name: String, value: i32 },
}

/// The model of [`CounterOp`].
pub ghost enum CounterOpModel {
    Reset { name: Seq<char>, value: i32 },
    Increment { name: Seq<char>, value: i32 },
    SetTo { name: Seq<char>, value: i32 },
}

impl View for CounterOp {
    type V = CounterOpModel;

    open spec fn view(&self) -> CounterOpModel {
        match self {
            CounterOp::Reset { name, value } => CounterOpModel::Reset {
                name: name@,
                value: *value,
            },
            CounterOp::Increment { name, value } => CounterOpModel::Increment {
                name: name@,
                value: *value,
            },
            CounterOp::SetTo { name, value } => CounterOpModel::SetTo { name: name@, value: *value },
        }
    }
}

impl CounterOp {
    /// An operation equal to this one.
    pub fn duplicate(&self) -> (r: CounterOp)
        ensures
            r@ == self@,
    {
        match self {
            CounterOp::Reset { name, value } => CounterOp::Reset { name: name.clone(), value: *value },
            CounterOp::Increment { name, value } => CounterOp::Increment {
                name: name.clone(),
                value: *value,
            },
            CounterOp::SetTo { name, value } => CounterOp::SetTo { name: name.clone(), value: *value },
        }
    }
}

/// The counter operations on the elements that a selector picks.
#[derive(Debug, Clone, PartialEq, Eq)]
pub struct CounterMapping {
    pub parsed: ParsedSelector,
    pub ops: Vec<CounterOp>,
}

/// The model of [`CounterMapping`].
pub ghost struct CounterMappingModel {
    pub parsed: SelectorModel,
    pub ops: Seq<CounterOpModel>,
}

impl View for CounterMapping {
    type V = CounterMappingModel;

    open spec fn view(&self) -> CounterMappingModel {
        CounterMappingModel { parsed: self.parsed@, ops: views(self.ops@) }
    }
}

/// The pseudo-elements that can have generated content.
#[derive(Debug, Clone, Copy, PartialEq, Eq, Structural)]
pub enum PseudoElement {
    Before,
    After,
}

/// Generated content that depends on the element it is generated for.
#[derive(Debug, Clone, PartialEq)]
pub struct ContentCounterMapping {
    pub parsed: ParsedSelector,
    pub pseudo: PseudoElement,
    pub content: Vec<ContentItem>,
}

/// The model of [`ContentCounterMapping`].
pub ghost struct ContentCounterModel {
    pub parsed: SelectorModel,
    pub pseudo: PseudoElement,
    pub content: Seq<ContentModel>,
}

impl View for ContentCounterMapping {
    type V = ContentCounterModel;

    open spec fn view(&self) -> ContentCounterModel {
        ContentCounterModel {
            parsed: self.parsed@,
            pseudo: self.pseudo,
            content: views(self.content@),
        }
    }
}

/// Generated content that is the same text for every element: the joined strings
/// of a `content` list of several string literals.
#[derive(Debug, Clone, PartialEq, Eq)]
pub struct StaticContentMapping {
    pub parsed: ParsedSelector,
    pub pseudo: PseudoElement,
    pub text: String,
}

/// The model of [`StaticContentMapping`].
pub ghost struct StaticContentModel {
    pub parsed: SelectorModel,
    pub pseudo: PseudoElement,
    pub text: Seq<char>,
}

impl View for StaticContentMapping {
    type V = StaticContentModel;

    open spec fn view(&self) -> StaticContentModel {
        StaticContentModel { parsed: self.parsed@, pseudo: self.pseudo, text: self.text@ }
    }
}

/// The fill of a `leader()`.
#[derive(Debug, Clone, PartialEq, Eq)]
pub enum LeaderStyle {
    Dotted,
    Solid,
    Space,
    Custom(String),
}

/// The model of [`LeaderStyle`].
pub ghost enum LeaderModel {
    Dotted,
    Solid,
    Space,
    Custom(Seq<char>),
}

impl View for LeaderStyle {
    type V = LeaderModel;

    open spec fn view(&self) -> LeaderModel {
        match self {
            LeaderStyle::Dotted => LeaderModel::Dotted,
            LeaderStyle::Solid => LeaderModel::Solid,
            LeaderStyle::Space => LeaderModel::Space,
            LeaderStyle::Custom(s) => LeaderModel::Custom(s@),
        }
    }
}

/// The text that a leader repeats: a full stop, a low line, a no-break space, or
/// the author's own.
pub open spec fn leader_text(style: LeaderModel) -> Seq<char> {
    match style {
        LeaderModel::Dotted => seq!['.'],
        LeaderModel::Solid => seq!['_'],
        LeaderModel::Space => seq!['\u{a0}'],
        LeaderModel::Custom(s) => s,
    }
}

impl LeaderStyle {
    /// The text that the leader repeats.
    pub fn leader_char(&self) -> (s: &str)
        ensures
            s@ == leader_text(self@),
    {
        proof {
            reveal_strlit(".");
            reveal_strlit("_");
            reveal_strlit("\u{a0}");
        }
        match self {
            LeaderStyle::Dotted => ".",
            LeaderStyle::Solid => "_",
            LeaderStyle::Space => "\u{a0}",
            LeaderStyle::Custom(s) => s.as_str(),
        }
    }

    /// A style equal to this one.
    pub fn duplicate(&self) -> (s: LeaderStyle)
        ensures
            s@ == self@,
    {
        match self {
            LeaderStyle::Dotted => LeaderStyle::Dotted,
            LeaderStyle::Solid => LeaderStyle::Solid,
            LeaderStyle::Space => LeaderStyle::Space,
            LeaderStyle::Custom(s) => LeaderStyle::Custom(s.clone()),
        }
    }
}

/// Where a `target-*` function takes its link from.
#[derive(Debug, Clone, PartialEq, Eq)]
pub enum TargetUrl {
    /// The value of an attribute of the element, by its lower-case name.
    Attr(String),
    /// A link written in the style sheet.
    Literal(String),
}

/// The model of [`TargetUrl`].
pub ghost enum TargetUrlModel {
    Attr(Seq<char>),
    Literal(Seq<char>),
}

impl View for TargetUrl {
    type V = TargetUrlModel;

    open spec fn view(&self) -> TargetUrlModel {
        match self {
            TargetUrl::Attr(s) => TargetUrlModel::Attr(s@),
            TargetUrl::Literal(s) => TargetUrlModel::Literal(s@),
        }
    }
}

/// Which text of its target `target-text()` takes.
#[derive(Debug, Clone, Copy, PartialEq, Eq, Structural)]
pub enum TargetTextKind {
    Content,
    Before,
    After,
    FirstLetter,
}

impl Default for TargetTextKind {
    fn default() -> (k: Self)
        ensures
            k == TargetTextKind::Content,
    {
        TargetTextKind::Content
    }
}

/// One item of a `content` list.
#[derive(Debug, Clone, PartialEq, Eq)]
pub enum ContentItem {
    /// `element(<name>, <policy>)`: a running element.
    Element { name: String, policy: ElementPolicy },
    /// `counter(<name>, <style>)`.
    Counter { name: String, style: CounterStyle },
    /// `counters(<name>, <separator>, <style>)`.
    Counters { name: String, separator: String, style: CounterStyle },
    /// `target-counter(<url>, <name>, <style>)`.
    TargetCounter { url: TargetUrl, counter_name: String, style: CounterStyle },
    /// `target-counters(<url>, <name>, <separator>, <style>)`.
    TargetCounters { url: TargetUrl, counter_name: String, separator: String, style: CounterStyle },
    /// `target-text(<url>, <kind>)`.
    TargetText { url: TargetUrl, kind: TargetTextKind },
    /// A string literal.
    String(String),
    /// `string(<name>, <policy>)`: a named string.
    StringRef { name: String, policy: StringPolicy },
    ContentText,
    ContentBefore,
    ContentAfter,
    /// `attr(<name>)`.
    Attr(String),
    /// `leader(<style>)`.
    Leader { style: LeaderStyle },
}

/// The model of [`ContentItem`].
pub ghost enum ContentModel {
    Element { name: Seq<char>, policy: ElementPolicy },
    Counter { name: Seq<char>, style: CounterStyle },
    Counters { name: Seq<char>, separator: Seq<char>, style: CounterStyle },
    TargetCounter { url: TargetUrlModel, counter_name: Seq<char>, style: CounterStyle },
    TargetCounters {
        url: TargetUrlModel,
        counter_name: Seq<char>,
        separator: Seq<char>,
        style: CounterStyle,
    },
    TargetText { url: TargetUrlModel, kind: TargetTextKind },
    String(Seq<char>),
    StringRef { name: Seq<char>, policy: StringPolicy },
    ContentText,
    ContentBefore,
    ContentAfter,
    Attr(Seq<char>),
    Leader { style: LeaderModel },
}

impl View for ContentItem {
    type V = ContentModel;

    open spec fn view(&self) -> ContentModel {
        match self {
            ContentItem::Element { name, policy } => ContentModel::Element {
                name: name@,
                policy: *policy,
            },
            ContentItem::Counter { name, style } => ContentModel::Counter {
                name: name@,
                style: *style,
            },
            ContentItem::Counters { name, separator, style } => ContentModel::Counters {
                name: name@,
                separator: separator@,
                style: *style,
            },
            ContentItem::TargetCounter { url, counter_name, style } => {
                ContentModel::TargetCounter {
                    url: url@,
                    counter_name: counter_name@,
                    style: *style,
                }
            },
            ContentItem::TargetCounters { url, counter_name, separator, style } => {
                ContentModel::TargetCounters {
                    url: url@,
                    counter_name: counter_name@,
                    separator: separator@,
                    style: *style,
                }
            },
            ContentItem::TargetText { url, kind } => ContentModel::TargetText {
                url: url@,
                kind: *kind,
            },
            ContentItem::String(s) => ContentModel::String(s@),
            ContentItem::StringRef { name, policy } => ContentModel::StringRef {
                name: name@,
                policy: *policy,
            },
            ContentItem::ContentText => ContentModel::ContentText,
            ContentItem::ContentBefore => ContentModel::ContentBefore,
            ContentItem::ContentAfter => ContentModel::ContentAfter,
            ContentItem::Attr(s) => ContentModel::Attr(s@),
            ContentItem::Leader { style } => ContentModel::Leader { style: style@ },
        }
    }
}

/// How a counter value is written.
#[derive(Debug, Clone, Copy, PartialEq, Eq, Hash, Structural)]
pub enum CounterStyle {
    Decimal,
    UpperRoman,
    LowerRoman,
    UpperAlpha,
    LowerAlpha,
}

impl Default for CounterStyle {
    fn default() -> (s: Self)
        ensures
            s == CounterStyle::Decimal,
    {
        CounterStyle::Decimal
    }
}

/// A margin box of a page rule.
#[derive(Debug, Clone, PartialEq)]
pub struct MarginBoxRule {
    pub page_selector: Option<String>,
    pub position: MarginBoxPosition,
    pub content: Vec<ContentItem>,
    /// The other declarations of the box, joined with `; `.
    pub declarations: String,
}

/// The model of [`MarginBoxRule`].
pub ghost struct MarginBoxModel {
    pub page_selector: Option<Seq<char>>,
    pub position: MarginBoxPosition,
    pub content: Seq<ContentModel>,
    pub declarations: Seq<char>,
}

impl View for MarginBoxRule {
    type V = MarginBoxModel;

    open spec fn view(&self) -> MarginBoxModel {
        MarginBoxModel {
            page_selector: opt_view(self.page_selector),
            position: self.position,
            content: views(self.content@),
            declarations: self.declarations@,
        }
    }
}

/// Everything that a style sheet says in terms of generated content for paged
/// media, and the style sheet without it.
#[derive(Debug, Clone)]
pub struct GcpmContext {
    pub margin_boxes: Vec<MarginBoxRule>,
    pub running_mappings: Vec<RunningMapping>,
    pub string_set_mappings: Vec<StringSetMapping>,
    pub page_settings: Vec<PageSettingsRule<CssLength>>,
    pub counter_mappings: Vec<CounterMapping>,
    pub content_counter_mappings: Vec<ContentCounterMapping>,
    pub static_content_mappings: Vec<StaticContentMapping>,
    pub bookmark_mappings: Vec<BookmarkMapping>,
    pub cleaned_css: String,
}

/// The model of [`GcpmContext`].
#[verifier::ext_equal]
pub ghost struct GcpmModel {
    pub margin_boxes: Seq<MarginBoxModel>,
    pub running_mappings: Seq<RunningModel>,
    pub string_set_mappings: Seq<StringSetModel>,
    pub page_settings: Seq<PageSettingsModel<CssLength>>,
    pub counter_mappings: Seq<CounterMappingModel>,
    pub content_counter_mappings: Seq<ContentCounterModel>,
    pub static_content_mappings: Seq<StaticContentModel>,
    pub bookmark_mappings: Seq<BookmarkModel>,
    pub cleaned_css: Seq<char>,
}

impl View for GcpmContext {
    type V = GcpmModel;

    open spec fn view(&self) -> GcpmModel {
        GcpmModel {
            margin_boxes: views(self.margin_boxes@),
            running_mappings: views(self.running_mappings@),
            string_set_mappings: views(self.string_set_mappings@),
            page_settings: views(self.page_settings@),
            counter_mappings: views(self.counter_mappings@),
            content_counter_mappings: views(self.content_counter_mappings@),
            static_content_mappings: views(self.static_content_mappings@),
            bookmark_mappings: views(self.bookmark_mappings@),
            cleaned_css: self.cleaned_css@,
        }
    }
}

/// A context with nothing in it.
pub open spec fn empty_context() -> GcpmModel {
    GcpmModel {
        margin_boxes: Seq::empty(),
        running_mappings: Seq::empty(),
        string_set_mappings: Seq::empty(),
        page_settings: Seq::empty(),
        counter_mappings: Seq::empty(),
        content_counter_mappings: Seq::empty(),
        static_content_mappings: Seq::empty(),
        bookmark_mappings: Seq::empty(),
        cleaned_css: Seq::empty(),
    }
}

/// Two style sheets one after the other, on lines of their own where neither is empty.
pub open spec fn joined_css(a: Seq<char>, b: Seq<char>) -> Seq<char> {
    if b.len() == 0 {
        a
    } else if a.len() == 0 {
        b
    } else {
        a.push('\n') + b
    }
}

/// What two contexts say together, the first before the second.
pub open spec fn extended(a: GcpmModel, b: GcpmModel) -> GcpmModel {
    GcpmModel {
        margin_boxes: a.margin_boxes + b.margin_boxes,
        running_mappings: a.running_mappings + b.running_mappings,
        string_set_mappings: a.string_set_mappings + b.string_set_mappings,
        page_settings: a.page_settings + b.page_settings,
        counter_mappings: a.counter_mappings + b.counter_mappings,
        content_counter_mappings: a.content_counter_mappings + b.content_counter_mappings,
        static_content_mappings: a.static_content_mappings + b.static_content_mappings,
        bookmark_mappings: a.bookmark_mappings + b.bookmark_mappings,
        cleaned_css: joined_css(a.cleaned_css, b.cleaned_css),
    }
}

impl Default for GcpmContext {
    fn default() -> (c: Self)
        ensures
            c@ == empty_context(),
    {
        GcpmContext {
            margin_boxes: Vec::new(),
            running_mappings: Vec::new(),
            string_set_mappings: Vec::new(),
            page_settings: Vec::new(),
            counter_mappings: Vec::new(),
            content_counter_mappings: Vec::new(),
            static_content_mappings: Vec::new(),
            bookmark_mappings: Vec::new(),
            cleaned_css: String::new(),
        }
    }
}

impl GcpmContext {
    /// Whether the style sheet says nothing that takes a layout pass of its own.
    /// Static content, bookmarks and the cleaned style sheet do not count.
    pub fn is_empty(&self) -> (b: bool)
        ensures
            b == (self@.margin_boxes.len() == 0 && self@.running_mappings.len() == 0
                && self@.string_set_mappings.len() == 0 && self@.page_settings.len() == 0
                && self@.counter_mappings.len() == 0 && self@.content_counter_mappings.len() == 0),
    {
        self.margin_boxes.len() == 0 && self.running_mappings.len() == 0
            && self.string_set_mappings.len() == 0 && self.page_settings.len() == 0
            && self.counter_mappings.len() == 0 && self.content_counter_mappings.len() == 0
    }

    /// Appends what another style sheet says.
    pub fn extend_from(&mut self, other: GcpmContext)
        ensures
            final(self)@ == extended(old(self)@, other@),
    {
        let ghost given = other@;
        let mut other = other;
        self.margin_boxes.append(&mut other.margin_boxes);
        self.running_mappings.append(&mut other.running_mappings);
        self.string_set_mappings.append(&mut other.string_set_mappings);
        self.page_settings.append(&mut other.page_settings);
        self.counter_mappings.append(&mut other.counter_mappings);
        self.content_counter_mappings.append(&mut other.content_counter_mappings);
        self.static_content_mappings.append(&mut other.static_content_mappings);
        self.bookmark_mappings.append(&mut other.bookmark_mappings);
        if !other.cleaned_css.as_str().is_empty() {
            if !self.cleaned_css.as_str().is_empty() {
                self.cleaned_css.push('\n');
            }
            self.cleaned_css.append(other.cleaned_css.as_str());
        }
        assert(self@ =~= extended(old(self)@, given));
    }
}

/// Extending by one style sheet and then by another is extending by the two
/// together.
pub proof fn law_extend_is_associative(a: GcpmModel, b: GcpmModel, c: GcpmModel)
    ensures
        extended(extended(a, b), c) == extended(a, extended(b, c)),
{
    assert(extended(extended(a, b), c) =~= extended(a, extended(b, c)));
}

/// The empty context adds nothing, on either side.
pub proof fn law_extend_by_empty(a: GcpmModel)
    ensures
        extended(a, empty_context()) == a,
        extended(empty_context(), a) == a,
{
    assert(extended(a, empty_context()) =~= a);
    assert(extended(empty_context(), a) =~= a);
}

/// Applying two layers of margins merged is applying one after the other: the later wins
/// on every side that it sets.
pub proof fn law_merge_layers<L>(a: PartialMargin<L>, b: PartialMargin<L>, m: Margin<L>)
    ensures
        applied(merged(a, b), m) == applied(b, applied(a, m)),
{
}

/// Two style sheets stand on lines of their own, the first before the second, and a style
/// sheet that is empty takes no line.
pub proof fn law_style_sheets_stand_on_their_lines(a: GcpmModel, b: GcpmModel)
    ensures
        ({
            let (first, second, both) = (a.cleaned_css, b.cleaned_css, extended(a, b).cleaned_css);
            &&& first.len() > 0 && second.len() > 0 ==> {
                &&& both.len() == first.len() + 1 + second.len()
                &&& both.take(first.len() as int) == first
                &&& both[first.len() as int] == '\n'
                &&& both.skip(first.len() as int + 1) == second
            }
            &&& first.len() == 0 ==> both == second
            &&& second.len() == 0 ==> both == first
        }),
{
    let (first, second, both) = (a.cleaned_css, b.cleaned_css, extended(a, b).cleaned_css);
    if first.len() > 0 && second.len() > 0 {
        assert(both.take(first.len() as int) =~= first);
        assert(both.skip(first.len() as int + 1) =~= second);
    } else if second.len() == 0 && first.len() == 0 {
        assert(first =~= second);
    }
}

} // verus!
