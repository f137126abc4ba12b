//! Resolves the content of margin boxes to plain text and to HTML.

use crate::gcpm::escape::{
    escaped_text, law_escaping_is_piecewise, lemma_read_char, push_escaped_html_text, read_html,
    text_char,
};
use crate::gcpm::numeral::{format_counter, formatted, lemma_formatted_is_plain, plain_char};
use crate::gcpm::running::{RunningElementStore, StoreModel};
use crate::gcpm::target_ref::{
    resolve_target_counter, resolve_target_counters, resolve_target_text, target_counter,
    target_counters, target_text, AnchorEntry, AnchorMap,
};
use crate::gcpm::{
    leader_text, ContentItem, ContentModel, CounterStyle, ElementPolicy, LeaderStyle, StringPolicy,
    TargetUrl, TargetUrlModel,
};
use crate::model::{opt_view, views};
use crate::name_map::NameMap;
use crate::pagination::{PageRunningState, StringSetPageState, StringStateModel};
use vstd::prelude::*;

verus! {

/// About how many characters a leader is filled with.
pub const LEADER_FILL_REPEAT: usize = 400;

/// `o` where it is set, and `d` otherwise.
pub open spec fn or_else<T>(o: Option<T>, d: Option<T>) -> Option<T> {
    if o is Some {
        o
    } else {
        d
    }
}

/// The text of an optional value.
pub open spec fn text_or_empty(o: Option<Seq<char>>) -> Seq<char> {
    match o {
        Some(s) => s,
        None => Seq::empty(),
    }
}

/// The value of a named string that a policy picks on a page.
pub open spec fn string_for(state: StringStateModel, policy: StringPolicy) -> Seq<char> {
    match policy {
        StringPolicy::Start => text_or_empty(state.start),
        StringPolicy::First => text_or_empty(or_else(state.first, state.start)),
        StringPolicy::Last => text_or_empty(
            or_else(state.last, or_else(state.first, state.start)),
        ),
        StringPolicy::FirstExcept => if state.first is Some {
            Seq::empty()
        } else {
            text_or_empty(state.start)
        },
    }
}

/// The running states of the pages, by element name.
pub type RunningStates = Seq<NameMap<PageRunningState>>;

/// The instances of an element on a page, where it has any state there.
pub open spec fn instances_on(states: RunningStates, page: int, name: Seq<char>) -> Option<
    Seq<usize>,
> {
    if 0 <= page < states.len() && states[page]@.dom().contains(name) {
        Some(states[page]@[name].instance_ids@)
    } else {
        None
    }
}

/// The last instance of an element on the pages before `page`, from the latest page
/// that has one.
pub open spec fn last_before(states: RunningStates, page: int, name: Seq<char>) -> Option<usize>
    decreases page,
{
    if page <= 0 {
        None
    } else {
        match instances_on(states, page - 1, name) {
            Some(ids) => if ids.len() > 0 {
                Some(ids.last())
            } else {
                last_before(states, page - 1, name)
            },
            None => last_before(states, page - 1, name),
        }
    }
}

/// The instance of a running element that a policy picks on a page. Where the page has
/// none to pick, it is the one in effect at its start; `first-except` picks nothing on
/// a page that has the element.
pub open spec fn instance_for(
    states: RunningStates,
    page: int,
    name: Seq<char>,
    policy: ElementPolicy,
) -> Option<usize> {
    let here = instances_on(states, page, name);
    match policy {
        ElementPolicy::First => match here {
            Some(ids) => if ids.len() > 0 {
                Some(ids[0])
            } else {
                last_before(states, page, name)
            },
            None => last_before(states, page, name),
        },
        ElementPolicy::Last => match here {
            Some(ids) => if ids.len() > 0 {
                Some(ids.last())
            } else {
                last_before(states, page, name)
            },
            None => last_before(states, page, name),
        },
        ElementPolicy::Start => last_before(states, page, name),
        ElementPolicy::FirstExcept => if here is Some {
            None
        } else {
            last_before(states, page, name)
        },
    }
}

/// The markup of the instance that a policy picks.
pub open spec fn element_for(
    store: StoreModel,
    states: RunningStates,
    page: int,
    name: Seq<char>,
    policy: ElementPolicy,
) -> Option<Seq<char>> {
    match instance_for(states, page, name, policy) {
        Some(id) => if id < store.instances.len() {
            Some(store.instances[id as int].1)
        } else {
            None
        },
        None => None,
    }
}

/// What the items of a margin box are resolved against.
pub ghost struct Scene {
    pub strings: Map<Seq<char>, StringSetPageState>,
    pub page: usize,
    pub total_pages: usize,
    pub counters: Map<Seq<char>, i32>,
    pub anchors: Option<Map<Seq<char>, AnchorEntry>>,
    pub href: Option<Seq<char>>,
}

/// What the running elements of a margin box are resolved against.
pub ghost struct Stage {
    pub store: StoreModel,
    pub states: RunningStates,
    pub page_idx: usize,
}

/// The value of a counter where it is known: the page, the number of pages, or one that
/// the style sheet keeps.
pub open spec fn counter_value(scene: Scene, name: Seq<char>) -> Option<i32> {
    if name == "page"@ {
        Some(scene.page as i32)
    } else if name == "pages"@ {
        Some(scene.total_pages as i32)
    } else if scene.counters.dom().contains(name) {
        Some(scene.counters[name])
    } else {
        None
    }
}

/// The value that a counter shows: one that is not known shows 0.
pub open spec fn shown_value(scene: Scene, name: Seq<char>) -> i32 {
    match counter_value(scene, name) {
        Some(v) => v,
        None => 0,
    }
}

/// The link of a `target-*` function: one written in the style sheet, or that of the
/// element where the attribute is `href`. Other attributes are not known here.
pub open spec fn link_of(scene: Scene, url: TargetUrlModel) -> Option<Seq<char>> {
    match url {
        TargetUrlModel::Literal(s) => Some(s),
        TargetUrlModel::Attr(a) => if a == "href"@ {
            Some(text_or_empty(scene.href))
        } else {
            None
        },
    }
}

/// The text of an item, not escaped. Running elements have no text; neither has what
/// takes an element to refer to, nor a reference before targets are known.
pub open spec fn item_text(scene: Scene, item: ContentModel) -> Seq<char> {
    match item {
        ContentModel::String(s) => s,
        ContentModel::Counter { name, style } => formatted(shown_value(scene, name), style),
        ContentModel::Counters { name, style, .. } => formatted(shown_value(scene, name), style),
        ContentModel::StringRef { name, policy } => if scene.strings.dom().contains(name) {
            string_for(scene.strings[name]@, policy)
        } else {
            Seq::empty()
        },
        ContentModel::TargetCounter { url, counter_name, style } => {
            match (link_of(scene, url), scene.anchors) {
                (Some(href), Some(map)) => target_counter(href, counter_name, style, map),
                _ => Seq::empty(),
            }
        },
        ContentModel::TargetCounters { url, counter_name, separator, style } => {
            match (link_of(scene, url), scene.anchors) {
                (Some(href), Some(map)) => target_counters(
                    href,
                    counter_name,
                    separator,
                    style,
                    map,
                ),
                _ => Seq::empty(),
            }
        },
        ContentModel::TargetText { url, kind } => match (link_of(scene, url), scene.anchors) {
            (Some(href), Some(map)) => target_text(href, kind, map),
            _ => Seq::empty(),
        },
        _ => Seq::empty(),
    }
}

/// The texts of the first `k` items, joined.
pub open spec fn items_text(scene: Scene, items: Seq<ContentModel>, k: int) -> Seq<char>
    decreases k,
{
    if k <= 0 {
        Seq::empty()
    } else {
        items_text(scene, items, k - 1) + item_text(scene, items[k - 1])
    }
}

/// The HTML of an item: the markup of a running element as it is, counters as they are
/// written, and any other text escaped.
pub open spec fn item_html(scene: Scene, stage: Stage, item: ContentModel) -> Seq<char> {
    match item {
        ContentModel::Element { name, policy } => text_or_empty(
            element_for(stage.store, stage.states, stage.page_idx as int, name, policy),
        ),
        ContentModel::Counter { .. } => item_text(scene, item),
        ContentModel::Counters { .. } => item_text(scene, item),
        _ => escaped_text(item_text(scene, item)),
    }
}

/// The HTML of the first `k` items, joined.
pub open spec fn items_html(scene: Scene, stage: Stage, items: Seq<ContentModel>, k: int) -> Seq<char>
    decreases k,
{
    if k <= 0 {
        Seq::empty()
    } else {
        items_html(scene, stage, items, k - 1) + item_html(scene, stage, items[k - 1])
    }
}

/// A text repeated.
pub open spec fn repeated(s: Seq<char>, n: nat) -> Seq<char>
    decreases n,
{
    if n == 0 {
        Seq::empty()
    } else {
        repeated(s, (n - 1) as nat) + s
    }
}

/// How often the text of a leader is repeated: to about the fill length, and at least
/// once.
pub open spec fn leader_count(len: nat) -> nat {
    let unit = if len > 1 {
        len
    } else {
        1
    };
    let n = LEADER_FILL_REPEAT as nat / unit;
    if n > 1 {
        n
    } else {
        1
    }
}

/// The start of the span that holds a line with a leader.
pub open spec fn flex_start() -> Seq<char> {
    "<span style=\"display:flex;width:100%;align-items:baseline\">"@
}

/// The start of the span of a leader, which takes up the rest of the line.
pub open spec fn leader_start() -> Seq<char> {
    "<span style=\"flex:1;overflow:hidden;white-space:nowrap;min-width:0;padding:0 0.15em\">"@
}

/// The HTML of an item in a line with a leader: a span of its own, unless it is empty.
pub open spec fn item_part(scene: Scene, stage: Stage, item: ContentModel) -> Seq<char> {
    match item {
        ContentModel::Leader { style } => {
            let s = leader_text(style);
            leader_start() + escaped_text(repeated(s, leader_count(s.len()))) + "</span>"@
        },
        _ => {
            let inner = item_html(scene, stage, item);
            if inner.len() > 0 {
                "<span>"@ + inner + "</span>"@
            } else {
                Seq::empty()
            }
        },
    }
}

/// The HTML of the first `k` items of a line with a leader.
pub open spec fn items_parts(scene: Scene, stage: Stage, items: Seq<ContentModel>, k: int) -> Seq<
    char,
>
    decreases k,
{
    if k <= 0 {
        Seq::empty()
    } else {
        items_parts(scene, stage, items, k - 1) + item_part(scene, stage, items[k - 1])
    }
}

/// Whether a list has a leader.
pub open spec fn has_leader(items: Seq<ContentModel>) -> bool {
    exists|i: int| 0 <= i < items.len() && (#[trigger] items[i]) is Leader
}

/// The HTML of a list of items: joined, or in a flex container where a leader has to
/// take up the rest of the line.
pub open spec fn content_html(scene: Scene, stage: Stage, items: Seq<ContentModel>) -> Seq<char> {
    if has_leader(items) {
        flex_start() + items_parts(scene, stage, items, items.len() as int) + "</span>"@
    } else {
        items_html(scene, stage, items, items.len() as int)
    }
}

/// The scene that the arguments of the resolving functions make up.
pub open spec fn scene_of(
    strings: &NameMap<StringSetPageState>,
    page: usize,
    total_pages: usize,
    counters: &NameMap<i32>,
    anchor_map: Option<&AnchorMap>,
    implicit_href: Option<&str>,
) -> Scene {
    Scene {
        strings: strings@,
        page,
        total_pages,
        counters: counters@,
        anchors: match anchor_map {
            Some(m) => Some(m@),
            None => None,
        },
        href: match implicit_href {
            Some(s) => Some(s@),
            None => None,
        },
    }
}

/// The text of an optional string.
fn str_or_empty<'a>(o: &'a Option<String>) -> (s: &'a str)
    ensures
        s@ == text_or_empty(opt_view(*o)),
{
    proof {
        reveal_strlit("");
        assert(""@ =~= Seq::<char>::empty());
    }
    match o {
        Some(s) => s.as_str(),
        None => "",
    }
}

/// The value of a named string that a policy picks on a page.
pub fn resolve_string_policy(state: &StringSetPageState, policy: StringPolicy) -> (s: &str)
    ensures
        s@ == string_for(state@, policy),
{
    proof {
        reveal_strlit("");
        assert(""@ =~= Seq::<char>::empty());
    }
    match policy {
        StringPolicy::Start => str_or_empty(&state.start),
        StringPolicy::First => if state.first.is_some() {
            str_or_empty(&state.first)
        } else {
            str_or_empty(&state.start)
        },
        StringPolicy::Last => if state.last.is_some() {
            str_or_empty(&state.last)
        } else if state.first.is_some() {
            str_or_empty(&state.first)
        } else {
            str_or_empty(&state.start)
        },
        StringPolicy::FirstExcept => if state.first.is_some() {
            ""
        } else {
            str_or_empty(&state.start)
        },
    }
}

/// The instances of an element on a page.
fn page_instances<'a>(states: &'a [NameMap<PageRunningState>], page: usize, name: &str) -> (r: Option<
    &'a Vec<usize>,
>)
    ensures
        match r {
            Some(ids) => instances_on(states@, page as int, name@) == Some(ids@),
            None => instances_on(states@, page as int, name@) is None,
        },
{
    if page < states.len() {
        match states[page].get(name) {
            Some(s) => Some(&s.instance_ids),
            None => None,
        }
    } else {
        None
    }
}

/// The markup of the instance of a running element that a policy picks on a page.
pub fn resolve_element_policy<'a>(
    name: &str,
    policy: ElementPolicy,
    page_idx: usize,
    page_states: &[NameMap<PageRunningState>],
    store: &'a RunningElementStore,
) -> (r: Option<&'a str>)
    ensures
        match r {
            Some(s) => element_for(store@, page_states@, page_idx as int, name@, policy) == Some(s@),
            None => element_for(store@, page_states@, page_idx as int, name@, policy) is None,
        },
{
    let here = page_instances(page_states, page_idx, name);
    match here {
        Some(ids) => {
            let n = ids.len();
            match policy {
                ElementPolicy::First => {
                    if n > 0 {
                        return store.get_html(ids[0]);
                    }
                },
                ElementPolicy::Last => {
                    if n > 0 {
                        return store.get_html(ids[n - 1]);
                    }
                },
                ElementPolicy::FirstExcept => {
                    return None;
                },
                ElementPolicy::Start => {},
            }
        },
        None => {},
    }
    let ghost wanted = last_before(page_states@, page_idx as int, name@);
    let mut page: usize = page_idx;
    while page > 0
        invariant
            page <= page_idx,
            last_before(page_states@, page as int, name@) == wanted,
            wanted == instance_for(page_states@, page_idx as int, name@, policy),
        decreases page,
    {
        page -= 1;
        match page_instances(page_states, page, name) {
            Some(ids) => {
                let n = ids.len();
                if n > 0 {
                    return store.get_html(ids[n - 1]);
                }
            },
            None => {},
        }
    }
    None
}

/// The link of a `target-*` function.
fn resolve_link<'a>(url: &'a TargetUrl, implicit_href: Option<&'a str>) -> (r: Option<&'a str>)
    ensures
        forall|scene: Scene|
            #![trigger link_of(scene, url@)]
            scene.href == (match implicit_href {
                Some(s) => Some(s@),
                None => None,
            }) ==> link_of(scene, url@) == (match r {
                Some(s) => Some(s@),
                None => None,
            }),
{
    proof {
        reveal_strlit("");
        assert(""@ =~= Seq::<char>::empty());
    }
    match url {
        TargetUrl::Literal(s) => Some(s.as_str()),
        TargetUrl::Attr(a) => if *a.as_str() == *"href" {
            match implicit_href {
                Some(s) => Some(s),
                None => Some(""),
            }
        } else {
            None
        },
    }
}

/// A counter in a margin box, where only the innermost value of each counter is known:
/// `counters()` shows what `counter()` does.
fn resolve_counters_margin_box(
    name: &str,
    style: CounterStyle,
    page: usize,
    total_pages: usize,
    counters: &NameMap<i32>,
) -> (r: String)
    ensures
        forall|scene: Scene|
            #![trigger shown_value(scene, name@)]
            scene.page == page && scene.total_pages == total_pages && scene.counters == counters@
                ==> r@ == formatted(shown_value(scene, name@), style),
{
    if *name == *"page" {
        format_counter(page as i32, style)
    } else if *name == *"pages" {
        format_counter(total_pages as i32, style)
    } else {
        match counters.get(name) {
            Some(v) => format_counter(*v, style),
            None => format_counter(0, style),
        }
    }
}

/// The text of an item, not escaped.
fn resolve_item_text(
    item: &ContentItem,
    string_set_states: &NameMap<StringSetPageState>,
    page: usize,
    total_pages: usize,
    custom_counters: &NameMap<i32>,
    anchor_map: Option<&AnchorMap>,
    implicit_href: Option<&str>,
) -> (r: String)
    ensures
        r@ == item_text(
            scene_of(
                string_set_states,
                page,
                total_pages,
                custom_counters,
                anchor_map,
                implicit_href,
            ),
            item@,
        ),
{
    let ghost scene = scene_of(
        string_set_states,
        page,
        total_pages,
        custom_counters,
        anchor_map,
        implicit_href,
    );
    match item {
        ContentItem::String(s) => s.clone(),
        ContentItem::Counter { name, style } => {
            resolve_counters_margin_box(
                name.as_str(),
                *style,
                page,
                total_pages,
                custom_counters,
            )
        },
        ContentItem::Counters { name, separator: _, style } => {
            resolve_counters_margin_box(
                name.as_str(),
                *style,
                page,
                total_pages,
                custom_counters,
            )
        },
        ContentItem::StringRef { name, policy } => {
            match string_set_states.get(name.as_str()) {
                Some(state) => resolve_string_policy(state, *policy).to_owned(),
                None => String::new(),
            }
        },
        ContentItem::TargetCounter { url, counter_name, style } => {
            let link = resolve_link(url, implicit_href);
            match (link, anchor_map) {
                (Some(href), Some(map)) => resolve_target_counter(
                    href,
                    counter_name.as_str(),
                    *style,
                    map,
                ),
                _ => String::new(),
            }
        },
        ContentItem::TargetCounters { url, counter_name, separator, style } => {
            let link = resolve_link(url, implicit_href);
            match (link, anchor_map) {
                (Some(href), Some(map)) => resolve_target_counters(
                    href,
                    counter_name.as_str(),
                    separator.as_str(),
                    *style,
                    map,
                ),
                _ => String::new(),
            }
        },
        ContentItem::TargetText { url, kind } => {
            let link = resolve_link(url, implicit_href);
            match (link, anchor_map) {
                (Some(href), Some(map)) => resolve_target_text(href, *kind, map),
                _ => String::new(),
            }
        },
        _ => String::new(),
    }
}

/// The content of a margin box as plain text.
pub fn resolve_content_to_string(
    items: &[ContentItem],
    string_set_states: &NameMap<StringSetPageState>,
    page: usize,
    total_pages: usize,
    custom_counters: &NameMap<i32>,
) -> (r: String)
    ensures
        r@ == items_text(
            scene_of(string_set_states, page, total_pages, custom_counters, None, None),
            views(items@),
            items@.len() as int,
        ),
{
    resolve_content_to_string_with_anchor(
        items,
        string_set_states,
        page,
        total_pages,
        custom_counters,
        None,
        None,
    )
}

/// The content of a margin box as plain text, with references resolved against a map of
/// targets where there is one.
pub fn resolve_content_to_string_with_anchor(
    items: &[ContentItem],
    string_set_states: &NameMap<StringSetPageState>,
    page: usize,
    total_pages: usize,
    custom_counters: &NameMap<i32>,
    anchor_map: Option<&AnchorMap>,
    implicit_href: Option<&str>,
) -> (r: String)
    ensures
        r@ == items_text(
            scene_of(
                string_set_states,
                page,
                total_pages,
                custom_counters,
                anchor_map,
                implicit_href,
            ),
            views(items@),
            items@.len() as int,
        ),
{
    let ghost scene = scene_of(
        string_set_states,
        page,
        total_pages,
        custom_counters,
        anchor_map,
        implicit_href,
    );
    let ghost all = views(items@);
    let mut out = String::new();
    let mut k: usize = 0;
    while k < items.len()
        invariant
            k <= items.len(),
            all == views(items@),
            scene == scene_of(
                string_set_states,
                page,
                total_pages,
                custom_counters,
                anchor_map,
                implicit_href,
            ),
            out@ == items_text(scene, all, k as int),
        decreases items.len() - k,
    {
        assert(all[k as int] == items@[k as int]@);
        let text = resolve_item_text(
            &items[k],
            string_set_states,
            page,
            total_pages,
            custom_counters,
            anchor_map,
            implicit_href,
        );
        out.append(text.as_str());
        k += 1;
    }
    out
}

/// Appends the HTML of an item.
fn append_item_html(
    out: &mut String,
    item: &ContentItem,
    store: &RunningElementStore,
    running_states: &[NameMap<PageRunningState>],
    string_set_states: &NameMap<StringSetPageState>,
    page_num: usize,
    total_pages: usize,
    page_idx: usize,
    custom_counters: &NameMap<i32>,
    anchor_map: Option<&AnchorMap>,
    implicit_href: Option<&str>,
)
    ensures
        final(out)@ == old(out)@ + item_html(
            scene_of(
                string_set_states,
                page_num,
                total_pages,
                custom_counters,
                anchor_map,
                implicit_href,
            ),
            Stage { store: store@, states: running_states@, page_idx },
            item@,
        ),
{
    let ghost lead = out@;
    match item {
        ContentItem::Element { name, policy } => {
            match resolve_element_policy(name.as_str(), *policy, page_idx, running_states, store) {
                Some(html) => {
                    out.append(html);
                },
                None => {
                    assert(lead + Seq::<char>::empty() =~= lead);
                },
            }
        },
        _ => {
            let text = resolve_item_text(
                item,
                string_set_states,
                page_num,
                total_pages,
                custom_counters,
                anchor_map,
                implicit_href,
            );
            match item {
                ContentItem::Counter { .. } => {
                    out.append(text.as_str());
                },
                ContentItem::Counters { .. } => {
                    out.append(text.as_str());
                },
                _ => {
                    push_escaped_html_text(out, text.as_str());
                },
            }
        },
    }
}

/// The fill of a leader.
fn leader_fill(style: &LeaderStyle) -> (r: String)
    ensures
        r@ == repeated(leader_text(style@), leader_count(leader_text(style@).len())),
{
    let ch = style.leader_char();
    let len = ch.unicode_len();
    let unit: usize = if len > 1 {
        len
    } else {
        1
    };
    let n: usize = LEADER_FILL_REPEAT / unit;
    let count: usize = if n > 1 {
        n
    } else {
        1
    };
    let mut fill = String::new();
    let mut i: usize = 0;
    while i < count
        invariant
            i <= count,
            fill@ == repeated(ch@, i as nat),
        decreases count - i,
    {
        fill.append(ch);
        i += 1;
    }
    fill
}

/// Whether a list has a leader.
fn contains_leader(items: &[ContentItem]) -> (r: bool)
    ensures
        r == has_leader(views(items@)),
{
    let ghost all = views(items@);
    let mut i: usize = 0;
    while i < items.len()
        invariant
            i <= items.len(),
            all == views(items@),
            forall|k: int| 0 <= k < i ==> !((#[trigger] all[k]) is Leader),
        decreases items.len() - i,
    {
        assert(all[i as int] == items@[i as int]@);
        match &items[i] {
            ContentItem::Leader { .. } => {
                assert(all[i as int] is Leader);
                return true;
            },
            _ => {},
        }
        i += 1;
    }
    false
}

/// The content of a margin box as HTML.
pub fn resolve_content_to_html(
    items: &[ContentItem],
    store: &RunningElementStore,
    running_states: &[NameMap<PageRunningState>],
    string_set_states: &NameMap<StringSetPageState>,
    page_num: usize,
    total_pages: usize,
    page_idx: usize,
    custom_counters: &NameMap<i32>,
) -> (r: String)
    ensures
        r@ == content_html(
            scene_of(string_set_states, page_num, total_pages, custom_counters, None, None),
            Stage { store: store@, states: running_states@, page_idx },
            views(items@),
        ),
{
    resolve_content_to_html_with_anchor(
        items,
        store,
        running_states,
        string_set_states,
        page_num,
        total_pages,
        page_idx,
        custom_counters,
        None,
        None,
    )
}

/// The content of a margin box as HTML, with references resolved against a map of
/// targets where there is one.
pub fn resolve_content_to_html_with_anchor(
    items: &[ContentItem],
    store: &RunningElementStore,
    running_states: &[NameMap<PageRunningState>],
    string_set_states: &NameMap<StringSetPageState>,
    page_num: usize,
    total_pages: usize,
    page_idx: usize,
    custom_counters: &NameMap<i32>,
    anchor_map: Option<&AnchorMap>,
    implicit_href: Option<&str>,
) -> (r: String)
    ensures
        r@ == content_html(
            scene_of(
                string_set_states,
                page_num,
                total_pages,
                custom_counters,
                anchor_map,
                implicit_href,
            ),
            Stage { store: store@, states: running_states@, page_idx },
            views(items@),
        ),
{
    let ghost scene = scene_of(
        string_set_states,
        page_num,
        total_pages,
        custom_counters,
        anchor_map,
        implicit_href,
    );
    let ghost stage = Stage { store: store@, states: running_states@, page_idx };
    let ghost all = views(items@);
    let flex = contains_leader(items);
    let mut out = String::new();
    let ghost lead = if flex {
        flex_start()
    } else {
        Seq::empty()
    };
    if flex {
        out.append("<span style=\"display:flex;width:100%;align-items:baseline\">");
    }
    assert(out@ =~= lead);
    let mut k: usize = 0;
    assert(lead + items_parts(scene, stage, all, 0) =~= lead);
    assert(items_html(scene, stage, all, 0) =~= Seq::<char>::empty());
    while k < items.len()
        invariant
            k <= items.len(),
            all == views(items@),
            scene == scene_of(
                string_set_states,
                page_num,
                total_pages,
                custom_counters,
                anchor_map,
                implicit_href,
            ),
            stage == (Stage { store: store@, states: running_states@, page_idx }),
            lead == (if flex {
                flex_start()
            } else {
                Seq::empty()
            }),
            out@ == (if flex {
                lead + items_parts(scene, stage, all, k as int)
            } else {
                items_html(scene, stage, all, k as int)
            }),
            !flex ==> !has_leader(all),
        decreases items.len() - k,
    {
        assert(all[k as int] == items@[k as int]@);
        let ghost before = out@;
        if !flex {
            append_item_html(
                &mut out,
                &items[k],
                store,
                running_states,
                string_set_states,
                page_num,
                total_pages,
                page_idx,
                custom_counters,
                anchor_map,
                implicit_href,
            );
            assert(out@ =~= items_html(scene, stage, all, k + 1));
        } else {
            match &items[k] {
                ContentItem::Leader { style } => {
                    let fill = leader_fill(style);
                    out.append(
                        "<span style=\"flex:1;overflow:hidden;white-space:nowrap;min-width:0;padding:0 0.15em\">",
                    );
                    push_escaped_html_text(&mut out, fill.as_str());
                    out.append("</span>");
                    assert(out@ =~= before + item_part(scene, stage, all[k as int]));
                },
                _ => {
                    let mut inner = String::new();
                    append_item_html(
                        &mut inner,
                        &items[k],
                        store,
                        running_states,
                        string_set_states,
                        page_num,
                        total_pages,
                        page_idx,
                        custom_counters,
                        anchor_map,
                        implicit_href,
                    );
                    assert(inner@ =~= item_html(scene, stage, all[k as int]));
                    if !inner.as_str().is_empty() {
                        out.append("<span>");
                        out.append(inner.as_str());
                        out.append("</span>");
                    }
                    assert(out@ =~= before + item_part(scene, stage, all[k as int]));
                },
            }
            assert(out@ =~= lead + items_parts(scene, stage, all, k + 1));
        }
        k += 1;
    }
    if flex {
        out.append("</span>");
    }
    out
}

proof fn lemma_read_escaped(s: Seq<char>, t: Seq<char>)
    ensures
        read_html(escaped_text(s) + t) == s + read_html(t),
    decreases s.len(),
{
    if s.len() == 0 {
        assert(escaped_text(s) + t =~= t);
        assert(s + read_html(t) =~= read_html(t));
    } else {
        let c = s.last();
        let init = s.drop_last();
        assert(escaped_text(s) + t =~= escaped_text(init) + (text_char(c) + t));
        lemma_read_escaped(init, text_char(c) + t);
        lemma_read_char(c, t);
        assert(init + (seq![c] + read_html(t)) =~= s + read_html(t));
    }
}

proof fn lemma_plain_is_escaped(s: Seq<char>)
    requires
        forall|i: int| 0 <= i < s.len() ==> plain_char(#[trigger] s[i]),
    ensures
        escaped_text(s) == s,
    decreases s.len(),
{
    if s.len() > 0 {
        assert(plain_char(s[s.len() - 1]));
        lemma_plain_is_escaped(s.drop_last());
        assert(escaped_text(s) =~= s);
    }
}

proof fn lemma_item_html(scene: Scene, stage: Stage, item: ContentModel)
    requires
        !(item is Element),
    ensures
        item_html(scene, stage, item) == escaped_text(item_text(scene, item)),
{
    match item {
        ContentModel::Counter { name, style } => {
            let v = shown_value(scene, name);
            lemma_formatted_is_plain(v, style);
            lemma_plain_is_escaped(formatted(v, style));
        },
        ContentModel::Counters { name, style, .. } => {
            let v = shown_value(scene, name);
            lemma_formatted_is_plain(v, style);
            lemma_plain_is_escaped(formatted(v, style));
        },
        _ => {},
    }
}

proof fn lemma_items_html(scene: Scene, stage: Stage, items: Seq<ContentModel>, k: int)
    requires
        0 <= k <= items.len(),
        forall|i: int| 0 <= i < items.len() ==> !((#[trigger] items[i]) is Element),
    ensures
        items_html(scene, stage, items, k) == escaped_text(items_text(scene, items, k)),
    decreases k,
{
    if k > 0 {
        lemma_items_html(scene, stage, items, k - 1);
        assert(!(items[k - 1] is Element));
        lemma_item_html(scene, stage, items[k - 1]);
        law_escaping_is_piecewise(
            items_text(scene, items, k - 1),
            item_text(scene, items[k - 1]),
        );
    }
}

/// Without running elements and leaders, the HTML of a margin box is its plain text,
/// escaped; read as HTML it is the plain text.
pub proof fn law_html_is_escaped_text(scene: Scene, stage: Stage, items: Seq<ContentModel>)
    requires
        forall|i: int|
            0 <= i < items.len() ==> !((#[trigger] items[i]) is Element) && !(items[i] is Leader),
    ensures
        content_html(scene, stage, items) == escaped_text(
            items_text(scene, items, items.len() as int),
        ),
        read_html(content_html(scene, stage, items)) == items_text(
            scene,
            items,
            items.len() as int,
        ),
{
    let text = items_text(scene, items, items.len() as int);
    lemma_items_html(scene, stage, items, items.len() as int);
    lemma_read_escaped(text, Seq::empty());
    assert(escaped_text(text) + Seq::<char>::empty() =~= escaped_text(text));
    assert(text + read_html(Seq::<char>::empty()) =~= text);
}

/// The text of a list is that of its parts, one after the other.
pub proof fn law_text_is_piecewise(scene: Scene, a: Seq<ContentModel>, b: Seq<ContentModel>)
    ensures
        items_text(scene, a + b, (a + b).len() as int) == items_text(scene, a, a.len() as int)
            + items_text(scene, b, b.len() as int),
{
    lemma_items_text_prefix(scene, a, b, a.len() as int);
    lemma_items_text_suffix(scene, a, b, b.len() as int);
}

proof fn lemma_items_text_prefix(scene: Scene, a: Seq<ContentModel>, b: Seq<ContentModel>, k: int)
    requires
        0 <= k <= a.len(),
    ensures
        items_text(scene, a + b, k) == items_text(scene, a, k),
    decreases k,
{
    if k > 0 {
        lemma_items_text_prefix(scene, a, b, k - 1);
    }
}

proof fn lemma_items_text_suffix(scene: Scene, a: Seq<ContentModel>, b: Seq<ContentModel>, k: int)
    requires
        0 <= k <= b.len(),
    ensures
        items_text(scene, a + b, a.len() + k) == items_text(scene, a, a.len() as int) + items_text(
            scene,
            b,
            k,
        ),
    decreases k,
{
    if k == 0 {
        lemma_items_text_prefix(scene, a, b, a.len() as int);
        assert(items_text(scene, a, a.len() as int) + Seq::<char>::empty() =~= items_text(
            scene,
            a,
            a.len() as int,
        ));
    } else {
        lemma_items_text_suffix(scene, a, b, k - 1);
        assert((a + b)[a.len() + k - 1] == b[k - 1]);
        assert(items_text(scene, a + b, a.len() + k) =~= items_text(scene, a, a.len() as int)
            + items_text(scene, b, k));
    }
}

/// In a margin box `counters()` shows what `counter()` shows, whatever the separator,
/// as text and as HTML.
pub proof fn law_counters_show_the_innermost_value(
    scene: Scene,
    stage: Stage,
    name: Seq<char>,
    separator: Seq<char>,
    style: CounterStyle,
)
    ensures
        item_text(scene, ContentModel::Counters { name, separator, style }) == item_text(
            scene,
            ContentModel::Counter { name, style },
        ),
        item_html(scene, stage, ContentModel::Counters { name, separator, style }) == item_html(
            scene,
            stage,
            ContentModel::Counter { name, style },
        ),
{
}

/// Before targets are known, a reference has no text.
pub proof fn law_references_wait_for_targets(scene: Scene, item: ContentModel)
    requires
        scene.anchors is None,
        item is TargetCounter || item is TargetCounters || item is TargetText,
    ensures
        item_text(scene, item).len() == 0,
{
}

/// What `start` picks on a page depends on the pages before it alone.
pub proof fn law_start_ignores_its_page(
    a: RunningStates,
    b: RunningStates,
    page: int,
    name: Seq<char>,
)
    requires
        0 <= page <= a.len(),
        page <= b.len(),
        forall|i: int| 0 <= i < page ==> #[trigger] a[i] == b[i],
    ensures
        instance_for(a, page, name, ElementPolicy::Start) == instance_for(
            b,
            page,
            name,
            ElementPolicy::Start,
        ),
{
    lemma_last_before(a, b, page, name);
}

proof fn lemma_last_before(a: RunningStates, b: RunningStates, page: int, name: Seq<char>)
    requires
        0 <= page <= a.len(),
        page <= b.len(),
        forall|i: int| 0 <= i < page ==> #[trigger] a[i] == b[i],
    ensures
        last_before(a, page, name) == last_before(b, page, name),
    decreases page,
{
    if page > 0 {
        assert(a[page - 1] == b[page - 1]);
        lemma_last_before(a, b, page - 1, name);
    }
}

/// On a page without the element, every policy picks the instance in effect at the
/// start of the page.
pub proof fn law_policies_agree_without_instances(
    states: RunningStates,
    page: int,
    name: Seq<char>,
    policy: ElementPolicy,
)
    requires
        instances_on(states, page, name) is None,
    ensures
        instance_for(states, page, name, policy) == instance_for(
            states,
            page,
            name,
            ElementPolicy::Start,
        ),
{
}

/// On a page that sets a named string nowhere, every policy shows the value in effect
/// at the start of the page.
pub proof fn law_string_policies_agree_when_unset(state: StringStateModel, policy: StringPolicy)
    requires
        state.first is None,
        state.last is None,
    ensures
        string_for(state, policy) == text_or_empty(state.start),
{
}

} // verus!
