//! What a margin box shows.
//!
//! The laws here tell what is shown from what happened in the document: the values
//! that a named string was given, the instances of a running element, the counters at
//! a target.

use crate::gcpm::content::{
    content_html, element_for, flex_start, instance_for, item_html, item_part, item_text, items_html,
    items_parts, items_text, last_before, leader_count, leader_start, repeated, scene_of, string_for,
    RunningStates, Scene, Stage,
};
use crate::gcpm::escape::escaped_text;
use crate::gcpm::first_letter::{clusters_of, first_letter};
use crate::gcpm::numeral::{formatted, formatted_chain};
use crate::gcpm::running::StoreModel;
use crate::gcpm::target_ref::{target_counter, target_counters, target_text, AnchorEntry, AnchorMap};
use crate::gcpm::{
    leader_text, ContentModel, CounterStyle, ElementPolicy, LeaderModel, StringPolicy, TargetTextKind, TargetUrlModel,
};
use crate::name_map::NameMap;
use crate::pagination::{StringSetPageState, StringStateModel};
use crate::text::trimmed_start;
use vstd::prelude::*;

verus! {

/// The state of a named string on a page that starts with a value and sets the string to
/// some values, in order.
pub open spec fn after_setting(start: Option<Seq<char>>, values: Seq<Seq<char>>) -> StringStateModel {
    StringStateModel {
        start,
        first: if values.len() > 0 { Some(values[0]) } else { None },
        last: if values.len() > 0 { Some(values[values.len() - 1]) } else { None },
    }
}

/// On a page that sets a named string, `first` shows the first value, `last` the last,
/// `start` the value before the page, and `first-except` nothing. On any other page all
/// show the value before the page, and nothing where there is none.
pub proof fn law_named_strings_follow_the_page(start: Option<Seq<char>>, values: Seq<Seq<char>>)
    ensures
        ({
            let state = after_setting(start, values);
            let before = if start is Some { start->0 } else { Seq::empty() };
            &&& string_for(state, StringPolicy::Start) == before
            &&& string_for(state, StringPolicy::First) == if values.len() > 0 { values.first() } else { before }
            &&& string_for(state, StringPolicy::Last) == if values.len() > 0 { values.last() } else { before }
            &&& string_for(state, StringPolicy::FirstExcept) == if values.len() > 0 { Seq::empty() } else { before }
        }),
{
}

/// The instances of an element on a page.
pub open spec fn ids_on(states: RunningStates, page: int, name: Seq<char>) -> Seq<usize> {
    if 0 <= page < states.len() && states[page]@.dom().contains(name) {
        states[page]@[name].instance_ids@
    } else {
        Seq::empty()
    }
}

/// The instances of an element on the pages before a given one, in order.
pub open spec fn ids_before(states: RunningStates, page: int, name: Seq<char>) -> Seq<usize>
    decreases page,
{
    if page <= 0 {
        Seq::empty()
    } else {
        ids_before(states, page - 1, name) + ids_on(states, page - 1, name)
    }
}

/// The last of some instances.
pub open spec fn last_id(ids: Seq<usize>) -> Option<usize> {
    if ids.len() > 0 { Some(ids.last()) } else { None }
}

proof fn lemma_last_before(states: RunningStates, page: int, name: Seq<char>)
    ensures
        last_before(states, page, name) == last_id(ids_before(states, page, name)),
    decreases page,
{
    if page > 0 {
        lemma_last_before(states, page - 1, name);
    }
}

/// `start` picks the last instance before the page, `first` the first on the page, and
/// `last` the last up to the end of the page; where the page has none, `first` picks what
/// `start` does. `first-except` picks nothing on a page with the element.
pub proof fn law_running_elements_follow_the_page(states: RunningStates, page: int, name: Seq<char>)
    requires
        0 <= page,
    ensures
        instance_for(states, page, name, ElementPolicy::Start) == last_id(ids_before(states, page, name)),
        instance_for(states, page, name, ElementPolicy::First) == if ids_on(states, page, name).len() > 0 {
            Some(ids_on(states, page, name)[0])
        } else {
            last_id(ids_before(states, page, name))
        },
        instance_for(states, page, name, ElementPolicy::Last) == last_id(ids_before(states, page + 1, name)),
        instance_for(states, page, name, ElementPolicy::FirstExcept) == if page < states.len()
            && states[page]@.dom().contains(name) {
            None
        } else {
            last_id(ids_before(states, page, name))
        },
{
    lemma_last_before(states, page, name);
}

/// What is shown of a running element is the markup of the instance that is picked.
pub proof fn law_running_elements_show_their_markup(
    store: StoreModel,
    states: RunningStates,
    page: int,
    name: Seq<char>,
    policy: ElementPolicy,
    id: usize,
)
    requires
        instance_for(states, page, name, policy) == Some(id),
        id < store.instances.len(),
    ensures
        ({
            let (own_name, markup) = store.instances[id as int];
            element_for(store, states, page, name, policy) == Some(markup)
        }),
{
}

/// A counter shows its value in its style: `page` the number of the page, `pages` how
/// many there are, any other what the document gave it, and 0 where it gave nothing.
pub proof fn law_counters_show_their_values(scene: Scene, name: Seq<char>, style: CounterStyle)
    ensures
        item_text(scene, ContentModel::Counter { name: "page"@, style }) == formatted(scene.page as i32, style),
        item_text(scene, ContentModel::Counter { name: "pages"@, style }) == formatted(scene.total_pages as i32, style),
        name != "page"@ && name != "pages"@ ==> item_text(scene, ContentModel::Counter { name, style }) == formatted(
            if scene.counters.dom().contains(name) {
                scene.counters[name]
            } else {
                0
            },
            style,
        ),
{
    reveal_strlit("page");
    reveal_strlit("pages");
    assert("page"@.len() != "pages"@.len());
}

/// Text is shown as it is, and a named string as its policy picks it.
pub proof fn law_texts_are_shown(scene: Scene, s: Seq<char>, name: Seq<char>, policy: StringPolicy)
    ensures
        item_text(scene, ContentModel::String(s)) == s,
        scene.strings.dom().contains(name) ==> item_text(scene, ContentModel::StringRef { name, policy }) == string_for(
            scene.strings[name]@,
            policy,
        ),
        !scene.strings.dom().contains(name) ==> item_text(scene, ContentModel::StringRef { name, policy }).len() == 0,
{
}

/// A link to a place in the document.
pub open spec fn link_to(fragment: Seq<char>) -> Seq<char> {
    seq!['#'] + fragment
}

/// A reference shows what is known of its target: the innermost value of a counter, all
/// of its values, and the text asked for.
pub proof fn law_references_show_their_target(
    fragment: Seq<char>,
    name: Seq<char>,
    separator: Seq<char>,
    style: CounterStyle,
    map: Map<Seq<char>, AnchorEntry>,
)
    requires
        fragment.len() > 0,
        map.dom().contains(fragment),
    ensures
        ({
            let target = map[fragment];
            let href = link_to(fragment);
            let values = if target.counters@.dom().contains(name) {
                target.counters@[name]@
            } else {
                Seq::empty()
            };
            &&& target_counter(href, "page"@, style, map) == formatted(target.page_num as i32, style)
            &&& name != "page"@ && values.len() > 0 ==> target_counter(href, name, style, map) == formatted(
                values[values.len() - 1],
                style,
            )
            &&& name != "page"@ && values.len() == 0 ==> target_counter(href, name, style, map).len() == 0
            &&& target_counters(href, name, separator, style, map) == formatted_chain(values, separator, style)
            &&& target_text(href, TargetTextKind::Content, map) == target.text@
            &&& target_text(href, TargetTextKind::Before, map) == target.before_text@
            &&& target_text(href, TargetTextKind::After, map) == target.after_text@
        }),
{
    assert(link_to(fragment).drop_first() =~= fragment);
}

/// The first letter of a target is that of its text.
pub proof fn law_references_show_the_first_letter(fragment: Seq<char>, map: Map<Seq<char>, AnchorEntry>)
    requires
        fragment.len() > 0,
        map.dom().contains(fragment),
    ensures
        target_text(link_to(fragment), TargetTextKind::FirstLetter, map) == first_letter(
            clusters_of(trimmed_start(map[fragment].text@)),
            0,
            Seq::empty(),
            false,
        ),
{
    assert(link_to(fragment).drop_first() =~= fragment);
}

/// A reference takes its link from the style sheet or from the `href` of its element, and
/// shows nothing for any other attribute.
pub proof fn law_references_follow_their_link(
    scene: Scene,
    href: Seq<char>,
    attribute: Seq<char>,
    counter_name: Seq<char>,
    separator: Seq<char>,
    style: CounterStyle,
    kind: TargetTextKind,
)
    requires
        scene.anchors is Some,
    ensures
        ({
            let map = scene.anchors->0;
            let own = if scene.href is Some { scene.href->0 } else { Seq::empty() };
            let written = TargetUrlModel::Literal(href);
            let of_element = TargetUrlModel::Attr("href"@);
            let other = TargetUrlModel::Attr(attribute);
            &&& item_text(scene, ContentModel::TargetCounter { url: written, counter_name, style }) == target_counter(
                href,
                counter_name,
                style,
                map,
            )
            &&& item_text(scene, ContentModel::TargetCounter { url: of_element, counter_name, style })
                == target_counter(own, counter_name, style, map)
            &&& item_text(scene, ContentModel::TargetCounters { url: written, counter_name, separator, style })
                == target_counters(href, counter_name, separator, style, map)
            &&& item_text(scene, ContentModel::TargetCounters { url: of_element, counter_name, separator, style })
                == target_counters(own, counter_name, separator, style, map)
            &&& item_text(scene, ContentModel::TargetText { url: written, kind }) == target_text(href, kind, map)
            &&& item_text(scene, ContentModel::TargetText { url: of_element, kind }) == target_text(own, kind, map)
            &&& attribute != "href"@ ==> {
                &&& item_text(scene, ContentModel::TargetCounter { url: other, counter_name, style }).len() == 0
                &&& item_text(
                    scene,
                    ContentModel::TargetCounters { url: other, counter_name, separator, style },
                ).len() == 0
                &&& item_text(scene, ContentModel::TargetText { url: other, kind }).len() == 0
            }
        }),
{
}

proof fn lemma_repeated(s: Seq<char>, n: nat)
    requires
        s.len() > 0,
    ensures
        repeated(s, n).len() == n * s.len(),
        forall|i: int| 0 <= i < n * s.len() ==> repeated(s, n)[i] == s[#[trigger] (i % (s.len() as int))],
    decreases n,
{
    let len = s.len() as int;
    if n > 0 {
        let m = (n - 1) as nat;
        lemma_repeated(s, m);
        assert(n * len == m * len + len) by (nonlinear_arith)
            requires
                n == m + 1,
        ;
        assert forall|i: int| 0 <= i < n * s.len() implies repeated(s, n)[i] == s[#[trigger] (i % len)] by {
            if i >= m * len {
                vstd::arithmetic::div_mod::lemma_mod_multiples_vanish(m as int, i - m * len, len);
                assert(len * m == m * len) by (nonlinear_arith);
                vstd::arithmetic::div_mod::lemma_small_mod((i - m * len) as nat, len as nat);
            }
        }
    } else {
        assert(0 * len == 0);
    }
}

/// A leader is its text over and over, whole, as often as goes into the fill length, and
/// at least once.
pub proof fn law_leaders_repeat_their_text(s: Seq<char>)
    requires
        s.len() > 0,
    ensures
        ({
            let r = repeated(s, leader_count(s.len()));
            &&& forall|i: int| 0 <= i < r.len() ==> r[i] == s[#[trigger] (i % (s.len() as int))]
            &&& r.len() % s.len() == 0
            &&& s.len() <= 400 ==> 400 - s.len() < r.len() <= 400
            &&& s.len() > 400 ==> r.len() == s.len()
        }),
{
    let n = leader_count(s.len());
    let len = s.len() as int;
    lemma_repeated(s, n);
    assert((n * s.len()) % s.len() == 0) by {
        vstd::arithmetic::div_mod::lemma_mod_multiples_basic(n as int, len);
    }
    if len <= 400 {
        vstd::arithmetic::div_mod::lemma_fundamental_div_mod(400, len);
        vstd::arithmetic::div_mod::lemma_mod_bound(400, len);
        assert(400int / len >= 1) by (nonlinear_arith)
            requires
                0 < len <= 400,
        ;
        assert(n == 400int / len);
        assert(len * (400int / len) == n * len) by (nonlinear_arith)
            requires
                n == 400int / len,
        ;
    } else {
        assert(400int / len == 0) by (nonlinear_arith)
            requires
                len > 400,
        ;
        assert(n == 1);
    }
}

/// Dots, low lines, no-break spaces, or the author's own text fill a leader.
pub proof fn law_leaders_have_their_text(s: Seq<char>)
    ensures
        leader_text(LeaderModel::Dotted) == "."@,
        leader_text(LeaderModel::Solid) == "_"@,
        leader_text(LeaderModel::Space) == "\u{a0}"@,
        leader_text(LeaderModel::Custom(s)) == s,
{
    reveal_strlit(".");
    reveal_strlit("_");
    reveal_strlit("\u{a0}");
    assert(leader_text(LeaderModel::Dotted) =~= "."@);
    assert(leader_text(LeaderModel::Solid) =~= "_"@);
    assert(leader_text(LeaderModel::Space) =~= "\u{a0}"@);
}

/// What one item adds to the markup of a box: a running element its own markup, and any
/// other item its text, escaped where it could hold markup.
pub open spec fn own_markup(scene: Scene, stage: Stage, item: ContentModel) -> Seq<char> {
    match item {
        ContentModel::Element { name, policy } => {
            match instance_for(stage.states, stage.page_idx as int, name, policy) {
                Some(id) => if id < stage.store.instances.len() {
                    stage.store.instances[id as int].1
                } else {
                    Seq::empty()
                },
                None => Seq::empty(),
            }
        },
        ContentModel::Counter { name, style } => item_text(scene, item),
        ContentModel::Counters { name, separator, style } => item_text(scene, item),
        _ => escaped_text(item_text(scene, item)),
    }
}

/// The items of a box, one after the other.
pub open spec fn row(scene: Scene, stage: Stage, items: Seq<ContentModel>) -> Seq<char>
    decreases items.len(),
{
    if items.len() == 0 {
        Seq::empty()
    } else {
        own_markup(scene, stage, items[0]) + row(scene, stage, items.drop_first())
    }
}

/// The items of a line with a leader, each that shows something in a span of its own.
pub open spec fn spans(scene: Scene, stage: Stage, items: Seq<ContentModel>) -> Seq<char>
    decreases items.len(),
{
    if items.len() == 0 {
        Seq::empty()
    } else {
        let more = spans(scene, stage, items.drop_first());
        match items[0] {
            ContentModel::Leader { style } => {
                let s = leader_text(style);
                leader_start() + escaped_text(repeated(s, leader_count(s.len()))) + "</span>"@ + more
            },
            item => if own_markup(scene, stage, item).len() > 0 {
                "<span>"@ + own_markup(scene, stage, item) + "</span>"@ + more
            } else {
                more
            },
        }
    }
}

proof fn lemma_row(scene: Scene, stage: Stage, items: Seq<ContentModel>, k: int)
    requires
        0 <= k <= items.len(),
    ensures
        items_html(scene, stage, items, k) + row(scene, stage, items.skip(k)) == items_html(
            scene,
            stage,
            items,
            items.len() as int,
        ),
    decreases items.len() - k,
{
    if k < items.len() {
        lemma_row(scene, stage, items, k + 1);
        assert(items.skip(k).drop_first() =~= items.skip(k + 1));
        let done = items_html(scene, stage, items, k);
        let one = item_html(scene, stage, items[k]);
        let rest = row(scene, stage, items.skip(k + 1));
        assert(own_markup(scene, stage, items[k]) == one);
        assert(done + (one + rest) =~= (done + one) + rest);
    } else {
        let done = items_html(scene, stage, items, k);
        assert(done + Seq::<char>::empty() =~= done);
    }
}

proof fn lemma_spans(scene: Scene, stage: Stage, items: Seq<ContentModel>, k: int)
    requires
        0 <= k <= items.len(),
    ensures
        items_parts(scene, stage, items, k) + spans(scene, stage, items.skip(k)) == items_parts(
            scene,
            stage,
            items,
            items.len() as int,
        ),
    decreases items.len() - k,
{
    if k < items.len() {
        lemma_spans(scene, stage, items, k + 1);
        assert(items.skip(k).drop_first() =~= items.skip(k + 1));
        let done = items_parts(scene, stage, items, k);
        let one = item_part(scene, stage, items[k]);
        let rest = spans(scene, stage, items.skip(k + 1));
        assert(own_markup(scene, stage, items[k]) == item_html(scene, stage, items[k]));
        assert(spans(scene, stage, items.skip(k)) =~= one + rest);
        assert(done + (one + rest) =~= (done + one) + rest);
    } else {
        let done = items_parts(scene, stage, items, k);
        assert(done + Seq::<char>::empty() =~= done);
    }
}

/// A box shows all of its items in order. With a leader among them they stand in a line
/// of spans, of which that of the leader takes up the rest.
pub proof fn law_boxes_show_all_items(scene: Scene, stage: Stage, items: Seq<ContentModel>)
    ensures
        (exists|i: int| 0 <= i < items.len() && (#[trigger] items[i]) is Leader) ==> content_html(scene, stage, items)
            == flex_start() + spans(scene, stage, items) + "</span>"@,
        (forall|i: int| 0 <= i < items.len() ==> !((#[trigger] items[i]) is Leader)) ==> content_html(
            scene,
            stage,
            items,
        ) == row(scene, stage, items),
{
    lemma_row(scene, stage, items, 0);
    lemma_spans(scene, stage, items, 0);
    assert(items.skip(0) =~= items);
    let none = Seq::<char>::empty();
    assert(none + row(scene, stage, items) =~= row(scene, stage, items));
    assert(none + spans(scene, stage, items) =~= spans(scene, stage, items));
}

/// The texts of items, one after the other.
pub open spec fn told(scene: Scene, items: Seq<ContentModel>) -> Seq<char>
    decreases items.len(),
{
    if items.len() == 0 {
        Seq::empty()
    } else {
        item_text(scene, items[0]) + told(scene, items.drop_first())
    }
}

/// The text of a list is that of all its items in order.
pub proof fn law_texts_tell_all_items(scene: Scene, items: Seq<ContentModel>)
    ensures
        items_text(scene, items, items.len() as int) == told(scene, items),
{
    lemma_told(scene, items, 0);
    assert(items.skip(0) =~= items);
    assert(Seq::<char>::empty() + told(scene, items) =~= told(scene, items));
}

proof fn lemma_told(scene: Scene, items: Seq<ContentModel>, k: int)
    requires
        0 <= k <= items.len(),
    ensures
        items_text(scene, items, k) + told(scene, items.skip(k)) == items_text(scene, items, items.len() as int),
    decreases items.len() - k,
{
    let done = items_text(scene, items, k);
    if k < items.len() {
        lemma_told(scene, items, k + 1);
        assert(items.skip(k).drop_first() =~= items.skip(k + 1));
        let one = item_text(scene, items[k]);
        let rest = told(scene, items.skip(k + 1));
        assert(done + (one + rest) =~= (done + one) + rest);
    } else {
        assert(done + Seq::<char>::empty() =~= done);
    }
}

/// Running elements, leaders and what takes an element to refer to have no text.
pub proof fn law_the_rest_has_no_text(scene: Scene, item: ContentModel)
    requires
        item is Element || item is ContentText || item is ContentBefore || item is ContentAfter || item is Attr || item is Leader,
    ensures
        item_text(scene, item).len() == 0,
{
}

/// A link that does not start with `#`, or has nothing behind it, leads nowhere.
pub proof fn law_only_fragments_are_followed(
    href: Seq<char>,
    name: Seq<char>,
    separator: Seq<char>,
    style: CounterStyle,
    kind: TargetTextKind,
    map: Map<Seq<char>, AnchorEntry>,
)
    requires
        href.len() <= 1 || href[0] != '#',
    ensures
        target_counter(href, name, style, map).len() == 0,
        target_counters(href, name, separator, style, map).len() == 0,
        target_text(href, kind, map).len() == 0,
{
}

/// A link to a place that the document does not have leads nowhere.
pub proof fn law_missing_places_show_nothing(
    fragment: Seq<char>,
    name: Seq<char>,
    separator: Seq<char>,
    style: CounterStyle,
    kind: TargetTextKind,
    map: Map<Seq<char>, AnchorEntry>,
)
    requires
        !map.dom().contains(fragment),
    ensures
        target_counter(link_to(fragment), name, style, map).len() == 0,
        target_counters(link_to(fragment), name, separator, style, map).len() == 0,
        target_text(link_to(fragment), kind, map).len() == 0,
{
    assert(link_to(fragment).drop_first() =~= fragment);
}

/// What is shown depends on what is given: the named strings, the page and the number of
/// pages, the counters, the places in the document, and the link of the element.
pub proof fn law_scenes_hold_what_is_given(
    strings: &NameMap<StringSetPageState>,
    page: usize,
    total_pages: usize,
    counters: &NameMap<i32>,
    places: &AnchorMap,
    href: &str,
)
    ensures
        ({
            let bare = scene_of(strings, page, total_pages, counters, None, None);
            let full = scene_of(strings, page, total_pages, counters, Some(places), Some(href));
            &&& bare.strings == strings@ && full.strings == strings@
            &&& bare.page == page && full.page == page
            &&& bare.total_pages == total_pages && full.total_pages == total_pages
            &&& bare.counters == counters@ && full.counters == counters@
            &&& bare.anchors is None && full.anchors == Some(places@)
            &&& bare.href is None && full.href == Some(href@)
            &&& scene_of(strings, page, total_pages, counters, Some(places), None) == (Scene { href: None, ..full })
            &&& scene_of(strings, page, total_pages, counters, None, Some(href)) == (Scene { anchors: None, ..full })
        }),
{
}

} // verus!
