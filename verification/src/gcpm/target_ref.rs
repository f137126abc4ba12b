//! Cross references: `target-counter()`, `target-counters()` and `target-text()`.
//!
//! A first pass over the document fills an [`AnchorMap`]; the functions here look
//! targets up in it. A reference that leads nowhere is resolved to the empty string.

use crate::gcpm::first_letter::{clusters_of, compute_first_letter, first_letter};
use crate::gcpm::numeral::{format_counter, format_counter_chain, formatted, formatted_chain};
use crate::gcpm::{CounterStyle, TargetTextKind};
use crate::name_map::NameMap;
use crate::pagination::PaginationGeometryTable;
use crate::text::trimmed_start;
use vstd::prelude::*;

verus! {

broadcast use {vstd::std_specs::btree::group_btree_axioms, vstd::laws_cmp::group_laws_cmp};

/// What is known of the target of a reference.
#[derive(Debug, Clone)]
pub struct AnchorEntry {
    /// The page that the target is on, from 1.
    pub page_num: u32,
    /// The values of each counter at the target, from the outermost to the innermost.
    pub counters: NameMap<Vec<i32>>,
    pub text: String,
    pub before_text: String,
    pub after_text: String,
}

impl Default for AnchorEntry {
    fn default() -> (e: Self)
        ensures
            e.page_num == 0,
            e.counters@ == Map::<Seq<char>, Vec<i32>>::empty(),
            e.text@.len() == 0,
            e.before_text@.len() == 0,
            e.after_text@.len() == 0,
    {
        AnchorEntry {
            page_num: 0,
            counters: NameMap::new(),
            text: String::new(),
            before_text: String::new(),
            after_text: String::new(),
        }
    }
}

/// The targets of a document by fragment identifier.
#[derive(Debug, Clone)]
pub struct AnchorMap {
    entries: NameMap<AnchorEntry>,
}

impl View for AnchorMap {
    type V = Map<Seq<char>, AnchorEntry>;

    closed spec fn view(&self) -> Map<Seq<char>, AnchorEntry> {
        self.entries@
    }
}

impl AnchorMap {
    /// No targets.
    pub fn new() -> (m: Self)
        ensures
            m@ == Map::<Seq<char>, AnchorEntry>::empty(),
    {
        AnchorMap { entries: NameMap::new() }
    }

    /// Sets the target of a fragment identifier.
    pub fn insert(&mut self, fragment_id: &str, entry: AnchorEntry)
        ensures
            final(self)@ == old(self)@.insert(fragment_id@, entry),
    {
        let _ = self.entries.insert(fragment_id.to_owned(), entry);
    }

    /// The target of a fragment identifier.
    pub fn get(&self, fragment_id: &str) -> (e: Option<&AnchorEntry>)
        ensures
            match e {
                Some(entry) => self@.dom().contains(fragment_id@) && *entry == self@[fragment_id@],
                None => !self@.dom().contains(fragment_id@),
            },
    {
        self.entries.get(fragment_id)
    }

    /// Whether there are no targets.
    pub fn is_empty(&self) -> (b: bool)
        ensures
            b == (self@ == Map::<Seq<char>, AnchorEntry>::empty()),
    {
        self.entries.is_empty()
    }
}

impl Default for AnchorMap {
    fn default() -> (m: Self)
        ensures
            m@ == Map::<Seq<char>, AnchorEntry>::empty(),
    {
        Self::new()
    }
}

/// The fragment identifier of a link within the document: what follows a leading `#`,
/// where there is something. It is taken as it is, without decoding.
pub open spec fn fragment_of(href: Seq<char>) -> Option<Seq<char>> {
    if href.len() >= 2 && href[0] == '#' {
        Some(href.drop_first())
    } else {
        None
    }
}

/// The fragment identifier of a link within the document.
pub fn fragment_id_from_href(href: &str) -> (f: Option<&str>)
    ensures
        match f {
            Some(s) => fragment_of(href@) == Some(s@),
            None => fragment_of(href@) is None,
        },
{
    let n = href.unicode_len();
    if n >= 2 && href.get_char(0) == '#' {
        let f = href.substring_char(1, n);
        assert(f@ =~= href@.drop_first());
        Some(f)
    } else {
        None
    }
}

/// The target of a link.
pub open spec fn target_of(href: Seq<char>, map: Map<Seq<char>, AnchorEntry>) -> Option<
    AnchorEntry,
> {
    match fragment_of(href) {
        Some(f) => if map.dom().contains(f) {
            Some(map[f])
        } else {
            None
        },
        None => None,
    }
}

/// The target of a link.
fn find_target<'a>(href: &str, map: &'a AnchorMap) -> (e: Option<&'a AnchorEntry>)
    ensures
        match e {
            Some(entry) => target_of(href@, map@) == Some(*entry),
            None => target_of(href@, map@) is None,
        },
{
    match fragment_id_from_href(href) {
        Some(f) => map.get(f),
        None => None,
    }
}

/// The chain of a counter at a target, empty where there is none.
pub open spec fn chain_at(entry: AnchorEntry, name: Seq<char>) -> Seq<i32> {
    if entry.counters@.dom().contains(name) {
        entry.counters@[name]@
    } else {
        Seq::empty()
    }
}

/// The innermost value of a counter at the target of a link. `page` is always the page
/// of the target, whatever a style sheet does with a counter of that name.
pub open spec fn target_counter(
    href: Seq<char>,
    name: Seq<char>,
    style: CounterStyle,
    map: Map<Seq<char>, AnchorEntry>,
) -> Seq<char> {
    match target_of(href, map) {
        None => Seq::empty(),
        Some(entry) => if name == "page"@ {
            formatted(entry.page_num as i32, style)
        } else if chain_at(entry, name).len() > 0 {
            formatted(chain_at(entry, name).last(), style)
        } else {
            Seq::empty()
        },
    }
}

/// All values of a counter at the target of a link.
pub open spec fn target_counters(
    href: Seq<char>,
    name: Seq<char>,
    separator: Seq<char>,
    style: CounterStyle,
    map: Map<Seq<char>, AnchorEntry>,
) -> Seq<char> {
    match target_of(href, map) {
        None => Seq::empty(),
        Some(entry) => formatted_chain(chain_at(entry, name), separator, style),
    }
}

/// A text of the target of a link.
pub open spec fn target_text(
    href: Seq<char>,
    kind: TargetTextKind,
    map: Map<Seq<char>, AnchorEntry>,
) -> Seq<char> {
    match target_of(href, map) {
        None => Seq::empty(),
        Some(entry) => match kind {
            TargetTextKind::Content => entry.text@,
            TargetTextKind::Before => entry.before_text@,
            TargetTextKind::After => entry.after_text@,
            TargetTextKind::FirstLetter => first_letter(
                clusters_of(trimmed_start(entry.text@)),
                0,
                Seq::empty(),
                false,
            ),
        },
    }
}

/// Resolves `target-counter()`.
pub fn resolve_target_counter(
    href: &str,
    counter_name: &str,
    style: CounterStyle,
    map: &AnchorMap,
) -> (r: String)
    ensures
        r@ == target_counter(href@, counter_name@, style, map@),
{
    let entry = match find_target(href, map) {
        Some(entry) => entry,
        None => return String::new(),
    };
    if *counter_name == *"page" {
        return format_counter(entry.page_num as i32, style);
    }
    match entry.counters.get(counter_name) {
        Some(chain) => if chain.len() > 0 {
            format_counter(chain[chain.len() - 1], style)
        } else {
            String::new()
        },
        None => String::new(),
    }
}

/// Resolves `target-counters()`.
pub fn resolve_target_counters(
    href: &str,
    counter_name: &str,
    separator: &str,
    style: CounterStyle,
    map: &AnchorMap,
) -> (r: String)
    ensures
        r@ == target_counters(href@, counter_name@, separator@, style, map@),
{
    let entry = match find_target(href, map) {
        Some(entry) => entry,
        None => return String::new(),
    };
    match entry.counters.get(counter_name) {
        Some(chain) => format_counter_chain(chain.as_slice(), separator, style),
        None => String::new(),
    }
}

/// Resolves `target-text()`.
pub fn resolve_target_text(href: &str, kind: TargetTextKind, map: &AnchorMap) -> (r: String)
    ensures
        r@ == target_text(href@, kind, map@),
{
    let entry = match find_target(href, map) {
        Some(entry) => entry,
        None => return String::new(),
    };
    match kind {
        TargetTextKind::Content => entry.text.clone(),
        TargetTextKind::Before => entry.before_text.clone(),
        TargetTextKind::After => entry.after_text.clone(),
        TargetTextKind::FirstLetter => compute_first_letter(entry.text.as_str()),
    }
}

/// The page that a node starts on, from 1, where it is on any.
pub fn page_for_node<L>(geometry: &PaginationGeometryTable<L>, node_id: usize) -> (p: Option<u32>)
    requires
        geometry@.dom().contains(node_id) && geometry@[node_id].fragments@.len() > 0
            ==> geometry@[node_id].fragments@[0].page_index < u32::MAX,
    ensures
        p == (if geometry@.dom().contains(node_id) && geometry@[node_id].fragments@.len() > 0 {
            Some((geometry@[node_id].fragments@[0].page_index + 1) as u32)
        } else {
            None
        }),
{
    match geometry.get(&node_id) {
        Some(g) => if g.fragments.len() > 0 {
            Some(g.fragments[0].page_index + 1)
        } else {
            None
        },
        None => None,
    }
}

/// A link that is no fragment, or whose fragment is not in the document, resolves to
/// nothing in every form.
pub proof fn law_external_links_resolve_to_nothing(
    href: Seq<char>,
    name: Seq<char>,
    separator: Seq<char>,
    style: CounterStyle,
    kind: TargetTextKind,
    map: Map<Seq<char>, AnchorEntry>,
)
    requires
        fragment_of(href) is None || !map.dom().contains(fragment_of(href)->0),
    ensures
        target_counter(href, name, style, map).len() == 0,
        target_counters(href, name, separator, style, map).len() == 0,
        target_text(href, kind, map).len() == 0,
{
}

/// `target-counter()` of `page` is the page of the target, whatever its counters.
pub proof fn law_target_page_ignores_counters(
    fragment: Seq<char>,
    style: CounterStyle,
    map: Map<Seq<char>, AnchorEntry>,
)
    requires
        fragment.len() > 0,
        map.dom().contains(fragment),
    ensures
        target_counter(seq!['#'] + fragment, "page"@, style, map) == formatted(
            map[fragment].page_num as i32,
            style,
        ),
{
    assert((seq!['#'] + fragment).drop_first() =~= fragment);
}

} // verus!
